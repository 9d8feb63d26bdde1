//! The aggregate contract and its companions: events, commands, domain
//! errors, and post-commit listeners.
//!
//! The version discipline: an init event carries version 0 and
//! constructs an aggregate at version 0; a regular event carries version
//! `v >= 1`, applies only to an aggregate at version `v - 1`, and
//! advances it to `v`. An aggregate's version therefore always equals
//! the number of regular events applied since init.

use vstd::prelude::*;
use crate::error::AggregateStoreError;
use crate::handle::Handle;

verus! {

/// A fact recording a state transition of one aggregate at a specific
/// version. Immutable once created.
pub trait Event: Sized {
    /// The handle of the aggregate this event belongs to.
    spec fn spec_handle(&self) -> Seq<char>;

    /// The version this event carries: the aggregate version it
    /// produces (0 for an init event).
    spec fn spec_version(&self) -> u64;

    fn handle(&self) -> (h: &Handle)
        ensures
            h@ == self.spec_handle(),
    ;

    fn version(&self) -> (v: u64)
        ensures
            v == self.spec_version(),
    ;

    fn clone_event(&self) -> (e: Self)
        ensures
            e == *self,
    ;
}

/// The storable form of a command's details, as recorded inside a
/// stored command envelope.
pub trait Storable: View + Sized {
    fn clone_storable(&self) -> (d: Self)
        ensures
            d@ == self@,
    ;
}

/// An intent to change one aggregate; may carry the aggregate version
/// it expects to operate on, enabling optimistic concurrency control.
pub trait Command: Sized {
    type StorableDetails: Storable;

    /// The handle of the aggregate this command addresses.
    spec fn spec_handle(&self) -> Seq<char>;

    /// The aggregate version this command expects, if any.
    spec fn spec_version(&self) -> Option<u64>;

    /// The storable details this command reduces to.
    spec fn spec_store(&self) -> <Self::StorableDetails as View>::V;

    fn handle(&self) -> (h: &Handle)
        ensures
            h@ == self.spec_handle(),
    ;

    fn version(&self) -> (v: Option<u64>)
        ensures
            v == self.spec_version(),
    ;

    fn store(&self) -> (d: Self::StorableDetails)
        ensures
            d@ == self.spec_store(),
    ;
}

/// A domain error type that can embed store-level errors and render
/// itself as text for the stored command envelope.
pub trait AggregateError: Sized {
    /// The embedding of a store-level error.
    spec fn spec_from_store(e: AggregateStoreError) -> Self;

    /// The text this error renders to.
    spec fn spec_text(&self) -> Seq<char>;

    fn from_store(e: AggregateStoreError) -> (r: Self)
        ensures
            r == Self::spec_from_store(e),
    ;

    fn error_text(&self) -> (s: String)
        ensures
            s@ == self.spec_text(),
    ;
}

/// A consistency-bounded entity whose state is the fold of its events.
///
/// The executable methods are pinned to the specification functions, so
/// the store's contracts determine every outcome from the abstract
/// state alone.
pub trait Aggregate: Sized {
    type Command: Command;

    type Event: Event;

    type InitEvent: Event;

    type Error: AggregateError;

    /// The handle of this aggregate instance. Immutable.
    spec fn spec_handle(&self) -> Seq<char>;

    /// The current version: the number of regular events applied since
    /// init.
    spec fn spec_version(&self) -> u64;

    /// The aggregate a well-formed init event constructs, if any.
    spec fn spec_init(event: Self::InitEvent) -> Option<Self>;

    /// The state reached by applying one event.
    spec fn spec_apply(self, event: Self::Event) -> Self;

    /// The pure decision a command reduces to: either the ordered
    /// events to commit, or a domain error.
    spec fn spec_process(&self, cmd: Self::Command) -> Result<Seq<Self::Event>, Self::Error>;

    fn init(event: Self::InitEvent) -> (r: Result<Self, Self::Error>)
        ensures
            (Self::spec_init(event) matches Some(a) ==> r == Ok::<Self, Self::Error>(a)),
            Self::spec_init(event) is None ==> r is Err,
    ;

    fn version(&self) -> (v: u64)
        ensures
            v == self.spec_version(),
    ;

    fn handle(&self) -> (h: &Handle)
        ensures
            h@ == self.spec_handle(),
    ;

    /// Processes a command against the current state. Pure: mutates
    /// nothing, performs no I/O.
    fn process_command(&self, cmd: Self::Command) -> (r: Result<Vec<Self::Event>, Self::Error>)
        ensures
            (self.spec_process(cmd) matches Ok(events) ==> (r matches Ok(v) && v@ == events)),
            (self.spec_process(cmd) matches Err(e) ==> r == Err::<Vec<Self::Event>, Self::Error>(e)),
    ;

    /// Applies one event, advancing the state by exactly one version.
    fn apply(&mut self, event: Self::Event)
        requires
            event.spec_version() == old(self).spec_version() + 1,
            event.spec_handle() == old(self).spec_handle(),
        ensures
            *final(self) == old(self).spec_apply(event),
    ;

    fn clone_agg(&self) -> (a: Self)
        ensures
            a == *self,
    ;

    /// A well-formed init event constructs an aggregate at version 0
    /// under its own handle.
    proof fn lemma_init_properties(event: Self::InitEvent)
        requires
            Self::spec_init(event) is Some,
        ensures
            Self::spec_init(event).unwrap().spec_version() == 0,
            Self::spec_init(event).unwrap().spec_handle() == event.spec_handle(),
    ;

    /// Applying an event advances the version to the event's own and
    /// keeps the handle.
    proof fn lemma_apply_properties(self, event: Self::Event)
        requires
            event.spec_version() == self.spec_version() + 1,
            event.spec_handle() == self.spec_handle(),
        ensures
            self.spec_apply(event).spec_version() == event.spec_version(),
            self.spec_apply(event).spec_handle() == self.spec_handle(),
    ;
}

/// A synchronous post-commit observer: receives each event of one
/// aggregate exactly once, after the event is durably stored.
pub trait EventListener<A: Aggregate>: Sized {
    /// The events this listener has observed, in delivery order.
    spec fn seen(&self) -> Seq<A::Event>;

    fn listen(&mut self, agg: &A, event: &A::Event)
        ensures
            final(self).seen() == old(self).seen().push(*event),
    ;
}

} // verus!
