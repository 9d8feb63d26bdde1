//! Durable, hierarchical key/value persistence for aggregates: per
//! aggregate the init event, the regular events, the latest snapshot,
//! the stored commands and the metadata record, plus a store-format
//! marker at the root.
//!
//! The store is the in-memory image of the on-disk layout: one record
//! per aggregate, events contiguous from version 1 (the init event is
//! version 0), commands contiguous from sequence 1. Rehydration folds
//! the snapshot with every later event.

use vstd::prelude::*;
use crate::handle::Handle;
use crate::records::{AggregateInfo, Key, KeyStoreVersion, StoredCommand, StoredCommandView};
use crate::traits::{Aggregate, Command, Event, Storable};

verus! {

/// How often snapshots are persisted: after every event whose
/// resulting aggregate version is a multiple of this.
pub const SNAPSHOT_FREQ: u64 = 5;

/// The storable details type of the commands of aggregate `A`.
pub type CmdDetails<A> = <<A as Aggregate>::Command as Command>::StorableDetails;

/// The view of those details.
pub type CmdDetailsView<A> = <<<A as Aggregate>::Command as Command>::StorableDetails as View>::V;

/// Everything the store holds for one aggregate: the on-disk directory
/// of that aggregate, typed.
pub struct StoredAggregate<A: Aggregate> {
    pub handle: Handle,
    /// The init event, stored at version 0.
    pub init: A::InitEvent,
    /// The regular events; the element at index `i` carries version `i + 1`.
    pub events: Vec<A::Event>,
    /// The most recent full snapshot, overwritten in place.
    pub snapshot: A,
    /// The stored commands; the element at index `i` carries sequence `i + 1`.
    pub commands: Vec<StoredCommand<CmdDetails<A>>>,
    /// The metadata record.
    pub info: AggregateInfo,
}

/// Mathematical image of a [`StoredAggregate`].
#[verifier::ext_equal]
pub struct StoredAggregateView<A: Aggregate> {
    pub handle: Seq<char>,
    pub init: A::InitEvent,
    pub events: Seq<A::Event>,
    pub snapshot: A,
    pub commands: Seq<StoredCommandView<CmdDetailsView<A>>>,
    pub info: AggregateInfo,
}

impl<A: Aggregate> View for StoredAggregate<A> {
    type V = StoredAggregateView<A>;

    open spec fn view(&self) -> StoredAggregateView<A> {
        StoredAggregateView {
            handle: self.handle@,
            init: self.init,
            events: self.events@,
            snapshot: self.snapshot,
            commands: self.commands@.map_values(|c: StoredCommand<CmdDetails<A>>| c@),
            info: self.info,
        }
    }
}

/// The aggregate a well-formed init event constructs.
pub open spec fn base_of<A: Aggregate>(r: StoredAggregateView<A>) -> A {
    A::spec_init(r.init).unwrap()
}

/// The state reached from `a` by applying `events` in order.
pub open spec fn fold_events<A: Aggregate>(a: A, events: Seq<A::Event>) -> A
    decreases events.len(),
{
    if events.len() == 0 {
        a
    } else {
        fold_events(a, events.drop_last()).spec_apply(events.last())
    }
}

/// The aggregate this record rehydrates to: the init fold of every
/// stored event.
pub open spec fn aggregate_of<A: Aggregate>(r: StoredAggregateView<A>) -> A {
    fold_events(base_of(r), r.events)
}

/// Structural well-formedness of one record: a valid init event at
/// version 0, events contiguous from version 1 under the record's
/// handle, commands contiguous from sequence 1, and a snapshot that is
/// the fold of the event prefix up to its own version.
pub open spec fn rec_struct_wf<A: Aggregate>(r: StoredAggregateView<A>) -> bool {
    &&& A::spec_init(r.init) is Some
    &&& r.init.spec_handle() == r.handle
    &&& r.init.spec_version() == 0
    &&& forall|i: int| 0 <= i < r.events.len() ==> (#[trigger] r.events[i]).spec_version() == i + 1
    &&& forall|i: int| 0 <= i < r.events.len() ==> (#[trigger] r.events[i]).spec_handle() == r.handle
    &&& forall|i: int| 0 <= i < r.commands.len() ==> (#[trigger] r.commands[i]).sequence == i + 1
    &&& r.snapshot.spec_handle() == r.handle
    &&& r.snapshot.spec_version() <= r.events.len()
    &&& r.snapshot == fold_events(base_of(r), r.events.take(r.snapshot.spec_version() as int))
}

/// Metadata coupling the aggregate store maintains on top of the
/// structural invariant: the counters in the metadata record match the
/// stored records, and the snapshot stands at the highest multiple of
/// the snapshot frequency reached so far.
pub open spec fn rec_policy_wf<A: Aggregate>(r: StoredAggregateView<A>) -> bool {
    &&& r.info.last_command == r.commands.len()
    &&& r.info.last_event == r.events.len()
    &&& r.info.snapshot_version == r.snapshot.spec_version()
    &&& r.info.snapshot_version as int == SNAPSHOT_FREQ as int * (r.events.len() as int / SNAPSHOT_FREQ as int)
}

/// Folding one more event is applying it to the fold so far.
pub proof fn lemma_fold_push<A: Aggregate>(a: A, events: Seq<A::Event>, e: A::Event)
    ensures
        fold_events(a, events.push(e)) == fold_events(a, events).spec_apply(e),
{
    assert(events.push(e).drop_last() =~= events);
    assert(events.push(e).last() == e);
}

/// Folding a longer prefix is applying the next event to the shorter
/// prefix's fold.
pub proof fn lemma_fold_take_succ<A: Aggregate>(a: A, events: Seq<A::Event>, k: int)
    requires
        0 <= k < events.len(),
    ensures
        fold_events(a, events.take(k + 1)) == fold_events(a, events.take(k)).spec_apply(events[k]),
{
    assert(events.take(k + 1).drop_last() =~= events.take(k));
    assert(events.take(k + 1).last() == events[k]);
}

/// Folding a concatenation is folding the parts in turn.
pub proof fn lemma_fold_concat<A: Aggregate>(a: A, s1: Seq<A::Event>, s2: Seq<A::Event>)
    ensures
        fold_events(a, s1 + s2) == fold_events(fold_events(a, s1), s2),
    decreases s2.len(),
{
    if s2.len() == 0 {
        assert(s1 + s2 =~= s1);
    } else {
        lemma_fold_concat(a, s1, s2.drop_last());
        assert((s1 + s2).drop_last() =~= s1 + s2.drop_last());
        assert((s1 + s2).last() == s2.last());
    }
}

/// The fold of contiguous events advances the version by their number
/// and keeps the handle.
pub proof fn lemma_fold_version<A: Aggregate>(a: A, events: Seq<A::Event>)
    requires
        forall|i: int| 0 <= i < events.len() ==> (#[trigger] events[i]).spec_version() == a.spec_version() + 1 + i,
        forall|i: int| 0 <= i < events.len() ==> (#[trigger] events[i]).spec_handle() == a.spec_handle(),
    ensures
        fold_events(a, events).spec_version() == a.spec_version() + events.len(),
        fold_events(a, events).spec_handle() == a.spec_handle(),
    decreases events.len(),
{
    if events.len() > 0 {
        lemma_fold_version(a, events.drop_last());
        fold_events(a, events.drop_last()).lemma_apply_properties(events.last());
    }
}

/// One value read back through the flat key scheme.
pub enum StoredValue<A: Aggregate> {
    Info(AggregateInfo),
    Snapshot(A),
    Event(A::Event),
    Command(StoredCommand<CmdDetails<A>>),
}

/// Between `s1` and `s2` nothing changed but possibly the record of
/// the aggregate whose handle reads `h`.
pub open spec fn store_unchanged_except<A: Aggregate>(s1: KeyStore<A>, s2: KeyStore<A>, h: Seq<char>) -> bool {
    &&& s2.marker == s1.marker
    &&& forall|h2: Seq<char>| h2 != h ==> s2.contains(h2) == s1.contains(h2)
    &&& forall|h2: Seq<char>| h2 != h && s1.contains(h2) ==> s2.rec_at(h2) == s1.rec_at(h2)
}

/// The key/value store, keyed by `(aggregate handle, key)`, with a
/// store-format marker at the root.
pub struct KeyStore<A: Aggregate> {
    pub entries: Vec<StoredAggregate<A>>,
    pub marker: Option<KeyStoreVersion>,
}

impl<A: Aggregate> KeyStore<A> {
    /// Whether the store holds an aggregate whose handle reads `h`.
    pub open spec fn contains(&self, h: Seq<char>) -> bool {
        exists|i: int| 0 <= i < self.entries@.len() && (#[trigger] self.entries@[i])@.handle == h
    }

    /// The index of that aggregate's record.
    pub open spec fn idx_of(&self, h: Seq<char>) -> int {
        choose|i: int| 0 <= i < self.entries@.len() && (#[trigger] self.entries@[i])@.handle == h
    }

    /// The record of the aggregate whose handle reads `h`.
    pub open spec fn rec_at(&self, h: Seq<char>) -> StoredAggregateView<A> {
        self.entries@[self.idx_of(h)]@
    }

    /// Handles are pairwise distinct, every record is structurally
    /// well-formed, and the store-format marker is set.
    pub open spec fn wf(&self) -> bool {
        &&& forall|i: int, j: int|
            0 <= i < j < self.entries@.len() ==> (#[trigger] self.entries@[i])@.handle != (
            #[trigger] self.entries@[j])@.handle
        &&& forall|i: int| 0 <= i < self.entries@.len() ==> rec_struct_wf((#[trigger] self.entries@[i])@)
        &&& self.marker == Some(KeyStoreVersion::V0_6)
    }

    /// Under distinct handles the index of a handle is the only index
    /// that carries it.
    proof fn lemma_idx_of(&self, i: int)
        requires
            forall|i1: int, j1: int|
                0 <= i1 < j1 < self.entries@.len() ==> (#[trigger] self.entries@[i1])@.handle != (
                #[trigger] self.entries@[j1])@.handle,
            0 <= i < self.entries@.len(),
        ensures
            self.contains(self.entries@[i]@.handle),
            self.idx_of(self.entries@[i]@.handle) == i,
    {
        let h = self.entries@[i]@.handle;
        assert(self.contains(h));
        let j = self.idx_of(h);
        if i < j {
            assert(self.entries@[i]@.handle != self.entries@[j]@.handle);
        } else if j < i {
            assert(self.entries@[j]@.handle != self.entries@[i]@.handle);
        }
    }

    /// An empty store without a marker; the marker is written on first
    /// initialization.
    pub fn new() -> (s: KeyStore<A>)
        ensures
            s.entries@.len() == 0,
            forall|h: Seq<char>| !s.contains(h),
            s.marker is None,
    {
        KeyStore { entries: Vec::new(), marker: None }
    }

    /// Writes the store-format marker.
    pub fn set_version(&mut self, version: KeyStoreVersion)
        ensures
            final(self).marker == Some(version),
            final(self).entries == old(self).entries,
    {
        self.marker = Some(version);
    }

    /// Reads the store-format marker.
    pub fn get_version(&self) -> (v: Option<KeyStoreVersion>)
        ensures
            v == self.marker,
    {
        self.marker
    }

    /// The index of the record of `id`, if the store holds one.
    fn find(&self, id: &Handle) -> (r: Option<usize>)
        requires
            self.wf(),
        ensures
            match r {
                Some(i) => i < self.entries@.len() && self.entries@[i as int]@.handle == id@
                    && self.contains(id@) && self.idx_of(id@) == i,
                None => !self.contains(id@),
            },
    {
        let n = self.entries.len();
        let mut i: usize = 0;
        while i < n
            invariant
                self.wf(),
                i <= n,
                n == self.entries@.len(),
                forall|j: int| 0 <= j < i ==> (#[trigger] self.entries@[j])@.handle != id@,
            decreases n - i,
        {
            if self.entries[i].handle.eq(id) {
                proof {
                    self.lemma_idx_of(i as int);
                }
                return Some(i);
            }
            i = i + 1;
        }
        None
    }

    /// Whether an aggregate exists for `id`.
    pub fn has_aggregate(&self, id: &Handle) -> (r: bool)
        requires
            self.wf(),
        ensures
            r == self.contains(id@),
    {
        self.find(id).is_some()
    }

    /// The handles of all aggregates the store holds.
    pub fn aggregates(&self) -> (r: Vec<Handle>)
        requires
            self.wf(),
        ensures
            r@.len() == self.entries@.len(),
            forall|i: int| 0 <= i < r@.len() ==> (#[trigger] r@[i])@ == self.entries@[i]@.handle,
            forall|i: int| 0 <= i < r@.len() ==> self.contains((#[trigger] r@[i])@),
    {
        let n = self.entries.len();
        let mut r: Vec<Handle> = Vec::new();
        let mut i: usize = 0;
        while i < n
            invariant
                self.wf(),
                i <= n,
                n == self.entries@.len(),
                r@.len() == i,
                forall|j: int| 0 <= j < i ==> (#[trigger] r@[j])@ == self.entries@[j]@.handle,
            decreases n - i,
        {
            r.push(self.entries[i].handle.clone());
            i = i + 1;
        }
        proof {
            assert forall|i2: int| 0 <= i2 < r@.len() implies self.contains((#[trigger] r@[i2])@) by {
                self.lemma_idx_of(i2);
            }
        }
        r
    }

    /// The number of regular events stored for `id` (0 when the store
    /// has no record of `id`).
    pub fn events_len(&self, id: &Handle) -> (n: usize)
        requires
            self.wf(),
        ensures
            self.contains(id@) ==> n == self.rec_at(id@).events.len(),
            !self.contains(id@) ==> n == 0,
    {
        match self.find(id) {
            None => 0,
            Some(i) => self.entries[i].events.len(),
        }
    }

    /// The number of commands stored for `id` (0 when the store has no
    /// record of `id`).
    pub fn commands_len(&self, id: &Handle) -> (n: usize)
        requires
            self.wf(),
        ensures
            self.contains(id@) ==> n == self.rec_at(id@).commands.len(),
            !self.contains(id@) ==> n == 0,
    {
        match self.find(id) {
            None => 0,
            Some(i) => self.entries[i].commands.len(),
        }
    }

    /// The key under which the event with this version is stored.
    pub fn key_for_event(version: u64) -> (k: Key)
        ensures
            k == Key::Event(version),
    {
        Key::Event(version)
    }

    /// The key under which the command with this sequence is stored.
    pub fn key_for_command(sequence: u64) -> (k: Key)
        ensures
            k == Key::Command(sequence),
    {
        Key::Command(sequence)
    }

    /// Replacing the record at index `i` without renaming it leaves
    /// every other record, and the handle layout, unchanged.
    proof fn lemma_update_frame(pre: Self, post: Self, i: int)
        requires
            pre.wf(),
            0 <= i < pre.entries@.len(),
            post.entries@.len() == pre.entries@.len(),
            post.entries@[i]@.handle == pre.entries@[i]@.handle,
            forall|j: int| 0 <= j < pre.entries@.len() && j != i ==> post.entries@[j] == pre.entries@[j],
            post.marker == pre.marker,
        ensures
            store_unchanged_except(pre, post, pre.entries@[i]@.handle),
            post.contains(pre.entries@[i]@.handle),
            post.idx_of(pre.entries@[i]@.handle) == i,
            post.rec_at(pre.entries@[i]@.handle) == post.entries@[i]@,
            forall|i1: int, j1: int|
                0 <= i1 < j1 < post.entries@.len() ==> (#[trigger] post.entries@[i1])@.handle != (
                #[trigger] post.entries@[j1])@.handle,
    {
        let h = pre.entries@[i]@.handle;
        assert(forall|j: int|
            0 <= j < post.entries@.len() ==> (#[trigger] post.entries@[j])@.handle == pre.entries@[j]@.handle);
        post.lemma_idx_of(i);
        assert forall|h2: Seq<char>| h2 != h implies post.contains(h2) == pre.contains(h2) by {
            if pre.contains(h2) {
                let j = pre.idx_of(h2);
                assert(post.entries@[j]@.handle == h2);
            }
            if post.contains(h2) {
                let j = post.idx_of(h2);
                assert(pre.entries@[j]@.handle == h2);
            }
        }
        assert forall|h2: Seq<char>| h2 != h && pre.contains(h2) implies post.rec_at(h2) == pre.rec_at(h2) by {
            let j = pre.idx_of(h2);
            assert(pre.entries@[j]@.handle == h2);
            assert(j != i);
            post.lemma_idx_of(j);
            pre.lemma_idx_of(j);
        }
    }

    /// Appending a record under a fresh handle leaves every existing
    /// record unchanged.
    proof fn lemma_push_frame(pre: Self, post: Self)
        requires
            pre.wf(),
            post.entries@.len() == pre.entries@.len() + 1,
            forall|j: int| 0 <= j < pre.entries@.len() ==> post.entries@[j] == pre.entries@[j],
            !pre.contains(post.entries@[pre.entries@.len() as int]@.handle),
            post.marker == pre.marker,
        ensures
            store_unchanged_except(pre, post, post.entries@[pre.entries@.len() as int]@.handle),
            post.contains(post.entries@[pre.entries@.len() as int]@.handle),
            post.idx_of(post.entries@[pre.entries@.len() as int]@.handle) == pre.entries@.len(),
            post.rec_at(post.entries@[pre.entries@.len() as int]@.handle) == post.entries@[pre.entries@.len() as int]@,
            forall|i1: int, j1: int|
                0 <= i1 < j1 < post.entries@.len() ==> (#[trigger] post.entries@[i1])@.handle != (
                #[trigger] post.entries@[j1])@.handle,
    {
        let n = pre.entries@.len() as int;
        let h = post.entries@[n]@.handle;
        assert forall|i1: int, j1: int|
            0 <= i1 < j1 < post.entries@.len() implies (#[trigger] post.entries@[i1])@.handle != (
            #[trigger] post.entries@[j1])@.handle by {
            if j1 < n {
                assert(pre.entries@[i1]@.handle != pre.entries@[j1]@.handle);
            } else {
                assert(post.entries@[i1] == pre.entries@[i1]);
                if post.entries@[i1]@.handle == h {
                    assert(pre.contains(h));
                }
            }
        }
        post.lemma_idx_of(n);
        assert forall|h2: Seq<char>| h2 != h implies post.contains(h2) == pre.contains(h2) by {
            if pre.contains(h2) {
                let j = pre.idx_of(h2);
                assert(post.entries@[j]@.handle == h2);
            }
            if post.contains(h2) {
                let j = post.idx_of(h2);
                assert(j < n);
                assert(pre.entries@[j]@.handle == h2);
            }
        }
        assert forall|h2: Seq<char>| h2 != h && pre.contains(h2) implies post.rec_at(h2) == pre.rec_at(h2) by {
            let j = pre.idx_of(h2);
            assert(pre.entries@[j]@.handle == h2);
            post.lemma_idx_of(j);
            pre.lemma_idx_of(j);
        }
    }

    /// Creates the record of a new aggregate: its init event, the
    /// initial snapshot, no regular events, no commands, zeroed
    /// metadata.
    pub fn create_aggregate(&mut self, init: A::InitEvent, aggregate: A)
        requires
            old(self).wf(),
            !old(self).contains(init.spec_handle()),
            A::spec_init(init) == Some(aggregate),
            init.spec_version() == 0,
        ensures
            final(self).wf(),
            final(self).contains(init.spec_handle()),
            final(self).rec_at(init.spec_handle()) == (StoredAggregateView {
                handle: init.spec_handle(),
                init: init,
                events: Seq::<A::Event>::empty(),
                snapshot: aggregate,
                commands: Seq::<StoredCommandView<CmdDetailsView<A>>>::empty(),
                info: AggregateInfo { last_update: 0, last_command: 0, last_event: 0, snapshot_version: 0 },
            }),
            store_unchanged_except(*old(self), *final(self), init.spec_handle()),
    {
        let handle = init.handle().clone();
        proof {
            A::lemma_init_properties(init);
        }
        let rec = StoredAggregate {
            handle,
            init,
            events: Vec::new(),
            snapshot: aggregate,
            commands: Vec::new(),
            info: AggregateInfo::default(),
        };
        proof {
            assert(rec@.commands =~= Seq::<StoredCommandView<CmdDetailsView<A>>>::empty());
            assert(rec@.events.take(0) =~= Seq::<A::Event>::empty());
        }
        self.entries.push(rec);
        proof {
            Self::lemma_push_frame(*old(self), *self);
            assert(final(self).rec_at(init.spec_handle()) =~= (StoredAggregateView {
                handle: init.spec_handle(),
                init: init,
                events: Seq::<A::Event>::empty(),
                snapshot: aggregate,
                commands: Seq::<StoredCommandView<CmdDetailsView<A>>>::empty(),
                info: AggregateInfo { last_update: 0, last_command: 0, last_event: 0, snapshot_version: 0 },
            }));
        }
    }

    /// The init event of `id`, stored at version 0.
    pub fn get_init_event(&self, id: &Handle) -> (r: Option<A::InitEvent>)
        requires
            self.wf(),
        ensures
            match r {
                Some(e) => self.contains(id@) && e == self.rec_at(id@).init,
                None => !self.contains(id@),
            },
    {
        match self.find(id) {
            None => None,
            Some(i) => Some(self.entries[i].init.clone_event()),
        }
    }

    /// The event of `id` with this version, absent when no such event
    /// is stored (version 0 is the init event, not a regular event).
    pub fn get_event(&self, id: &Handle, version: u64) -> (r: Option<A::Event>)
        requires
            self.wf(),
        ensures
            match r {
                Some(e) => self.contains(id@) && 1 <= version <= self.rec_at(id@).events.len()
                    && e == self.rec_at(id@).events[version - 1],
                None => !self.contains(id@) || version == 0 || version > self.rec_at(id@).events.len(),
            },
    {
        match self.find(id) {
            None => None,
            Some(i) => {
                let n = self.entries[i].events.len();
                if 1 <= version && version <= n as u64 {
                    Some(self.entries[i].events[(version - 1) as usize].clone_event())
                } else {
                    None
                }
            },
        }
    }

    /// The stored command of `id` with this sequence number.
    pub fn get_command(&self, id: &Handle, sequence: u64) -> (r: Option<StoredCommand<CmdDetails<A>>>)
        requires
            self.wf(),
        ensures
            match r {
                Some(c) => self.contains(id@) && 1 <= sequence <= self.rec_at(id@).commands.len()
                    && c@ == self.rec_at(id@).commands[sequence - 1],
                None => !self.contains(id@) || sequence == 0 || sequence > self.rec_at(id@).commands.len(),
            },
    {
        match self.find(id) {
            None => None,
            Some(i) => {
                let n = self.entries[i].commands.len();
                if 1 <= sequence && sequence <= n as u64 {
                    Some(self.entries[i].commands[(sequence - 1) as usize].clone_stored())
                } else {
                    None
                }
            },
        }
    }

    /// Reads the value stored under `(id, key)`, absent when no such
    /// key exists under the aggregate's directory.
    pub fn get(&self, id: &Handle, key: &Key) -> (r: Option<StoredValue<A>>)
        requires
            self.wf(),
        ensures
            !self.contains(id@) ==> r is None,
            self.contains(id@) ==> (match *key {
                Key::Info => (r matches Some(v) && v matches StoredValue::Info(info)
                    && info == self.rec_at(id@).info),
                Key::Snapshot => (r matches Some(v) && v matches StoredValue::Snapshot(a)
                    && a == self.rec_at(id@).snapshot),
                Key::Event(version) => if 1 <= version <= self.rec_at(id@).events.len() {
                    r matches Some(v) && v matches StoredValue::Event(e) && e == self.rec_at(
                        id@,
                    ).events[version - 1]
                } else {
                    r is None
                },
                Key::Command(sequence) => if 1 <= sequence <= self.rec_at(id@).commands.len() {
                    r matches Some(v) && v matches StoredValue::Command(c) && c@ == self.rec_at(
                        id@,
                    ).commands[sequence - 1]
                } else {
                    r is None
                },
            }),
    {
        match self.find(id) {
            None => None,
            Some(i) => match key {
                Key::Info => Some(StoredValue::Info(self.entries[i].info)),
                Key::Snapshot => Some(StoredValue::Snapshot(self.entries[i].snapshot.clone_agg())),
                Key::Event(version) => match self.get_event(id, *version) {
                    Some(e) => Some(StoredValue::Event(e)),
                    None => None,
                },
                Key::Command(sequence) => match self.get_command(id, *sequence) {
                    Some(c) => Some(StoredValue::Command(c)),
                    None => None,
                },
            },
        }
    }

    /// The latest persisted snapshot of `id`.
    pub fn get_snapshot(&self, id: &Handle) -> (r: Option<A>)
        requires
            self.wf(),
        ensures
            match r {
                Some(a) => self.contains(id@) && a == self.rec_at(id@).snapshot,
                None => !self.contains(id@),
            },
    {
        match self.find(id) {
            None => None,
            Some(i) => Some(self.entries[i].snapshot.clone_agg()),
        }
    }

    /// The metadata record of `id`; zero-initialized when none exists
    /// yet.
    pub fn get_info(&self, id: &Handle) -> (info: AggregateInfo)
        requires
            self.wf(),
        ensures
            self.contains(id@) ==> info == self.rec_at(id@).info,
            !self.contains(id@) ==> info == (AggregateInfo {
                last_update: 0,
                last_command: 0,
                last_event: 0,
                snapshot_version: 0,
            }),
    {
        match self.find(id) {
            None => AggregateInfo::default(),
            Some(i) => self.entries[i].info,
        }
    }

    /// Overwrites the metadata record of `id`.
    pub fn save_info(&mut self, id: &Handle, info: AggregateInfo)
        requires
            old(self).wf(),
            old(self).contains(id@),
        ensures
            final(self).wf(),
            final(self).contains(id@),
            final(self).rec_at(id@) == (StoredAggregateView { info, ..old(self).rec_at(id@) }),
            store_unchanged_except(*old(self), *final(self), id@),
    {
        let i = self.find(id).unwrap();
        let rec = &mut self.entries[i];
        rec.info = info;
        proof {
            Self::lemma_update_frame(*old(self), *self, i as int);
            assert(self.rec_at(id@) =~= (StoredAggregateView { info, ..old(self).rec_at(id@) }));
        }
    }

    /// Appends one event; event keys are write-once, so the version
    /// must be the next one.
    pub fn store_event(&mut self, event: A::Event)
        requires
            old(self).wf(),
            old(self).contains(event.spec_handle()),
            event.spec_version() == old(self).rec_at(event.spec_handle()).events.len() + 1,
        ensures
            final(self).wf(),
            final(self).contains(event.spec_handle()),
            final(self).rec_at(event.spec_handle()) == (StoredAggregateView {
                events: old(self).rec_at(event.spec_handle()).events.push(event),
                ..old(self).rec_at(event.spec_handle())
            }),
            store_unchanged_except(*old(self), *final(self), event.spec_handle()),
    {
        let ghost h = event.spec_handle();
        let id = event.handle().clone();
        let i = self.find(&id).unwrap();
        let rec = &mut self.entries[i];
        rec.events.push(event);
        proof {
            Self::lemma_update_frame(*old(self), *self, i as int);
            let pre_rec = old(self).rec_at(h);
            assert(self.rec_at(h) =~= (StoredAggregateView { events: pre_rec.events.push(event), ..pre_rec }));
            let post_rec = self.rec_at(h);
            assert(post_rec.events.take(post_rec.snapshot.spec_version() as int)
                =~= pre_rec.events.take(pre_rec.snapshot.spec_version() as int));
            assert(rec_struct_wf(post_rec));
        }
    }

    /// Appends one stored command; command keys are write-once, so the
    /// sequence must be the next one.
    pub fn store_command(&mut self, id: &Handle, command: StoredCommand<CmdDetails<A>>)
        requires
            old(self).wf(),
            old(self).contains(id@),
            command.sequence == old(self).rec_at(id@).commands.len() + 1,
        ensures
            final(self).wf(),
            final(self).contains(id@),
            final(self).rec_at(id@) == (StoredAggregateView {
                commands: old(self).rec_at(id@).commands.push(command@),
                ..old(self).rec_at(id@)
            }),
            store_unchanged_except(*old(self), *final(self), id@),
    {
        let i = self.find(id).unwrap();
        let rec = &mut self.entries[i];
        rec.commands.push(command);
        proof {
            Self::lemma_update_frame(*old(self), *self, i as int);
            let pre_rec = old(self).rec_at(id@);
            assert(self.rec_at(id@).commands =~= pre_rec.commands.push(command@));
            assert(self.rec_at(id@) =~= (StoredAggregateView {
                commands: pre_rec.commands.push(command@),
                ..pre_rec
            }));
            assert(self.rec_at(id@).events.take(self.rec_at(id@).snapshot.spec_version() as int)
                =~= pre_rec.events.take(pre_rec.snapshot.spec_version() as int));
            assert(rec_struct_wf(self.rec_at(id@)));
        }
    }

    /// Overwrites the snapshot of `id` in place. The snapshot must be
    /// the fold of the event prefix up to its own version.
    pub fn store_snapshot(&mut self, id: &Handle, aggregate: A)
        requires
            old(self).wf(),
            old(self).contains(id@),
            aggregate.spec_handle() == id@,
            aggregate.spec_version() <= old(self).rec_at(id@).events.len(),
            aggregate == fold_events(
                base_of(old(self).rec_at(id@)),
                old(self).rec_at(id@).events.take(aggregate.spec_version() as int),
            ),
        ensures
            final(self).wf(),
            final(self).contains(id@),
            final(self).rec_at(id@) == (StoredAggregateView { snapshot: aggregate, ..old(self).rec_at(id@) }),
            store_unchanged_except(*old(self), *final(self), id@),
    {
        let i = self.find(id).unwrap();
        let rec = &mut self.entries[i];
        rec.snapshot = aggregate;
        proof {
            Self::lemma_update_frame(*old(self), *self, i as int);
            let pre_rec = old(self).rec_at(id@);
            assert(self.rec_at(id@) =~= (StoredAggregateView { snapshot: aggregate, ..pre_rec }));
            assert(rec_struct_wf(self.rec_at(id@)));
        }
    }

    /// Folds every event newer than the aggregate's current version
    /// into it, bringing it up to the latest stored state. Used when a
    /// cached aggregate is stale.
    pub fn update_aggregate(&self, id: &Handle, aggregate: &mut A)
        requires
            self.wf(),
            self.contains(id@),
            old(aggregate).spec_handle() == id@,
            old(aggregate).spec_version() <= self.rec_at(id@).events.len(),
            *old(aggregate) == fold_events(
                base_of(self.rec_at(id@)),
                self.rec_at(id@).events.take(old(aggregate).spec_version() as int),
            ),
        ensures
            *final(aggregate) == aggregate_of(self.rec_at(id@)),
            final(aggregate).spec_version() == self.rec_at(id@).events.len(),
            final(aggregate).spec_handle() == id@,
    {
        let ghost rec = self.rec_at(id@);
        let i = self.find(id).unwrap();
        let n = self.entries[i].events.len();
        proof {
            assert(self.entries@[i as int]@ == rec);
            assert(rec.handle == id@);
        }
        let mut v = aggregate.version();
        while (v as usize) < n
            invariant
                self.wf(),
                self.contains(id@),
                rec == self.rec_at(id@),
                rec.handle == id@,
                i < self.entries@.len(),
                self.entries@[i as int]@ == rec,
                n == rec.events.len(),
                v <= n as u64,
                aggregate.spec_version() == v,
                aggregate.spec_handle() == id@,
                *aggregate == fold_events(base_of(rec), rec.events.take(v as int)),
            decreases n - v,
        {
            let event = self.entries[i].events[v as usize].clone_event();
            proof {
                assert(rec.events[v as int].spec_version() == v + 1);
                assert(rec.events[v as int].spec_handle() == rec.handle);
                lemma_fold_take_succ(base_of(rec), rec.events, v as int);
                aggregate.lemma_apply_properties(event);
            }
            aggregate.apply(event);
            v = v + 1;
        }
        proof {
            assert(rec.events.take(n as int) =~= rec.events);
        }
    }

    /// Rehydrates the latest state of `id`: the snapshot folded with
    /// every later event; absent when the store has no record of `id`.
    pub fn get_aggregate(&self, id: &Handle) -> (r: Option<A>)
        requires
            self.wf(),
        ensures
            match r {
                Some(a) => self.contains(id@) && a == aggregate_of(self.rec_at(id@)),
                None => !self.contains(id@),
            },
    {
        match self.find(id) {
            None => None,
            Some(i) => {
                let mut aggregate = self.entries[i].snapshot.clone_agg();
                proof {
                    assert(self.entries@[i as int]@ == self.rec_at(id@));
                }
                self.update_aggregate(id, &mut aggregate);
                Some(aggregate)
            },
        }
    }
}

} // verus!
