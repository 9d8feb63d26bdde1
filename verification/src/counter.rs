//! A trivial counter aggregate: an increment command emits one event
//! per step, each event advances the value by one. It exercises the
//! store end to end and serves as the reference implementation of the
//! aggregate contract.

use vstd::prelude::*;
use vstd::string::StringExecFns;
use crate::error::AggregateStoreError;
use crate::handle::Handle;
use crate::traits::{Aggregate, AggregateError, Command, Event, EventListener, Storable};

verus! {

/// One +1 step of a counter, producing the given version.
#[derive(Debug, PartialEq, Eq)]
pub struct CounterEvent {
    pub handle: Handle,
    pub version: u64,
}

impl Event for CounterEvent {
    open spec fn spec_handle(&self) -> Seq<char> {
        self.handle@
    }

    open spec fn spec_version(&self) -> u64 {
        self.version
    }

    fn handle(&self) -> (h: &Handle) {
        &self.handle
    }

    fn version(&self) -> (v: u64) {
        self.version
    }

    fn clone_event(&self) -> (e: Self) {
        CounterEvent { handle: self.handle.clone(), version: self.version }
    }
}

/// Creates a counter at zero under the given handle.
#[derive(Debug, PartialEq, Eq)]
pub struct CounterInit {
    pub handle: Handle,
}

impl Event for CounterInit {
    open spec fn spec_handle(&self) -> Seq<char> {
        self.handle@
    }

    open spec fn spec_version(&self) -> u64 {
        0
    }

    fn handle(&self) -> (h: &Handle) {
        &self.handle
    }

    fn version(&self) -> (v: u64) {
        0
    }

    fn clone_event(&self) -> (e: Self) {
        CounterInit { handle: self.handle.clone() }
    }
}

/// What a counter command asks for: some increments, or a guaranteed
/// failure.
#[derive(Clone, Copy, PartialEq, Eq, Structural, Debug)]
pub enum CounterOp {
    Inc(u64),
    Fail,
}

impl View for CounterOp {
    type V = CounterOp;

    open spec fn view(&self) -> CounterOp {
        *self
    }
}

impl Storable for CounterOp {
    fn clone_storable(&self) -> (d: Self) {
        *self
    }
}

/// A command addressed to one counter, optionally pinned to an
/// expected version.
#[derive(Debug)]
pub struct CounterCommand {
    pub handle: Handle,
    pub expected_version: Option<u64>,
    pub op: CounterOp,
}

impl Command for CounterCommand {
    type StorableDetails = CounterOp;

    open spec fn spec_handle(&self) -> Seq<char> {
        self.handle@
    }

    open spec fn spec_version(&self) -> Option<u64> {
        self.expected_version
    }

    open spec fn spec_store(&self) -> CounterOp {
        self.op
    }

    fn handle(&self) -> (h: &Handle) {
        &self.handle
    }

    fn version(&self) -> (v: Option<u64>) {
        self.expected_version
    }

    fn store(&self) -> (d: CounterOp) {
        self.op
    }
}

/// The counter's domain error: its own rejection, or an embedded
/// store-level error.
#[derive(Debug, PartialEq, Eq)]
pub enum CounterError {
    Rejected,
    Store(AggregateStoreError),
}

impl AggregateError for CounterError {
    open spec fn spec_from_store(e: AggregateStoreError) -> Self {
        CounterError::Store(e)
    }

    open spec fn spec_text(&self) -> Seq<char> {
        match self {
            CounterError::Rejected => "counter rejected the command"@,
            CounterError::Store(_) => "store error"@,
        }
    }

    fn from_store(e: AggregateStoreError) -> (r: Self) {
        CounterError::Store(e)
    }

    fn error_text(&self) -> (s: String) {
        match self {
            CounterError::Rejected => String::from_str("counter rejected the command"),
            CounterError::Store(_) => String::from_str("store error"),
        }
    }
}

/// A counter: its value is the number of events applied since init,
/// saturating at the top of the range; its version advances by one per
/// event.
#[derive(Debug, PartialEq, Eq)]
pub struct CounterAggregate {
    pub handle: Handle,
    pub version: u64,
    pub value: u64,
}

impl Aggregate for CounterAggregate {
    type Command = CounterCommand;

    type Event = CounterEvent;

    type InitEvent = CounterInit;

    type Error = CounterError;

    open spec fn spec_handle(&self) -> Seq<char> {
        self.handle@
    }

    open spec fn spec_version(&self) -> u64 {
        self.version
    }

    open spec fn spec_init(event: CounterInit) -> Option<CounterAggregate> {
        Some(CounterAggregate { handle: event.handle, version: 0, value: 0 })
    }

    open spec fn spec_apply(self, event: CounterEvent) -> CounterAggregate {
        CounterAggregate {
            version: event.version,
            value: if self.value == u64::MAX {
                u64::MAX
            } else {
                (self.value + 1) as u64
            },
            ..self
        }
    }

    open spec fn spec_process(&self, cmd: CounterCommand) -> Result<
        Seq<CounterEvent>,
        CounterError,
    > {
        match cmd.op {
            CounterOp::Fail => Err(CounterError::Rejected),
            CounterOp::Inc(steps) => if steps > u64::MAX - self.version {
                Err(CounterError::Rejected)
            } else {
                Ok(
                    Seq::new(
                        steps as nat,
                        |i: int|
                            CounterEvent {
                                handle: self.handle,
                                version: (self.version + 1 + i) as u64,
                            },
                    ),
                )
            },
        }
    }

    fn init(event: CounterInit) -> (r: Result<Self, CounterError>) {
        Ok(CounterAggregate { handle: event.handle, version: 0, value: 0 })
    }

    fn version(&self) -> (v: u64) {
        self.version
    }

    fn handle(&self) -> (h: &Handle) {
        &self.handle
    }

    fn process_command(&self, cmd: CounterCommand) -> (r: Result<Vec<CounterEvent>, CounterError>) {
        match cmd.op {
            CounterOp::Fail => Err(CounterError::Rejected),
            CounterOp::Inc(steps) => {
                if steps > u64::MAX - self.version {
                    Err(CounterError::Rejected)
                } else {
                    let ghost expected = self.spec_process(cmd).unwrap();
                    let mut events: Vec<CounterEvent> = Vec::new();
                    let mut i: u64 = 0;
                    while i < steps
                        invariant
                            i <= steps,
                            steps <= u64::MAX - self.version,
                            expected == self.spec_process(cmd).unwrap(),
                            expected.len() == steps,
                            cmd.op == CounterOp::Inc(steps),
                            events@.len() == i,
                            forall|j: int| 0 <= j < i ==> events@[j] == expected[j],
                        decreases steps - i,
                    {
                        events.push(
                            CounterEvent { handle: self.handle.clone(), version: self.version + 1 + i },
                        );
                        i = i + 1;
                    }
                    proof {
                        assert(events@ =~= expected);
                    }
                    Ok(events)
                }
            },
        }
    }

    fn apply(&mut self, event: CounterEvent) {
        self.version = event.version;
        self.value = if self.value == u64::MAX {
            u64::MAX
        } else {
            self.value + 1
        };
    }

    fn clone_agg(&self) -> (a: Self) {
        CounterAggregate { handle: self.handle.clone(), version: self.version, value: self.value }
    }

    proof fn lemma_init_properties(event: CounterInit) {
    }

    proof fn lemma_apply_properties(self, event: CounterEvent) {
    }
}

/// A listener that keeps every event it observes, in delivery order.
#[derive(Debug)]
pub struct RecordingListener {
    pub events: Vec<CounterEvent>,
}

impl RecordingListener {
    pub fn new() -> (l: RecordingListener)
        ensures
            l.events@.len() == 0,
    {
        RecordingListener { events: Vec::new() }
    }
}

impl EventListener<CounterAggregate> for RecordingListener {
    open spec fn seen(&self) -> Seq<CounterEvent> {
        self.events@
    }

    fn listen(&mut self, agg: &CounterAggregate, event: &CounterEvent) {
        self.events.push(event.clone_event());
    }
}

} // verus!
