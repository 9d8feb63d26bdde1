//! Errors of the key/value store and of the aggregate store.

use vstd::prelude::*;
use crate::handle::Handle;

verus! {

/// Failure of the underlying key/value persistence layer.
#[derive(Debug, PartialEq, Eq)]
pub enum KeyStoreError {
    /// The store-format marker on an existing store does not match the
    /// version this library writes.
    VersionMismatch,
    /// Any other persistence failure, described by a message. The I/O
    /// shell around this library wraps raw errors into this variant.
    Other(String),
}

/// Errors of the aggregate store.
#[derive(Debug, PartialEq, Eq)]
pub enum AggregateStoreError {
    /// Underlying persistence or serialization failure.
    KeyStoreError(KeyStoreError),
    /// Raw I/O failure during initialization, described by a message.
    IoError(String),
    /// Lookup of a handle that was never added.
    UnknownAggregate(Handle),
    /// A second add for a handle that already has an aggregate.
    DuplicateAggregate(Handle),
    /// The init event exists but cannot construct a valid aggregate.
    InitError,
    /// An aggregate produced an event with the wrong handle or a
    /// non-contiguous version: an aggregate implementation bug.
    WrongEventForAggregate,
    /// Optimistic-version mismatch: the aggregate has advanced past the
    /// version the command expected.
    ConcurrentModification(Handle),
    /// The aggregate has no command with this sequence number.
    UnknownCommand(Handle, u64),
    /// A history query asked for an offset beyond the number of stored
    /// commands; carries the offset and the total.
    CommandOffsetTooLarge(u64, u64),
}

/// Holds when `e` is a concurrent-modification error naming an aggregate
/// whose handle reads `h`.
pub open spec fn is_concurrent_modification(e: AggregateStoreError, h: Seq<char>) -> bool {
    &&& e matches AggregateStoreError::ConcurrentModification(eh)
    &&& eh@ == h
}

/// Holds when `e` is an unknown-aggregate error naming an aggregate whose
/// handle reads `h`.
pub open spec fn is_unknown_aggregate(e: AggregateStoreError, h: Seq<char>) -> bool {
    &&& e matches AggregateStoreError::UnknownAggregate(eh)
    &&& eh@ == h
}

} // verus!
