//! The serialized data model: keys, per-aggregate metadata, and stored
//! command envelopes.

use vstd::prelude::*;
use crate::traits::Storable;

verus! {

/// Store-format marker written into the root of a store on first
/// initialization and checked on every later open.
#[derive(Clone, Copy, PartialEq, Eq, Structural, Debug)]
pub enum KeyStoreVersion {
    V0_6,
}

/// Key of one record under one aggregate, mirroring the on-disk file
/// names: the metadata record, the latest snapshot, the event with a
/// given version, or the stored command with a given sequence number.
#[derive(Clone, Copy, PartialEq, Eq, Structural, Debug)]
pub enum Key {
    Info,
    Snapshot,
    Event(u64),
    Command(u64),
}

/// Key naming one stored command by its sequence number.
#[derive(Clone, Copy, PartialEq, Eq, Structural, Debug)]
pub struct CommandKey {
    pub sequence: u64,
}

impl CommandKey {
    pub fn new(sequence: u64) -> (k: CommandKey)
        ensures
            k.sequence == sequence,
    {
        CommandKey { sequence }
    }

    /// The flat store key this command key stands for.
    pub fn as_key(&self) -> (k: Key)
        ensures
            k == Key::Command(self.sequence),
    {
        Key::Command(self.sequence)
    }
}

/// Per-aggregate metadata, rewritten after each command attempt.
#[derive(Clone, Copy, PartialEq, Eq, Structural, Debug)]
pub struct AggregateInfo {
    /// Timestamp of the last command attempt, in seconds.
    pub last_update: i64,
    /// Highest command sequence number assigned.
    pub last_command: u64,
    /// Highest event version stored.
    pub last_event: u64,
    /// Version of the latest persisted snapshot.
    pub snapshot_version: u64,
}

impl Default for AggregateInfo {
    /// The metadata of an aggregate that no command has touched yet.
    fn default() -> (info: AggregateInfo)
        ensures
            info == (AggregateInfo { last_update: 0, last_command: 0, last_event: 0, snapshot_version: 0 }),
    {
        AggregateInfo { last_update: 0, last_command: 0, last_event: 0, snapshot_version: 0 }
    }
}

/// Outcome of a stored command: either the versions of the events it
/// produced, or the text of the domain error it ended in.
#[derive(Debug, PartialEq, Eq)]
pub enum StoredEffect {
    Events(Vec<u64>),
    Error(String),
}

/// Mathematical image of a [`StoredEffect`].
pub enum StoredEffectView {
    Events(Seq<u64>),
    Error(Seq<char>),
}

impl View for StoredEffect {
    type V = StoredEffectView;

    open spec fn view(&self) -> StoredEffectView {
        match self {
            StoredEffect::Events(versions) => StoredEffectView::Events(versions@),
            StoredEffect::Error(msg) => StoredEffectView::Error(msg@),
        }
    }
}

impl StoredEffect {
    pub fn clone_effect(&self) -> (r: StoredEffect)
        ensures
            r@ == self@,
    {
        match self {
            StoredEffect::Events(versions) => {
                let cloned_versions = versions.clone();
                proof {
                    assert(cloned_versions@ =~= versions@);
                }
                StoredEffect::Events(cloned_versions)
            },
            StoredEffect::Error(msg) => StoredEffect::Error(msg.clone()),
        }
    }
}

/// Envelope recording one processed command: its storable details, the
/// sequence number it consumed, the aggregate version observed when
/// processing began, a timestamp, and its outcome.
#[derive(Debug, PartialEq, Eq)]
pub struct StoredCommand<D> {
    pub details: D,
    pub sequence: u64,
    pub version: u64,
    pub timestamp: i64,
    pub effect: StoredEffect,
}

/// Mathematical image of a [`StoredCommand`].
pub struct StoredCommandView<DV> {
    pub details: DV,
    pub sequence: u64,
    pub version: u64,
    pub timestamp: i64,
    pub effect: StoredEffectView,
}

impl<D: View> View for StoredCommand<D> {
    type V = StoredCommandView<D::V>;

    open spec fn view(&self) -> StoredCommandView<D::V> {
        StoredCommandView {
            details: self.details@,
            sequence: self.sequence,
            version: self.version,
            timestamp: self.timestamp,
            effect: self.effect@,
        }
    }
}

impl<D: Storable> StoredCommand<D> {
    pub fn clone_stored(&self) -> (c: StoredCommand<D>)
        ensures
            c@ == self@,
    {
        StoredCommand {
            details: self.details.clone_storable(),
            sequence: self.sequence,
            version: self.version,
            timestamp: self.timestamp,
            effect: self.effect.clone_effect(),
        }
    }
}

/// Criteria for enumerating the stored commands of one aggregate:
/// skip the first `offset` commands, then take at most `rows` of them
/// (all of them when `rows` is absent).
#[derive(Clone, Copy, Debug)]
pub struct CommandHistoryCriteria {
    pub offset: u64,
    pub rows: Option<u64>,
}

/// One page of the stored commands of an aggregate, together with the
/// offset it starts at and the total number of commands stored.
#[derive(Debug)]
pub struct CommandHistory<D> {
    pub offset: u64,
    pub total: u64,
    pub commands: Vec<StoredCommand<D>>,
}

/// Builds the envelope for one command: captures the details, the
/// aggregate version observed, the assigned sequence number and the
/// timestamp up front; the outcome is filled in when processing ends.
pub struct StoredCommandBuilder<D> {
    pub details: D,
    pub version: u64,
    pub sequence: u64,
    pub timestamp: i64,
}

impl<D: View> StoredCommandBuilder<D> {
    pub fn new(details: D, version: u64, sequence: u64, timestamp: i64) -> (b: StoredCommandBuilder<D>)
        ensures
            b.details == details,
            b.version == version,
            b.sequence == sequence,
            b.timestamp == timestamp,
    {
        StoredCommandBuilder { details, version, sequence, timestamp }
    }

    /// Finish with a successful outcome: the versions of the events the
    /// command produced, in order.
    pub fn finish_with_events(self, event_versions: Vec<u64>) -> (c: StoredCommand<D>)
        ensures
            c@ == (StoredCommandView {
                details: self.details@,
                sequence: self.sequence,
                version: self.version,
                timestamp: self.timestamp,
                effect: StoredEffectView::Events(event_versions@),
            }),
    {
        StoredCommand {
            details: self.details,
            sequence: self.sequence,
            version: self.version,
            timestamp: self.timestamp,
            effect: StoredEffect::Events(event_versions),
        }
    }

    /// Finish with a failed outcome: the text of the domain error.
    pub fn finish_with_error(self, error_text: String) -> (c: StoredCommand<D>)
        ensures
            c@ == (StoredCommandView {
                details: self.details@,
                sequence: self.sequence,
                version: self.version,
                timestamp: self.timestamp,
                effect: StoredEffectView::Error(error_text@),
            }),
    {
        StoredCommand {
            details: self.details,
            sequence: self.sequence,
            version: self.version,
            timestamp: self.timestamp,
            effect: StoredEffect::Error(error_text),
        }
    }
}

} // verus!
