use krill_store::agg_store::{AggregateStore, DiskAggregateStore};
use krill_store::counter::{
    CounterAggregate, CounterCommand, CounterError, CounterInit, CounterOp, RecordingListener,
};
use krill_store::error::{AggregateStoreError, KeyStoreError};
use krill_store::handle::Handle;
use krill_store::keystore::{KeyStore, StoredValue};
use krill_store::records::{CommandHistoryCriteria, CommandKey, Key, KeyStoreVersion, StoredEffect};

type Store = DiskAggregateStore<CounterAggregate, RecordingListener>;

fn new_store() -> Store {
    DiskAggregateStore::new("counters").unwrap()
}

fn h1() -> Handle {
    Handle::from_str("h1")
}

fn init_h1() -> CounterInit {
    CounterInit { handle: h1() }
}

fn inc(n: u64) -> CounterCommand {
    CounterCommand { handle: h1(), expected_version: None, op: CounterOp::Inc(n) }
}

fn fail_cmd() -> CounterCommand {
    CounterCommand { handle: h1(), expected_version: None, op: CounterOp::Fail }
}

#[test]
fn init_and_commit() {
    // add -> version 0; Inc(3) -> version 3; stored pieces:
    // the init event, events 1..=3, one command, the metadata record.
    let mut store = new_store();
    let a = store.add(init_h1()).unwrap();
    assert_eq!(a.version, 0);
    assert_eq!(a.value, 0);

    let a = store.command_at(inc(3), 100).unwrap();
    assert_eq!(a.version, 3);
    assert_eq!(a.value, 3);

    assert!(store.store.get_init_event(&h1()).is_some());
    for v in 1..=3u64 {
        let e = store.store.get_event(&h1(), v).unwrap();
        assert_eq!(e.version, v);
    }
    assert!(store.store.get_event(&h1(), 4).is_none());
    assert!(store.store.get_command(&h1(), 1).is_some());
    assert!(store.store.get_command(&h1(), 2).is_none());

    let info = store.store.get_info(&h1());
    assert_eq!(info.last_command, 1);
    assert_eq!(info.last_event, 3);
    assert_eq!(info.last_update, 100);
}

#[test]
fn snapshot_trigger() {
    // After version 3, Inc(2) -> version 5: a snapshot at version 5
    // must exist and the metadata must name it.
    let mut store = new_store();
    store.add(init_h1()).unwrap();
    store.command_at(inc(3), 100).unwrap();
    let a = store.command_at(inc(2), 101).unwrap();
    assert_eq!(a.version, 5);

    let info = store.store.get_info(&h1());
    assert_eq!(info.snapshot_version, 5);
    let snapshot = store.store.get_snapshot(&h1()).unwrap();
    assert_eq!(snapshot.version, 5);
    assert_eq!(snapshot.value, 5);
}

#[test]
fn snapshot_written_at_init() {
    let mut store = new_store();
    store.add(init_h1()).unwrap();
    let snapshot = store.store.get_snapshot(&h1()).unwrap();
    assert_eq!(snapshot.version, 0);
    assert_eq!(store.store.get_info(&h1()).snapshot_version, 0);
}

#[test]
fn noop_command() {
    // Inc(0) produces no events: nothing is stored, no sequence
    // number is consumed, the version stands; only last_update moves.
    let mut store = new_store();
    store.add(init_h1()).unwrap();
    store.command_at(inc(3), 100).unwrap();

    let before = store.store.get_info(&h1());
    let a = store.command_at(inc(0), 200).unwrap();
    assert_eq!(a.version, 3);

    let after = store.store.get_info(&h1());
    assert_eq!(after.last_command, before.last_command);
    assert_eq!(after.last_event, before.last_event);
    assert_eq!(after.last_update, 200);
    assert!(store.store.get_command(&h1(), before.last_command + 1).is_none());
}

#[test]
fn optimistic_conflict() {
    // With the aggregate at version 5, a command expecting version 3
    // is rejected as a concurrent modification; no event is written,
    // no sequence number is consumed, last_update still advances.
    let mut store = new_store();
    store.add(init_h1()).unwrap();
    store.command_at(inc(5), 100).unwrap();

    let cmd = CounterCommand { handle: h1(), expected_version: Some(3), op: CounterOp::Inc(1) };
    let err = store.command_at(cmd, 300).unwrap_err();
    match err {
        CounterError::Store(AggregateStoreError::ConcurrentModification(h)) => {
            assert_eq!(h, h1());
        },
        other => panic!("expected a concurrent-modification error, got {:?}", other),
    }

    let info = store.store.get_info(&h1());
    assert_eq!(info.last_command, 1);
    assert_eq!(info.last_event, 5);
    assert_eq!(info.last_update, 300);
    assert!(store.store.get_event(&h1(), 6).is_none());
}

#[test]
fn matching_expected_version_is_accepted() {
    let mut store = new_store();
    store.add(init_h1()).unwrap();
    let cmd = CounterCommand { handle: h1(), expected_version: Some(0), op: CounterOp::Inc(2) };
    let a = store.command_at(cmd, 100).unwrap();
    assert_eq!(a.version, 2);
}

#[test]
fn error_outcome_stored() {
    // A failing command consumes a sequence number and its envelope
    // records the stringified domain error; no events are written.
    let mut store = new_store();
    store.add(init_h1()).unwrap();
    store.command_at(inc(3), 100).unwrap();

    let err = store.command_at(fail_cmd(), 400).unwrap_err();
    assert_eq!(err, CounterError::Rejected);

    let info = store.store.get_info(&h1());
    assert_eq!(info.last_command, 2);
    let stored = store.stored_command(&h1(), &CommandKey::new(2)).unwrap().unwrap();
    assert_eq!(stored.sequence, 2);
    assert_eq!(stored.version, 3);
    assert_eq!(stored.timestamp, 400);
    assert_eq!(
        stored.effect,
        StoredEffect::Error(String::from("counter rejected the command"))
    );
    assert_eq!(info.last_event, 3);
    assert!(store.store.get_event(&h1(), 4).is_none());
}

#[test]
fn success_outcome_records_event_versions() {
    let mut store = new_store();
    store.add(init_h1()).unwrap();
    store.command_at(inc(3), 100).unwrap();
    let stored = store.stored_command(&h1(), &CommandKey::new(1)).unwrap().unwrap();
    assert_eq!(stored.sequence, 1);
    assert_eq!(stored.version, 0);
    assert_eq!(stored.timestamp, 100);
    assert_eq!(stored.effect, StoredEffect::Events(vec![1, 2, 3]));
}

#[test]
fn restart_preserves_state() {
    // Dump every stored piece of one store and rebuild a fresh one
    // from them: the latest aggregate must be structurally equal.
    let mut store = new_store();
    store.add(init_h1()).unwrap();
    store.command_at(inc(3), 100).unwrap();
    store.command_at(inc(2), 101).unwrap();
    let before = store.get_latest(&h1()).unwrap();

    let init = store.store.get_init_event(&h1()).unwrap();
    let info = store.store.get_info(&h1());
    let mut events = Vec::new();
    for v in 1..=info.last_event {
        events.push(store.store.get_event(&h1(), v).unwrap());
    }
    let mut commands = Vec::new();
    for s in 1..=info.last_command {
        commands.push(store.store.get_command(&h1(), s).unwrap());
    }

    let mut reopened: Store = new_store();
    reopened.restore_aggregate(init, events, commands, info).unwrap();
    let after = reopened.get_latest(&h1()).unwrap();
    assert_eq!(after, before);
    assert_eq!(after.version, 5);
    assert_eq!(reopened.store.get_info(&h1()), store.store.get_info(&h1()));
    let snap_before = store.store.get_snapshot(&h1()).unwrap();
    let snap_after = reopened.store.get_snapshot(&h1()).unwrap();
    assert_eq!(snap_after, snap_before);
}

#[test]
fn restore_rejects_gaps() {
    let mut store = new_store();
    store.add(init_h1()).unwrap();
    store.command_at(inc(3), 100).unwrap();

    let init = store.store.get_init_event(&h1()).unwrap();
    let info = store.store.get_info(&h1());
    // Leave out event 2: the run is no longer contiguous.
    let events = vec![
        store.store.get_event(&h1(), 1).unwrap(),
        store.store.get_event(&h1(), 3).unwrap(),
    ];
    let commands = vec![store.store.get_command(&h1(), 1).unwrap()];

    let mut reopened: Store = new_store();
    let err = reopened.restore_aggregate(init, events, commands, info).unwrap_err();
    assert_eq!(err, AggregateStoreError::WrongEventForAggregate);
    assert!(!reopened.has(&h1()));
}

#[test]
fn listeners_observe_each_event_once_in_order() {
    let mut store = new_store();
    store.add(init_h1()).unwrap();
    store.add_listener(RecordingListener::new());
    store.command_at(inc(3), 100).unwrap();
    // A rejected command and a no-op reach no listener.
    store.command_at(fail_cmd(), 101).unwrap_err();
    store.command_at(inc(0), 102).unwrap();
    store.command_at(inc(2), 103).unwrap();

    let seen = &store.listeners[0].events;
    let versions: Vec<u64> = seen.iter().map(|e| e.version).collect();
    assert_eq!(versions, vec![1, 2, 3, 4, 5]);
}

#[test]
fn new_listener_sees_only_later_events() {
    let mut store = new_store();
    store.add(init_h1()).unwrap();
    store.command_at(inc(2), 100).unwrap();
    store.add_listener(RecordingListener::new());
    store.command_at(inc(1), 101).unwrap();
    let versions: Vec<u64> = store.listeners[0].events.iter().map(|e| e.version).collect();
    assert_eq!(versions, vec![3]);
}

#[test]
fn version_counts_stored_events() {
    // The latest version equals the number of durably stored events
    // minus one (the init event stands at version 0).
    let mut store = new_store();
    store.add(init_h1()).unwrap();
    store.command_at(inc(4), 100).unwrap();
    store.command_at(inc(3), 101).unwrap();

    let latest = store.get_latest(&h1()).unwrap();
    let stored_events = 1 + store.store.events_len(&h1()) as u64;
    assert_eq!(latest.version, stored_events - 1);
}

#[test]
fn command_sequences_contiguous_from_one() {
    let mut store = new_store();
    store.add(init_h1()).unwrap();
    store.command_at(inc(1), 100).unwrap();
    store.command_at(fail_cmd(), 101).unwrap_err();
    store.command_at(inc(0), 102).unwrap();
    store.command_at(inc(2), 103).unwrap();

    let info = store.store.get_info(&h1());
    assert_eq!(info.last_command, 3);
    for s in 1..=3u64 {
        assert_eq!(store.store.get_command(&h1(), s).unwrap().sequence, s);
    }
    assert!(store.store.get_command(&h1(), 0).is_none());
    assert!(store.store.get_command(&h1(), 4).is_none());
}

#[test]
fn event_versions_contiguous_from_zero() {
    let mut store = new_store();
    store.add(init_h1()).unwrap();
    store.command_at(inc(2), 100).unwrap();
    store.command_at(inc(2), 101).unwrap();

    assert!(store.store.get_init_event(&h1()).is_some());
    for v in 1..=4u64 {
        assert_eq!(store.store.get_event(&h1(), v).unwrap().version, v);
    }
    assert!(store.store.get_event(&h1(), 0).is_none());
    assert!(store.store.get_event(&h1(), 5).is_none());
}

#[test]
fn snapshot_tracks_highest_multiple() {
    let mut store = new_store();
    store.add(init_h1()).unwrap();
    store.command_at(inc(3), 100).unwrap();
    assert_eq!(store.store.get_info(&h1()).snapshot_version, 0);
    store.command_at(inc(8), 101).unwrap();
    // Version 11: snapshots were written at 5 and 10; 10 remains.
    assert_eq!(store.store.get_info(&h1()).snapshot_version, 10);
    assert_eq!(store.store.get_snapshot(&h1()).unwrap().version, 10);
}

#[test]
fn unknown_aggregate_is_reported() {
    let mut store = new_store();
    let err = store.get_latest(&h1()).unwrap_err();
    assert_eq!(err, AggregateStoreError::UnknownAggregate(h1()));

    let err = store.command_at(inc(1), 100).unwrap_err();
    match err {
        CounterError::Store(AggregateStoreError::UnknownAggregate(h)) => assert_eq!(h, h1()),
        other => panic!("expected an unknown-aggregate error, got {:?}", other),
    }
}

#[test]
fn duplicate_add_is_rejected() {
    let mut store = new_store();
    store.add(init_h1()).unwrap();
    let err = store.add(init_h1()).unwrap_err();
    match err {
        AggregateStoreError::DuplicateAggregate(h) => assert_eq!(h, h1()),
        other => panic!("expected a duplicate-aggregate error, got {:?}", other),
    }
    // The first aggregate is untouched.
    assert_eq!(store.get_latest(&h1()).unwrap().version, 0);
}

#[test]
fn has_and_list() {
    let mut store = new_store();
    assert!(!store.has(&h1()));
    assert!(store.list().is_empty());
    store.add(init_h1()).unwrap();
    store.add(CounterInit { handle: Handle::from_str("h2") }).unwrap();
    assert!(store.has(&h1()));
    assert!(store.has(&Handle::from_str("h2")));
    assert!(!store.has(&Handle::from_str("h3")));
    let mut names: Vec<String> = store.list().iter().map(|h| h.as_str().to_string()).collect();
    names.sort();
    assert_eq!(names, vec!["h1".to_string(), "h2".to_string()]);
}

#[test]
fn command_history_pages() {
    let mut store = new_store();
    store.add(init_h1()).unwrap();
    for t in 0..4i64 {
        store.command_at(inc(1), 100 + t).unwrap();
    }

    let crit = CommandHistoryCriteria { offset: 1, rows: Some(2) };
    let hist = store.command_history(&h1(), crit).unwrap();
    assert_eq!(hist.offset, 1);
    assert_eq!(hist.total, 4);
    let seqs: Vec<u64> = hist.commands.iter().map(|c| c.sequence).collect();
    assert_eq!(seqs, vec![2, 3]);

    let crit = CommandHistoryCriteria { offset: 0, rows: None };
    let hist = store.command_history(&h1(), crit).unwrap();
    assert_eq!(hist.commands.len(), 4);

    let crit = CommandHistoryCriteria { offset: 5, rows: None };
    let err = store.command_history(&h1(), crit).unwrap_err();
    assert_eq!(err, AggregateStoreError::CommandOffsetTooLarge(5, 4));

    let crit = CommandHistoryCriteria { offset: 0, rows: None };
    let err = store.command_history(&Handle::from_str("h9"), crit).unwrap_err();
    assert_eq!(err, AggregateStoreError::UnknownAggregate(Handle::from_str("h9")));
}

#[test]
fn stored_event_reader() {
    let mut store = new_store();
    store.add(init_h1()).unwrap();
    store.command_at(inc(2), 100).unwrap();
    let e = store.stored_event(&h1(), 2).unwrap().unwrap();
    assert_eq!(e.version, 2);
    assert_eq!(e.handle, h1());
    assert!(store.stored_event(&h1(), 3).unwrap().is_none());
}

#[test]
fn command_with_real_clock() {
    // The plain command path reads the system clock for its
    // timestamps; everything else behaves as with a pinned time.
    let mut store = new_store();
    store.add(init_h1()).unwrap();
    let a = store.command(inc(3)).unwrap();
    assert_eq!(a.version, 3);
    assert_eq!(store.store.get_info(&h1()).last_command, 1);
}

#[test]
fn aggregates_are_independent() {
    let mut store = new_store();
    store.add(init_h1()).unwrap();
    store.add(CounterInit { handle: Handle::from_str("h2") }).unwrap();
    store.command_at(inc(3), 100).unwrap();
    assert_eq!(store.get_latest(&h1()).unwrap().version, 3);
    assert_eq!(store.get_latest(&Handle::from_str("h2")).unwrap().version, 0);
}

#[test]
fn version_marker_checked_on_open() {
    let store = new_store();
    assert_eq!(store.store.get_version(), Some(KeyStoreVersion::V0_6));
    assert!(store.check_version(Some(KeyStoreVersion::V0_6)).is_ok());
    assert_eq!(
        store.check_version(None).unwrap_err(),
        AggregateStoreError::KeyStoreError(KeyStoreError::VersionMismatch)
    );
}

#[test]
fn flat_reader_by_key() {
    let mut store = new_store();
    store.add(init_h1()).unwrap();
    store.command_at(inc(1), 100).unwrap();

    assert_eq!(
        KeyStore::<CounterAggregate>::key_for_event(3),
        Key::Event(3)
    );
    assert_eq!(
        KeyStore::<CounterAggregate>::key_for_command(2),
        Key::Command(2)
    );
    match store.store.get(&h1(), &Key::Event(1)) {
        Some(StoredValue::Event(e)) => assert_eq!(e.version, 1),
        other => panic!("expected the stored event, got {:?}", other.is_some()),
    }
    assert!(store.store.get(&h1(), &Key::Event(2)).is_none());
    match store.store.get(&h1(), &Key::Info) {
        Some(StoredValue::Info(info)) => assert_eq!(info.last_command, 1),
        other => panic!("expected the metadata record, got {:?}", other.is_some()),
    }
    match store.store.get(&h1(), &Key::Snapshot) {
        Some(StoredValue::Snapshot(a)) => assert_eq!(a.version, 0),
        other => panic!("expected the snapshot, got {:?}", other.is_some()),
    }
    assert!(store.store.get(&Handle::from_str("h9"), &Key::Info).is_none());
}

#[test]
fn reads_without_cache() {
    let mut store = new_store();
    store.add(init_h1()).unwrap();
    store.use_cache = false;
    store.command_at(inc(3), 100).unwrap();
    assert_eq!(store.get_latest(&h1()).unwrap().version, 3);
}

#[test]
fn stale_cache_entry_is_refreshed() {
    let mut store = new_store();
    let at_zero = store.add(init_h1()).unwrap();
    store.command_at(inc(3), 100).unwrap();
    // Plant an outdated copy in the cache: the read path must fold the
    // newer stored events into it.
    store.cache[0] = (h1(), at_zero);
    let latest = store.get_latest(&h1()).unwrap();
    assert_eq!(latest.version, 3);
    assert_eq!(latest.value, 3);
}
