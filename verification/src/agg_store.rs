//! The concurrency-controlled facade over the key store: per-process
//! cache, optimistic version checking, durable command/events commit,
//! snapshot policy, and listener fan-out.
//!
//! Exclusive access during writes is what the mutable borrow already
//! enforces: at most one command per store is in flight at any time,
//! which makes event ordering and version contiguity immediate.

use vstd::prelude::*;
use crate::error::{AggregateStoreError, KeyStoreError, is_concurrent_modification, is_unknown_aggregate};
use crate::handle::Handle;
use crate::keystore::{
    CmdDetails, CmdDetailsView, KeyStore, SNAPSHOT_FREQ, StoredAggregateView, StoredValue,
    aggregate_of, base_of,
    fold_events, lemma_fold_concat, lemma_fold_push, lemma_fold_take_succ, lemma_fold_version,
    rec_policy_wf, rec_struct_wf, store_unchanged_except,
};
use crate::records::{
    AggregateInfo, CommandHistory, CommandHistoryCriteria, CommandKey, KeyStoreVersion,
    StoredCommand, StoredCommandBuilder, StoredCommandView, StoredEffectView,
};
use crate::traits::{Aggregate, AggregateError, Command, Event, EventListener};

verus! {

/// Results of store operations.
pub type StoreResult<T> = Result<T, AggregateStoreError>;

/// The views of a run of stored commands, in order.
pub open spec fn cmd_views<A: Aggregate>(s: Seq<StoredCommand<CmdDetails<A>>>) -> Seq<
    StoredCommandView<CmdDetailsView<A>>,
> {
    s.map_values(|c: StoredCommand<CmdDetails<A>>| c@)
}

/// A cached aggregate is some replayed prefix of the stored events of
/// its handle: possibly stale, never wrong.
pub open spec fn cache_entry_ok<A: Aggregate>(s: KeyStore<A>, h: Seq<char>, a: A) -> bool {
    &&& s.contains(h)
    &&& a.spec_handle() == h
    &&& a.spec_version() <= s.rec_at(h).events.len()
    &&& a == fold_events(base_of(s.rec_at(h)), s.rec_at(h).events.take(a.spec_version() as int))
}

/// The events an aggregate at version `v` under handle `h` may commit:
/// a contiguous run of versions starting at `v + 1`, all under `h`.
pub open spec fn events_ok<A: Aggregate>(es: Seq<A::Event>, v: u64, h: Seq<char>) -> bool {
    forall|i: int|
        0 <= i < es.len() ==> (#[trigger] es[i]).spec_version() == v + 1 + i && es[i].spec_handle() == h
}

/// No listener observed anything new.
pub open spec fn seen_unchanged<A: Aggregate, L: EventListener<A>>(l1: Seq<L>, l2: Seq<L>) -> bool {
    &&& l2.len() == l1.len()
    &&& forall|j: int| 0 <= j < l1.len() ==> (#[trigger] l2[j]).seen() == l1[j].seen()
}

/// Every listener observed exactly the committed events, in order,
/// after everything it had observed before.
pub open spec fn seen_extended<A: Aggregate, L: EventListener<A>>(
    l1: Seq<L>,
    l2: Seq<L>,
    es: Seq<A::Event>,
) -> bool {
    &&& l2.len() == l1.len()
    &&& forall|j: int| 0 <= j < l1.len() ==> (#[trigger] l2[j]).seen() == l1[j].seen() + es
}

/// The largest multiple of the snapshot frequency at or below `v`:
/// the version the latest snapshot stands at once an aggregate has
/// reached version `v`.
pub open spec fn snap_level(v: int) -> int {
    SNAPSHOT_FREQ as int * (v / SNAPSHOT_FREQ as int)
}

/// After a rejected or empty command attempt only the metadata's
/// last-update stamp moves; sequence numbers are not consumed.
pub open spec fn command_touch_post<A: Aggregate>(
    pre: KeyStore<A>,
    post: KeyStore<A>,
    h: Seq<char>,
    now: i64,
) -> bool {
    &&& post.contains(h)
    &&& post.rec_at(h) == (StoredAggregateView {
        info: AggregateInfo { last_update: now, ..pre.rec_at(h).info },
        ..pre.rec_at(h)
    })
    &&& store_unchanged_except(pre, post, h)
}

/// After a command whose processing ended in a domain error: the
/// command is stored with the error text as its outcome, consuming the
/// next sequence number; no events are stored.
pub open spec fn command_error_post<A: Aggregate>(
    pre: KeyStore<A>,
    post: KeyStore<A>,
    h: Seq<char>,
    now: i64,
    details: CmdDetailsView<A>,
    err_text: Seq<char>,
) -> bool {
    let rec = pre.rec_at(h);
    let seq = rec.commands.len() + 1;
    &&& post.contains(h)
    &&& post.rec_at(h) == (StoredAggregateView {
        commands: rec.commands.push(StoredCommandView {
            details,
            sequence: seq as u64,
            version: rec.events.len() as u64,
            timestamp: now,
            effect: StoredEffectView::Error(err_text),
        }),
        info: AggregateInfo { last_update: now, last_command: seq as u64, ..rec.info },
        ..rec
    })
    &&& store_unchanged_except(pre, post, h)
}

/// After a successful command: the events are appended, the command is
/// stored with their versions as its outcome, the metadata counters
/// advance, and the snapshot stands at the highest multiple of the
/// snapshot frequency reached.
pub open spec fn command_success_post<A: Aggregate>(
    pre: KeyStore<A>,
    post: KeyStore<A>,
    h: Seq<char>,
    now: i64,
    details: CmdDetailsView<A>,
    es: Seq<A::Event>,
) -> bool {
    let rec = pre.rec_at(h);
    let v = rec.events.len() as int;
    let n = es.len() as int;
    let seq = rec.commands.len() + 1;
    let m = snap_level(v + n);
    &&& post.contains(h)
    &&& post.rec_at(h) == (StoredAggregateView {
        events: rec.events + es,
        snapshot: fold_events(base_of(rec), (rec.events + es).take(m)),
        commands: rec.commands.push(StoredCommandView {
            details,
            sequence: seq as u64,
            version: v as u64,
            timestamp: now,
            effect: StoredEffectView::Events(es.map_values(|e: A::Event| e.spec_version())),
        }),
        info: AggregateInfo {
            last_update: now,
            last_command: seq as u64,
            last_event: (v + n) as u64,
            snapshot_version: m as u64,
        },
        ..rec
    })
    &&& store_unchanged_except(pre, post, h)
}

/// What one command attempt does, for every path it can take: unknown
/// aggregate, optimistic-version conflict, domain error, no-op,
/// defensive rejection of ill-formed events, or a durable commit with
/// listener fan-out.
pub open spec fn command_post<A: Aggregate, L: EventListener<A>>(
    pre: KeyStore<A>,
    post: KeyStore<A>,
    lpre: Seq<L>,
    lpost: Seq<L>,
    cmd: A::Command,
    now: i64,
    r: Result<A, A::Error>,
) -> bool {
    let h = cmd.spec_handle();
    if !pre.contains(h) {
        &&& post == pre
        &&& seen_unchanged(lpre, lpost)
        &&& (r matches Err(de) && (exists|e: AggregateStoreError|
            is_unknown_aggregate(e, h) && de == A::Error::spec_from_store(e)))
    } else {
        let rec = pre.rec_at(h);
        let agg = aggregate_of(rec);
        if cmd.spec_version() is Some && cmd.spec_version().unwrap() != agg.spec_version() {
            &&& command_touch_post(pre, post, h, now)
            &&& seen_unchanged(lpre, lpost)
            &&& (r matches Err(de) && (exists|e: AggregateStoreError|
                is_concurrent_modification(e, h) && de == A::Error::spec_from_store(e)))
        } else {
            match agg.spec_process(cmd) {
                Err(de) => {
                    &&& command_error_post(pre, post, h, now, cmd.spec_store(), de.spec_text())
                    &&& seen_unchanged(lpre, lpost)
                    &&& r == Err::<A, A::Error>(de)
                },
                Ok(es) => {
                    if es.len() == 0 {
                        &&& command_touch_post(pre, post, h, now)
                        &&& seen_unchanged(lpre, lpost)
                        &&& r == Ok::<A, A::Error>(agg)
                    } else if !events_ok::<A>(es, agg.spec_version(), h) {
                        &&& post == pre
                        &&& seen_unchanged(lpre, lpost)
                        &&& r == Err::<A, A::Error>(
                            A::Error::spec_from_store(AggregateStoreError::WrongEventForAggregate),
                        )
                    } else {
                        &&& command_success_post(pre, post, h, now, cmd.spec_store(), es)
                        &&& seen_extended(lpre, lpost, es)
                        &&& r == Ok::<A, A::Error>(fold_events(agg, es))
                    }
                },
            }
        }
    }
}

/// What adding an aggregate does: a duplicate handle, a non-zero init
/// version and an init the aggregate type rejects are all refused
/// without side effects; otherwise the init event, the initial
/// snapshot and zeroed metadata are stored.
pub open spec fn add_post<A: Aggregate>(
    pre: KeyStore<A>,
    post: KeyStore<A>,
    init: A::InitEvent,
    r: StoreResult<A>,
) -> bool {
    let h = init.spec_handle();
    if pre.contains(h) {
        &&& post == pre
        &&& (r matches Err(e) && (e matches AggregateStoreError::DuplicateAggregate(dh) && dh@ == h))
    } else if init.spec_version() != 0 {
        &&& post == pre
        &&& r == Err::<A, AggregateStoreError>(AggregateStoreError::WrongEventForAggregate)
    } else if A::spec_init(init) is None {
        &&& post == pre
        &&& r == Err::<A, AggregateStoreError>(AggregateStoreError::InitError)
    } else {
        let a = A::spec_init(init).unwrap();
        &&& post.contains(h)
        &&& post.rec_at(h) == (StoredAggregateView {
            handle: h,
            init: init,
            events: Seq::<A::Event>::empty(),
            snapshot: a,
            commands: Seq::<StoredCommandView<CmdDetailsView<A>>>::empty(),
            info: AggregateInfo { last_update: 0, last_command: 0, last_event: 0, snapshot_version: 0 },
        })
        &&& store_unchanged_except(pre, post, h)
        &&& r == Ok::<A, AggregateStoreError>(a)
    }
}

/// What a history query returns: the page of stored commands the
/// criteria select, or the error naming why none could be selected.
pub open spec fn history_post<A: Aggregate>(
    s: KeyStore<A>,
    id: Handle,
    crit: CommandHistoryCriteria,
    r: StoreResult<CommandHistory<CmdDetails<A>>>,
) -> bool {
    if !s.contains(id@) {
        r == Err::<CommandHistory<CmdDetails<A>>, AggregateStoreError>(
            AggregateStoreError::UnknownAggregate(id),
        )
    } else {
        let cmds = s.rec_at(id@).commands;
        let total = cmds.len() as int;
        if crit.offset > total {
            r == Err::<CommandHistory<CmdDetails<A>>, AggregateStoreError>(
                AggregateStoreError::CommandOffsetTooLarge(crit.offset, total as u64),
            )
        } else {
            let count = match crit.rows {
                Some(rows) => if rows <= total - crit.offset { rows as int } else { total - crit.offset },
                None => total - crit.offset,
            };
            (r matches Ok(hist) && {
                &&& hist.offset == crit.offset
                &&& hist.total == total as u64
                &&& cmd_views::<A>(hist.commands@) == cmds.subrange(
                    crit.offset as int,
                    crit.offset + count,
                )
            })
        }
    }
}

/// The store facade: the operations enumerated by the library surface,
/// with their behavior stated over the key store they manage and the
/// listeners they notify.
pub trait AggregateStore<A: Aggregate, L: EventListener<A>>: Sized {
    /// The key store behind this facade.
    spec fn store_of(&self) -> KeyStore<A>;

    /// The registered listeners, in registration order.
    spec fn listeners_of(&self) -> Seq<L>;

    /// The facade's invariant: a well-formed store whose metadata and
    /// snapshots follow the policy, and a cache that only ever holds
    /// replayed prefixes.
    spec fn inv(&self) -> bool;

    /// Gets the latest state of the aggregate named by `id`; an
    /// unknown-aggregate error when it was never added.
    fn get_latest(&mut self, id: &Handle) -> (r: StoreResult<A>)
        requires
            old(self).inv(),
        ensures
            final(self).inv(),
            final(self).store_of() == old(self).store_of(),
            final(self).listeners_of() == old(self).listeners_of(),
            (match r {
                Ok(a) => old(self).store_of().contains(id@) && a == aggregate_of(
                    old(self).store_of().rec_at(id@),
                ),
                Err(e) => !old(self).store_of().contains(id@) && e
                    == AggregateStoreError::UnknownAggregate(*id),
            }),
    ;

    /// Adds a new aggregate instance based on the init event: stores
    /// the init event and the initial snapshot, and caches the
    /// aggregate.
    fn add(&mut self, init: A::InitEvent) -> (r: StoreResult<A>)
        requires
            old(self).inv(),
        ensures
            final(self).inv(),
            final(self).listeners_of() == old(self).listeners_of(),
            add_post(old(self).store_of(), final(self).store_of(), init, r),
    ;

    /// Sends a command to the aggregate it addresses. On success the
    /// command and its events are stored durably, then every listener
    /// observes every event; a no-op stores nothing; on a domain error
    /// the command is stored with the error as its outcome.
    fn command(&mut self, cmd: A::Command) -> (r: Result<A, A::Error>)
        requires
            old(self).inv(),
            old(self).store_of().contains(cmd.spec_handle())
                ==> old(self).store_of().rec_at(cmd.spec_handle()).commands.len() < u64::MAX,
        ensures
            final(self).inv(),
            exists|now: i64|
                command_post(
                    old(self).store_of(),
                    final(self).store_of(),
                    old(self).listeners_of(),
                    final(self).listeners_of(),
                    cmd,
                    now,
                    r,
                ),
    ;

    /// Whether an aggregate exists for `id`.
    fn has(&self, id: &Handle) -> (r: bool)
        requires
            self.inv(),
        ensures
            r == self.store_of().contains(id@),
    ;

    /// The handles of all known aggregates.
    fn list(&self) -> (r: Vec<Handle>)
        requires
            self.inv(),
        ensures
            forall|i: int| 0 <= i < r@.len() ==> self.store_of().contains((#[trigger] r@[i])@),
            forall|h: Seq<char>|
                self.store_of().contains(h) ==> exists|i: int| 0 <= i < r@.len() && (#[trigger] r@[i])@ == h,
            forall|i: int, j: int| 0 <= i < j < r@.len() ==> (#[trigger] r@[i])@ != (#[trigger] r@[j])@,
    ;

    /// Registers a listener; it observes only events committed after
    /// registration.
    fn add_listener(&mut self, listener: L)
        requires
            old(self).inv(),
        ensures
            final(self).inv(),
            final(self).store_of() == old(self).store_of(),
            final(self).listeners_of() == old(self).listeners_of().push(listener),
    ;

    /// The page of stored commands of `id` the criteria select.
    fn command_history(&self, id: &Handle, crit: CommandHistoryCriteria) -> (r: StoreResult<
        CommandHistory<CmdDetails<A>>,
    >)
        requires
            self.inv(),
        ensures
            history_post(self.store_of(), *id, crit, r),
    ;

    /// The stored command of `id` named by `key`, if any.
    fn stored_command(&self, id: &Handle, key: &CommandKey) -> (r: StoreResult<
        Option<StoredCommand<CmdDetails<A>>>,
    >)
        requires
            self.inv(),
        ensures
            (r matches Ok(c) && match c {
                Some(c) => self.store_of().contains(id@) && 1 <= key.sequence
                    <= self.store_of().rec_at(id@).commands.len() && c@ == self.store_of().rec_at(
                    id@,
                ).commands[key.sequence - 1],
                None => !self.store_of().contains(id@) || key.sequence == 0 || key.sequence
                    > self.store_of().rec_at(id@).commands.len(),
            }),
    ;

    /// The stored event of `id` with this version, if any.
    fn stored_event(&self, id: &Handle, version: u64) -> (r: StoreResult<Option<A::Event>>)
        requires
            self.inv(),
        ensures
            (r matches Ok(e) && match e {
                Some(e) => self.store_of().contains(id@) && 1 <= version <= self.store_of().rec_at(
                    id@,
                ).events.len() && e == self.store_of().rec_at(id@).events[version - 1],
                None => !self.store_of().contains(id@) || version == 0 || version
                    > self.store_of().rec_at(id@).events.len(),
            }),
    ;
}

/// The disk-backed store: the key store image, a per-process cache of
/// rehydrated aggregates, and the registered listeners.
pub struct DiskAggregateStore<A: Aggregate, L: EventListener<A>> {
    pub store: KeyStore<A>,
    pub cache: Vec<(Handle, A)>,
    pub use_cache: bool,
    pub listeners: Vec<L>,
    pub name_space: String,
}

impl<A: Aggregate, L: EventListener<A>> DiskAggregateStore<A, L> {
    /// See [`AggregateStore::inv`].
    pub open spec fn wf(&self) -> bool {
        &&& self.store.wf()
        &&& forall|h: Seq<char>|
            #[trigger] self.store.contains(h) ==> rec_policy_wf(self.store.rec_at(h))
        &&& forall|i: int|
            0 <= i < self.cache@.len() ==> cache_entry_ok(
                self.store,
                (#[trigger] self.cache@[i]).0@,
                self.cache@[i].1,
            )
    }

    /// Opens a fresh store for one namespace; the store-format marker
    /// is written on first initialization of an empty store.
    pub fn new(name_space: &str) -> (r: StoreResult<Self>)
        ensures
            (r matches Ok(s) && {
                &&& s.wf()
                &&& forall|h: Seq<char>| !s.store.contains(h)
                &&& s.listeners@.len() == 0
                &&& s.cache@.len() == 0
                &&& s.use_cache
                &&& s.name_space@ == name_space@
            }),
    {
        let mut store = KeyStore::new();
        if store.entries.is_empty() {
            store.set_version(KeyStoreVersion::V0_6);
        }
        Ok(DiskAggregateStore {
            store,
            cache: Vec::new(),
            use_cache: true,
            listeners: Vec::new(),
            name_space: <String as vstd::string::StringExecFns>::from_str(name_space),
        })
    }

    /// Decides whether a store-format marker read back from disk
    /// allows this store to open: only the marker this library writes
    /// does; a missing or different one is a fatal mismatch.
    pub fn check_version(&self, marker: Option<KeyStoreVersion>) -> (r: StoreResult<()>)
        ensures
            (marker == Some(KeyStoreVersion::V0_6) ==> r == Ok::<(), AggregateStoreError>(())),
            (marker != Some(KeyStoreVersion::V0_6) ==> r == Err::<(), AggregateStoreError>(
                AggregateStoreError::KeyStoreError(KeyStoreError::VersionMismatch),
            )),
    {
        match marker {
            Some(v) => match v {
                KeyStoreVersion::V0_6 => {
                    proof {
                        assert(v == KeyStoreVersion::V0_6);
                    }
                    Ok(())
                },
            },
            None => Err(AggregateStoreError::KeyStoreError(KeyStoreError::VersionMismatch)),
        }
    }

    /// A cached copy of the aggregate named by `id`: a hit whenever
    /// the cache is in use and holds an entry for `id`, a miss
    /// otherwise. The copy may be stale, never wrong.
    fn cache_get(&self, id: &Handle) -> (r: Option<A>)
        requires
            self.wf(),
        ensures
            (r matches Some(a) ==> {
                &&& self.use_cache
                &&& cache_entry_ok(self.store, id@, a)
                &&& exists|i: int|
                    0 <= i < self.cache@.len() && (#[trigger] self.cache@[i]).0@ == id@ && a
                        == self.cache@[i].1
            }),
            (self.use_cache && (exists|i: int|
                0 <= i < self.cache@.len() && (#[trigger] self.cache@[i]).0@ == id@)) ==> r is Some,
            !self.use_cache ==> r is None,
    {
        if self.use_cache {
            let n = self.cache.len();
            let mut i: usize = 0;
            while i < n
                invariant
                    self.wf(),
                    self.use_cache,
                    i <= n,
                    n == self.cache@.len(),
                    forall|j: int| 0 <= j < i ==> (#[trigger] self.cache@[j]).0@ != id@,
                decreases n - i,
            {
                if self.cache[i].0.eq(id) {
                    proof {
                        assert(self.cache@[i as int].0@ == id@);
                    }
                    return Some(self.cache[i].1.clone_agg());
                }
                i = i + 1;
            }
            None
        } else {
            None
        }
    }

    /// Replaces or inserts the cached copy for `id`: afterwards, when
    /// the cache is in use, it holds `agg` under `id`.
    fn cache_update(&mut self, id: &Handle, agg: A)
        requires
            old(self).store.wf(),
            forall|i: int|
                0 <= i < old(self).cache@.len() ==> cache_entry_ok(
                    old(self).store,
                    (#[trigger] old(self).cache@[i]).0@,
                    old(self).cache@[i].1,
                ),
            cache_entry_ok(old(self).store, id@, agg),
        ensures
            final(self).store == old(self).store,
            final(self).listeners == old(self).listeners,
            final(self).use_cache == old(self).use_cache,
            forall|i: int|
                0 <= i < final(self).cache@.len() ==> cache_entry_ok(
                    final(self).store,
                    (#[trigger] final(self).cache@[i]).0@,
                    final(self).cache@[i].1,
                ),
            final(self).use_cache ==> exists|i: int|
                0 <= i < final(self).cache@.len() && (#[trigger] final(self).cache@[i]).0@ == id@
                    && final(self).cache@[i].1 == agg,
    {
        if self.use_cache {
            let n = self.cache.len();
            let mut found: Option<usize> = None;
            let mut i: usize = 0;
            while i < n
                invariant
                    i <= n,
                    n == self.cache@.len(),
                    (found matches Some(k) ==> k < n),
                decreases n - i,
            {
                if found.is_none() && self.cache[i].0.eq(id) {
                    found = Some(i);
                }
                i = i + 1;
            }
            match found {
                Some(k) => {
                    self.cache[k] = (id.clone(), agg);
                    proof {
                        assert(self.cache@[k as int].0@ == id@);
                    }
                },
                None => {
                    self.cache.push((id.clone(), agg));
                    proof {
                        assert(self.cache@[n as int].0@ == id@);
                    }
                },
            }
        }
    }

    /// Whether events newer than the aggregate's version are stored
    /// for `id`: the cached copy is then stale.
    fn has_updates(&self, id: &Handle, aggregate: &A) -> (r: StoreResult<bool>)
        requires
            self.wf(),
        ensures
            (r matches Ok(b) && b == (self.store.contains(id@)
                && aggregate.spec_version() < self.store.rec_at(id@).events.len())),
    {
        if !self.store.has_aggregate(id) {
            Ok(false)
        } else {
            let len = self.store.events_len(id);
            Ok(aggregate.version() < len as u64)
        }
    }

    /// The cache-coherent load path: a cache hit is refreshed from any
    /// newer stored events; a miss rehydrates from the store and fills
    /// the cache.
    fn get_latest_no_lock(&mut self, handle: &Handle) -> (r: StoreResult<A>)
        requires
            old(self).wf(),
        ensures
            final(self).wf(),
            final(self).store == old(self).store,
            final(self).listeners == old(self).listeners,
            final(self).use_cache == old(self).use_cache,
            (match r {
                Ok(a) => old(self).store.contains(handle@) && a == aggregate_of(
                    old(self).store.rec_at(handle@),
                ),
                Err(e) => !old(self).store.contains(handle@) && e
                    == AggregateStoreError::UnknownAggregate(*handle),
            }),
    {
        match self.cache_get(handle) {
            None => match self.store.get_aggregate(handle) {
                None => Err(AggregateStoreError::UnknownAggregate(handle.clone())),
                Some(agg) => {
                    proof {
                        lemma_aggregate_of_props(self.store.rec_at(handle@));
                        assert(self.store.rec_at(handle@).events.take(
                            self.store.rec_at(handle@).events.len() as int,
                        ) =~= self.store.rec_at(handle@).events);
                    }
                    let cached = agg.clone_agg();
                    self.cache_update(handle, cached);
                    Ok(agg)
                },
            },
            Some(mut cached) => {
                let stale = self.has_updates(handle, &cached).unwrap();
                if stale {
                    self.store.update_aggregate(handle, &mut cached);
                    proof {
                        lemma_aggregate_of_props(self.store.rec_at(handle@));
                        assert(self.store.rec_at(handle@).events.take(
                            cached.spec_version() as int,
                        ) =~= self.store.rec_at(handle@).events);
                    }
                    let fresh = cached.clone_agg();
                    self.cache_update(handle, fresh);
                    Ok(cached)
                } else {
                    proof {
                        assert(cached.spec_version() == self.store.rec_at(handle@).events.len());
                        assert(self.store.rec_at(handle@).events.take(
                            cached.spec_version() as int,
                        ) =~= self.store.rec_at(handle@).events);
                    }
                    Ok(cached)
                }
            },
        }
    }
}

/// A structurally well-formed record rehydrates to an aggregate at the
/// version of its last event, under its own handle.
pub proof fn lemma_aggregate_of_props<A: Aggregate>(rec: StoredAggregateView<A>)
    requires
        rec_struct_wf(rec),
    ensures
        aggregate_of(rec).spec_version() == rec.events.len(),
        aggregate_of(rec).spec_handle() == rec.handle,
{
    A::lemma_init_properties(rec.init);
    lemma_fold_version(base_of(rec), rec.events);
}

/// Changing nothing outside one aggregate composes.
pub proof fn lemma_unchanged_trans<A: Aggregate>(
    s1: KeyStore<A>,
    s2: KeyStore<A>,
    s3: KeyStore<A>,
    h: Seq<char>,
)
    requires
        store_unchanged_except(s1, s2, h),
        store_unchanged_except(s2, s3, h),
    ensures
        store_unchanged_except(s1, s3, h),
{
    assert forall|h2: Seq<char>| h2 != h && s1.contains(h2) implies s3.rec_at(h2) == s1.rec_at(h2) by {
        assert(s2.contains(h2));
    }
}

/// Cached prefixes stay coherent when a store changes only in one
/// aggregate, and there only by extending the events and rewriting the
/// snapshot, the commands or the metadata.
pub proof fn lemma_cache_preserved<A: Aggregate>(
    pre: KeyStore<A>,
    post: KeyStore<A>,
    cache: Seq<(Handle, A)>,
    h: Seq<char>,
)
    requires
        forall|i: int| 0 <= i < cache.len() ==> cache_entry_ok(pre, (#[trigger] cache[i]).0@, cache[i].1),
        store_unchanged_except(pre, post, h),
        pre.contains(h) ==> {
            &&& post.contains(h)
            &&& post.rec_at(h).init == pre.rec_at(h).init
            &&& post.rec_at(h).events.len() >= pre.rec_at(h).events.len()
            &&& forall|j: int|
                0 <= j < pre.rec_at(h).events.len() ==> post.rec_at(h).events[j] == pre.rec_at(
                    h,
                ).events[j]
        },
    ensures
        forall|i: int| 0 <= i < cache.len() ==> cache_entry_ok(post, (#[trigger] cache[i]).0@, cache[i].1),
{
    assert forall|i: int| 0 <= i < cache.len() implies cache_entry_ok(
        post,
        (#[trigger] cache[i]).0@,
        cache[i].1,
    ) by {
        let eh = cache[i].0@;
        let a = cache[i].1;
        if eh == h {
            let prerec = pre.rec_at(h);
            let postrec = post.rec_at(h);
            let k = a.spec_version() as int;
            assert(postrec.events.take(k) =~= prerec.events.take(k));
        }
    }
}

impl<A: Aggregate, L: EventListener<A>> DiskAggregateStore<A, L> {
    /// One command attempt at a given timestamp. This is [`AggregateStore::command`]
    /// with the clock reading passed in, so that every outcome, the
    /// stored timestamp included, is determined by the arguments.
    #[verifier::loop_isolation(false)]
    pub fn command_at(&mut self, cmd: A::Command, now: i64) -> (r: Result<A, A::Error>)
        requires
            old(self).wf(),
            old(self).store.contains(cmd.spec_handle()) ==> old(self).store.rec_at(
                cmd.spec_handle(),
            ).commands.len() < u64::MAX,
        ensures
            final(self).wf(),
            command_post(
                old(self).store,
                final(self).store,
                old(self).listeners@,
                final(self).listeners@,
                cmd,
                now,
                r,
            ),
    {
        let ghost pre = self.store;
        let ghost lpre = self.listeners@;
        let ghost h = cmd.spec_handle();

        let handle = cmd.handle().clone();

        let latest = match self.get_latest_no_lock(&handle) {
            Err(e) => {
                proof {
                    assert(is_unknown_aggregate(e, h));
                }
                return Err(A::Error::from_store(e));
            },
            Ok(a) => a,
        };
        let ghost rec0 = self.store.rec_at(h);
        proof {
            assert(self.store.contains(h));
            lemma_aggregate_of_props(rec0);
        }

        let mut info = self.store.get_info(&handle);
        info.last_update = now;

        if let Some(expected) = cmd.version() {
            if expected != latest.version() {
                self.store.save_info(&handle, info);
                proof {
                    assert(self.store.rec_at(h) =~= (StoredAggregateView {
                        info: AggregateInfo { last_update: now, ..rec0.info },
                        ..rec0
                    }));
                    assert(rec_policy_wf(self.store.rec_at(h)));
                    lemma_cache_preserved(pre, self.store, self.cache@, h);
                }
                let e = AggregateStoreError::ConcurrentModification(handle);
                proof {
                    assert(is_concurrent_modification(e, h));
                }
                return Err(A::Error::from_store(e));
            }
        }

        let version_before = latest.version();
        let next_seq = info.last_command + 1;
        let builder = StoredCommandBuilder::new(cmd.store(), version_before, next_seq, now);

        match latest.process_command(cmd) {
            Err(err) => {
                let text = err.error_text();
                let stored = builder.finish_with_error(text);
                self.store.store_command(&handle, stored);
                let ghost mid = self.store;
                info.last_command = next_seq;
                self.store.save_info(&handle, info);
                proof {
                    lemma_unchanged_trans(pre, mid, self.store, h);
                    assert(self.store.rec_at(h) =~= (StoredAggregateView {
                        commands: rec0.commands.push(StoredCommandView {
                            details: builder.details@,
                            sequence: next_seq,
                            version: version_before,
                            timestamp: now,
                            effect: StoredEffectView::Error(err.spec_text()),
                        }),
                        info: AggregateInfo { last_update: now, last_command: next_seq, ..rec0.info },
                        ..rec0
                    }));
                    assert(rec_policy_wf(self.store.rec_at(h)));
                    lemma_cache_preserved(pre, self.store, self.cache@, h);
                    assert(command_error_post(pre, self.store, h, now, cmd.spec_store(), err.spec_text()));
                }
                Err(err)
            },
            Ok(events) => {
                if events.len() == 0 {
                    self.store.save_info(&handle, info);
                    proof {
                        assert(self.store.rec_at(h) =~= (StoredAggregateView {
                            info: AggregateInfo { last_update: now, ..rec0.info },
                            ..rec0
                        }));
                        assert(rec_policy_wf(self.store.rec_at(h)));
                        lemma_cache_preserved(pre, self.store, self.cache@, h);
                    }
                    return Ok(latest);
                }

                // Defensive check: the events must be a contiguous run of
                // versions right after the current one, all under this
                // aggregate's handle.
                let n = events.len();
                let mut i: usize = 0;
                let mut expected: u64 = version_before;
                while i < n
                    invariant
                        i <= n,
                        n == events@.len(),
                        expected == version_before + i,
                        version_before + i <= u64::MAX,
                        forall|j: int|
                            0 <= j < i ==> (#[trigger] events@[j]).spec_version() == version_before
                                + 1 + j && events@[j].spec_handle() == h,
                    decreases n - i,
                {
                    if expected == u64::MAX {
                        proof {
                            assert(events@[i as int].spec_version() < version_before + 1 + i);
                            assert(!events_ok::<A>(events@, version_before, h));
                        }
                        return Err(A::Error::from_store(AggregateStoreError::WrongEventForAggregate));
                    }
                    expected = expected + 1;
                    if !(events[i].version() == expected && events[i].handle().eq(&handle)) {
                        proof {
                            assert(!events_ok::<A>(events@, version_before, h));
                        }
                        return Err(A::Error::from_store(AggregateStoreError::WrongEventForAggregate));
                    }
                    i = i + 1;
                }
                proof {
                    assert(events_ok::<A>(events@, version_before, h));
                }

                // The versions the stored command records as its outcome.
                let mut versions: Vec<u64> = Vec::new();
                let mut vi: usize = 0;
                while vi < n
                    invariant
                        vi <= n,
                        n == events@.len(),
                        versions@.len() == vi,
                        forall|j: int|
                            0 <= j < vi ==> versions@[j] == (#[trigger] events@[j]).spec_version(),
                    decreases n - vi,
                {
                    versions.push(events[vi].version());
                    vi = vi + 1;
                }
                proof {
                    assert(versions@ =~= events@.map_values(|e: A::Event| e.spec_version()));
                }

                let stored = builder.finish_with_events(versions);
                self.store.store_command(&handle, stored);
                info.last_command = next_seq;
                proof {
                    assert(events@[n - 1].spec_version() == version_before + n);
                }
                info.last_event = version_before + n as u64;

                let ghost rec1 = self.store.rec_at(h);
                proof {
                    lemma_cache_preserved(pre, self.store, self.cache@, h);
                }

                let ghost agg0 = aggregate_of(rec0);
                let mut agg = latest;
                let mut k: usize = 0;
                while k < n
                    invariant
                        k <= n,
                        n == events@.len(),
                        n >= 1,
                        handle@ == h,
                        version_before == rec0.events.len(),
                        version_before + n <= u64::MAX,
                        rec0.commands.len() < u64::MAX,
                        events_ok::<A>(events@, version_before, h),
                        agg0 == aggregate_of(rec0),
                        agg0.spec_version() == version_before,
                        agg0.spec_handle() == h,
                        rec_struct_wf(rec0),
                        agg == fold_events(agg0, events@.take(k as int)),
                        agg.spec_version() == version_before + k,
                        agg.spec_handle() == h,
                        self.store.wf(),
                        self.store.contains(h),
                        self.store.rec_at(h).handle == rec0.handle,
                        self.store.rec_at(h).init == rec0.init,
                        self.store.rec_at(h).commands == rec1.commands,
                        self.store.rec_at(h).info == rec0.info,
                        self.store.rec_at(h).events == rec0.events + events@.take(k as int),
                        info.snapshot_version as int == snap_level(version_before + k),
                        self.store.rec_at(h).snapshot.spec_version() == info.snapshot_version,
                        self.store.rec_at(h).snapshot == fold_events(
                            base_of(self.store.rec_at(h)),
                            self.store.rec_at(h).events.take(info.snapshot_version as int),
                        ),
                        store_unchanged_except(pre, self.store, h),
                        forall|i2: int|
                            0 <= i2 < self.cache@.len() ==> cache_entry_ok(
                                self.store,
                                (#[trigger] self.cache@[i2]).0@,
                                self.cache@[i2].1,
                            ),
                        forall|h2: Seq<char>|
                            h2 != h && #[trigger] self.store.contains(h2) ==> rec_policy_wf(
                                self.store.rec_at(h2),
                            ),
                        self.listeners == old(self).listeners,
                        self.use_cache == old(self).use_cache,
                        rec1.commands == rec0.commands.push(StoredCommandView {
                            details: cmd.spec_store(),
                            sequence: next_seq,
                            version: version_before,
                            timestamp: now,
                            effect: StoredEffectView::Events(
                                events@.map_values(|e: A::Event| e.spec_version()),
                            ),
                        }),
                        info.last_update == now,
                        info.last_command == next_seq,
                        next_seq == rec0.commands.len() + 1,
                        info.last_event == version_before + n,
                    decreases n - k,
                {
                    let ghost store_before = self.store;
                    let event_for_store = events[k].clone_event();
                    self.store.store_event(event_for_store);
                    proof {
                        assert(self.store.rec_at(h).events =~= rec0.events + events@.take(
                            k + 1 as int,
                        ));
                        lemma_unchanged_trans(pre, store_before, self.store, h);
                        lemma_cache_preserved(store_before, self.store, self.cache@, h);
                        assert(self.store.rec_at(h).events.take(info.snapshot_version as int)
                            =~= store_before.rec_at(h).events.take(info.snapshot_version as int));
                        agg.lemma_apply_properties(events@[k as int]);
                        lemma_fold_push(agg0, events@.take(k as int), events@[k as int]);
                        assert(events@.take(k as int).push(events@[k as int]) =~= events@.take(
                            k + 1 as int,
                        ));
                    }
                    let event_to_apply = events[k].clone_event();
                    agg.apply(event_to_apply);
                    if agg.version() % SNAPSHOT_FREQ == 0 {
                        info.snapshot_version = agg.version();
                        let ghost store_mid = self.store;
                        proof {
                            lemma_fold_concat(base_of(rec0), rec0.events, events@.take(k + 1 as int));
                            assert(self.store.rec_at(h).events.take(agg.spec_version() as int)
                                =~= self.store.rec_at(h).events);
                        }
                        self.store.store_snapshot(&handle, agg.clone_agg());
                        proof {
                            lemma_unchanged_trans(pre, store_mid, self.store, h);
                            lemma_cache_preserved(store_mid, self.store, self.cache@, h);
                        }
                    }
                    proof {
                        assert(info.snapshot_version as int == snap_level(version_before + k + 1)) by {
                            let v1 = version_before + k + 1;
                            if v1 % (SNAPSHOT_FREQ as int) == 0 {
                                assert(SNAPSHOT_FREQ as int * (v1 / (SNAPSHOT_FREQ as int)) == v1)
                                    by (nonlinear_arith)
                                    requires
                                        v1 % (SNAPSHOT_FREQ as int) == 0,
                                        SNAPSHOT_FREQ as int == 5,
                                        v1 >= 0,
                                ;
                            } else {
                                assert(snap_level(v1) == snap_level(v1 - 1)) by (nonlinear_arith)
                                    requires
                                        v1 % (SNAPSHOT_FREQ as int) != 0,
                                        SNAPSHOT_FREQ as int == 5,
                                        v1 >= 1,
                                ;
                            }
                        }
                        assert(self.store.rec_at(h).snapshot == fold_events(
                            base_of(self.store.rec_at(h)),
                            self.store.rec_at(h).events.take(info.snapshot_version as int),
                        ));
                    }
                    k = k + 1;
                }

                proof {
                    assert(events@.take(n as int) =~= events@);
                    assert(self.store.rec_at(h).events =~= rec0.events + events@);
                    lemma_aggregate_of_props(self.store.rec_at(h));
                    lemma_fold_concat(base_of(rec0), rec0.events, events@);
                    assert(agg == fold_events(
                        base_of(self.store.rec_at(h)),
                        self.store.rec_at(h).events,
                    ));
                    assert(self.store.rec_at(h).events.take(agg.spec_version() as int)
                        =~= self.store.rec_at(h).events);
                }
                let fresh = agg.clone_agg();
                self.cache_update(&handle, fresh);
                let ghost store_mid2 = self.store;
                self.store.save_info(&handle, info);
                proof {
                    lemma_unchanged_trans(pre, store_mid2, self.store, h);
                    lemma_cache_preserved(store_mid2, self.store, self.cache@, h);
                    assert(self.store.rec_at(h) =~= (StoredAggregateView {
                        events: rec0.events + events@,
                        snapshot: fold_events(
                            base_of(rec0),
                            (rec0.events + events@).take(snap_level(rec0.events.len() + events@.len() as int)),
                        ),
                        commands: rec0.commands.push(StoredCommandView {
                            details: cmd.spec_store(),
                            sequence: next_seq,
                            version: version_before,
                            timestamp: now,
                            effect: StoredEffectView::Events(
                                events@.map_values(|e: A::Event| e.spec_version()),
                            ),
                        }),
                        info: AggregateInfo {
                            last_update: now,
                            last_command: next_seq,
                            last_event: (rec0.events.len() + events@.len()) as u64,
                            snapshot_version: snap_level(rec0.events.len() + events@.len() as int) as u64,
                        },
                        ..rec0
                    }));
                    assert(rec_policy_wf(self.store.rec_at(h)));
                    assert(command_success_post(pre, self.store, h, now, cmd.spec_store(), events@));
                }

                // Fan-out: only after everything has been saved does any
                // listener observe any event.
                proof {
                    assert(self.wf());
                }
                let ghost store_final = self.store;
                let ghost cache_final = self.cache;
                let mut ei: usize = 0;
                while ei < n
                    invariant
                        ei <= n,
                        n == events@.len(),
                        self.store == store_final,
                        self.cache == cache_final,
                        self.wf(),
                        self.listeners@.len() == lpre.len(),
                        forall|j: int|
                            0 <= j < lpre.len() ==> (#[trigger] self.listeners@[j]).seen() == lpre[j].seen() + events@.take(ei as int),
                    decreases n - ei,
                {
                    let nl = self.listeners.len();
                    let mut li: usize = 0;
                    while li < nl
                        invariant
                            li <= nl,
                            ei < n,
                            n == events@.len(),
                            nl == lpre.len(),
                            self.listeners@.len() == lpre.len(),
                            self.store == store_final,
                            self.cache == cache_final,
                            self.wf(),
                            forall|j: int|
                                0 <= j < li ==> (#[trigger] self.listeners@[j]).seen() == (lpre[j].seen() + events@.take(ei as int)).push(events@[ei as int]),
                            forall|j: int|
                                li <= j < lpre.len() ==> (#[trigger] self.listeners@[j]).seen()
                                    == lpre[j].seen() + events@.take(ei as int),
                        decreases nl - li,
                    {
                        self.listeners[li].listen(&agg, &events[ei]);
                        li = li + 1;
                    }
                    proof {
                        assert forall|j: int| 0 <= j < lpre.len() implies (
                        #[trigger] self.listeners@[j]).seen() == lpre[j].seen() + events@.take(
                            ei + 1 as int,
                        ) by {
                            assert((lpre[j].seen() + events@.take(ei as int)).push(
                                events@[ei as int],
                            ) =~= lpre[j].seen() + events@.take(ei + 1 as int));
                        }
                    }
                    ei = ei + 1;
                }
                proof {
                    assert(events@.take(n as int) =~= events@);
                    assert(seen_extended(lpre, self.listeners@, events@));
                }
                Ok(agg)
            },
        }
    }
}

impl<A: Aggregate, L: EventListener<A>> AggregateStore<A, L> for DiskAggregateStore<A, L> {
    open spec fn store_of(&self) -> KeyStore<A> {
        self.store
    }

    open spec fn listeners_of(&self) -> Seq<L> {
        self.listeners@
    }

    open spec fn inv(&self) -> bool {
        self.wf()
    }

    fn get_latest(&mut self, id: &Handle) -> (r: StoreResult<A>) {
        self.get_latest_no_lock(id)
    }

    fn add(&mut self, init: A::InitEvent) -> (r: StoreResult<A>) {
        let ghost pre = self.store;
        let ghost h = init.spec_handle();
        if self.store.has_aggregate(init.handle()) {
            return Err(AggregateStoreError::DuplicateAggregate(init.handle().clone()));
        }
        if init.version() != 0 {
            return Err(AggregateStoreError::WrongEventForAggregate);
        }
        let aggregate = match A::init(init.clone_event()) {
            Err(_) => {
                return Err(AggregateStoreError::InitError);
            },
            Ok(a) => a,
        };
        let handle = init.handle().clone();
        proof {
            A::lemma_init_properties(init);
        }
        let cached = aggregate.clone_agg();
        self.store.create_aggregate(init, aggregate.clone_agg());
        proof {
            assert(rec_policy_wf(self.store.rec_at(h)));
            lemma_cache_preserved(pre, self.store, self.cache@, h);
            assert(self.wf());
            assert(self.store.rec_at(h).events.take(0) =~= Seq::<A::Event>::empty());
        }
        self.cache_update(&handle, cached);
        Ok(aggregate)
    }

    fn command(&mut self, cmd: A::Command) -> (r: Result<A, A::Error>) {
        let now = crate::clock::now_timestamp();
        let r = self.command_at(cmd, now);
        proof {
            assert(command_post(
                old(self).store_of(),
                self.store_of(),
                old(self).listeners_of(),
                self.listeners_of(),
                cmd,
                now,
                r,
            ));
            assert(exists|t: i64|
                command_post(
                    old(self).store_of(),
                    self.store_of(),
                    old(self).listeners_of(),
                    self.listeners_of(),
                    cmd,
                    t,
                    r,
                ));
        }
        r
    }

    fn has(&self, id: &Handle) -> (r: bool) {
        self.store.has_aggregate(id)
    }

    fn list(&self) -> (r: Vec<Handle>) {
        let r = self.store.aggregates();
        proof {
            assert forall|h: Seq<char>| self.store.contains(h) implies exists|i: int|
                0 <= i < r@.len() && (#[trigger] r@[i])@ == h by {
                let j = self.store.idx_of(h);
                assert(r@[j]@ == h);
            }
        }
        r
    }

    fn add_listener(&mut self, listener: L) {
        self.listeners.push(listener);
    }

    fn command_history(&self, id: &Handle, crit: CommandHistoryCriteria) -> (r: StoreResult<
        CommandHistory<CmdDetails<A>>,
    >) {
        if !self.store.has_aggregate(id) {
            return Err(AggregateStoreError::UnknownAggregate(id.clone()));
        }
        let ghost cmds = self.store.rec_at(id@).commands;
        let total = self.store.commands_len(id);
        if crit.offset > total as u64 {
            return Err(AggregateStoreError::CommandOffsetTooLarge(crit.offset, total as u64));
        }
        let remaining = total as u64 - crit.offset;
        let count: u64 = match crit.rows {
            Some(rows) => if rows <= remaining {
                rows
            } else {
                remaining
            },
            None => remaining,
        };
        let mut commands: Vec<StoredCommand<CmdDetails<A>>> = Vec::new();
        let mut i: u64 = 0;
        while i < count
            invariant
                i <= count,
                crit.offset + count <= total,
                total == cmds.len(),
                self.inv(),
                self.store.contains(id@),
                cmds == self.store.rec_at(id@).commands,
                commands@.len() == i,
                forall|j: int|
                    0 <= j < i ==> (#[trigger] commands@[j])@ == cmds[crit.offset + j],
            decreases count - i,
        {
            let c = self.store.get_command(id, crit.offset + i + 1).unwrap();
            let ghost cv = c@;
            proof {
                assert(cv == cmds[crit.offset + i]);
            }
            commands.push(c);
            i = i + 1;
        }
        proof {
            assert forall|j: int| 0 <= j < count implies cmd_views::<A>(commands@)[j]
                == cmds.subrange(crit.offset as int, crit.offset + count)[j] by {
                assert(commands@[j]@ == cmds[crit.offset + j]);
            }
            assert(cmd_views::<A>(commands@) =~= cmds.subrange(
                crit.offset as int,
                crit.offset + count,
            ));
        }
        Ok(CommandHistory { offset: crit.offset, total: total as u64, commands })
    }

    fn stored_command(&self, id: &Handle, key: &CommandKey) -> (r: StoreResult<
        Option<StoredCommand<CmdDetails<A>>>,
    >) {
        match self.store.get(id, &key.as_key()) {
            Some(StoredValue::Command(c)) => Ok(Some(c)),
            _ => Ok(None),
        }
    }

    fn stored_event(&self, id: &Handle, version: u64) -> (r: StoreResult<Option<A::Event>>) {
        Ok(self.store.get_event(id, version))
    }
}

/// One aggregate's on-disk pieces are restorable when the init event
/// stands at version 0 and constructs an aggregate, the events are
/// contiguous from version 1 under the init event's handle, the
/// commands are contiguous from sequence 1, and the metadata counters
/// match what is stored.
pub open spec fn restorable<A: Aggregate>(
    init: A::InitEvent,
    events: Seq<A::Event>,
    commands: Seq<StoredCommandView<CmdDetailsView<A>>>,
    info: AggregateInfo,
) -> bool {
    &&& init.spec_version() == 0
    &&& A::spec_init(init) is Some
    &&& forall|i: int|
        0 <= i < events.len() ==> (#[trigger] events[i]).spec_version() == i + 1
            && events[i].spec_handle() == init.spec_handle()
    &&& forall|i: int| 0 <= i < commands.len() ==> (#[trigger] commands[i]).sequence == i + 1
    &&& info.last_command == commands.len()
    &&& info.last_event == events.len()
    &&& info.snapshot_version as int == snap_level(events.len() as int)
}

impl<A: Aggregate, L: EventListener<A>> DiskAggregateStore<A, L> {
    /// Rebuilds the record of one aggregate from its on-disk pieces, as
    /// read back when a store directory is reopened: the init event,
    /// the regular events in version order, the stored commands in
    /// sequence order, and the metadata record. Everything is checked
    /// before anything is stored; the snapshot is rebuilt by replay at
    /// the version the metadata names.
    #[verifier::loop_isolation(false)]
    pub fn restore_aggregate(
        &mut self,
        init: A::InitEvent,
        events: Vec<A::Event>,
        commands: Vec<StoredCommand<CmdDetails<A>>>,
        info: AggregateInfo,
    ) -> (r: StoreResult<()>)
        requires
            old(self).wf(),
        ensures
            final(self).wf(),
            final(self).listeners == old(self).listeners,
            (match r {
                Ok(_) => {
                    &&& !old(self).store.contains(init.spec_handle())
                    &&& restorable::<A>(init, events@, cmd_views::<A>(commands@), info)
                    &&& final(self).store.contains(init.spec_handle())
                    &&& final(self).store.rec_at(init.spec_handle()) == (StoredAggregateView {
                        handle: init.spec_handle(),
                        init: init,
                        events: events@,
                        snapshot: fold_events(
                            A::spec_init(init).unwrap(),
                            events@.take(info.snapshot_version as int),
                        ),
                        commands: cmd_views::<A>(commands@),
                        info: info,
                    })
                    &&& store_unchanged_except(
                        old(self).store,
                        final(self).store,
                        init.spec_handle(),
                    )
                },
                Err(_) => {
                    &&& final(self).store == old(self).store
                    &&& (old(self).store.contains(init.spec_handle()) || !restorable::<A>(
                        init,
                        events@,
                        cmd_views::<A>(commands@),
                        info,
                    ))
                },
            }),
    {
        let ghost pre = self.store;
        let ghost h = init.spec_handle();
        let handle = init.handle().clone();
        if self.store.has_aggregate(&handle) {
            return Err(AggregateStoreError::DuplicateAggregate(handle));
        }
        if init.version() != 0 {
            return Err(AggregateStoreError::WrongEventForAggregate);
        }
        let base = match A::init(init.clone_event()) {
            Err(_) => {
                return Err(AggregateStoreError::InitError);
            },
            Ok(a) => a,
        };
        let n = events.len();
        let mut i: usize = 0;
        while i < n
            invariant
                i <= n,
                forall|j: int|
                    0 <= j < i ==> (#[trigger] events@[j]).spec_version() == j + 1
                        && events@[j].spec_handle() == h,
            decreases n - i,
        {
            if !(events[i].version() == (i as u64) + 1 && events[i].handle().eq(&handle)) {
                return Err(AggregateStoreError::WrongEventForAggregate);
            }
            i = i + 1;
        }
        let nc = commands.len();
        let mut ci: usize = 0;
        while ci < nc
            invariant
                ci <= nc,
                forall|j: int| 0 <= j < ci ==> cmd_views::<A>(commands@)[j].sequence == j + 1,
            decreases nc - ci,
        {
            if commands[ci].sequence != (ci as u64) + 1 {
                proof {
                    assert(cmd_views::<A>(commands@)[ci as int].sequence != ci + 1);
                }
                return Err(AggregateStoreError::KeyStoreError(KeyStoreError::Other(
                    String::from_str("stored command sequences are not contiguous"),
                )));
            }
            ci = ci + 1;
        }
        proof {
            assert((n as int / SNAPSHOT_FREQ as int) * SNAPSHOT_FREQ as int <= n as int)
                by (nonlinear_arith)
                requires
                    n >= 0,
                    SNAPSHOT_FREQ as int == 5,
            ;
        }
        let snap_version = (n as u64 / SNAPSHOT_FREQ) * SNAPSHOT_FREQ;
        if !(info.last_command == nc as u64 && info.last_event == n as u64
            && info.snapshot_version == snap_version) {
            return Err(AggregateStoreError::KeyStoreError(KeyStoreError::Other(
                String::from_str("metadata does not match the stored records"),
            )));
        }
        proof {
            assert(restorable::<A>(init, events@, cmd_views::<A>(commands@), info));
            A::lemma_init_properties(init);
        }

        // Everything checks out: create the record, replay the events
        // into it, rebuild the snapshot, and write the metadata.
        self.store.create_aggregate(init, base.clone_agg());
        proof {
            lemma_cache_preserved(pre, self.store, self.cache@, h);
        }
        let ghost base_spec = A::spec_init(init).unwrap();
        let mut k: usize = 0;
        while k < n
            invariant
                k <= n,
                self.store.wf(),
                self.store.contains(h),
                self.store.rec_at(h).handle == h,
                self.store.rec_at(h).init == init,
                self.store.rec_at(h).events == events@.take(k as int),
                self.store.rec_at(h).snapshot == base_spec,
                self.store.rec_at(h).commands == Seq::<
                    StoredCommandView<CmdDetailsView<A>>,
                >::empty(),
                self.store.rec_at(h).info == (AggregateInfo {
                    last_update: 0,
                    last_command: 0,
                    last_event: 0,
                    snapshot_version: 0,
                }),
                store_unchanged_except(pre, self.store, h),
                forall|i2: int|
                    0 <= i2 < self.cache@.len() ==> cache_entry_ok(
                        self.store,
                        (#[trigger] self.cache@[i2]).0@,
                        self.cache@[i2].1,
                    ),
                self.listeners == old(self).listeners,
                self.use_cache == old(self).use_cache,
            decreases n - k,
        {
            let ghost store_before = self.store;
            self.store.store_event(events[k].clone_event());
            proof {
                lemma_unchanged_trans(pre, store_before, self.store, h);
                lemma_cache_preserved(store_before, self.store, self.cache@, h);
                assert(self.store.rec_at(h).events =~= events@.take(k + 1 as int));
            }
            k = k + 1;
        }

        // Rebuild the snapshot at the version the metadata names.
        let mut snapshot = base;
        let mut sk: usize = 0;
        let snap_len = snap_version as usize;
        proof {
            assert(snap_level(n as int) <= n as int) by (nonlinear_arith)
                requires
                    n >= 0,
            ;
            assert(events@.take(0) =~= Seq::<A::Event>::empty());
        }
        while sk < snap_len
            invariant
                sk <= snap_len,
                snap_len <= n,
                snap_len == snap_version,
                snapshot == fold_events(base_spec, events@.take(sk as int)),
                snapshot.spec_version() == sk,
                snapshot.spec_handle() == h,
            decreases snap_len - sk,
        {
            let e = events[sk].clone_event();
            proof {
                lemma_fold_take_succ(base_spec, events@, sk as int);
                snapshot.lemma_apply_properties(e);
            }
            snapshot.apply(e);
            sk = sk + 1;
        }
        let ghost store_before_snap = self.store;
        proof {
            assert(self.store.rec_at(h).events =~= events@);
        }
        self.store.store_snapshot(&handle, snapshot);
        proof {
            lemma_unchanged_trans(pre, store_before_snap, self.store, h);
            lemma_cache_preserved(store_before_snap, self.store, self.cache@, h);
        }

        // Store the commands in sequence order.
        let mut ck: usize = 0;
        while ck < nc
            invariant
                ck <= nc,
                self.store.wf(),
                self.store.contains(h),
                self.store.rec_at(h).handle == h,
                self.store.rec_at(h).init == init,
                self.store.rec_at(h).events == events@,
                self.store.rec_at(h).snapshot == fold_events(
                    base_spec,
                    events@.take(snap_version as int),
                ),
                self.store.rec_at(h).commands == cmd_views::<A>(commands@).take(ck as int),
                self.store.rec_at(h).info == (AggregateInfo {
                    last_update: 0,
                    last_command: 0,
                    last_event: 0,
                    snapshot_version: 0,
                }),
                store_unchanged_except(pre, self.store, h),
                forall|i2: int|
                    0 <= i2 < self.cache@.len() ==> cache_entry_ok(
                        self.store,
                        (#[trigger] self.cache@[i2]).0@,
                        self.cache@[i2].1,
                    ),
                self.listeners == old(self).listeners,
                self.use_cache == old(self).use_cache,
            decreases nc - ck,
        {
            let ghost store_before = self.store;
            let c = commands[ck].clone_stored();
            proof {
                assert(cmd_views::<A>(commands@)[ck as int].sequence == ck + 1);
                assert(c.sequence == ck + 1);
            }
            self.store.store_command(&handle, c);
            proof {
                lemma_unchanged_trans(pre, store_before, self.store, h);
                lemma_cache_preserved(store_before, self.store, self.cache@, h);
                assert(self.store.rec_at(h).commands =~= cmd_views::<A>(commands@).take(
                    ck + 1 as int,
                ));
            }
            ck = ck + 1;
        }

        let ghost store_before_info = self.store;
        self.store.save_info(&handle, info);
        proof {
            lemma_unchanged_trans(pre, store_before_info, self.store, h);
            lemma_cache_preserved(store_before_info, self.store, self.cache@, h);
            assert(cmd_views::<A>(commands@).take(nc as int) =~= cmd_views::<A>(commands@));
            assert(self.store.rec_at(h) =~= (StoredAggregateView {
                handle: h,
                init: init,
                events: events@,
                snapshot: fold_events(base_spec, events@.take(info.snapshot_version as int)),
                commands: cmd_views::<A>(commands@),
                info: info,
            }));
            assert(rec_policy_wf(self.store.rec_at(h))) by {
                lemma_fold_version(base_spec, events@.take(info.snapshot_version as int));
            }
        }
        Ok(())
    }
}

/// The latest aggregate's version counts the durably stored events:
/// it equals their total number minus one, the init event standing at
/// version 0 and each regular event at one more than the one before.
pub proof fn lemma_version_counts_events<A: Aggregate>(s: KeyStore<A>, h: Seq<char>)
    requires
        s.wf(),
        s.contains(h),
    ensures
        aggregate_of(s.rec_at(h)).spec_version() + 1 == s.rec_at(h).events.len() + 1,
{
    lemma_aggregate_of_props(s.rec_at(h));
}

/// Command sequence numbers form a strictly increasing contiguous
/// series starting at 1: the command at position `i` carries sequence
/// `i + 1`, and a sequence `q` is stored exactly when
/// `1 <= q <= last_command`.
pub proof fn lemma_command_sequence_contiguous<A: Aggregate>(s: KeyStore<A>, h: Seq<char>, q: u64)
    requires
        s.wf(),
        s.contains(h),
        rec_policy_wf(s.rec_at(h)),
    ensures
        forall|i: int|
            0 <= i < s.rec_at(h).commands.len() ==> (#[trigger] s.rec_at(h).commands[i]).sequence
                == i + 1,
        (exists|i: int|
            0 <= i < s.rec_at(h).commands.len() && (#[trigger] s.rec_at(h).commands[i]).sequence
                == q) <==> (1 <= q <= s.rec_at(h).info.last_command),
{
    if 1 <= q <= s.rec_at(h).info.last_command {
        assert(s.rec_at(h).commands[q - 1].sequence == q);
    }
}

/// Event versions form a strictly increasing contiguous series
/// starting at 0: the init event stands at version 0, the stored event
/// at position `i` carries version `i + 1`, and a version `v` is
/// stored exactly when `v <= last_event`.
pub proof fn lemma_event_versions_contiguous<A: Aggregate>(s: KeyStore<A>, h: Seq<char>, v: u64)
    requires
        s.wf(),
        s.contains(h),
        rec_policy_wf(s.rec_at(h)),
    ensures
        s.rec_at(h).init.spec_version() == 0,
        forall|i: int|
            0 <= i < s.rec_at(h).events.len() ==> (#[trigger] s.rec_at(h).events[i]).spec_version()
                == i + 1,
        (v == 0 || (exists|i: int|
            0 <= i < s.rec_at(h).events.len() && (#[trigger] s.rec_at(h).events[i]).spec_version()
                == v)) <==> v <= s.rec_at(h).info.last_event,
{
    if 1 <= v <= s.rec_at(h).info.last_event {
        assert(s.rec_at(h).events[v - 1].spec_version() == v);
    }
}

/// The persisted snapshot always stands at the highest multiple of the
/// snapshot frequency the aggregate has reached: one is written for
/// the init event (version 0) and after every event whose resulting
/// version is a multiple of the frequency, each overwriting the one
/// before.
pub proof fn lemma_snapshot_policy<A: Aggregate>(s: KeyStore<A>, h: Seq<char>)
    requires
        s.wf(),
        s.contains(h),
        rec_policy_wf(s.rec_at(h)),
    ensures
        s.rec_at(h).info.snapshot_version as int == snap_level(s.rec_at(h).events.len() as int),
        s.rec_at(h).snapshot == fold_events(
            base_of(s.rec_at(h)),
            s.rec_at(h).events.take(s.rec_at(h).info.snapshot_version as int),
        ),
        s.rec_at(h).info.snapshot_version % SNAPSHOT_FREQ == 0,
{
    let len = s.rec_at(h).events.len() as int;
    assert((SNAPSHOT_FREQ as int * (len / SNAPSHOT_FREQ as int)) % SNAPSHOT_FREQ as int == 0)
        by (nonlinear_arith)
        requires
            len >= 0,
            SNAPSHOT_FREQ as int == 5,
    ;
}

/// An aggregate's latest state is a function of its durably stored
/// init event and events alone: a store reloaded from the same
/// directory answers `get_latest` with the same aggregate for every
/// handle it lists.
pub proof fn lemma_reload_preserves_latest<A: Aggregate>(
    s1: KeyStore<A>,
    s2: KeyStore<A>,
    h: Seq<char>,
)
    requires
        s1.wf(),
        s2.wf(),
        s1.contains(h),
        s2.contains(h),
        s1.rec_at(h).init == s2.rec_at(h).init,
        s1.rec_at(h).events == s2.rec_at(h).events,
    ensures
        aggregate_of(s1.rec_at(h)) == aggregate_of(s2.rec_at(h)),
{
}

} // verus!
