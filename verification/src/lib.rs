//! An event-sourced aggregate store.
//!
//! Aggregates are consistency-bounded entities whose state is the fold of
//! their events. The store persists the commands issued against each
//! aggregate and the events they emit, replays events on load, keeps a
//! per-process cache, enforces optimistic concurrency control, follows a
//! deterministic snapshot policy, and notifies listeners after each commit.

pub mod agg_store;
pub mod clock;
pub mod counter;
pub mod error;
pub mod handle;
pub mod ipfs;
pub mod keystore;
pub mod records;
pub mod traits;
