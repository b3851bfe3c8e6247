//! Deterministic state snapshotting for rollback-based synchronization.
//!
//! The library keeps, per state-category, a bounded frame-indexed history of
//! snapshots of a simulation's live objects. `rollback::save` captures the
//! current population into the history; `rollback::load` reconciles the
//! population against a retained past frame, recreating objects that existed
//! then and removing objects that did not.

pub mod error;
pub mod history;
pub mod id;
pub mod payload;
pub mod rollback;
pub mod snapshot;
