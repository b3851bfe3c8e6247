use vstd::prelude::*;

verus! {

/// The failures the snapshot subsystem surfaces to its scheduler.
#[derive(Clone, Copy, PartialEq, Eq, Structural, Debug)]
pub enum SnapshotError {
    /// A restore targeted a frame that is no longer (or not yet) retained.
    FrameUnavailable,
    /// A capture pushed a frame not strictly greater than the last push.
    NonMonotonicPush,
    /// Recreating a destroyed object failed: its state-category cannot
    /// build a default-initialized value.
    MaterializeFailure,
}

} // verus!
