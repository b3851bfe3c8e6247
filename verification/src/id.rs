use vstd::prelude::*;

verus! {

/// Opaque identifier for a simulation object, stable across the object's
/// lifetime and independent of any transient storage-slot identity. The
/// surrounding simulation supplies it and keeps it unique among the live
/// objects of one state-category.
#[derive(Clone, Copy, PartialEq, Eq, Structural, Hash, Debug)]
pub struct StableId(pub u64);

} // verus!
