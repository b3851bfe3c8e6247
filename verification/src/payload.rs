use vstd::prelude::*;

verus! {

/// The capabilities a state-category's payload type must supply so that its
/// objects can be captured into a snapshot and restored from one.
///
/// `duplicate` yields an owned copy (a restored or recreated object needs a
/// copy independent of the stored snapshot), `apply` overwrites a live
/// object's state in place, and `materialize` builds a brand-new
/// default-initialized value, needed only to recreate an object that exists
/// in the target snapshot but is no longer live.
pub trait Payload: Sized {
    /// Produce an independent copy of this state value.
    fn duplicate(&self) -> (dup: Self)
        ensures
            dup == *self,
    ;

    /// Overwrite this value in place with the state held by `src`.
    fn apply(&mut self, src: &Self)
        ensures
            *final(self) == *src,
    ;

    /// Construct a fresh, default-initialized value suitable for `apply`;
    /// `None` when the category cannot build one.
    fn materialize() -> (fresh: Option<Self>);
}

/// A plain integer state-category, the simplest payload: its state is one
/// counter-like value.
#[derive(Clone, Copy, PartialEq, Eq, Structural, Debug)]
pub struct IntState {
    pub value: u64,
}

impl Payload for IntState {
    fn duplicate(&self) -> (dup: Self) {
        IntState { value: self.value }
    }

    fn apply(&mut self, src: &Self) {
        self.value = src.value;
    }

    fn materialize() -> (fresh: Option<Self>) {
        Some(IntState { value: 0 })
    }
}

/// A state-category whose objects cannot be built from nothing: recreating a
/// destroyed object of this category during a restore fails.
#[derive(Clone, Copy, PartialEq, Eq, Structural, Debug)]
pub struct SealedState {
    pub value: u64,
}

impl Payload for SealedState {
    fn duplicate(&self) -> (dup: Self) {
        SealedState { value: self.value }
    }

    fn apply(&mut self, src: &Self) {
        self.value = src.value;
    }

    fn materialize() -> (fresh: Option<Self>) {
        None
    }
}

} // verus!
