use vstd::prelude::*;

use crate::error::SnapshotError;
use crate::id::StableId;
use crate::snapshot::ComponentSnapshot;

verus! {

/// One retained slot, at specification level: a frame number and the
/// mapping stored at it.
pub type FrameEntry<P> = (u64, Map<StableId, P>);

/// Whether a history whose slots are `entries` admits a push at `frame`:
/// the very first push, or a frame strictly beyond the newest slot.
pub open spec fn admits_frame<P>(entries: Seq<FrameEntry<P>>, frame: u64) -> bool {
    entries.len() == 0 || entries.last().0 < frame
}

/// One accepted push: append the new slot, evicting the oldest slot when
/// the history is already full.
pub open spec fn spec_push<P>(
    entries: Seq<FrameEntry<P>>,
    cap: nat,
    frame: u64,
    snap: Map<StableId, P>,
) -> Seq<FrameEntry<P>> {
    if entries.len() < cap {
        entries.push((frame, snap))
    } else {
        entries.skip(1).push((frame, snap))
    }
}

/// A whole sequence of accepted pushes, applied in order to an empty history.
pub open spec fn spec_push_all<P>(cap: nat, pushes: Seq<FrameEntry<P>>) -> Seq<FrameEntry<P>>
    decreases pushes.len(),
{
    if pushes.len() == 0 {
        Seq::empty()
    } else {
        spec_push(spec_push_all(cap, pushes.drop_last()), cap, pushes.last().0, pushes.last().1)
    }
}

/// Capacity law: after any sequence of accepted pushes, the history holds at
/// most `cap` slots, and they are exactly the most recent pushes (all of
/// them, when fewer than `cap` occurred).
pub proof fn lemma_capacity_window<P>(cap: nat, pushes: Seq<FrameEntry<P>>)
    requires
        1 <= cap,
    ensures
        spec_push_all(cap, pushes).len() <= cap,
        pushes.len() <= cap ==> spec_push_all(cap, pushes) == pushes,
        pushes.len() > cap ==> spec_push_all(cap, pushes) == pushes.skip(pushes.len() - cap),
    decreases pushes.len(),
{
    if pushes.len() == 0 {
        assert(spec_push_all(cap, pushes) =~= pushes);
    } else {
        let dl = pushes.drop_last();
        lemma_capacity_window(cap, dl);
        let prev = spec_push_all(cap, dl);
        if dl.len() < cap {
            assert(prev.push(pushes.last()) =~= pushes);
        } else if dl.len() == cap {
            assert(prev.skip(1).push(pushes.last()) =~= pushes.skip(pushes.len() - cap));
        } else {
            assert(prev.skip(1).push(pushes.last()) =~= pushes.skip(pushes.len() - cap));
        }
    }
}

/// Whether `frame` is retained in the slots `entries`.
pub open spec fn retained_in<P>(entries: Seq<FrameEntry<P>>, frame: u64) -> bool {
    exists|i: int| 0 <= i < entries.len() && (#[trigger] entries[i]).0 == frame
}

/// The mapping stored at `frame`; meaningful only when `retained_in` holds.
pub open spec fn stored_in<P>(entries: Seq<FrameEntry<P>>, frame: u64) -> Map<StableId, P> {
    entries[choose|i: int| 0 <= i < entries.len() && (#[trigger] entries[i]).0 == frame].1
}

/// A fixed-capacity, frame-indexed ring buffer of snapshots for one
/// state-category: append-only except for capacity-driven eviction of the
/// oldest slot, with read-only lookup by frame.
pub struct SnapshotHistory<P> {
    capacity: usize,
    entries: Vec<(u64, ComponentSnapshot<P>)>,
}

impl<P> View for SnapshotHistory<P> {
    type V = Seq<FrameEntry<P>>;

    closed spec fn view(&self) -> Seq<FrameEntry<P>> {
        self.entries@.map_values(|e: (u64, ComponentSnapshot<P>)| (e.0, e.1@))
    }
}

impl<P> SnapshotHistory<P> {
    /// The capacity the history was created with.
    pub closed spec fn cap(&self) -> usize {
        self.capacity
    }

    /// Well-formed: within capacity, frames strictly increasing, and every
    /// stored snapshot well-formed.
    pub closed spec fn wf(&self) -> bool {
        &&& 1 <= self.capacity
        &&& self.entries@.len() <= self.capacity
        &&& (forall|i: int, j: int|
            0 <= i < j < self.entries@.len() ==> (#[trigger] self.entries@[i]).0 < (
            #[trigger] self.entries@[j]).0)
        &&& (forall|i: int| 0 <= i < self.entries@.len() ==> (#[trigger] self.entries@[i]).1.wf())
    }

    /// What well-formedness shows a caller: the history never holds more
    /// slots than its capacity, and the retained frames strictly increase
    /// from oldest to newest.
    pub proof fn lemma_wf_window(&self)
        requires
            self.wf(),
        ensures
            self@.len() <= self.cap(),
            forall|i: int, j: int|
                0 <= i < j < self@.len() ==> (#[trigger] self@[i]).0 < (#[trigger] self@[j]).0,
    {
        assert forall|i: int, j: int|
            0 <= i < j < self@.len() implies (#[trigger] self@[i]).0 < (
        #[trigger] self@[j]).0 by {
            assert(self@[i] == (self.entries@[i].0, self.entries@[i].1@));
            assert(self@[j] == (self.entries@[j].0, self.entries@[j].1@));
        }
    }

    /// Whether `frame` is retained.
    pub open spec fn retained(&self, frame: u64) -> bool {
        retained_in(self@, frame)
    }

    /// The mapping stored at `frame`; meaningful only when retained.
    pub open spec fn stored_at(&self, frame: u64) -> Map<StableId, P> {
        stored_in(self@, frame)
    }

    /// Create an empty history with room for `capacity` snapshots.
    pub fn new(capacity: usize) -> (h: Self)
        requires
            1 <= capacity,
        ensures
            h.wf(),
            h.cap() == capacity,
            h@ == Seq::<FrameEntry<P>>::empty(),
    {
        let h = SnapshotHistory { capacity, entries: Vec::new() };
        proof {
            assert(h@ =~= Seq::<FrameEntry<P>>::empty());
        }
        h
    }

    /// How many snapshots are currently retained.
    pub fn len(&self) -> (n: usize)
        ensures
            n == self@.len(),
    {
        self.entries.len()
    }

    /// The capacity the history was created with.
    pub fn capacity(&self) -> (c: usize)
        ensures
            c == self.cap(),
    {
        self.capacity
    }

    /// Insert `snapshot` at `frame`. The frame must be strictly greater than
    /// every frame pushed before; a non-monotonic push is rejected and
    /// leaves the history unchanged. When the history is full, an accepted
    /// push evicts the slot with the smallest frame.
    pub fn push(&mut self, frame: u64, snapshot: ComponentSnapshot<P>) -> (r: Result<
        (),
        SnapshotError,
    >)
        requires
            old(self).wf(),
            snapshot.wf(),
        ensures
            final(self).wf(),
            final(self).cap() == old(self).cap(),
            r is Ok <==> admits_frame(old(self)@, frame),
            r is Ok ==> final(self)@ == spec_push(
                old(self)@,
                old(self).cap() as nat,
                frame,
                snapshot@,
            ),
            r is Err ==> *final(self) == *old(self) && r == Err::<(), SnapshotError>(
                SnapshotError::NonMonotonicPush,
            ),
    {
        let len = self.entries.len();
        if len > 0 {
            let last_frame = self.entries[len - 1].0;
            proof {
                assert(self@[len - 1] == (self.entries@[len - 1].0, self.entries@[len - 1].1@));
            }
            if frame <= last_frame {
                return Err(SnapshotError::NonMonotonicPush);
            }
        }
        let ghost prior = self.entries@;
        if self.entries.len() == self.capacity {
            self.entries.remove(0);
            proof {
                assert(self.entries@ =~= prior.skip(1));
            }
        }
        let ghost mid = self.entries@;
        self.entries.push((frame, snapshot));
        proof {
            assert(self.entries@ == mid.push((frame, snapshot)));
            assert forall|i: int, j: int| 0 <= i < j < self.entries@.len() implies (
            #[trigger] self.entries@[i]).0 < (#[trigger] self.entries@[j]).0 by {
                if j < self.entries@.len() - 1 {
                    assert(prior[prior.len() - 1].0 < frame);
                } else {
                    assert(self.entries@[i].0 <= prior[prior.len() - 1].0);
                }
            }
            assert(final(self)@ =~= spec_push(prior.map_values(|e: (u64, ComponentSnapshot<P>)| (e.0, e.1@)), self.capacity as nat, frame, snapshot@));
        }
        Ok(())
    }

    /// Look up the snapshot stored at `frame`, if that frame is retained.
    pub fn get(&self, frame: u64) -> (r: Option<&ComponentSnapshot<P>>)
        requires
            self.wf(),
        ensures
            match r {
                Some(s) => self.retained(frame) && s.wf() && s@ == self.stored_at(frame),
                None => !self.retained(frame),
            },
    {
        let n = self.entries.len();
        let mut i: usize = 0;
        while i < n
            invariant
                self.wf(),
                n == self.entries@.len(),
                i <= n,
                forall|k: int| 0 <= k < i ==> (#[trigger] self.entries@[k]).0 != frame,
            decreases n - i,
        {
            if self.entries[i].0 == frame {
                proof {
                    assert(self@[i as int] == (self.entries@[i as int].0, self.entries@[i as int].1@));
                    assert(retained_in(self@, frame));
                    let j = choose|j: int| 0 <= j < self@.len() && (#[trigger] self@[j]).0 == frame;
                    assert(self@[j] == (self.entries@[j].0, self.entries@[j].1@));
                    if j < i {
                        assert(self.entries@[j].0 < self.entries@[i as int].0);
                        assert(false);
                    } else if j > i {
                        assert(self.entries@[i as int].0 < self.entries@[j].0);
                        assert(false);
                    }
                }
                return Some(&self.entries[i].1);
            }
            i += 1;
        }
        proof {
            assert forall|k: int| 0 <= k < self@.len() implies (#[trigger] self@[k]).0 != frame by {
                assert(self@[k] == (self.entries@[k].0, self.entries@[k].1@));
            }
        }
        None
    }
}

} // verus!
