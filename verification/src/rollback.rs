use vstd::prelude::*;

use crate::error::SnapshotError;
use crate::history::admits_frame;
use crate::history::spec_push;
use crate::history::SnapshotHistory;
use crate::id::StableId;
use crate::payload::Payload;
use crate::snapshot::as_map;
use crate::snapshot::has_id;
use crate::snapshot::lemma_as_map_dom;
use crate::snapshot::lemma_as_map_index;
use crate::snapshot::unique_ids;
use crate::snapshot::ComponentSnapshot;

verus! {

/// Whether the population `v` currently holds an object with identifier `id`.
pub fn contains_id<P>(v: &Vec<(StableId, P)>, id: StableId) -> (r: bool)
    ensures
        r == has_id(v@, id),
{
    let n = v.len();
    let mut i: usize = 0;
    while i < n
        invariant
            n == v@.len(),
            i <= n,
            forall|k: int| 0 <= k < i ==> (#[trigger] v@[k]).0 != id,
        decreases n - i,
    {
        if v[i].0 == id {
            proof {
                assert(v@[i as int].0 == id);
            }
            return true;
        }
        i += 1;
    }
    false
}

/// Capture: duplicate every live object's state under its identifier and
/// push the resulting snapshot into `history` at `frame`. Mutates the
/// history only; the resulting mapping does not depend on the order in
/// which the population is listed.
pub fn save<P: Payload>(
    live: &Vec<(StableId, P)>,
    frame: u64,
    history: &mut SnapshotHistory<P>,
) -> (r: Result<(), SnapshotError>)
    requires
        unique_ids(live@),
        old(history).wf(),
    ensures
        final(history).wf(),
        final(history).cap() == old(history).cap(),
        r is Ok <==> admits_frame(old(history)@, frame),
        r is Ok ==> final(history)@ == spec_push(
            old(history)@,
            old(history).cap() as nat,
            frame,
            as_map(live@),
        ),
        r is Err ==> *final(history) == *old(history) && r == Err::<(), SnapshotError>(
            SnapshotError::NonMonotonicPush,
        ),
{
    let snapshot = ComponentSnapshot::capture(live);
    history.push(frame, snapshot)
}

/// Restore: reconcile the live population against the snapshot stored at
/// `frame`. An object both live and in the snapshot gets the stored state
/// applied in place; an object only live is removed; an object only in the
/// snapshot is recreated (materialized, then given the stored state);
/// recreated objects are buffered and appended only after the pass over the
/// population, so the population is never grown while it is walked. On
/// success the population is exactly the snapshot's mapping. A restore to an
/// unretained frame, or one that hits a failing materialization, reports the
/// error and leaves the population unchanged.
pub fn load<P: Payload>(
    history: &SnapshotHistory<P>,
    frame: u64,
    live: &mut Vec<(StableId, P)>,
) -> (r: Result<(), SnapshotError>)
    requires
        history.wf(),
        unique_ids(old(live)@),
    ensures
        unique_ids(final(live)@),
        r == Err::<(), SnapshotError>(SnapshotError::FrameUnavailable) <==> !history.retained(
            frame,
        ),
        r is Err ==> final(live)@ == old(live)@ && (r == Err::<(), SnapshotError>(
            SnapshotError::FrameUnavailable,
        ) || r == Err::<(), SnapshotError>(SnapshotError::MaterializeFailure)),
        r == Err::<(), SnapshotError>(SnapshotError::MaterializeFailure) ==> exists|id: StableId|
            history.stored_at(frame).dom().contains(id) && !has_id(old(live)@, id),
        history.retained(frame) && (forall|id: StableId|
            history.stored_at(frame).dom().contains(id) ==> has_id(old(live)@, id)) ==> r is Ok,
        r is Ok ==> as_map(final(live)@) == history.stored_at(frame),
        r is Ok ==> (forall|id: StableId|
            has_id(final(live)@, id) <==> history.stored_at(frame).dom().contains(id)),
{
    let snap = match history.get(frame) {
        Some(s) => s,
        None => {
            return Err(SnapshotError::FrameUnavailable);
        },
    };
    let ghost stored = history.stored_at(frame);
    let ghost se = snap.entries_seq();
    let ghost orig = live@;

    // First pass: materialize the objects that exist in the snapshot but are
    // no longer live, buffering them for insertion after the population walk.
    let mut pending: Vec<(StableId, P)> = Vec::new();
    let sn = snap.entry_count();
    let mut i: usize = 0;
    while i < sn
        invariant
            snap.wf(),
            snap@ == stored,
            se == snap.entries_seq(),
            sn == se.len(),
            i <= sn,
            history.retained(frame),
            stored == history.stored_at(frame),
            live@ == old(live)@,
            orig == old(live)@,
            unique_ids(orig),
            unique_ids(pending@),
            forall|j: int| 0 <= j < pending@.len() ==> !has_id(orig, (#[trigger] pending@[j]).0),
            forall|j: int|
                0 <= j < pending@.len() ==> stored.dom().contains((#[trigger] pending@[j]).0)
                    && pending@[j].1 == stored[pending@[j].0],
            forall|j: int|
                0 <= j < pending@.len() ==> has_id(se.take(i as int), (#[trigger] pending@[j]).0),
            forall|k: int|
                0 <= k < i ==> has_id(orig, (#[trigger] se[k]).0) || has_id(pending@, se[k].0),
        decreases sn - i,
    {
        let e = snap.entry_at(i);
        if !contains_id(live, e.0) {
            match P::materialize() {
                Some(mut fresh) => {
                    fresh.apply(&e.1);
                    proof {
                        lemma_as_map_index(se, i as int);
                        assert(stored.dom().contains(e.0) && stored[e.0] == e.1);
                        assert forall|j: int| 0 <= j < pending@.len() implies (
                        #[trigger] pending@[j]).0 != e.0 by {
                            let k = choose|k: int|
                                0 <= k < i && (#[trigger] se.take(i as int)[k]).0 == pending@[j].0;
                            assert(se.take(i as int)[k] == se[k]);
                            assert(se[k].0 != se[i as int].0);
                        }
                    }
                    let ghost pb = pending@;
                    pending.push((e.0, fresh));
                    proof {
                        assert forall|i2: int, j2: int|
                            0 <= i2 < j2 < pending@.len() implies (#[trigger] pending@[i2]).0 != (
                        #[trigger] pending@[j2]).0 by {
                            assert(pending@[i2] == pb[i2]);
                            if j2 < pb.len() {
                                assert(pending@[j2] == pb[j2]);
                            } else {
                                assert(pending@[j2].0 == e.0);
                            }
                        }
                        assert forall|j: int| 0 <= j < pending@.len() implies has_id(
                            se.take(i + 1),
                            (#[trigger] pending@[j]).0,
                        ) by {
                            if j < pb.len() {
                                assert(pending@[j] == pb[j]);
                                let k = choose|k: int|
                                    0 <= k < i && (#[trigger] se.take(i as int)[k]).0 == pb[j].0;
                                assert(se.take(i as int)[k] == se[k]);
                                assert(se.take(i + 1)[k] == se[k]);
                            } else {
                                assert(pending@[j].0 == e.0);
                                assert(se.take(i + 1)[i as int] == se[i as int]);
                            }
                        }
                        assert forall|k: int| 0 <= k < i + 1 implies has_id(
                            orig,
                            (#[trigger] se[k]).0,
                        ) || has_id(pending@, se[k].0) by {
                            if k == i {
                                assert(pending@[pending@.len() - 1].0 == se[k].0);
                            } else if !has_id(orig, se[k].0) {
                                assert(has_id(pb, se[k].0));
                                let j = choose|j: int|
                                    0 <= j < pb.len() && (#[trigger] pb[j]).0 == se[k].0;
                                assert(pending@[j] == pb[j]);
                            }
                        }
                    }
                },
                None => {
                    proof {
                        lemma_as_map_index(se, i as int);
                        assert(stored.dom().contains(e.0) && !has_id(orig, e.0));
                    }
                    return Err(SnapshotError::MaterializeFailure);
                },
            }
        }
        i += 1;
    }

    // Second pass: walk the population once; keep an object only if the
    // snapshot holds it, overwriting its state in place with the stored one.
    let mut rebuilt: Vec<(StableId, P)> = Vec::new();
    let ghost mut done: int = 0;
    proof {
        assert(orig.skip(0) =~= orig);
    }
    while live.len() > 0
        invariant
            snap.wf(),
            snap@ == stored,
            se == snap.entries_seq(),
            unique_ids(orig),
            0 <= done <= orig.len(),
            live@ == orig.skip(done),
            unique_ids(rebuilt@),
            forall|j: int|
                0 <= j < rebuilt@.len() ==> stored.dom().contains((#[trigger] rebuilt@[j]).0)
                    && rebuilt@[j].1 == stored[rebuilt@[j].0],
            forall|j: int|
                0 <= j < rebuilt@.len() ==> has_id(orig.take(done), (#[trigger] rebuilt@[j]).0),
            forall|k: int|
                0 <= k < done && stored.dom().contains((#[trigger] orig[k]).0) ==> has_id(
                    rebuilt@,
                    orig[k].0,
                ),
            unique_ids(pending@),
            forall|j: int| 0 <= j < pending@.len() ==> !has_id(orig, (#[trigger] pending@[j]).0),
            forall|j: int|
                0 <= j < pending@.len() ==> stored.dom().contains((#[trigger] pending@[j]).0)
                    && pending@[j].1 == stored[pending@[j].0],
            forall|k: int|
                0 <= k < se.len() ==> has_id(orig, (#[trigger] se[k]).0) || has_id(
                    pending@,
                    se[k].0,
                ),
        decreases live@.len(),
    {
        let (id, mut state) = live.remove(0);
        proof {
            assert(orig.skip(done)[0] == orig[done]);
            assert(live@ =~= orig.skip(done + 1));
            assert(id == orig[done].0);
        }
        let mut keep = false;
        match snap.get(id) {
            Some(payload) => {
                state.apply(payload);
                keep = true;
            },
            None => {},
        }
        let ghost rb = rebuilt@;
        if keep {
            proof {
                assert forall|j: int| 0 <= j < rebuilt@.len() implies (
                #[trigger] rebuilt@[j]).0 != id by {
                    let k = choose|k: int|
                        0 <= k < done && (#[trigger] orig.take(done)[k]).0 == rebuilt@[j].0;
                    assert(orig.take(done)[k] == orig[k]);
                    assert(orig[k].0 != orig[done].0);
                }
            }
            rebuilt.push((id, state));
            proof {
                assert forall|i2: int, j2: int|
                    0 <= i2 < j2 < rebuilt@.len() implies (#[trigger] rebuilt@[i2]).0 != (
                #[trigger] rebuilt@[j2]).0 by {
                    assert(rebuilt@[i2] == rb[i2]);
                    if j2 < rb.len() {
                        assert(rebuilt@[j2] == rb[j2]);
                    } else {
                        assert(rebuilt@[j2].0 == id);
                    }
                }
            }
        }
        proof {
            assert forall|j: int| 0 <= j < rebuilt@.len() implies has_id(
                orig.take(done + 1),
                (#[trigger] rebuilt@[j]).0,
            ) by {
                if j < rb.len() {
                    assert(rebuilt@[j] == rb[j]);
                    let k = choose|k: int|
                        0 <= k < done && (#[trigger] orig.take(done)[k]).0 == rb[j].0;
                    assert(orig.take(done)[k] == orig[k]);
                    assert(orig.take(done + 1)[k] == orig[k]);
                } else {
                    assert(rebuilt@[j].0 == id);
                    assert(orig.take(done + 1)[done] == orig[done]);
                }
            }
            assert forall|k: int|
                0 <= k < done + 1 && stored.dom().contains((#[trigger] orig[k]).0) implies has_id(
                rebuilt@,
                orig[k].0,
            ) by {
                if k == done {
                    assert(rebuilt@[rebuilt@.len() - 1].0 == id);
                } else {
                    let j = choose|j: int| 0 <= j < rb.len() && (#[trigger] rb[j]).0 == orig[k].0;
                    assert(rebuilt@[j] == rb[j]);
                }
            }
            done = done + 1;
        }
    }

    // The buffered recreations join the population only now, after the walk.
    let ghost kept = rebuilt@;
    let ghost pend = pending@;
    rebuilt.append(&mut pending);

    proof {
        assert(orig.skip(done).len() == 0);
        assert(done == orig.len());
        let all = rebuilt@;
        assert(all == kept + pend);
        assert(orig.take(done) =~= orig);
        lemma_as_map_dom(se);

        // Identifiers kept from the walk occur in `orig`; buffered ones do not.
        assert forall|i2: int, j2: int| 0 <= i2 < j2 < all.len() implies (#[trigger] all[i2]).0 != (
        #[trigger] all[j2]).0 by {
            if i2 < kept.len() && j2 >= kept.len() {
                assert(all[i2] == kept[i2]);
                assert(all[j2] == pend[j2 - kept.len()]);
                assert(has_id(orig, kept[i2].0));
                assert(!has_id(orig, pend[j2 - kept.len()].0));
            } else if i2 >= kept.len() {
                assert(all[i2] == pend[i2 - kept.len()]);
                assert(all[j2] == pend[j2 - kept.len()]);
            } else {
                assert(all[i2] == kept[i2]);
                assert(all[j2] == kept[j2]);
            }
        }

        // Every entry of the rebuilt population carries the stored state.
        assert forall|j: int| 0 <= j < all.len() implies stored.dom().contains(
            (#[trigger] all[j]).0,
        ) && all[j].1 == stored[all[j].0] by {
            if j < kept.len() {
                assert(all[j] == kept[j]);
            } else {
                assert(all[j] == pend[j - kept.len()]);
            }
        }

        // Every identifier of the snapshot is present in the rebuilt population.
        assert forall|id: StableId| stored.dom().contains(id) implies has_id(all, id) by {
            assert(has_id(se, id));
            let k = choose|k: int| 0 <= k < se.len() && (#[trigger] se[k]).0 == id;
            if has_id(orig, id) {
                let m = choose|m: int| 0 <= m < orig.len() && (#[trigger] orig[m]).0 == id;
                assert(stored.dom().contains(orig[m].0));
                assert(has_id(kept, id));
                let j = choose|j: int| 0 <= j < kept.len() && (#[trigger] kept[j]).0 == id;
                assert(all[j] == kept[j]);
            } else {
                assert(has_id(pend, se[k].0));
                let j = choose|j: int| 0 <= j < pend.len() && (#[trigger] pend[j]).0 == id;
                assert(all[kept.len() + j] == pend[j]);
            }
        }

        lemma_as_map_dom(all);
        assert forall|id: StableId| #[trigger] stored.dom().contains(id) implies as_map(
            all,
        ).dom().contains(id) && as_map(all)[id] == stored[id] by {
            assert(has_id(all, id));
            let j = choose|j: int| 0 <= j < all.len() && (#[trigger] all[j]).0 == id;
            lemma_as_map_index(all, j);
        }
        assert forall|id: StableId| as_map(all).dom().contains(id) implies stored.dom().contains(
            id,
        ) by {
            assert(has_id(all, id));
            let j = choose|j: int| 0 <= j < all.len() && (#[trigger] all[j]).0 == id;
        }
        assert(as_map(all).dom() =~= stored.dom());
        assert(as_map(all) =~= stored);
    }

    *live = rebuilt;
    Ok(())
}

/// Round-trip law: a population restored from a snapshot that was captured
/// of that same population, with no structural change in between, is the
/// population it was. Two well-formed populations denoting the same mapping
/// list the same identifiers, and agree on the state of every object.
pub proof fn lemma_round_trip<P>(before: Seq<(StableId, P)>, restored: Seq<(StableId, P)>)
    requires
        unique_ids(before),
        unique_ids(restored),
        as_map(restored) == as_map(before),
    ensures
        forall|id: StableId| has_id(restored, id) <==> has_id(before, id),
        forall|i: int, j: int|
            0 <= i < restored.len() && 0 <= j < before.len() && (#[trigger] restored[i]).0 == (
            #[trigger] before[j]).0 ==> restored[i].1 == before[j].1,
{
    lemma_as_map_dom(before);
    lemma_as_map_dom(restored);
    assert forall|i: int, j: int|
        0 <= i < restored.len() && 0 <= j < before.len() && (#[trigger] restored[i]).0 == (
        #[trigger] before[j]).0 implies restored[i].1 == before[j].1 by {
        lemma_as_map_index(restored, i);
        lemma_as_map_index(before, j);
    }
}

} // verus!
