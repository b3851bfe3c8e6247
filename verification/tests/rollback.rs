use rollback_snapshot::error::SnapshotError;
use rollback_snapshot::history::SnapshotHistory;
use rollback_snapshot::id::StableId;
use rollback_snapshot::payload::IntState;
use rollback_snapshot::payload::SealedState;
use rollback_snapshot::rollback::contains_id;
use rollback_snapshot::rollback::load;
use rollback_snapshot::rollback::save;
use rollback_snapshot::snapshot::ComponentSnapshot;

fn population(pairs: &[(u64, u64)]) -> Vec<(StableId, IntState)> {
    let mut v = Vec::new();
    for &(id, value) in pairs {
        v.push((StableId(id), IntState { value }));
    }
    v
}

fn state_of(live: &Vec<(StableId, IntState)>, id: u64) -> Option<u64> {
    for (sid, state) in live {
        if *sid == StableId(id) {
            return Some(state.value);
        }
    }
    None
}

#[test]
fn capacity_evicts_oldest() {
    let mut h = SnapshotHistory::<IntState>::new(3);
    for frame in [1u64, 2, 3, 4] {
        let live = population(&[(7, frame * 10)]);
        assert_eq!(save(&live, frame, &mut h), Ok(()));
    }
    assert_eq!(h.len(), 3);
    assert_eq!(h.capacity(), 3);
    assert!(h.get(1).is_none());
    assert!(h.get(2).is_some());
    assert!(h.get(4).is_some());
    let snap = h.get(3).expect("frame 3 must be retained");
    assert_eq!(snap.get(StableId(7)), Some(&IntState { value: 30 }));
}

#[test]
fn non_monotonic_push_is_rejected() {
    let mut h = SnapshotHistory::<IntState>::new(4);
    let live = population(&[(1, 5)]);
    assert_eq!(save(&live, 5, &mut h), Ok(()));
    assert_eq!(save(&live, 5, &mut h), Err(SnapshotError::NonMonotonicPush));
    assert_eq!(save(&live, 4, &mut h), Err(SnapshotError::NonMonotonicPush));
    assert_eq!(h.len(), 1);
    assert!(h.get(5).is_some());
    assert_eq!(save(&live, 6, &mut h), Ok(()));
    assert_eq!(h.len(), 2);
}

#[test]
fn push_rejects_equal_frame_directly() {
    let mut h = SnapshotHistory::<IntState>::new(2);
    let snap = ComponentSnapshot::capture(&population(&[(1, 1)]));
    assert_eq!(h.push(3, snap), Ok(()));
    let again = ComponentSnapshot::capture(&population(&[(1, 2)]));
    assert_eq!(h.push(3, again), Err(SnapshotError::NonMonotonicPush));
}

#[test]
fn snapshot_lookup_by_id() {
    let snap = ComponentSnapshot::capture(&population(&[(1, 11), (2, 22)]));
    assert_eq!(snap.entry_count(), 2);
    assert_eq!(snap.get(StableId(1)), Some(&IntState { value: 11 }));
    assert_eq!(snap.get(StableId(2)), Some(&IntState { value: 22 }));
    assert_eq!(snap.get(StableId(3)), None);
}

#[test]
fn capture_is_order_insensitive() {
    let forward = ComponentSnapshot::capture(&population(&[(1, 11), (2, 22)]));
    let backward = ComponentSnapshot::capture(&population(&[(2, 22), (1, 11)]));
    for id in [1u64, 2] {
        assert_eq!(forward.get(StableId(id)), backward.get(StableId(id)));
    }
}

#[test]
fn round_trip_leaves_population_unchanged() {
    let mut h = SnapshotHistory::<IntState>::new(2);
    let mut live = population(&[(1, 5), (2, 9), (3, 40)]);
    assert_eq!(save(&live, 7, &mut h), Ok(()));
    assert_eq!(load(&h, 7, &mut live), Ok(()));
    assert_eq!(live, population(&[(1, 5), (2, 9), (3, 40)]));
}

#[test]
fn restore_reconciles_changed_population() {
    // Live objects {A: 5, B: 9}; capture at frame 10; then mutate A to 99,
    // delete B, create C with state 1. Restoring to frame 10 puts A back to
    // 5, recreates B with 9, and removes C.
    let mut h = SnapshotHistory::<IntState>::new(3);
    let mut live = population(&[(1, 5), (2, 9)]);
    assert_eq!(save(&live, 10, &mut h), Ok(()));

    live[0].1.value = 99;
    live.remove(1);
    live.push((StableId(3), IntState { value: 1 }));

    assert_eq!(load(&h, 10, &mut live), Ok(()));
    assert_eq!(live.len(), 2);
    assert_eq!(state_of(&live, 1), Some(5));
    assert_eq!(state_of(&live, 2), Some(9));
    assert_eq!(state_of(&live, 3), None);
}

#[test]
fn restore_to_unretained_frame_fails_without_mutation() {
    let mut h = SnapshotHistory::<IntState>::new(2);
    for frame in [1u64, 2, 3] {
        let live = population(&[(1, frame)]);
        assert_eq!(save(&live, frame, &mut h), Ok(()));
    }
    // frame 1 was evicted; frame 9 was never pushed
    let mut live = population(&[(1, 77), (5, 55)]);
    assert_eq!(load(&h, 1, &mut live), Err(SnapshotError::FrameUnavailable));
    assert_eq!(load(&h, 9, &mut live), Err(SnapshotError::FrameUnavailable));
    assert_eq!(live, population(&[(1, 77), (5, 55)]));
}

#[test]
fn restore_on_empty_history_fails() {
    let h = SnapshotHistory::<IntState>::new(1);
    let mut live = population(&[(1, 1)]);
    assert_eq!(load(&h, 0, &mut live), Err(SnapshotError::FrameUnavailable));
    assert_eq!(live, population(&[(1, 1)]));
}

#[test]
fn failing_materialization_surfaces_and_mutates_nothing() {
    let mut h = SnapshotHistory::<SealedState>::new(2);
    let mut live = vec![
        (StableId(1), SealedState { value: 4 }),
        (StableId(2), SealedState { value: 6 }),
    ];
    assert_eq!(save(&live, 1, &mut h), Ok(()));
    // destroy object 2; restoring would have to materialize it, which the
    // sealed category cannot do
    live.remove(1);
    live[0].1.value = 8;
    assert_eq!(load(&h, 1, &mut live), Err(SnapshotError::MaterializeFailure));
    assert_eq!(live, vec![(StableId(1), SealedState { value: 8 })]);
}

#[test]
fn restore_without_recreation_succeeds_for_sealed_category() {
    let mut h = SnapshotHistory::<SealedState>::new(2);
    let mut live = vec![(StableId(1), SealedState { value: 4 })];
    assert_eq!(save(&live, 1, &mut h), Ok(()));
    live[0].1.value = 8;
    assert_eq!(load(&h, 1, &mut live), Ok(()));
    assert_eq!(live, vec![(StableId(1), SealedState { value: 4 })]);
}

#[test]
fn contains_id_finds_live_objects() {
    let live = population(&[(1, 5), (2, 9)]);
    assert!(contains_id(&live, StableId(1)));
    assert!(contains_id(&live, StableId(2)));
    assert!(!contains_id(&live, StableId(3)));
}

#[test]
fn history_len_tracks_pushes_up_to_capacity() {
    let mut h = SnapshotHistory::<IntState>::new(2);
    assert_eq!(h.len(), 0);
    let live = population(&[]);
    assert_eq!(save(&live, 1, &mut h), Ok(()));
    assert_eq!(h.len(), 1);
    assert_eq!(save(&live, 2, &mut h), Ok(()));
    assert_eq!(h.len(), 2);
    assert_eq!(save(&live, 3, &mut h), Ok(()));
    assert_eq!(h.len(), 2);
}
