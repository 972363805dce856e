use vecstore::errors::StoreError;
use vecstore::slot::StoreSlot;
use vecstore::store::VecStore;

fn emb(cs: &[i32]) -> Vec<i32> {
    cs.to_vec()
}

#[test]
fn dimension_mismatch_on_insert_update_query() {
    let mut s = VecStore::new(3);
    assert_eq!(s.insert(1, emb(&[1, 2, 3])), Ok(()));

    // Wrong lengths always fail with DimensionMismatch ...
    assert_eq!(s.insert(2, emb(&[1, 2])), Err(StoreError::DimensionMismatch));
    assert_eq!(s.insert(2, emb(&[1, 2, 3, 4])), Err(StoreError::DimensionMismatch));
    assert_eq!(s.update(1, emb(&[1])), Err(StoreError::DimensionMismatch));
    assert_eq!(
        s.query_nearest(&emb(&[0, 0]), 1),
        Err(StoreError::DimensionMismatch)
    );

    // ... and leave the collection unchanged.
    assert_eq!(s.len(), 1);
    let hits = s.query_nearest(&emb(&[1, 2, 3]), 10).unwrap();
    assert_eq!(hits, vec![(1, 0)]);
}

#[test]
fn duplicate_key_leaves_first_record_intact() {
    let mut s = VecStore::new(2);
    assert_eq!(s.insert(7, emb(&[5, 5])), Ok(()));
    assert_eq!(s.insert(7, emb(&[9, 9])), Err(StoreError::DuplicateKey));
    assert_eq!(s.len(), 1);

    // The first record's data is unaffected: distance 0 from [5, 5].
    let hits = s.query_nearest(&emb(&[5, 5]), 1).unwrap();
    assert_eq!(hits, vec![(7, 0)]);
}

#[test]
fn delete_is_idempotent() {
    let mut s = VecStore::new(2);
    assert_eq!(s.insert(1, emb(&[0, 0])), Ok(()));
    assert_eq!(s.insert(2, emb(&[1, 1])), Ok(()));

    // Deleting an absent id succeeds with no observable state change.
    s.delete(42);
    assert_eq!(s.len(), 2);

    // Deleting twice is equivalent to deleting once.
    s.delete(2);
    assert_eq!(s.len(), 1);
    s.delete(2);
    assert_eq!(s.len(), 1);
    let hits = s.query_nearest(&emb(&[1, 1]), 10).unwrap();
    assert_eq!(hits, vec![(1, 2)]);
}

#[test]
fn knn_orders_by_distance_then_id() {
    let mut s = VecStore::new(2);
    assert_eq!(s.insert(1, emb(&[0, 0])), Ok(()));
    assert_eq!(s.insert(5, emb(&[3, 4])), Ok(()));
    assert_eq!(s.insert(2, emb(&[3, 4])), Ok(()));
    assert_eq!(s.insert(9, emb(&[1, 0])), Ok(()));

    // Distances from [0, 0]: id 1 -> 0, id 9 -> 1, ids 2 and 5 -> 25;
    // the tie between 2 and 5 is broken by ascending id.
    let hits = s.query_nearest(&emb(&[0, 0]), 4).unwrap();
    assert_eq!(hits, vec![(1, 0), (9, 1), (2, 25), (5, 25)]);

    // A partial query returns the k smallest only.
    let hits = s.query_nearest(&emb(&[0, 0]), 2).unwrap();
    assert_eq!(hits, vec![(1, 0), (9, 1)]);
}

#[test]
fn knn_saturates_when_fewer_than_k() {
    let mut s = VecStore::new(2);
    assert_eq!(s.insert(1, emb(&[0, 0])), Ok(()));
    assert_eq!(s.insert(2, emb(&[6, 8])), Ok(()));

    // M = 2 < k = 10: all live records come back, no error.
    let hits = s.query_nearest(&emb(&[0, 0]), 10).unwrap();
    assert_eq!(hits, vec![(1, 0), (2, 100)]);
}

#[test]
fn knn_rejects_zero_k() {
    let mut s = VecStore::new(2);
    assert_eq!(s.insert(1, emb(&[0, 0])), Ok(()));
    assert_eq!(s.query_nearest(&emb(&[0, 0]), 0), Err(StoreError::InvalidArgument));
}

#[test]
fn knn_on_empty_collection() {
    let s = VecStore::new(2);
    let hits = s.query_nearest(&emb(&[0, 0]), 3).unwrap();
    assert_eq!(hits, Vec::new());
}

#[test]
fn update_replaces_not_merges() {
    let mut s = VecStore::new(2);
    assert_eq!(s.insert(1, emb(&[10, 10])), Ok(()));
    assert_eq!(s.update(1, emb(&[-3, 4])), Ok(()));

    // The record now has exactly [-3, 4]: distance 0 from it, and the
    // exact distance from the old value, not from any blend.
    let hits = s.query_nearest(&emb(&[-3, 4]), 1).unwrap();
    assert_eq!(hits, vec![(1, 0)]);
    let hits = s.query_nearest(&emb(&[10, 10]), 1).unwrap();
    assert_eq!(hits, vec![(1, 169 + 36)]);
}

#[test]
fn update_absent_fails_with_not_found() {
    let mut s = VecStore::new(2);
    assert_eq!(s.update(1, emb(&[0, 0])), Err(StoreError::NotFound));
    assert_eq!(s.len(), 0);
}

#[test]
fn exact_distance_values() {
    let mut s = VecStore::new(3);
    assert_eq!(s.insert(1, emb(&[4, 6, 3])), Ok(()));
    let hits = s.query_nearest(&emb(&[1, 2, 3]), 1).unwrap();
    assert_eq!(hits, vec![(1, 9 + 16)]);
}

#[test]
fn extreme_coordinates_do_not_overflow() {
    let mut s = VecStore::new(1);
    assert_eq!(s.insert(1, emb(&[i32::MIN])), Ok(()));
    let hits = s.query_nearest(&emb(&[i32::MAX]), 1).unwrap();
    // (2^32 - 1)^2, exactly.
    assert_eq!(hits, vec![(1, 18446744065119617025)]);
}

#[test]
fn slot_requires_open_before_use() {
    let mut slot = StoreSlot::new();
    assert_eq!(slot.insert(1, emb(&[0, 0])), Err(StoreError::NotInitialized));
    assert_eq!(slot.update(1, emb(&[0, 0])), Err(StoreError::NotInitialized));
    assert_eq!(slot.delete(1), Err(StoreError::NotInitialized));
    assert_eq!(slot.query_nearest(&emb(&[0, 0]), 1), Err(StoreError::NotInitialized));
    assert_eq!(slot.len(), Err(StoreError::NotInitialized));
}

#[test]
fn slot_opens_once_and_closes_for_good() {
    let mut slot = StoreSlot::new();
    assert_eq!(slot.open(2), Ok(()));
    assert_eq!(slot.open(2), Err(StoreError::SchemaError));
    assert_eq!(slot.open_demo(), Err(StoreError::SchemaError));
    assert_eq!(slot.len(), Ok(0));
    assert_eq!(slot.insert(1, emb(&[2, 2])), Ok(()));
    assert_eq!(slot.len(), Ok(1));

    slot.close();
    assert_eq!(slot.len(), Err(StoreError::NotInitialized));
    assert_eq!(slot.insert(2, emb(&[0, 0])), Err(StoreError::NotInitialized));
    assert_eq!(slot.open(2), Err(StoreError::NotInitialized));
}

#[test]
fn demo_scenario_matches_seeded_store() {
    // Collection with D = 4, seeded with records 1..=5 at coordinates
    // 100, 200, 300, 400, 500 (fixed point, three decimal places), then
    // record 4 updated to 140 and record 5 deleted.
    let mut slot = StoreSlot::new();
    assert_eq!(slot.open_demo(), Ok(()));
    assert_eq!(slot.len(), Ok(4));

    // Nearest three to [300, 300, 300, 300]: record 3 at distance 0,
    // then record 2 (4 * 100^2), then record 4 (4 * 160^2), which is
    // closer than record 1 (4 * 200^2) after the update.
    let hits = slot.query_nearest(&emb(&[300, 300, 300, 300]), 3).unwrap();
    assert_eq!(hits, vec![(3, 0), (2, 40000), (4, 102400)]);

    // The startup sequence also runs the same query with k = 10: the
    // remaining record 1 joins at the end.
    let hits = slot.query_nearest(&emb(&[300, 300, 300, 300]), 10).unwrap();
    assert_eq!(hits, vec![(3, 0), (2, 40000), (4, 102400), (1, 160000)]);

    // Record 5 is gone: deleting it again changes nothing.
    assert_eq!(slot.delete(5), Ok(()));
    assert_eq!(slot.len(), Ok(4));
}

#[test]
fn demo_seed_is_rebuilt_fresh() {
    // The store is memory-resident: a second slot starts from scratch.
    let mut a = StoreSlot::new();
    let mut b = StoreSlot::new();
    assert_eq!(a.open_demo(), Ok(()));
    assert_eq!(b.open_demo(), Ok(()));
    assert_eq!(a.delete(1), Ok(()));
    assert_eq!(a.len(), Ok(3));
    assert_eq!(b.len(), Ok(4));
}
