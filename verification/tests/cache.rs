use crossbeam::channel::unbounded;
use shred_cache::batch::{check_completed_batch, Outcome, PacketBatch, UNKNOWN_INDEX};
use shred_cache::cache::VarunShardDataCache;
use shred_cache::shred;
use shred_cache::shred::{Shred, ShredCode, ShredData};
use shred_cache::store::{is_recent, MAX_SLOT_DISTANCE};

fn data(slot: u64, tick: u8, fec: u32, index: u32, last: bool) -> ShredData {
    ShredData {
        slot,
        index,
        fec_set_index: fec,
        reference_tick: tick,
        data_complete: last,
        payload: vec![slot as u8, tick, fec as u8, index as u8],
    }
}

fn code(slot: u64, index: u32) -> Shred {
    Shred::ShredCode(ShredCode { slot, index, fec_set_index: 0, payload: vec![9] })
}

fn cache() -> VarunShardDataCache {
    let (sender, _receiver) = unbounded();
    VarunShardDataCache::new(sender)
}

fn feed(cache: &mut VarunShardDataCache, shred: ShredData) -> Outcome {
    cache.process_shred(Shred::ShredData(shred))
}

fn stored() -> Outcome {
    Outcome::Stored { complete_again: false, end_again: false, full: None }
}

#[test]
fn shred_to_shred_data() {
    let inner = data(1, 3, 0, 2, false);
    let shred = Shred::ShredData(inner.clone());
    assert_eq!(shred::shred_to_shred_data(&shred), Some(&inner));
    assert_eq!(shred::shred_to_shred_data(&code(1, 2)), None);
}

#[test]
fn copies_differ_in_any_field() {
    let base = data(1, 3, 0, 2, false);
    assert!(base.is_copy_of(&base.clone()));
    let mut other = base.clone();
    other.payload[3] = 77;
    assert!(!base.is_copy_of(&other));
    let mut other = base.clone();
    other.payload.push(0);
    assert!(!base.is_copy_of(&other));
    let mut other = base.clone();
    other.data_complete = true;
    assert!(!base.is_copy_of(&other));
    let mut other = base.clone();
    other.slot = 2;
    assert!(!base.is_copy_of(&other));
    let mut other = base.clone();
    other.index = 3;
    assert!(!base.is_copy_of(&other));
    let mut other = base.clone();
    other.fec_set_index = 1;
    assert!(!base.is_copy_of(&other));
    let mut other = base.clone();
    other.reference_tick = 4;
    assert!(!base.is_copy_of(&other));
}

#[test]
fn new_cache_is_empty() {
    let cache = cache();
    assert!(cache.batch((0, 0, 0)).is_none());
    assert!(cache.batch((1, 2, 3)).is_none());
}

#[test]
fn two_shreds_of_one_batch_are_stored_together() {
    let mut cache = cache();
    assert_eq!(feed(&mut cache, data(1, 0, 0, 0, false)), stored());
    assert_eq!(feed(&mut cache, data(1, 0, 0, 1, false)), stored());
    let batch = cache.batch((1, 0, 0)).unwrap();
    assert_eq!(batch.num_data_shreds(), 2);
    assert_eq!(batch.data_shred(0), Some(&data(1, 0, 0, 0, false)));
    assert_eq!(batch.data_shred(1), Some(&data(1, 0, 0, 1, false)));
    assert_eq!(batch.data_shred(2), None);
    assert_eq!(batch.start_data_index(), 0);
    assert_eq!(batch.end_data_index(), UNKNOWN_INDEX);
    assert!(!batch.is_full());
}

#[test]
fn whole_set_is_handed_out_in_index_order_whatever_the_order() {
    let orders: [[u32; 4]; 4] = [[10, 11, 12, 13], [13, 12, 11, 10], [12, 10, 13, 11], [11, 13, 10, 12]];
    for order in orders {
        let mut cache = cache();
        for index in &order[..3] {
            let outcome = feed(&mut cache, data(5, 7, 10, *index, *index == 13));
            assert_eq!(outcome, stored());
            assert!(!cache.batch((5, 7, 10)).unwrap().is_full());
        }
        let outcome = feed(&mut cache, data(5, 7, 10, order[3], order[3] == 13));
        let expected: Vec<ShredData> =
            (10..14).map(|index| data(5, 7, 10, index, index == 13)).collect();
        assert_eq!(
            outcome,
            Outcome::Stored { complete_again: false, end_again: false, full: Some(expected) }
        );
        let batch = cache.batch((5, 7, 10)).unwrap();
        assert!(batch.is_full());
        assert_eq!(batch.end_data_index(), 13);
        assert_eq!(batch.num_data_shreds(), 4);
    }
}

#[test]
fn single_shred_set_is_full_at_once() {
    let mut cache = cache();
    let only = data(1, 2, 6, 6, true);
    assert_eq!(
        feed(&mut cache, only.clone()),
        Outcome::Stored { complete_again: false, end_again: false, full: Some(vec![only]) }
    );
}

#[test]
fn full_batch_is_handed_out_once_and_stays() {
    let mut cache = cache();
    feed(&mut cache, data(1, 2, 0, 0, false));
    feed(&mut cache, data(1, 2, 0, 1, true));
    assert_eq!(feed(&mut cache, data(1, 2, 0, 1, true)), Outcome::AlreadyFull);
    assert_eq!(feed(&mut cache, data(1, 2, 0, 2, false)), Outcome::AlreadyFull);
    assert_eq!(cache.batch((1, 2, 0)).unwrap().num_data_shreds(), 2);
}

#[test]
fn duplicate_changes_nothing() {
    let mut cache = cache();
    feed(&mut cache, data(1, 2, 0, 0, false));
    assert_eq!(feed(&mut cache, data(1, 2, 0, 0, false)), Outcome::Duplicate);
    assert_eq!(cache.batch((1, 2, 0)).unwrap().num_data_shreds(), 1);
}

#[test]
fn first_of_two_conflicting_shreds_stays() {
    let mut cache = cache();
    let first = data(1, 2, 0, 0, false);
    let mut second = first.clone();
    second.payload = vec![42];
    feed(&mut cache, first.clone());
    assert_eq!(feed(&mut cache, second), Outcome::Conflict);
    assert_eq!(cache.batch((1, 2, 0)).unwrap().data_shred(0), Some(&first));
}

#[test]
fn code_shreds_are_dropped() {
    let mut cache = cache();
    assert_eq!(cache.process_shred(code(1, 0)), Outcome::Code);
    assert!(cache.batch((1, 0, 0)).is_none());
    assert!(cache.batch((1, 63, 0)).is_none());
}

#[test]
fn batches_do_not_mix() {
    let mut cache = cache();
    feed(&mut cache, data(1, 2, 0, 0, false));
    feed(&mut cache, data(1, 3, 0, 0, false));
    feed(&mut cache, data(2, 2, 0, 0, false));
    feed(&mut cache, data(1, 2, 4, 4, false));
    for key in [(1, 2, 0), (1, 3, 0), (2, 2, 0), (1, 2, 4)] {
        assert_eq!(cache.batch(key).unwrap().num_data_shreds(), 1);
    }
    assert!(matches!(
        feed(&mut cache, data(1, 2, 0, 1, true)),
        Outcome::Stored { full: Some(_), .. }
    ));
    assert!(!cache.batch((1, 3, 0)).unwrap().is_full());
}

#[test]
fn batches_commute() {
    let mut one = cache();
    let mut other = cache();
    let (a, b) = (data(1, 2, 0, 0, true), data(1, 2, 4, 5, false));
    feed(&mut one, a.clone());
    feed(&mut one, b.clone());
    feed(&mut other, b);
    feed(&mut other, a);
    for key in [(1, 2, 0), (1, 2, 4)] {
        let (left, right) = (one.batch(key).unwrap(), other.batch(key).unwrap());
        assert_eq!(left.is_full(), right.is_full());
        assert_eq!(left.num_data_shreds(), right.num_data_shreds());
        assert_eq!(left.end_data_index(), right.end_data_index());
    }
}

#[test]
fn order_of_part_of_a_set_does_not_matter() {
    let orders: [[u32; 3]; 4] = [[0, 2, 4], [4, 2, 0], [2, 0, 4], [4, 0, 2]];
    for order in orders {
        let mut cache = cache();
        for index in order {
            assert_eq!(feed(&mut cache, data(1, 2, 0, index, index == 4)), stored());
        }
        let batch = cache.batch((1, 2, 0)).unwrap();
        assert_eq!(batch.num_data_shreds(), 3);
        for index in [0, 2, 4] {
            assert_eq!(batch.data_shred(index), Some(&data(1, 2, 0, index, index == 4)));
        }
        assert_eq!(batch.end_data_index(), 4);
        assert!(!batch.is_full());
    }
}

#[test]
fn last_shred_at_the_unknown_index_makes_the_end_unknown() {
    let mut cache = cache();
    feed(&mut cache, data(1, 2, 0, 5, true));
    assert_eq!(cache.batch((1, 2, 0)).unwrap().end_data_index(), 5);
    feed(&mut cache, data(1, 2, 0, UNKNOWN_INDEX, true));
    assert_eq!(cache.batch((1, 2, 0)).unwrap().end_data_index(), UNKNOWN_INDEX);
}

#[test]
fn second_last_shred_moves_the_end() {
    let mut cache = cache();
    assert_eq!(feed(&mut cache, data(1, 2, 0, 5, true)), stored());
    assert_eq!(
        feed(&mut cache, data(1, 2, 0, 3, true)),
        Outcome::Stored { complete_again: true, end_again: true, full: None }
    );
    assert_eq!(cache.batch((1, 2, 0)).unwrap().end_data_index(), 3);
}

#[test]
fn shred_beyond_the_end_does_not_fill_a_gap() {
    let mut cache = cache();
    feed(&mut cache, data(1, 2, 0, 5, false));
    assert_eq!(feed(&mut cache, data(1, 2, 0, 1, true)), stored());
    assert!(!cache.batch((1, 2, 0)).unwrap().is_full());
    let outcome = feed(&mut cache, data(1, 2, 0, 0, false));
    let expected =
        vec![data(1, 2, 0, 0, false), data(1, 2, 0, 1, true), data(1, 2, 0, 5, false)];
    assert_eq!(
        outcome,
        Outcome::Stored { complete_again: false, end_again: false, full: Some(expected) }
    );
    assert!(cache.batch((1, 2, 0)).unwrap().is_full());
}

#[test]
fn batch_with_a_hole_is_not_full() {
    let mut cache = cache();
    assert_eq!(feed(&mut cache, data(1, 0, 0, 0, false)), stored());
    assert_eq!(feed(&mut cache, data(1, 0, 0, 2, true)), stored());
    assert_eq!(feed(&mut cache, data(1, 0, 0, 3, false)), stored());
    let batch = cache.batch((1, 0, 0)).unwrap();
    assert!(!batch.is_full());
    assert!(!check_completed_batch(&batch));
    assert_eq!(batch.data_shred(1), None);
    assert_eq!(batch.num_data_shreds(), 3);
    assert_eq!(batch.end_data_index(), 2);
}

#[test]
fn unknown_index_never_completes() {
    let mut cache = cache();
    assert_eq!(feed(&mut cache, data(1, 2, UNKNOWN_INDEX, UNKNOWN_INDEX, true)), stored());
    assert_eq!(feed(&mut cache, data(1, 2, 999_998, UNKNOWN_INDEX, true)), stored());
    assert_eq!(feed(&mut cache, data(1, 2, 999_998, 999_998, false)), stored());
    assert!(!cache.batch((1, 2, 999_998)).unwrap().is_full());
}

#[test]
fn end_before_the_start_does_not_complete() {
    let mut cache = cache();
    assert_eq!(feed(&mut cache, data(1, 2, 8, 7, true)), stored());
    assert_eq!(cache.batch((1, 2, 8)).unwrap().end_data_index(), 7);
    assert_eq!(feed(&mut cache, data(1, 2, 8, 8, false)), stored());
    assert!(!cache.batch((1, 2, 8)).unwrap().is_full());
    assert!(matches!(
        feed(&mut cache, data(1, 2, 8, 9, true)),
        Outcome::Stored { complete_again: true, end_again: true, full: Some(_) }
    ));
}

#[test]
fn batch_at_the_highest_index_completes() {
    let mut cache = cache();
    assert_eq!(feed(&mut cache, data(1, 2, u32::MAX - 1, u32::MAX, true)), stored());
    assert!(matches!(
        feed(&mut cache, data(1, 2, u32::MAX - 1, u32::MAX - 1, false)),
        Outcome::Stored { full: Some(_), .. }
    ));
}

#[test]
fn batches_only_grow() {
    let mut cache = cache();
    let shreds = [(3, true), (0, false), (1, true), (3, true), (2, false), (4, false)];
    let mut stored_before: Vec<ShredData> = vec![];
    let mut full_before = false;
    for (index, last) in shreds {
        feed(&mut cache, data(1, 2, 0, index, last));
        let batch = cache.batch((1, 2, 0)).unwrap();
        for shred in &stored_before {
            assert_eq!(batch.data_shred(shred.index), Some(shred));
        }
        assert!(batch.num_data_shreds() <= stored_before.len() + 1);
        assert!(batch.is_full() || !full_before);
        stored_before = (0..5).filter_map(|i| batch.data_shred(i).cloned()).collect();
        full_before = batch.is_full();
    }
    assert!(full_before);
}

#[test]
fn batch_accepts_on_its_own() {
    let mut batch = PacketBatch::new(3);
    assert_eq!(batch.accept(data(1, 2, 3, 3, false)), stored());
    assert!(!check_completed_batch(&batch));
    let outcome = batch.accept(data(1, 2, 3, 4, true));
    assert!(matches!(outcome, Outcome::Stored { full: Some(_), .. }));
    assert!(batch.clone().is_full());
    assert!(check_completed_batch(&batch));
}

#[test]
fn slots_ahead_of_the_current_one_are_kept() {
    let mut cache = cache();
    feed(&mut cache, data(10, 0, 0, 0, false));
    feed(&mut cache, data(1_000, 0, 0, 0, false));
    cache.clean_old_slots(9);
    assert!(cache.batch((10, 0, 0)).is_some());
    assert!(cache.batch((1_000, 0, 0)).is_some());
    cache.clean_old_slots(61);
    assert!(cache.batch((10, 0, 0)).is_none());
    assert!(cache.batch((1_000, 0, 0)).is_some());
    assert!(is_recent(0, u64::MAX));
    assert!(!is_recent(u64::MAX, 0));
}

#[test]
fn old_slots_are_cleaned() {
    let mut cache = cache();
    feed(&mut cache, data(1, 0, 0, 0, false));
    feed(&mut cache, data(100, 0, 0, 0, false));
    cache.clean_old_slots(150);
    assert!(cache.batch((1, 0, 0)).is_none());
    assert_eq!(cache.batch((100, 0, 0)).unwrap().num_data_shreds(), 1);
    cache.clean_old_slots(150);
    assert!(cache.batch((100, 0, 0)).is_some());
    cache.clean_old_slots(151);
    assert!(cache.batch((100, 0, 0)).is_none());
    assert_eq!(MAX_SLOT_DISTANCE, 50);
}
