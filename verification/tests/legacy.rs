use shred_cache::legacy::{
    is_dropped_after, should_drop_legacy_shreds, EpochSchedule, MAX_GROWING_SLOT,
    MINIMUM_SLOTS_PER_EPOCH,
};
use solana_sdk::feature_set::{drop_legacy_shreds, FeatureSet};

fn schedule(sdk: &solana_sdk::epoch_schedule::EpochSchedule) -> EpochSchedule {
    EpochSchedule {
        slots_per_epoch: sdk.slots_per_epoch,
        leader_schedule_slot_offset: sdk.leader_schedule_slot_offset,
        warmup: sdk.warmup,
        first_normal_epoch: sdk.first_normal_epoch,
        first_normal_slot: sdk.first_normal_slot,
    }
}

/// The epoch of a slot, found by the dropping rule alone.
fn epoch_by_dropping(slot: u64, schedule: &EpochSchedule) -> usize {
    let mut epochs: usize = 0;
    let mut start: u64 = 0;
    for later in 1..=slot {
        if is_dropped_after(Some(start), later, schedule) {
            epochs += 1;
            start = later;
        }
    }
    epochs
}

#[test]
fn epochs_double_while_they_grow() {
    let sdk = solana_sdk::epoch_schedule::EpochSchedule::custom(128, 128, true);
    let schedule = schedule(&sdk);
    assert_eq!(MINIMUM_SLOTS_PER_EPOCH, 32);
    assert_eq!((schedule.first_normal_epoch, schedule.first_normal_slot), (2, 96));
    let firsts: [(u64, usize); 8] =
        [(0, 0), (31, 0), (32, 1), (95, 1), (96, 2), (223, 2), (224, 3), (352, 4)];
    for (slot, epoch) in firsts {
        assert_eq!(epoch_by_dropping(slot, &schedule), epoch);
        assert_eq!(sdk.get_epoch(slot), epoch as u64);
    }
}

#[test]
fn epochs_of_fixed_length() {
    let schedule = schedule(&solana_sdk::epoch_schedule::EpochSchedule::custom(50, 50, false));
    assert!(!is_dropped_after(Some(0), 49, &schedule));
    assert!(is_dropped_after(Some(0), 50, &schedule));
    assert!(is_dropped_after(Some(49), 50, &schedule));
    assert!(!is_dropped_after(Some(50), 99, &schedule));
    assert!(!is_dropped_after(Some(50), 10, &schedule));
}

#[test]
fn epochs_at_the_limits() {
    let mut schedule =
        schedule(&solana_sdk::epoch_schedule::EpochSchedule::custom(1 << 63, 32, true));
    assert_eq!(schedule.first_normal_slot, MAX_GROWING_SLOT + 1);
    assert!(is_dropped_after(Some(0), MAX_GROWING_SLOT, &schedule));
    assert!(is_dropped_after(Some(MAX_GROWING_SLOT), MAX_GROWING_SLOT + 1, &schedule));
    schedule.slots_per_epoch = 0;
    assert!(!is_dropped_after(Some(MAX_GROWING_SLOT + 1), u64::MAX, &schedule));
    schedule.slots_per_epoch = 1;
    schedule.first_normal_slot = 0;
    schedule.first_normal_epoch = u64::MAX - 1;
    assert!(is_dropped_after(Some(0), 1, &schedule));
    assert!(!is_dropped_after(Some(1), 2, &schedule));
}

#[test]
fn epochs_ascend_where_the_growing_ones_end_early() {
    // The growing epochs 0 and 1 are cut short, and the normal ones start at epoch 5.
    let schedule = EpochSchedule {
        slots_per_epoch: 10,
        leader_schedule_slot_offset: 10,
        warmup: true,
        first_normal_epoch: 5,
        first_normal_slot: 40,
    };
    assert!(!is_dropped_after(Some(0), 31, &schedule));
    assert!(is_dropped_after(Some(0), 32, &schedule));
    assert!(!is_dropped_after(Some(32), 39, &schedule));
    assert!(is_dropped_after(Some(39), 40, &schedule));
    assert!(is_dropped_after(Some(0), 50, &schedule));
    assert!(!is_dropped_after(Some(50), 40, &schedule));
}

#[test]
fn nothing_is_dropped_without_the_feature() {
    let schedule = schedule(&solana_sdk::epoch_schedule::EpochSchedule::custom(32, 32, false));
    assert!(!is_dropped_after(None, u64::MAX, &schedule));
    assert!(!should_drop_legacy_shreds(1_000_000, &FeatureSet::default(), &schedule));
    let mut others = FeatureSet::default();
    others.activate(&solana_sdk::feature_set::secp256k1_program_enabled::id(), 0);
    assert!(!should_drop_legacy_shreds(1_000_000, &others, &schedule));
}

#[test]
fn legacy_shreds_are_dropped_from_the_epoch_after_activation() {
    let schedule = schedule(&solana_sdk::epoch_schedule::EpochSchedule::custom(32, 32, false));
    let mut features = FeatureSet::default();
    features.activate(&drop_legacy_shreds::id(), 40);
    assert!(!should_drop_legacy_shreds(0, &features, &schedule));
    assert!(!should_drop_legacy_shreds(40, &features, &schedule));
    assert!(!should_drop_legacy_shreds(63, &features, &schedule));
    assert!(should_drop_legacy_shreds(64, &features, &schedule));
    assert!(should_drop_legacy_shreds(1_000, &features, &schedule));
}

#[test]
fn feature_id_has_the_stated_bytes() {
    let bytes: [u8; 32] = [
        230, 15, 30, 235, 47, 57, 123, 209, 57, 170, 49, 238, 35, 132, 128, 105, 81, 153, 147, 128,
        194, 85, 83, 239, 235, 162, 224, 22, 121, 160, 1, 124,
    ];
    assert_eq!(drop_legacy_shreds::id().to_bytes(), bytes);
}
