//! Whether a legacy shred is to be dropped: from the epoch after the one in which the cluster
//! decided to drop them.

use solana_sdk::feature_set::FeatureSet;
use vstd::arithmetic::power2::pow2;
use vstd::prelude::*;

verus! {

/// The number of slots in the first epoch, if epochs start short and grow.
pub const MINIMUM_SLOTS_PER_EPOCH: u64 = 32;

/// The highest slot in a growing epoch whose epoch can be computed.
pub const MAX_GROWING_SLOT: u64 = 0x7fff_ffff_ffff_ffdf;

/// How the slots are divided into epochs.
#[derive(Clone, Copy, Debug, PartialEq, Eq)]
pub struct EpochSchedule {
    /// The number of slots in each epoch, once epochs have stopped growing.
    pub slots_per_epoch: u64,
    /// How many slots before an epoch its leader schedule is computed.
    pub leader_schedule_slot_offset: u64,
    /// Whether epochs start short and grow.
    pub warmup: bool,
    /// The first epoch after they have stopped growing.
    pub first_normal_epoch: u64,
    /// The first slot of that epoch.
    pub first_normal_slot: u64,
}

impl EpochSchedule {
    /// The epoch of the slot can be computed. Every slot has one if the epochs stop growing by
    /// the slot after `MAX_GROWING_SLOT`.
    pub open spec fn has_epoch(self, slot: u64) -> bool {
        slot < self.first_normal_slot ==> slot <= MAX_GROWING_SLOT
    }

    /// The first slot after the growing epochs is the one that their lengths lead to. Schedules
    /// with and without growing epochs are made this way.
    pub open spec fn regular(self) -> bool {
        self.first_normal_slot == MINIMUM_SLOTS_PER_EPOCH * (pow2(self.first_normal_epoch as nat)
            - 1)
    }

    /// The last of the growing epochs is not after the first normal one.
    pub open spec fn joined(self) -> bool {
        self.first_normal_slot > 0 ==> growing_epoch(
            (self.first_normal_slot - 1) as nat,
            MINIMUM_SLOTS_PER_EPOCH as nat,
        ) <= self.first_normal_epoch
    }

    /// The epoch of a slot.
    pub open spec fn epoch_of(self, slot: u64) -> int {
        if slot < self.first_normal_slot {
            growing_epoch(slot as nat, MINIMUM_SLOTS_PER_EPOCH as nat) as int
        } else {
            let passed = if self.slots_per_epoch == 0 {
                0
            } else {
                (slot - self.first_normal_slot) / (self.slots_per_epoch as int)
            };
            if self.first_normal_epoch + passed > u64::MAX {
                u64::MAX as int
            } else {
                self.first_normal_epoch + passed
            }
        }
    }
}

/// The epoch of a slot where the first epoch has the given length and each one is twice as long as
/// the one before.
pub open spec fn growing_epoch(slot: nat, length: nat) -> nat
    decreases slot,
{
    if slot < length || length == 0 {
        0
    } else {
        1 + growing_epoch((slot - length) as nat, 2 * length)
    }
}

/// `EpochSchedule::get_epoch` of the Solana SDK gives the epoch of a slot: before the first normal
/// slot, epochs double in length from `MINIMUM_SLOTS_PER_EPOCH` on; from there on, they have a
/// fixed length, and the count stops at the highest number there is.
#[verifier::external_body]
pub(crate) fn get_epoch(schedule: &EpochSchedule, slot: u64) -> (epoch: u64)
    requires
        schedule.has_epoch(slot),
    ensures
        epoch == schedule.epoch_of(slot),
{
    solana_sdk::epoch_schedule::EpochSchedule {
        slots_per_epoch: schedule.slots_per_epoch,
        leader_schedule_slot_offset: schedule.leader_schedule_slot_offset,
        warmup: schedule.warmup,
        first_normal_epoch: schedule.first_normal_epoch,
        first_normal_slot: schedule.first_normal_slot,
    }.get_epoch(slot)
}

/// `FeatureSet` of the Solana SDK, the features that a cluster has activated. Nothing is claimed
/// of it here.
#[verifier::external_type_specification]
#[verifier::external_body]
pub struct ExFeatureSet(solana_sdk::feature_set::FeatureSet);

/// The features that are active, each with the slot it was activated in, by the bytes of the id.
pub uninterp spec fn active_features(features: FeatureSet) -> Map<Seq<u8>, u64>;

/// The slot that the feature was activated in, if it was.
pub open spec fn activation(features: FeatureSet, id: Seq<u8>) -> Option<u64> {
    if active_features(features).contains_key(id) {
        Some(active_features(features)[id])
    } else {
        None
    }
}

/// `FeatureSet::activated_slot` gives the slot that the feature was activated in, if it was.
#[verifier::external_body]
pub(crate) fn activated_slot(features: &FeatureSet, id: [u8; 32]) -> (slot: Option<u64>)
    ensures
        slot == if active_features(*features).contains_key(id@) {
            Some(active_features(*features)[id@])
        } else {
            None
        },
{
    features.activated_slot(&solana_sdk::pubkey::Pubkey::new_from_array(id))
}

/// The bytes of the id of the feature that drops legacy shreds.
pub open spec fn drop_legacy_shreds_id() -> Seq<u8> {
    seq![
        230, 15, 30, 235, 47, 57, 123, 209, 57, 170, 49, 238, 35, 132, 128, 105, 81, 153, 147, 128,
        194, 85, 83, 239, 235, 162, 224, 22, 121, 160, 1, 124,
    ]
}

/// `drop_legacy_shreds::id` of the Solana SDK is the id of the feature that drops legacy shreds.
#[verifier::external_body]
pub(crate) fn feature_id() -> (id: [u8; 32])
    ensures
        id@ == drop_legacy_shreds_id(),
{
    solana_sdk::feature_set::drop_legacy_shreds::id().to_bytes()
}

/// Legacy shreds of the slot are dropped, given the slot in which that was decided.
pub open spec fn dropped_after(
    feature_slot: Option<u64>,
    shred_slot: u64,
    schedule: EpochSchedule,
) -> bool {
    feature_slot matches Some(slot) && schedule.epoch_of(slot) < schedule.epoch_of(shred_slot)
}

/// Whether legacy shreds of the slot are dropped, given the slot in which that was decided, if it
/// was.
#[must_use]
pub fn is_dropped_after(
    feature_slot: Option<u64>,
    shred_slot: u64,
    epoch_schedule: &EpochSchedule,
) -> (dropped: bool)
    requires
        feature_slot matches Some(slot) ==> epoch_schedule.has_epoch(slot)
            && epoch_schedule.has_epoch(shred_slot),
    ensures
        dropped == dropped_after(feature_slot, shred_slot, *epoch_schedule),
        dropped <==> (feature_slot matches Some(slot) && epoch_schedule.epoch_of(slot)
            < epoch_schedule.epoch_of(shred_slot)),
{
    match feature_slot {
        None => false,
        Some(slot) => {
            let feature_epoch: u64 = get_epoch(epoch_schedule, slot);
            let shred_epoch: u64 = get_epoch(epoch_schedule, shred_slot);
            feature_epoch < shred_epoch
        },
    }
}

/// Whether legacy shreds of the slot are dropped: the feature is active, and the slot is in a
/// later epoch than the one it was activated in.
#[must_use]
pub fn should_drop_legacy_shreds(
    shred_slot: u64,
    feature_set: &FeatureSet,
    epoch_schedule: &EpochSchedule,
) -> (dropped: bool)
    requires
        activation(*feature_set, drop_legacy_shreds_id()) matches Some(slot)
            ==> epoch_schedule.has_epoch(slot) && epoch_schedule.has_epoch(shred_slot),
    ensures
        dropped == dropped_after(
            activation(*feature_set, drop_legacy_shreds_id()),
            shred_slot,
            *epoch_schedule,
        ),
        dropped <==> active_features(*feature_set).contains_key(drop_legacy_shreds_id())
            && epoch_schedule.epoch_of(active_features(*feature_set)[drop_legacy_shreds_id()])
            < epoch_schedule.epoch_of(shred_slot),
{
    is_dropped_after(activated_slot(feature_set, feature_id()), shred_slot, epoch_schedule)
}

/// In growing epochs, a later slot is in the same epoch or a later one.
proof fn lemma_growing_epochs_ascend(earlier: nat, later: nat, length: nat)
    requires
        earlier <= later,
    ensures
        growing_epoch(earlier, length) <= growing_epoch(later, length),
    decreases later,
{
    if length > 0 && earlier >= length {
        lemma_growing_epochs_ascend(
            (earlier - length) as nat,
            (later - length) as nat,
            2 * length,
        );
    }
}

/// The first `count` growing epochs end where the sum of their lengths says.
proof fn lemma_growing_epochs_end(slot: nat, length: nat, count: nat)
    requires
        length > 0,
        slot < length * (pow2(count) - 1),
    ensures
        growing_epoch(slot, length) < count,
    decreases count,
{
    if count == 0 {
        assert(pow2(0) == 1) by {
            vstd::arithmetic::power2::lemma2_to64();
        }
        assert(length * (pow2(0) - 1) == 0) by (nonlinear_arith)
            requires
                pow2(0) == 1,
        ;
    } else if slot >= length {
        vstd::arithmetic::power2::lemma_pow2_unfold(count);
        let rest = pow2((count - 1) as nat);
        assert(length * (2 * rest - 1) == length + (2 * length) * (rest - 1)) by (nonlinear_arith);
        lemma_growing_epochs_end((slot - length) as nat, 2 * length, (count - 1) as nat);
    }
}

/// A slot in a growing epoch lies between the slots where the lengths of the epochs put the start
/// and the end of it.
proof fn lemma_growing_epoch_bounds(slot: nat, length: nat)
    requires
        length > 0,
    ensures
        length * (pow2(growing_epoch(slot, length)) - 1) <= slot < length * (pow2(
            growing_epoch(slot, length) + 1,
        ) - 1),
    decreases slot,
{
    vstd::arithmetic::power2::lemma2_to64();
    let epoch = growing_epoch(slot, length);
    if slot < length {
        assert(length * (1 - 1) == 0 && length * (2 - 1) == length) by (nonlinear_arith);
    } else {
        lemma_growing_epoch_bounds((slot - length) as nat, 2 * length);
        vstd::arithmetic::power2::lemma_pow2_unfold(epoch);
        vstd::arithmetic::power2::lemma_pow2_unfold(epoch + 1);
        let low = pow2((epoch - 1) as nat);
        let high = pow2(epoch);
        assert(length * (2 * low - 1) == length + (2 * length) * (low - 1)) by (nonlinear_arith);
        assert(length * (2 * high - 1) == length + (2 * length) * (high - 1)) by (nonlinear_arith);
    }
}

/// Growing epochs start with 32 slots and double: epoch `e` runs from slot `32 * (2^e - 1)` up to
/// the one before slot `32 * (2^(e + 1) - 1)`.
pub proof fn law_growing_epochs_double(schedule: EpochSchedule, slot: u64)
    requires
        slot < schedule.first_normal_slot,
    ensures
        schedule.epoch_of(slot) >= 0,
        32 * (pow2(schedule.epoch_of(slot) as nat) - 1) <= slot < 32 * (pow2(
            (schedule.epoch_of(slot) + 1) as nat,
        ) - 1),
{
    lemma_growing_epoch_bounds(slot as nat, 32);
}

/// From the first normal slot on, every epoch has the same number of slots, and epochs are counted
/// on from the first normal one as far as 64 bits go. Where that number is zero, there is no other
/// epoch.
pub proof fn law_normal_epochs_have_one_length(schedule: EpochSchedule, slot: u64)
    requires
        slot >= schedule.first_normal_slot,
    ensures
        ({
            let count = schedule.epoch_of(slot) - schedule.first_normal_epoch;
            let length = schedule.slots_per_epoch as int;
            &&& count >= 0
            &&& schedule.epoch_of(slot) <= u64::MAX
            &&& length == 0 ==> count == 0
            &&& length > 0 ==> schedule.first_normal_slot + count * length <= slot
            &&& length > 0 && schedule.epoch_of(slot) < u64::MAX ==> slot
                < schedule.first_normal_slot + (count + 1) * length
        }),
{
    let length = schedule.slots_per_epoch as int;
    if length > 0 {
        let passed = (slot - schedule.first_normal_slot) / length;
        let count = schedule.epoch_of(slot) - schedule.first_normal_epoch;
        vstd::arithmetic::div_mod::lemma_fundamental_div_mod(
            slot - schedule.first_normal_slot,
            length,
        );
        vstd::arithmetic::div_mod::lemma_div_pos_is_pos(slot - schedule.first_normal_slot, length);
        assert(length * passed == passed * length) by (nonlinear_arith);
        assert((passed + 1) * length == passed * length + length) by (nonlinear_arith);
        assert(count * length <= passed * length) by (nonlinear_arith)
            requires
                count <= passed,
                length > 0,
        ;
    }
}

/// Legacy shreds are dropped in exactly the slots of later epochs than the one in which that was
/// decided, and nowhere if it was not decided.
pub proof fn law_dropped_in_later_epochs(
    feature_slot: Option<u64>,
    shred_slot: u64,
    schedule: EpochSchedule,
)
    ensures
        match feature_slot {
            Some(slot) => dropped_after(feature_slot, shred_slot, schedule) <==> schedule.epoch_of(
                slot,
            ) < schedule.epoch_of(shred_slot),
            None => !dropped_after(feature_slot, shred_slot, schedule),
        },
{
}

/// Where all epochs have the same number of slots from slot zero on, legacy shreds are dropped in
/// exactly the slots from the first one of the next epoch on.
pub proof fn law_dropped_from_the_next_epoch_on(
    feature_slot: u64,
    shred_slot: u64,
    schedule: EpochSchedule,
)
    requires
        schedule.first_normal_slot == 0,
        schedule.first_normal_epoch == 0,
        schedule.slots_per_epoch > 0,
    ensures
        dropped_after(Some(feature_slot), shred_slot, schedule) <==> shred_slot >= (feature_slot
            / schedule.slots_per_epoch + 1) * schedule.slots_per_epoch,
{
    let length = schedule.slots_per_epoch as int;
    let before = feature_slot as int / length;
    let now = shred_slot as int / length;
    law_normal_epochs_have_one_length(schedule, feature_slot);
    law_normal_epochs_have_one_length(schedule, shred_slot);
    vstd::arithmetic::div_mod::lemma_fundamental_div_mod(feature_slot as int, length);
    vstd::arithmetic::div_mod::lemma_fundamental_div_mod(shred_slot as int, length);
    lemma_quotient_fits(feature_slot as int, length);
    lemma_quotient_fits(shred_slot as int, length);
    assert(length * now == now * length) by (nonlinear_arith);
    if before < now {
        assert((before + 1) * length <= now * length) by (nonlinear_arith)
            requires
                before + 1 <= now,
                length > 0,
        ;
    } else {
        assert((now + 1) * length <= (before + 1) * length) by (nonlinear_arith)
            requires
                now <= before,
                length > 0,
        ;
        assert((now + 1) * length == now * length + length) by (nonlinear_arith);
    }
}

/// A quotient is not below zero and not above what is divided.
proof fn lemma_quotient_fits(a: int, b: int)
    requires
        a >= 0,
        b > 0,
    ensures
        0 <= a / b <= a,
{
    vstd::arithmetic::div_mod::lemma_div_pos_is_pos(a, b);
    vstd::arithmetic::div_mod::lemma_div_is_ordered_by_denominator(a, 1, b);
    vstd::arithmetic::div_mod::lemma_div_basics(a);
}

/// Once a normal epoch starts after the slot in which dropping them was decided, legacy shreds are
/// dropped: it is the one whose number is `count` more than that of the first normal one.
pub proof fn law_dropped_once_a_normal_epoch_starts(
    feature_slot: u64,
    shred_slot: u64,
    schedule: EpochSchedule,
    count: int,
)
    requires
        schedule.first_normal_slot == 32 * (pow2(schedule.first_normal_epoch as nat) - 1),
        count >= 0,
        schedule.slots_per_epoch > 0,
        schedule.first_normal_epoch + count <= u64::MAX,
        feature_slot < schedule.first_normal_slot + count * schedule.slots_per_epoch <= shred_slot,
    ensures
        dropped_after(Some(feature_slot), shred_slot, schedule),
{
    let length = schedule.slots_per_epoch as int;
    let after = (shred_slot - schedule.first_normal_slot) / length;
    assert(count * length >= 0) by (nonlinear_arith)
        requires
            count >= 0,
            length > 0,
    ;
    lemma_quotient_reaches(shred_slot - schedule.first_normal_slot, length, count);
    if feature_slot < schedule.first_normal_slot {
        lemma_growing_epochs_end(
            feature_slot as nat,
            MINIMUM_SLOTS_PER_EPOCH as nat,
            schedule.first_normal_epoch as nat,
        );
    } else {
        lemma_quotient_stays(feature_slot - schedule.first_normal_slot, length, count);
    }
}

/// A quotient reaches a number whose product with the divisor is reached.
proof fn lemma_quotient_reaches(a: int, b: int, count: int)
    requires
        b > 0,
        count * b <= a,
    ensures
        count <= a / b,
{
    vstd::arithmetic::div_mod::lemma_div_is_ordered(count * b, a, b);
    vstd::arithmetic::div_mod::lemma_div_multiples_vanish(count, b);
    assert(count * b == b * count) by (nonlinear_arith);
}

/// A quotient stays below a number whose product with the divisor is not reached.
proof fn lemma_quotient_stays(a: int, b: int, count: int)
    requires
        b > 0,
        a < count * b,
    ensures
        a / b < count,
{
    vstd::arithmetic::div_mod::lemma_fundamental_div_mod(a, b);
    if a / b >= count {
        assert(b * (a / b) >= count * b) by (nonlinear_arith)
            requires
                a / b >= count,
                b > 0,
        ;
    }
}

/// Once a growing epoch starts after the slot in which dropping them was decided, legacy shreds are
/// dropped.
pub proof fn law_dropped_once_a_growing_epoch_starts(
    feature_slot: u64,
    shred_slot: u64,
    schedule: EpochSchedule,
    epoch: nat,
)
    requires
        schedule.first_normal_slot == 32 * (pow2(schedule.first_normal_epoch as nat) - 1),
        epoch <= schedule.first_normal_epoch,
        feature_slot < 32 * (pow2(epoch) - 1) <= shred_slot,
    ensures
        dropped_after(Some(feature_slot), shred_slot, schedule),
{
    lemma_pow2_ascends(epoch, schedule.first_normal_epoch as nat);
    lemma_growing_epochs_end(feature_slot as nat, 32, epoch);
    if shred_slot < schedule.first_normal_slot {
        lemma_growing_epoch_bounds(shred_slot as nat, 32);
        let found = growing_epoch(shred_slot as nat, 32);
        if found + 1 <= epoch {
            lemma_pow2_ascends(found + 1, epoch);
        }
    } else {
        law_normal_epochs_have_one_length(schedule, shred_slot);
    }
}

/// A higher power of two is not less.
proof fn lemma_pow2_ascends(low: nat, high: nat)
    requires
        low <= high,
    ensures
        pow2(low) <= pow2(high),
{
    if low < high {
        vstd::arithmetic::power2::lemma_pow2_strictly_increases(low, high);
    }
}

/// Up to the end of the epoch in which dropping them was decided, legacy shreds are not dropped:
/// the normal epoch whose number is `count` more than that of the first one.
pub proof fn law_not_dropped_within_a_normal_epoch(
    feature_slot: u64,
    shred_slot: u64,
    schedule: EpochSchedule,
    count: int,
)
    requires
        schedule.first_normal_slot == 32 * (pow2(schedule.first_normal_epoch as nat) - 1),
        count >= 0,
        schedule.slots_per_epoch > 0,
        schedule.first_normal_slot + count * schedule.slots_per_epoch <= feature_slot,
        shred_slot < schedule.first_normal_slot + (count + 1) * schedule.slots_per_epoch,
    ensures
        !dropped_after(Some(feature_slot), shred_slot, schedule),
{
    let length = schedule.slots_per_epoch as int;
    assert(count * length >= 0) by (nonlinear_arith)
        requires
            count >= 0,
            length > 0,
    ;
    lemma_quotient_reaches(feature_slot - schedule.first_normal_slot, length, count);
    if shred_slot < schedule.first_normal_slot {
        law_regular_schedules_are_joined(schedule);
        law_epochs_ascend(schedule, shred_slot, feature_slot);
    } else {
        lemma_quotient_stays(shred_slot - schedule.first_normal_slot, length, count + 1);
    }
}

/// Up to the end of the epoch in which dropping them was decided, legacy shreds are not dropped,
/// if that is a growing one.
pub proof fn law_not_dropped_within_a_growing_epoch(
    feature_slot: u64,
    shred_slot: u64,
    schedule: EpochSchedule,
    epoch: nat,
)
    requires
        shred_slot < schedule.first_normal_slot,
        feature_slot < schedule.first_normal_slot,
        32 * (pow2(epoch) - 1) <= feature_slot,
        shred_slot < 32 * (pow2(epoch + 1) - 1),
    ensures
        !dropped_after(Some(feature_slot), shred_slot, schedule),
{
    lemma_growing_epochs_end(shred_slot as nat, 32, epoch + 1);
    lemma_growing_epoch_bounds(feature_slot as nat, 32);
    let found = growing_epoch(feature_slot as nat, 32);
    if found + 1 <= epoch {
        lemma_pow2_ascends(found + 1, epoch);
    }
}

/// The epoch of a slot can be computed where epochs have stopped growing, and up to a slot just
/// below 2^63 where they have not.
pub proof fn law_slots_have_epochs(schedule: EpochSchedule, slot: u64)
    ensures
        schedule.has_epoch(slot) <==> slot >= schedule.first_normal_slot || slot
            <= 0x7fff_ffff_ffff_ffff - 32,
{
}

/// A feature counts as activated in a slot exactly when it is among the active ones with that slot.
pub proof fn law_activation_is_looked_up(features: FeatureSet, id: Seq<u8>, slot: u64)
    ensures
        activation(features, id) == Some(slot) <==> active_features(features).contains_key(id)
            && active_features(features)[id] == slot,
        activation(features, id) is None <==> !active_features(features).contains_key(id),
{
}

/// In a schedule whose growing epochs have the lengths they are to have, the last of them is not
/// after the first normal one.
pub proof fn law_regular_schedules_are_joined(schedule: EpochSchedule)
    requires
        schedule.regular(),
    ensures
        schedule.joined(),
{
    if schedule.first_normal_slot > 0 {
        lemma_growing_epochs_end(
            (schedule.first_normal_slot - 1) as nat,
            MINIMUM_SLOTS_PER_EPOCH as nat,
            schedule.first_normal_epoch as nat,
        );
    }
}

/// A later slot is in the same epoch or a later one.
pub proof fn law_epochs_ascend(schedule: EpochSchedule, earlier: u64, later: u64)
    requires
        schedule.joined(),
        earlier <= later,
    ensures
        schedule.epoch_of(earlier) <= schedule.epoch_of(later),
{
    if later < schedule.first_normal_slot {
        lemma_growing_epochs_ascend(earlier as nat, later as nat, MINIMUM_SLOTS_PER_EPOCH as nat);
    } else if earlier < schedule.first_normal_slot {
        lemma_growing_epochs_ascend(
            earlier as nat,
            (schedule.first_normal_slot - 1) as nat,
            MINIMUM_SLOTS_PER_EPOCH as nat,
        );
        if schedule.slots_per_epoch > 0 {
            vstd::arithmetic::div_mod::lemma_div_pos_is_pos(
                later - schedule.first_normal_slot,
                schedule.slots_per_epoch as int,
            );
        }
    } else if schedule.slots_per_epoch > 0 {
        vstd::arithmetic::div_mod::lemma_div_is_ordered(
            earlier - schedule.first_normal_slot,
            later - schedule.first_normal_slot,
            schedule.slots_per_epoch as int,
        );
    }
}

/// Once legacy shreds are dropped, they are dropped in every later slot.
pub proof fn law_dropping_goes_on(
    feature_slot: Option<u64>,
    earlier: u64,
    later: u64,
    schedule: EpochSchedule,
)
    requires
        schedule.joined(),
        earlier <= later,
        dropped_after(feature_slot, earlier, schedule),
    ensures
        dropped_after(feature_slot, later, schedule),
{
    law_epochs_ascend(schedule, earlier, later);
}

/// Legacy shreds are not dropped in a slot up to the one in which dropping them was decided.
pub proof fn law_no_dropping_before_activation(
    feature_slot: u64,
    shred_slot: u64,
    schedule: EpochSchedule,
)
    requires
        schedule.joined(),
        shred_slot <= feature_slot,
    ensures
        !dropped_after(Some(feature_slot), shred_slot, schedule),
{
    law_epochs_ascend(schedule, shred_slot, feature_slot);
}

} // verus!
