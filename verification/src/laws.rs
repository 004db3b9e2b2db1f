//! What holds of the cache over many shreds.

use crate::batch::{
    in_index_order, lemma_accept_keeps_wf, shred_views, BatchView, Outcome, UNKNOWN_INDEX,
};
use crate::cache::{
    batch_for, cache_outcome, cache_wf, cleaned, key_of, lemma_accept_stands_under, processed,
    CacheView,
};
use crate::shred::{DataShredView, Shred, ShredCode, ShredData, ShredView};
use crate::store::BatchKey;
use vstd::prelude::*;

verus! {

/// The cache after a sequence of shreds has come in, one after the other.
pub open spec fn processed_all(cache: CacheView, shreds: Seq<ShredView>) -> CacheView
    decreases shreds.len(),
{
    if shreds.len() == 0 {
        cache
    } else {
        processed(processed_all(cache, shreds.drop_last()), shreds.last())
    }
}

/// The shred is a data shred of the batch under the key.
pub open spec fn belongs_to(shred: ShredView, key: BatchKey) -> bool {
    shred matches ShredView::Data(data) && key_of(data) == key
}

/// Data shreds as shreds of either type.
pub open spec fn as_shreds(shreds: Seq<DataShredView>) -> Seq<ShredView> {
    shreds.map_values(|shred: DataShredView| ShredView::Data(shred))
}

/// The data shreds of one whole erasure set, each of them once, in any order: their indices run
/// from the index of the set on without a gap, and the one with the highest index, and no other,
/// is marked as the last one. Neither end has the index that stands for an unknown one.
pub open spec fn whole_set(shreds: Seq<DataShredView>, key: BatchKey) -> bool {
    &&& shreds.len() > 0
    &&& key.2 != UNKNOWN_INDEX
    &&& key.2 + shreds.len() - 1 != UNKNOWN_INDEX
    &&& forall|i: int|
        0 <= i < shreds.len() ==> {
            &&& key_of(#[trigger] shreds[i]) == key
            &&& key.2 <= shreds[i].index < key.2 + shreds.len()
            &&& shreds[i].data_complete <==> shreds[i].index == key.2 + shreds.len() - 1
        }
    &&& forall|i: int, j: int|
        0 <= i < j < shreds.len() ==> (#[trigger] shreds[i]).index != (#[trigger] shreds[j]).index
}

/// A set of indices between two bounds has at most as many members as fit between them.
proof fn lemma_fits_between(indices: Set<u32>, low: int, high: int)
    requires
        indices.finite(),
        low <= high,
        forall|i: u32| #[trigger] indices.contains(i) ==> low <= i < high,
    ensures
        indices.len() <= high - low,
    decreases high - low,
{
    if low == high {
        assert(indices =~= Set::empty());
    } else if exists|i: u32| i == high - 1 && indices.contains(i) {
        let top = choose|i: u32| i == high - 1 && indices.contains(i);
        lemma_fits_between(indices.remove(top), low, high - 1);
    } else {
        lemma_fits_between(indices, low, high - 1);
    }
}

/// A set of indices between two bounds that has as many members as fit between them has them all.
proof fn lemma_fills(indices: Set<u32>, low: int, high: int, i: u32)
    requires
        indices.finite(),
        low <= i < high,
        forall|i: u32| #[trigger] indices.contains(i) ==> low <= i < high,
        indices.len() == high - low,
    ensures
        indices.contains(i),
    decreases high - low,
{
    if exists|i: u32| i == high - 1 && indices.contains(i) {
        let top = choose|i: u32| i == high - 1 && indices.contains(i);
        if i != top {
            lemma_fills(indices.remove(top), low, high - 1, i);
        }
    } else {
        lemma_fits_between(indices, low, high - 1);
    }
}

/// From the given place on, the list runs through the indices from the start to the end one by
/// one, and the shred at the end is marked as the last one.
pub open spec fn runs_from(
    list: Seq<DataShredView>,
    place: int,
    start: u32,
    end: u32,
) -> bool {
    &&& start <= end
    &&& 0 <= place
    &&& place + (end - start) < list.len()
    &&& forall|i: int|
        place <= i <= place + (end - start) ==> (#[trigger] list[i]).index == start + (i - place)
    &&& list[place + (end - start)].data_complete
}

/// A full batch has no gap: it holds a shred at every index from its start to its end, and in the
/// list by ascending index these shreds stand one after the other, up to one that is marked as the
/// last one. If no shred lies outside of the start and the end, they are the whole list.
pub proof fn law_full_batch_is_contiguous(batch: BatchView, list: Seq<DataShredView>)
    requires
        batch.wf(),
        batch.marked_full,
        in_index_order(list, batch.data_shreds),
    ensures
        forall|i: u32|
            batch.start_data_index <= i <= batch.end_data_index ==> #[trigger]
            batch.data_shreds.contains_key(i),
        exists|place: int| #[trigger]
            runs_from(list, place, batch.start_data_index, batch.end_data_index),
        (forall|i: u32| #[trigger]
            batch.data_shreds.contains_key(i) ==> batch.start_data_index <= i
                <= batch.end_data_index) ==> runs_from(
            list,
            0,
            batch.start_data_index,
            batch.end_data_index,
        ) && list.len() == batch.end_data_index - batch.start_data_index + 1,
{
    let start = batch.start_data_index;
    let end = batch.end_data_index;
    let place = list.index_of(batch.data_shreds[start]);
    assert(batch.data_shreds.contains_key(start));
    assert forall|i: int| place <= i <= place + (end - start) implies i < list.len() && (
    #[trigger] list[i]).index == start + (i - place) by {
        lemma_run(batch, list, place, i - place);
    }
    lemma_run(batch, list, place, end - start);
    assert(runs_from(list, place, start, end));
    if forall|i: u32| #[trigger]
        batch.data_shreds.contains_key(i) ==> start <= i <= end {
        assert(batch.data_shreds.contains_key(list[0].index));
        assert(batch.data_shreds.contains_key(list.last().index));
    }
}

/// In a full batch, the shred that follows on the one at the start by some number of indices stands
/// that number of places behind it.
proof fn lemma_run(batch: BatchView, list: Seq<DataShredView>, place: int, steps: int)
    requires
        batch.wf(),
        batch.marked_full,
        in_index_order(list, batch.data_shreds),
        0 <= place < list.len(),
        list[place].index == batch.start_data_index,
        0 <= steps <= batch.end_data_index - batch.start_data_index,
    ensures
        place + steps < list.len(),
        list[place + steps].index == batch.start_data_index + steps,
    decreases steps,
{
    if steps > 0 {
        lemma_run(batch, list, place, steps - 1);
        let index = (batch.start_data_index + steps) as u32;
        assert(batch.data_shreds.contains_key(index));
        let found = list.index_of(batch.data_shreds[index]);
        assert(list[found].index == index);
        let before = place + steps - 1;
        // Were there a shred between the two, its index would lie between theirs.
        assert(before < found);
        assert(found > before + 1 ==> list[before].index < list[before + 1].index
            < list[found].index);
    }
}

/// Two lists by ascending index of the same shreds are the same list.
pub proof fn law_index_order_is_unique(
    first: Seq<DataShredView>,
    second: Seq<DataShredView>,
    shreds: Map<u32, DataShredView>,
)
    requires
        in_index_order(first, shreds),
        in_index_order(second, shreds),
    ensures
        first == second,
{
    assert forall|i: int| 0 <= i < first.len() implies first[i] == second[i] by {
        lemma_same_place(first, second, shreds, i);
    }
}

/// Two lists by ascending index of the same shreds have the same shred at the same place.
proof fn lemma_same_place(
    first: Seq<DataShredView>,
    second: Seq<DataShredView>,
    shreds: Map<u32, DataShredView>,
    i: int,
)
    requires
        in_index_order(first, shreds),
        in_index_order(second, shreds),
        0 <= i < first.len(),
    ensures
        first[i] == second[i],
    decreases i,
{
    assert forall|j: int| 0 <= j < i implies first[j] == second[j] by {
        lemma_same_place(first, second, shreds, j);
    }
    assert(shreds.contains_key(second[i].index));
    // Each list holds the shred that the other has here, and not at an earlier place.
    let j = second.index_of(first[i]);
    let k = first.index_of(second[i]);
}

/// Taking in a shred keeps every batch of the cache well formed and under its key, and none of
/// them is empty.
pub proof fn law_processing_keeps_cache_well_formed(cache: CacheView, shred: ShredView)
    requires
        cache_wf(cache),
    ensures
        cache_wf(processed(cache, shred)),
{
    if let ShredView::Data(data) = shred {
        lemma_accept_stands_under(key_of(data), batch_for(cache, data), data);
    }
}

/// A data shred goes under its own slot, reference tick and erasure set index, and changes nothing
/// under any other key. A batch that is full or has a shred at that index stays as it is. Any other
/// batch, or a new one that starts at the erasure set index, gets the shred at its index beside the
/// shreds it has; a shred that is marked as the last one makes its index the end; and the batch is
/// full exactly when it has every index from the start to the end.
pub proof fn law_data_shred_goes_to_its_own_batch(cache: CacheView, shred: ShredData)
    ensures
        ({
            let key = (shred.slot, shred.reference_tick, shred.fec_set_index);
            let known = cache.contains_key(key);
            let after = processed(cache, Shred::ShredData(shred)@);
            let batch = after[key];
            &&& after.contains_key(key)
            &&& forall|other: BatchKey|
                other != key ==> (#[trigger] after.contains_key(other) <==> cache.contains_key(
                    other,
                ))
            &&& forall|other: BatchKey|
                other != key && #[trigger] cache.contains_key(other) ==> after[other]
                    == cache[other]
            &&& if known && (cache[key].marked_full || cache[key].data_shreds.contains_key(
                shred.index,
            )) {
                batch == cache[key]
            } else {
                &&& forall|i: u32| #[trigger]
                    batch.data_shreds.contains_key(i) <==> i == shred.index || known
                        && cache[key].data_shreds.contains_key(i)
                &&& batch.data_shreds[shred.index].slot == shred.slot
                &&& batch.data_shreds[shred.index].index == shred.index
                &&& batch.data_shreds[shred.index].fec_set_index == shred.fec_set_index
                &&& batch.data_shreds[shred.index].reference_tick == shred.reference_tick
                &&& batch.data_shreds[shred.index].data_complete == shred.data_complete
                &&& batch.data_shreds[shred.index].payload == shred.payload@
                &&& forall|i: u32|
                    known && #[trigger] cache[key].data_shreds.contains_key(i)
                        ==> batch.data_shreds[i] == cache[key].data_shreds[i]
                &&& forall|i: u32| #[trigger]
                    batch.code_shreds.contains_key(i) <==> known
                        && cache[key].code_shreds.contains_key(i)
                &&& batch.start_data_index == if known {
                    cache[key].start_data_index
                } else {
                    shred.fec_set_index
                }
                &&& batch.end_data_index == if shred.data_complete {
                    shred.index
                } else if known {
                    cache[key].end_data_index
                } else {
                    999999
                }
                &&& batch.batch_complete <==> shred.data_complete || known
                    && cache[key].batch_complete
                &&& batch.marked_full <==> {
                    &&& batch.start_data_index != 999999
                    &&& batch.end_data_index != 999999
                    &&& batch.start_data_index <= batch.end_data_index
                    &&& forall|i: u32|
                        batch.start_data_index <= i <= batch.end_data_index ==> #[trigger]
                        batch.data_shreds.contains_key(i)
                }
            }
        }),
{
}

/// A code shred leaves the cache as it is, and the outcome says so.
pub proof fn law_code_shred_is_dropped(cache: CacheView, shred: ShredCode, outcome: Outcome)
    requires
        cache_outcome(cache, Shred::ShredCode(shred)@, outcome),
    ensures
        outcome is Code,
        processed(cache, Shred::ShredCode(shred)@) == cache,
{
}

/// The outcome for a data shred tells what became of it, and the shreds come out exactly when the
/// batch has become full by it: all that the batch holds, each as it was stored, by ascending
/// index.
pub proof fn law_outcome_tells_what_became_of_the_shred(
    cache: CacheView,
    shred: ShredData,
    outcome: Outcome,
)
    requires
        cache_outcome(cache, Shred::ShredData(shred)@, outcome),
    ensures
        ({
            let key = (shred.slot, shred.reference_tick, shred.fec_set_index);
            let known = cache.contains_key(key);
            let full = known && cache[key].marked_full;
            let held = known && cache[key].data_shreds.contains_key(shred.index);
            let there = cache[key].data_shreds[shred.index];
            let same = {
                &&& there.slot == shred.slot
                &&& there.index == shred.index
                &&& there.fec_set_index == shred.fec_set_index
                &&& there.reference_tick == shred.reference_tick
                &&& there.data_complete == shred.data_complete
                &&& there.payload == shred.payload@
            };
            let batch = processed(cache, Shred::ShredData(shred)@)[key];
            &&& outcome is AlreadyFull <==> full
            &&& outcome is Duplicate <==> !full && held && same
            &&& outcome is Conflict <==> !full && held && !same
            &&& outcome is Stored <==> !full && !held
            &&& outcome matches Outcome::Stored { complete_again, end_again, full: list } ==> {
                &&& complete_again <==> shred.data_complete && known && cache[key].batch_complete
                &&& end_again <==> shred.data_complete && known && cache[key].end_data_index
                    != 999999
                &&& list is Some <==> batch.marked_full
                &&& list matches Some(list) ==> {
                    &&& list@.len() == batch.data_shreds.len()
                    &&& forall|i: int, j: int|
                        0 <= i < j < list@.len() ==> (#[trigger] list@[i]).index < (
                        #[trigger] list@[j]).index
                    &&& forall|i: int|
                        0 <= i < list@.len() ==> batch.data_shreds.contains_key(
                            (#[trigger] list@[i]).index,
                        ) && batch.data_shreds[list@[i].index] == list@[i]@
                    &&& forall|k: u32| #[trigger]
                        batch.data_shreds.contains_key(k) ==> exists|i: int|
                            0 <= i < list@.len() && (#[trigger] list@[i])@ == batch.data_shreds[k]
                }
            }
        }),
{
    let batch = processed(cache, Shred::ShredData(shred)@)[(
        shred.slot,
        shred.reference_tick,
        shred.fec_set_index,
    )];
    if let Outcome::Stored { full: Some(list), .. } = outcome {
        let views = shred_views(list@);
        assert forall|i: int| 0 <= i < list@.len() implies batch.data_shreds.contains_key(
            (#[trigger] list@[i]).index,
        ) && views[i] == list@[i]@ by {
            assert(batch.data_shreds.contains_key(views[i].index));
        }
        assert forall|k: u32| #[trigger] batch.data_shreds.contains_key(k) implies exists|i: int|
            0 <= i < list@.len() && (#[trigger] list@[i])@ == batch.data_shreds[k] by {
            let i = views.index_of(batch.data_shreds[k]);
            assert(list@[i]@ == batch.data_shreds[k]);
        }
    }
}

/// What stands under a key belongs there: every shred of the batch has the slot, the reference tick
/// and the erasure set index of the key and stands at its own index, the batch starts at the index
/// of the set, and it is not empty. So shreds that differ in one of the three never share a batch.
pub proof fn law_batch_belongs_to_its_key(cache: CacheView, key: BatchKey, i: u32)
    requires
        cache_wf(cache),
        cache.contains_key(key),
    ensures
        cache[key].start_data_index == key.2,
        cache[key].data_shreds.len() > 0,
        cache[key].data_shreds.contains_key(i) ==> {
            &&& cache[key].data_shreds[i].slot == key.0
            &&& cache[key].data_shreds[i].reference_tick == key.1
            &&& cache[key].data_shreds[i].fec_set_index == key.2
            &&& cache[key].data_shreds[i].index == i
        },
{
}

/// Code shreds are dropped: a sequence of them leaves the cache as it is.
pub proof fn law_code_shreds_are_dropped(cache: CacheView, shreds: Seq<ShredView>)
    requires
        forall|i: int| 0 <= i < shreds.len() ==> #[trigger] shreds[i] is Code,
    ensures
        processed_all(cache, shreds) == cache,
    decreases shreds.len(),
{
    if shreds.len() > 0 {
        law_code_shreds_are_dropped(cache, shreds.drop_last());
    }
}

/// Batches do not mix: what stands under a key after a sequence of shreds is what stands there
/// after the shreds of that key alone.
pub proof fn law_batches_do_not_mix(cache: CacheView, shreds: Seq<ShredView>, key: BatchKey)
    ensures
        ({
            let all = processed_all(cache, shreds);
            let own = processed_all(
                cache,
                shreds.filter(|shred: ShredView| belongs_to(shred, key)),
            );
            &&& all.contains_key(key) == own.contains_key(key)
            &&& all.contains_key(key) ==> all[key] == own[key]
        }),
    decreases shreds.len(),
{
    reveal(Seq::filter);
    let own = |shred: ShredView| belongs_to(shred, key);
    if shreds.len() > 0 {
        law_batches_do_not_mix(cache, shreds.drop_last(), key);
        if own(shreds.last()) {
            let kept = shreds.drop_last().filter(own);
            assert(shreds.filter(own) =~= kept.push(shreds.last()));
            assert(kept.push(shreds.last()).drop_last() =~= kept);
        }
    }
}

/// Shreds of two batches may come in either order.
pub proof fn law_batches_commute(cache: CacheView, first: DataShredView, second: DataShredView)
    requires
        key_of(first) != key_of(second),
    ensures
        processed(processed(cache, ShredView::Data(first)), ShredView::Data(second))
            == processed(processed(cache, ShredView::Data(second)), ShredView::Data(first)),
{
    assert(processed(processed(cache, ShredView::Data(first)), ShredView::Data(second))
        =~= processed(processed(cache, ShredView::Data(second)), ShredView::Data(first)));
}

/// A full batch is final: no sequence of shreds changes it.
pub proof fn law_full_batch_is_final(cache: CacheView, shreds: Seq<ShredView>, key: BatchKey)
    requires
        cache.contains_key(key),
        cache[key].marked_full,
    ensures
        processed_all(cache, shreds).contains_key(key),
        processed_all(cache, shreds)[key] == cache[key],
    decreases shreds.len(),
{
    if shreds.len() > 0 {
        law_full_batch_is_final(cache, shreds.drop_last(), key);
    }
}

/// A batch is handed out once: after a shred has made it full, every later shred of the batch is
/// told that it is full already.
pub proof fn law_full_batch_is_handed_out_once(
    cache: CacheView,
    last: DataShredView,
    outcome: Outcome,
    between: Seq<ShredView>,
    later: DataShredView,
    later_outcome: Outcome,
)
    requires
        cache_outcome(cache, ShredView::Data(last), outcome),
        outcome matches Outcome::Stored { full: Some(_), .. },
        key_of(later) == key_of(last),
        cache_outcome(
            processed_all(processed(cache, ShredView::Data(last)), between),
            ShredView::Data(later),
            later_outcome,
        ),
    ensures
        later_outcome is AlreadyFull,
{
    law_full_batch_is_final(processed(cache, ShredView::Data(last)), between, key_of(last));
}

/// Batches only grow: a shred leaves every stored shred of every batch in its place and adds at
/// most one, no batch goes back to being incomplete or not full, and a full batch stays as it is
/// and hands out nothing.
pub proof fn law_batches_only_grow(
    cache: CacheView,
    shred: ShredView,
    outcome: Outcome,
    key: BatchKey,
)
    requires
        cache.contains_key(key),
        cache_outcome(cache, shred, outcome),
    ensures
        ({
            let before = cache[key];
            let after = processed(cache, shred)[key];
            &&& processed(cache, shred).contains_key(key)
            &&& before.data_shreds.submap_of(after.data_shreds)
            &&& after.data_shreds == before.data_shreds || exists|i: u32|
                !before.data_shreds.contains_key(i) && after.data_shreds
                    == #[trigger] before.data_shreds.insert(i, after.data_shreds[i])
            &&& before.batch_complete ==> after.batch_complete
            &&& before.marked_full ==> after.marked_full
            &&& before.marked_full ==> after == before
            &&& before.marked_full && belongs_to(shred, key) ==> outcome is AlreadyFull
        }),
{
    let before = cache[key];
    let after = processed(cache, shred)[key];
    if let ShredView::Data(data) = shred {
        if key_of(data) == key && before.stores(data) {
            assert(after.data_shreds == before.data_shreds.insert(
                data.index,
                after.data_shreds[data.index],
            ));
        }
    }
}

/// The first shred wins: once a shred is stored, no sequence of shreds removes or replaces it.
pub proof fn law_stored_shred_stays(
    cache: CacheView,
    shreds: Seq<ShredView>,
    key: BatchKey,
    index: u32,
)
    requires
        cache.contains_key(key),
        cache[key].data_shreds.contains_key(index),
    ensures
        processed_all(cache, shreds).contains_key(key),
        processed_all(cache, shreds)[key].data_shreds.contains_key(index),
        processed_all(cache, shreds)[key].data_shreds[index] == cache[key].data_shreds[index],
    decreases shreds.len(),
{
    if shreds.len() > 0 {
        law_stored_shred_stays(cache, shreds.drop_last(), key, index);
    }
}

/// A shred that comes again changes nothing.
pub proof fn law_repeated_shred_changes_nothing(cache: CacheView, shred: ShredView)
    ensures
        processed(processed(cache, shred), shred) == processed(cache, shred),
{
    if let ShredView::Data(data) = shred {
        let once = processed(cache, shred);
        assert(processed(once, shred) =~= once);
    }
}

/// The list has a shred at the index.
pub open spec fn has_index(shreds: Seq<DataShredView>, index: u32) -> bool {
    exists|i: int| 0 <= i < shreds.len() && (#[trigger] shreds[i]).index == index
}

/// The list has a shred at every index from the start to the end, and neither of them is the index
/// that stands for an unknown one.
pub open spec fn closes(shreds: Seq<DataShredView>, start: u32, end: u32) -> bool {
    &&& start <= end
    &&& start != UNKNOWN_INDEX
    &&& end != UNKNOWN_INDEX
    &&& forall|k: u32| start <= k <= end ==> #[trigger] has_index(shreds, k)
}

/// Distinct data shreds of one key: no two have the same index, at most one of them is marked as
/// the last one, and if they make up a complete batch, there is none besides it.
pub open spec fn distinct_shreds(shreds: Seq<DataShredView>, key: BatchKey) -> bool {
    &&& forall|i: int| 0 <= i < shreds.len() ==> key_of(#[trigger] shreds[i]) == key
    &&& forall|i: int, j: int|
        0 <= i < j < shreds.len() ==> (#[trigger] shreds[i]).index != (#[trigger] shreds[j]).index
            && !(shreds[i].data_complete && shreds[j].data_complete)
    &&& forall|i: int, j: int|
        0 <= i < shreds.len() && 0 <= j < shreds.len() && (#[trigger] shreds[i]).data_complete
            && closes(shreds, key.2, shreds[i].index) ==> key.2 <= (#[trigger] shreds[j]).index
            <= shreds[i].index
}

/// The batch holds exactly the first `count` shreds of the list, and its end is where the one of
/// them stands that is marked as the last one, if there is one.
spec fn holds_first(
    batch: BatchView,
    shreds: Seq<DataShredView>,
    key: BatchKey,
    count: int,
) -> bool {
    &&& batch.wf()
    &&& batch.start_data_index == key.2
    &&& batch.data_shreds.len() == count
    &&& forall|i: int|
        0 <= i < count ==> batch.data_shreds.contains_key((#[trigger] shreds[i]).index)
            && batch.data_shreds[shreds[i].index] == shreds[i]
    &&& forall|k: u32| #[trigger]
        batch.data_shreds.contains_key(k) ==> exists|i: int|
            0 <= i < count && (#[trigger] shreds[i]).index == k
    &&& forall|i: int|
        0 <= i < count && (#[trigger] shreds[i]).data_complete ==> batch.end_data_index
            == shreds[i].index
}

/// Distinct shreds of a key are stored one after the other.
proof fn lemma_holds_first(
    cache: CacheView,
    shreds: Seq<DataShredView>,
    key: BatchKey,
    count: int,
)
    requires
        !cache.contains_key(key),
        distinct_shreds(shreds, key),
        0 <= count <= shreds.len(),
    ensures
        ({
            let after = processed_all(cache, as_shreds(shreds.take(count)));
            if count == 0 {
                after == cache
            } else {
                after == cache.insert(key, after[key]) && holds_first(
                    after[key],
                    shreds,
                    key,
                    count,
                )
            }
        }),
    decreases count,
{
    if count > 0 {
        lemma_holds_first(cache, shreds, key, count - 1);
        let taken = as_shreds(shreds.take(count));
        let shred = shreds[count - 1];
        assert(taken.drop_last() =~= as_shreds(shreds.take(count - 1)));
        let before = processed_all(cache, as_shreds(shreds.take(count - 1)));
        assert(key_of(shred) == key);
        let batch = batch_for(before, shred);
        assert(holds_first(batch, shreds, key, count - 1));
        lemma_next_is_stored(batch, shreds, key, count - 1);
        let next = batch.accept(shred);
        lemma_accept_keeps_wf(batch, shred);
        assert(processed_all(cache, taken) =~= cache.insert(key, next));
        assert forall|k: u32| #[trigger] next.data_shreds.contains_key(k) implies exists|i: int|
            0 <= i < count && (#[trigger] shreds[i]).index == k by {
            if k == shred.index {
                assert(shreds[count - 1].index == k);
            } else {
                assert(batch.data_shreds.contains_key(k));
                let i = choose|i: int| 0 <= i < count - 1 && (#[trigger] shreds[i]).index == k;
            }
        }
        assert(holds_first(next, shreds, key, count));
    }
}

/// A batch that holds the first of distinct shreds stores the next one.
proof fn lemma_next_is_stored(
    batch: BatchView,
    shreds: Seq<DataShredView>,
    key: BatchKey,
    count: int,
)
    requires
        distinct_shreds(shreds, key),
        0 <= count < shreds.len(),
        holds_first(batch, shreds, key, count),
    ensures
        batch.stores(shreds[count]),
{
    let shred = shreds[count];
    if batch.data_shreds.contains_key(shred.index) {
        let i = choose|i: int| 0 <= i < count && (#[trigger] shreds[i]).index == shred.index;
    }
    if batch.marked_full {
        let end = batch.end_data_index;
        assert(batch.data_shreds.contains_key(end));
        let last = choose|i: int| 0 <= i < count && (#[trigger] shreds[i]).index == end;
        assert forall|k: u32| key.2 <= k <= end implies #[trigger] has_index(shreds, k) by {
            assert(batch.data_shreds.contains_key(k));
        }
        assert(shreds[last].data_complete);
        assert(closes(shreds, key.2, end));
        assert(batch.data_shreds.contains_key(shred.index));
    }
}

/// The order of distinct shreds of a batch does not matter: two lists of the same shreds leave the
/// cache with the same contents.
pub proof fn law_order_does_not_matter(
    cache: CacheView,
    first: Seq<DataShredView>,
    second: Seq<DataShredView>,
    key: BatchKey,
)
    requires
        !cache.contains_key(key),
        distinct_shreds(first, key),
        distinct_shreds(second, key),
        first.to_set() == second.to_set(),
    ensures
        processed_all(cache, as_shreds(first)) == processed_all(cache, as_shreds(second)),
{
    let one = processed_all(cache, as_shreds(first));
    let other = processed_all(cache, as_shreds(second));
    lemma_holds_first(cache, first, key, first.len() as int);
    lemma_holds_first(cache, second, key, second.len() as int);
    assert(first.take(first.len() as int) =~= first);
    assert(second.take(second.len() as int) =~= second);
    if first.len() == 0 || second.len() == 0 {
        assert(first.len() > 0 ==> second.to_set().contains(first[0]));
        assert(second.len() > 0 ==> first.to_set().contains(second[0]));
    } else {
        lemma_same_batch(one[key], other[key], first, second, key);
        lemma_same_batch(other[key], one[key], second, first, key);
        assert(one[key].data_shreds =~= other[key].data_shreds);
        assert(one[key] =~= other[key]);
    }
}

/// A batch that holds the shreds of a list agrees with one that holds those of another list with
/// the same shreds.
proof fn lemma_same_batch(
    one: BatchView,
    other: BatchView,
    first: Seq<DataShredView>,
    second: Seq<DataShredView>,
    key: BatchKey,
)
    requires
        holds_first(one, first, key, first.len() as int),
        holds_first(other, second, key, second.len() as int),
        first.to_set() == second.to_set(),
    ensures
        one.data_shreds.submap_of(other.data_shreds),
        one.batch_complete ==> other.batch_complete && one.end_data_index == other.end_data_index,
{
    assert forall|k: u32| #[trigger] one.data_shreds.contains_key(k) implies {
        &&& other.data_shreds.contains_key(k)
        &&& one.data_shreds[k] == other.data_shreds[k]
        &&& one.data_shreds[k].data_complete ==> one.end_data_index == k && other.end_data_index
            == k
    } by {
        let i = choose|i: int| 0 <= i < first.len() && (#[trigger] first[i]).index == k;
        assert(second.to_set().contains(first[i]));
        let j = choose|j: int| 0 <= j < second.len() && second[j] == first[i];
        assert(second[j].index == k);
    }
}

/// A whole erasure set is put together whatever the order of its shreds: the cache takes each of
/// them, the batch is not full before the last of them has come, and then it is full and holds
/// exactly these shreds.
pub proof fn law_whole_set_is_reassembled(
    cache: CacheView,
    shreds: Seq<DataShredView>,
    key: BatchKey,
    count: int,
)
    requires
        !cache.contains_key(key),
        whole_set(shreds, key),
        0 <= count <= shreds.len(),
    ensures
        ({
            let after = processed_all(cache, as_shreds(shreds.take(count)));
            &&& after.contains_key(key) == (count > 0)
            &&& count > 0 ==> after[key].marked_full == (count == shreds.len())
            &&& count > 0 ==> after[key].data_shreds.len() == count
            &&& forall|i: int|
                0 <= i < count ==> after[key].data_shreds.contains_key((#[trigger] shreds[i]).index)
                    && after[key].data_shreds[shreds[i].index] == shreds[i]
            &&& count == shreds.len() ==> after[key].end_data_index == key.2 + shreds.len() - 1
        }),
{
    lemma_set_so_far(cache, shreds, key, count);
}

/// A whole erasure set is put together among shreds of other batches: whatever else comes in
/// between, in whatever order, the batch ends up full with exactly its shreds.
pub proof fn law_whole_set_is_reassembled_among_others(
    cache: CacheView,
    all: Seq<ShredView>,
    shreds: Seq<DataShredView>,
    key: BatchKey,
)
    requires
        !cache.contains_key(key),
        whole_set(shreds, key),
        all.filter(|shred: ShredView| belongs_to(shred, key)) == as_shreds(shreds),
    ensures
        ({
            let after = processed_all(cache, all);
            &&& after.contains_key(key)
            &&& after[key].marked_full
            &&& after[key].data_shreds.len() == shreds.len()
            &&& forall|i: int|
                0 <= i < shreds.len() ==> after[key].data_shreds.contains_key(
                    (#[trigger] shreds[i]).index,
                ) && after[key].data_shreds[shreds[i].index] == shreds[i]
        }),
{
    law_batches_do_not_mix(cache, all, key);
    law_whole_set_is_reassembled(cache, shreds, key, shreds.len() as int);
    assert(shreds.take(shreds.len() as int) =~= shreds);
}

/// A whole erasure set is handed out when its last shred comes in: the outcome carries its
/// shreds, and no others, from the lowest index to the highest.
pub proof fn law_whole_set_is_handed_out(
    cache: CacheView,
    shreds: Seq<DataShredView>,
    key: BatchKey,
    outcome: Outcome,
)
    requires
        !cache.contains_key(key),
        whole_set(shreds, key),
        cache_outcome(
            processed_all(cache, as_shreds(shreds.drop_last())),
            ShredView::Data(shreds.last()),
            outcome,
        ),
    ensures
        ({
            &&& outcome matches Outcome::Stored { full: Some(list), .. }
            &&& list@.len() == shreds.len()
            &&& forall|i: int|
                0 <= i < list@.len() ==> (#[trigger] list@[i]).index == key.2 + i
                    && shreds.contains(list@[i]@)
        }),
{
    let count = shreds.len() as int;
    lemma_set_so_far(cache, shreds, key, count - 1);
    lemma_set_so_far(cache, shreds, key, count);
    assert(shreds.take(count - 1) =~= shreds.drop_last());
    assert(shreds.take(count) =~= shreds);
    let before = processed_all(cache, as_shreds(shreds.drop_last()));
    assert(as_shreds(shreds).drop_last() =~= as_shreds(shreds.drop_last()));
    let batch = batch_for(before, shreds.last());
    let next = batch.accept(shreds.last());
    assert(processed_all(cache, as_shreds(shreds))[key] == next);
    if let Outcome::Stored { full: Some(list), .. } = outcome {
        let views = shred_views(list@);
        assert forall|i: int| 0 <= i < views.len() implies shreds.contains(#[trigger] views[i]) by {
            assert(next.data_shreds.contains_key(views[i].index));
            let k = choose|k: int|
                0 <= k < count && (#[trigger] shreds[k]).index == views[i].index;
        }
        law_full_batch_is_contiguous(next, views);
        assert forall|i: int| 0 <= i < list@.len() implies (#[trigger] list@[i]).index == key.2 + i
            && shreds.contains(list@[i]@) by {
            assert(views[i] == list@[i]@);
        }
    }
}

/// What stands under the key after the first shreds of a whole erasure set.
proof fn lemma_set_so_far(
    cache: CacheView,
    shreds: Seq<DataShredView>,
    key: BatchKey,
    count: int,
)
    requires
        !cache.contains_key(key),
        whole_set(shreds, key),
        0 <= count <= shreds.len(),
    ensures
        ({
            let after = processed_all(cache, as_shreds(shreds.take(count)));
            &&& after.contains_key(key) == (count > 0)
            &&& count > 0 ==> holds_first(after[key], shreds, key, count)
            &&& count > 0 ==> after[key].marked_full == (count == shreds.len())
            &&& count == shreds.len() ==> after[key].end_data_index == key.2 + shreds.len() - 1
        }),
{
    assert(distinct_shreds(shreds, key));
    lemma_holds_first(cache, shreds, key, count);
    let batch = processed_all(cache, as_shreds(shreds.take(count)))[key];
    if 0 < count < shreds.len() {
        lemma_next_is_stored(batch, shreds, key, count);
    } else if count > 0 {
        let end = (key.2 + shreds.len() - 1) as u32;
        assert forall|k: u32| #[trigger] batch.data_shreds.dom().contains(k) implies key.2 <= k
            < key.2 + shreds.len() by {
            assert(batch.data_shreds.contains_key(k));
            let i = choose|i: int| 0 <= i < count && (#[trigger] shreds[i]).index == k;
        }
        lemma_top_fits(batch.data_shreds.dom(), key.2 as int, key.2 + shreds.len());
        assert forall|k: u32| key.2 <= k <= end implies #[trigger]
        batch.data_shreds.contains_key(k) by {
            lemma_fills(batch.data_shreds.dom(), key.2 as int, key.2 + shreds.len(), k);
        }
        assert(batch.data_shreds.contains_key(end));
        let i = choose|i: int| 0 <= i < count && (#[trigger] shreds[i]).index == end;
        assert(shreds[i].data_complete);
    }
}

/// A set of indices that has as many members as fit between two bounds reaches up to the higher
/// one, which therefore is an index.
proof fn lemma_top_fits(indices: Set<u32>, low: int, high: int)
    requires
        indices.finite(),
        low < high,
        forall|i: u32| #[trigger] indices.contains(i) ==> low <= i < high,
        indices.len() == high - low,
    ensures
        high - 1 <= u32::MAX,
{
    if high - 1 > u32::MAX {
        assert forall|i: u32| #[trigger] indices.contains(i) implies low <= i < high - 1 by {}
        lemma_fits_between(indices, low, high - 1);
    }
}

/// Cleaning drops exactly the batches whose slot is more than 50 slots behind the current one, and
/// leaves the others as they are.
pub proof fn law_cleaning_drops_old_slots(cache: CacheView, current_slot: u64, key: BatchKey)
    ensures
        cleaned(cache, current_slot).contains_key(key) <==> cache.contains_key(key) && key.0 + 50
            >= current_slot,
        cleaned(cache, current_slot).contains_key(key) ==> cleaned(cache, current_slot)[key]
            == cache[key],
{
}

/// Cleaning as the slots go by drops what cleaning once at the last of them drops.
pub proof fn law_cleaning_repeats(cache: CacheView, earlier_slot: u64, later_slot: u64)
    requires
        earlier_slot <= later_slot,
    ensures
        cleaned(cleaned(cache, earlier_slot), later_slot) == cleaned(cache, later_slot),
{
    assert(cleaned(cleaned(cache, earlier_slot), later_slot) =~= cleaned(cache, later_slot));
}

} // verus!
