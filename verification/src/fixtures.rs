//! Ledger entries to try the cache with.

use crate::entries::Entry;
use vstd::prelude::*;

verus! {

/// The number of hashes that a test entry claims.
pub const TEST_NUM_HASHES: u64 = 100_000;

/// The given number of zeros.
pub open spec fn zeros(count: nat) -> Seq<u8> {
    Seq::new(count, |i: int| 0u8)
}

/// The data of the instruction to transfer 42 lamports.
pub open spec fn transfer_data() -> Seq<u8> {
    seq![2u8, 0, 0, 0, 42, 0, 0, 0, 0, 0, 0, 0]
}

/// The bytes of a transaction in which the owner of the key, who signs it, transfers 42 lamports to
/// themselves: the signature, the counts of keys by what they are used for, the key and that of the
/// system program, a block hash of zeros, and the one instruction.
pub open spec fn transfer_bytes(signature: Seq<u8>, key: Seq<u8>) -> Seq<u8> {
    seq![1u8] + signature + seq![1u8, 0, 1, 2] + key + zeros(32) + zeros(32) + seq![
        1u8, 1, 2, 0, 0, 12,
    ] + transfer_data()
}

/// The bytes are those of a test transaction: one signature of 64 bytes, then a message that asks
/// for one signature, with the key of the signer, at whose end stands the instruction to transfer
/// 42 lamports. Unless the key is the one of the system program, which is all zeros, the signature
/// and the key fix all bytes.
pub open spec fn is_test_transaction(bytes: Seq<u8>) -> bool {
    let signature = bytes.subrange(1, 65);
    let key = bytes.subrange(69, 101);
    &&& bytes.len() > 101 + 12
    &&& bytes[0] == 1
    &&& bytes[65] == 1
    &&& bytes.subrange(bytes.len() - 12, bytes.len() as int) == transfer_data()
    &&& key != zeros(32) ==> bytes == transfer_bytes(signature, key)
}

/// A test transaction has one signature and a message that asks for one, and it ends with the
/// transfer of 42 lamports. Unless the key is all zeros, it has 183 bytes, and all of them but the
/// signature and the key are fixed.
pub proof fn law_test_transaction_transfers(bytes: Seq<u8>)
    requires
        is_test_transaction(bytes),
    ensures
        bytes.len() > 113,
        bytes[0] == 1,
        bytes[65] == 1,
        bytes.skip(bytes.len() - 12) == seq![2u8, 0, 0, 0, 42, 0, 0, 0, 0, 0, 0, 0],
        (exists|i: int| 69 <= i < 101 && #[trigger] bytes[i] != 0) ==> {
            &&& bytes.len() == 183
            &&& bytes.subrange(65, 69) == seq![1u8, 0, 1, 2]
            &&& forall|i: int| 101 <= i < 165 ==> #[trigger] bytes[i] == 0
            &&& bytes.subrange(165, 171) == seq![1u8, 1, 2, 0, 0, 12]
        },
{
    let signature = bytes.subrange(1, 65);
    let key = bytes.subrange(69, 101);
    if exists|i: int| 69 <= i < 101 && #[trigger] bytes[i] != 0 {
        let i = choose|i: int| 69 <= i < 101 && #[trigger] bytes[i] != 0;
        assert(key[i - 69] != zeros(32)[i - 69]);
        let laid_out = transfer_bytes(signature, key);
        assert(bytes == laid_out);
        assert(laid_out.subrange(65, 69) =~= seq![1u8, 0, 1, 2]);
        assert(forall|i: int| 101 <= i < 165 ==> #[trigger] laid_out[i] == 0);
        assert(laid_out.subrange(165, 171) =~= seq![1u8, 1, 2, 0, 0, 12]);
    }
    assert(bytes.skip(bytes.len() - 12) =~= bytes.subrange(bytes.len() - 12, bytes.len() as int));
}

/// `solana_perf::test_tx::test_tx` makes a transaction that transfers 42 lamports from a key to
/// itself and is signed by it; it comes out in serialized form. The key is a random one: nothing is
/// said of the key and of the signature.
#[verifier::external_body]
pub(crate) fn test_tx() -> (transaction: Vec<u8>)
    ensures
        is_test_transaction(transaction@),
{
    let transaction: solana_sdk::transaction::VersionedTransaction =
        solana_perf::test_tx::test_tx().into();
    bincode::serialize(&transaction).unwrap()
}

/// The entry has the given number of copies of the transaction, and its hash is all zeros.
pub open spec fn repeats(entry: Entry, transaction: Seq<u8>, txs_per_entry: u64) -> bool {
    &&& entry.num_hashes == TEST_NUM_HASHES
    &&& entry.hash@ == zeros(32)
    &&& entry.transactions@.len() == txs_per_entry as usize
    &&& forall|i: int|
        0 <= i < entry.transactions@.len() ==> (#[trigger] entry.transactions@[i])@ == transaction
}

/// An entry that repeats a transaction has as many copies of it as were asked for, and nothing else;
/// it claims 100 000 hashes and a hash of 32 zeros.
pub proof fn law_copies_are_of_the_transaction(
    entry: Entry,
    transaction: Seq<u8>,
    txs_per_entry: u64,
)
    ensures
        repeats(entry, transaction, txs_per_entry) <==> {
            &&& entry.num_hashes == 100_000
            &&& forall|i: int| 0 <= i < 32 ==> #[trigger] entry.hash@[i] == 0
            &&& entry.transactions@.len() == txs_per_entry as usize
            &&& forall|i: int|
                0 <= i < entry.transactions@.len() ==> (#[trigger] entry.transactions@[i])@
                    == transaction
        },
{
    if forall|i: int| 0 <= i < 32 ==> #[trigger] entry.hash@[i] == 0 {
        assert(entry.hash@ =~= zeros(32));
    }
    if repeats(entry, transaction, txs_per_entry) {
        assert forall|i: int| 0 <= i < 32 implies #[trigger] entry.hash@[i] == 0 by {
            assert(zeros(32)[i] == 0);
        }
    }
}

/// The entry is one that tests are made with: it has the given number of copies of one test
/// transaction, and its hash is all zeros.
pub open spec fn is_test_entry(entry: Entry, txs_per_entry: u64) -> bool {
    exists|transaction: Seq<u8>|
        is_test_transaction(transaction) && #[trigger] repeats(entry, transaction, txs_per_entry)
}

/// A test entry has as many transactions as were asked for, each of them the same test transaction;
/// it claims 100 000 hashes and a hash of 32 zeros.
pub proof fn law_test_entry_repeats_a_test_transaction(entry: Entry, txs_per_entry: u64)
    requires
        is_test_entry(entry, txs_per_entry),
    ensures
        entry.num_hashes == 100_000,
        forall|i: int| 0 <= i < 32 ==> #[trigger] entry.hash@[i] == 0,
        entry.transactions@.len() == txs_per_entry as usize,
        forall|i: int|
            0 <= i < entry.transactions@.len() ==> is_test_transaction(
                (#[trigger] entry.transactions@[i])@,
            ) && entry.transactions@[i]@ == entry.transactions@[0]@,
{
    let transaction = choose|transaction: Seq<u8>|
        is_test_transaction(transaction) && #[trigger] repeats(entry, transaction, txs_per_entry);
    law_copies_are_of_the_transaction(entry, transaction, txs_per_entry);
}

/// An entry with the given number of copies of the transaction.
pub fn test_entry_of(transaction: Vec<u8>, txs_per_entry: u64) -> (entry: Entry)
    ensures
        repeats(entry, transaction@, txs_per_entry),
        entry.num_hashes == 100_000,
        forall|i: int| 0 <= i < 32 ==> #[trigger] entry.hash@[i] == 0,
        entry.transactions@.len() == txs_per_entry as usize,
        forall|i: int|
            0 <= i < entry.transactions@.len() ==> (#[trigger] entry.transactions@[i])@
                == transaction@,
{
    let count: usize = #[verifier::truncate] (txs_per_entry as usize);
    let mut transactions: Vec<Vec<u8>> = Vec::new();
    for i in 0..count
        invariant
            transactions@.len() == i,
            forall|j: int| 0 <= j < i ==> (#[trigger] transactions@[j])@ == transaction@,
    {
        let copy = transaction.clone();
        transactions.push(copy);
    }
    let entry = Entry { num_hashes: TEST_NUM_HASHES, hash: [0u8; 32], transactions };
    assert(entry.hash@ =~= zeros(32));
    entry
}

/// An entry for each of the transactions, in their order, with the given number of copies of it.
pub fn test_entries_of(transactions: Vec<Vec<u8>>, txs_per_entry: u64) -> (entries: Vec<Entry>)
    ensures
        entries@.len() == transactions@.len(),
        forall|i: int|
            0 <= i < entries@.len() ==> repeats(
                #[trigger] entries@[i],
                transactions@[i]@,
                txs_per_entry,
            ),
{
    let ghost all = transactions@;
    let mut entries: Vec<Entry> = Vec::new();
    for transaction in rest: transactions
        invariant
            rest.seq() == all,
            entries@.len() == rest.index(),
            forall|i: int|
                0 <= i < entries@.len() ==> repeats(#[trigger] entries@[i], all[i]@, txs_per_entry),
    {
        entries.push(test_entry_of(transaction, txs_per_entry));
    }
    entries
}

/// An entry with the given number of copies of a new test transaction.
pub fn make_test_entry(txs_per_entry: u64) -> (entry: Entry)
    ensures
        is_test_entry(entry, txs_per_entry),
        entry.num_hashes == 100_000,
        forall|i: int| 0 <= i < 32 ==> #[trigger] entry.hash@[i] == 0,
        entry.transactions@.len() == txs_per_entry as usize,
        forall|i: int|
            0 <= i < entry.transactions@.len() ==> is_test_transaction(
                (#[trigger] entry.transactions@[i])@,
            ) && entry.transactions@[i]@ == entry.transactions@[0]@,
{
    test_entry_of(test_tx(), txs_per_entry)
}

/// The given number of entries, none of which follows on another, each with the given number of
/// copies of a new test transaction of its own.
pub fn make_large_unchained_entries(txs_per_entry: u64, num_entries: u64) -> (entries: Vec<Entry>)
    ensures
        entries@.len() == num_entries,
        forall|i: int|
            0 <= i < entries@.len() ==> is_test_entry(#[trigger] entries@[i], txs_per_entry),
{
    let mut transactions: Vec<Vec<u8>> = Vec::new();
    for i in 0..num_entries
        invariant
            transactions@.len() == i,
            forall|j: int|
                0 <= j < transactions@.len() ==> is_test_transaction(
                    (#[trigger] transactions@[j])@,
                ),
    {
        transactions.push(test_tx());
    }
    let ghost drawn = transactions@;
    let entries = test_entries_of(transactions, txs_per_entry);
    assert forall|i: int| 0 <= i < entries@.len() implies is_test_entry(
        #[trigger] entries@[i],
        txs_per_entry,
    ) by {
        assert(is_test_transaction(drawn[i]@));
    }
    entries
}

} // verus!
