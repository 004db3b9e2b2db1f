use shred_cache::entries::{report_decoded, report_entries, EntriesReport, Entry};
use shred_cache::fixtures::{
    make_large_unchained_entries, make_test_entry, test_entries_of, test_entry_of,
};
use solana_sdk::transaction::VersionedTransaction;

fn to_ledger(entry: &Entry) -> solana_entry::entry::Entry {
    let transactions: Vec<VersionedTransaction> =
        entry.transactions.iter().map(|bytes| bincode::deserialize(bytes).unwrap()).collect();
    solana_entry::entry::Entry {
        num_hashes: entry.num_hashes,
        hash: solana_sdk::hash::Hash::new_from_array(entry.hash),
        transactions,
    }
}

#[test]
fn entries_come_back_from_their_bytes() {
    let mut entries = make_large_unchained_entries(2, 3);
    entries[1].num_hashes = 7;
    entries[2].hash = [9; 32];
    let ledger: Vec<solana_entry::entry::Entry> = entries.iter().map(to_ledger).collect();
    let payload = bincode::serialize(&ledger).unwrap();
    match report_entries(Ok(payload)) {
        EntriesReport::Entries(found) => assert_eq!(found, entries),
        report => panic!("{report:?}"),
    }
}

#[test]
fn zeros_hold_an_empty_list_of_entries() {
    match report_entries(Ok(vec![0; 8])) {
        EntriesReport::Entries(found) => assert_eq!(found, vec![]),
        report => panic!("{report:?}"),
    }
}

#[test]
fn bytes_that_hold_no_entries_are_reported() {
    assert!(matches!(report_entries(Ok(vec![])), EntriesReport::NotDecoded(_)));
    assert!(matches!(report_entries(Ok(vec![1, 0, 0])), EntriesReport::NotDecoded(_)));
}

#[test]
fn shreds_that_could_not_be_joined_are_reported() {
    match report_entries(Err("too few data shards".to_string())) {
        EntriesReport::NotDeshredded(reason) => assert_eq!(reason, "too few data shards"),
        report => panic!("{report:?}"),
    }
}

#[test]
fn decoded_bytes_are_reported_as_they_are() {
    assert!(matches!(report_decoded(Ok(vec![])), EntriesReport::Entries(found) if found.is_empty()));
    let error: Box<bincode::ErrorKind> = Box::new(bincode::ErrorKind::SizeLimit);
    match report_decoded(Err(error)) {
        EntriesReport::NotDecoded(kind) => assert!(matches!(*kind, bincode::ErrorKind::SizeLimit)),
        report => panic!("{report:?}"),
    }
}

#[test]
fn test_entry_repeats_one_transaction() {
    let entry = make_test_entry(3);
    assert_eq!(entry.num_hashes, 100_000);
    assert_eq!(entry.hash, [0; 32]);
    assert_eq!(entry.transactions.len(), 3);
    assert_eq!(entry.transactions[0], entry.transactions[1]);
    assert_eq!(entry.transactions[0], entry.transactions[2]);
    let transaction: VersionedTransaction = bincode::deserialize(&entry.transactions[0]).unwrap();
    assert_eq!(transaction.signatures.len(), 1);
    assert!(make_test_entry(0).transactions.is_empty());
}

#[test]
fn test_transaction_transfers_lamports() {
    let bytes = make_test_entry(1).transactions.remove(0);
    assert_eq!(bytes.len(), 183);
    assert_eq!(bytes[0], 1);
    assert_eq!(bytes[65..69], [1, 0, 1, 2]);
    assert_ne!(bytes[69..101], [0; 32]);
    assert_eq!(bytes[101..165], [0; 64]);
    assert_eq!(bytes[165..], [1, 1, 2, 0, 0, 12, 2, 0, 0, 0, 42, 0, 0, 0, 0, 0, 0, 0]);
    let transaction: VersionedTransaction = bincode::deserialize(&bytes).unwrap();
    assert_eq!(transaction.signatures[0].as_ref(), &bytes[1..65]);
    assert_eq!(transaction.message.static_account_keys()[0].to_bytes(), bytes[69..101]);
    assert!(transaction.verify_with_results().iter().all(|valid| *valid));
}

#[test]
fn entries_repeat_the_given_transactions() {
    let entry = test_entry_of(vec![7, 8], 2);
    assert_eq!(
        entry,
        Entry {
            num_hashes: 100_000,
            hash: [0; 32],
            transactions: vec![vec![7, 8], vec![7, 8]],
        }
    );
    let entries = test_entries_of(vec![vec![1], vec![2, 3]], 2);
    assert_eq!(entries.len(), 2);
    assert_eq!(entries[0].transactions, vec![vec![1], vec![1]]);
    assert_eq!(entries[1].transactions, vec![vec![2, 3], vec![2, 3]]);
    assert!(test_entries_of(vec![], 4).is_empty());
}

#[test]
fn unchained_entries_differ() {
    let entries = make_large_unchained_entries(1, 2);
    assert_eq!(entries.len(), 2);
    assert_ne!(entries[0], entries[1]);
    assert!(make_large_unchained_entries(5, 0).is_empty());
}
