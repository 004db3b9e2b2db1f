//! The ledger entries that the joined bytes of a complete batch hold.

use vstd::prelude::*;

verus! {

/// What a ledger entry is, apart from how its bytes are held in memory.
#[verifier::ext_equal]
pub struct EntryView {
    pub num_hashes: u64,
    pub hash: Seq<u8>,
    pub transactions: Seq<Seq<u8>>,
}

/// A ledger entry.
#[derive(Debug, PartialEq, Eq)]
pub struct Entry {
    /// The number of hashes since the entry before.
    pub num_hashes: u64,
    /// The hash after that many hashes.
    pub hash: [u8; 32],
    /// The transactions of the entry, each of them serialized.
    pub transactions: Vec<Vec<u8>>,
}

impl View for Entry {
    type V = EntryView;

    open spec fn view(&self) -> EntryView {
        EntryView {
            num_hashes: self.num_hashes,
            hash: self.hash@,
            transactions: self.transactions@.map_values(|transaction: Vec<u8>| transaction@),
        }
    }
}

/// The entries of a list, apart from how their bytes are held in memory.
pub open spec fn entry_views(entries: Seq<Entry>) -> Seq<EntryView> {
    entries.map_values(|entry: Entry| entry@)
}

/// Nothing of a list of entries is lost to the view of it but how its bytes are held in memory:
/// there are as many entries, and each has its number of hashes, its hash and its transactions.
pub proof fn law_entries_are_seen_whole(entries: Seq<Entry>, i: int, j: int)
    ensures
        entry_views(entries).len() == entries.len(),
        0 <= i < entries.len() ==> {
            &&& entry_views(entries)[i].num_hashes == entries[i].num_hashes
            &&& entry_views(entries)[i].hash == entries[i].hash@
            &&& entry_views(entries)[i].transactions.len() == entries[i].transactions@.len()
            &&& 0 <= j < entries[i].transactions@.len() ==> entry_views(entries)[i].transactions[j]
                == entries[i].transactions@[j]@
        },
{
}

/// `bincode::ErrorKind`, why bytes could not be decoded. It is carried to the caller and nothing
/// is claimed of it.
#[verifier::external_type_specification]
#[verifier::external_body]
pub struct ExErrorKind(bincode::ErrorKind);

/// The ledger entries that the bytes hold, if they hold a list of entries.
pub uninterp spec fn decoded_entries(payload: Seq<u8>) -> Option<Seq<EntryView>>;

/// `bincode::deserialize` reads a list of ledger entries from the bytes. Whether it reads one, and
/// which, depends on the bytes alone. Its transactions come out in serialized form. Nothing is
/// said of the error that stands for bytes that hold no list of entries.
#[verifier::external_body]
pub(crate) fn deserialize_entries(payload: &[u8]) -> (decoded: Result<
    Vec<Entry>,
    Box<bincode::ErrorKind>,
>)
    ensures
        match decoded {
            Ok(entries) => decoded_entries(payload@) == Some(entry_views(entries@)),
            Err(_) => decoded_entries(payload@) is None,
        },
{
    let list = bincode::deserialize::<Vec<solana_entry::entry::Entry>>(payload)?;
    let plain = list.iter().map(|entry| {
        let transactions = entry.transactions.iter().map(bincode::serialize);
        Ok(Entry {
            num_hashes: entry.num_hashes,
            hash: entry.hash.to_bytes(),
            transactions: transactions.collect::<bincode::Result<Vec<Vec<u8>>>>()?,
        })
    });
    plain.collect()
}

/// What is known of the entries of a batch.
#[derive(Debug)]
pub enum EntriesReport {
    /// The shreds of the batch could not be joined, and why.
    NotDeshredded(String),
    /// The joined bytes hold no list of entries, and why.
    NotDecoded(Box<bincode::ErrorKind>),
    /// The entries.
    Entries(Vec<Entry>),
}

/// The report on bytes that were decoded, or could not be.
pub fn report_decoded(decoded: Result<Vec<Entry>, Box<bincode::ErrorKind>>) -> (report:
    EntriesReport)
    ensures
        report == match decoded {
            Ok(entries) => EntriesReport::Entries(entries),
            Err(error) => EntriesReport::NotDecoded(error),
        },
{
    match decoded {
        Ok(entries) => EntriesReport::Entries(entries),
        Err(error) => EntriesReport::NotDecoded(error),
    }
}

/// The report on the entries of a batch, given its joined bytes, or why its shreds could not be
/// joined.
pub fn report_entries(deshredded: Result<Vec<u8>, String>) -> (report: EntriesReport)
    ensures
        match deshredded {
            Err(reason) => report == EntriesReport::NotDeshredded(reason),
            Ok(payload) => match decoded_entries(payload@) {
                Some(entries) => report matches EntriesReport::Entries(found) && entry_views(
                    found@,
                ) == entries,
                None => report is NotDecoded,
            },
        },
{
    match deshredded {
        Err(reason) => EntriesReport::NotDeshredded(reason),
        Ok(payload) => report_decoded(deserialize_entries(payload.as_slice())),
    }
}

} // verus!
