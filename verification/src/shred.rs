//! Shreds as the cache sees them: the header fields that place a shred, and its bytes.

use vstd::prelude::*;

verus! {

/// What a data shred is, apart from how its bytes are held in memory.
#[verifier::ext_equal]
pub struct DataShredView {
    pub slot: u64,
    pub index: u32,
    pub fec_set_index: u32,
    pub reference_tick: u8,
    pub data_complete: bool,
    pub payload: Seq<u8>,
}

/// What a code shred is, apart from how its bytes are held in memory.
#[verifier::ext_equal]
pub struct CodeShredView {
    pub slot: u64,
    pub index: u32,
    pub fec_set_index: u32,
    pub payload: Seq<u8>,
}

/// What a shred is, apart from how its bytes are held in memory.
#[verifier::ext_equal]
pub enum ShredView {
    Data(DataShredView),
    Code(CodeShredView),
}

/// A data shred: where it belongs, whether it ends its batch, and its serialized bytes.
#[derive(Debug, PartialEq, Eq)]
pub struct ShredData {
    /// The slot of the block that the shred is a part of.
    pub slot: u64,
    /// The position of the shred among the data shreds of its slot.
    pub index: u32,
    /// The index of the first data shred of the erasure set that the shred is in.
    pub fec_set_index: u32,
    /// The tick of the first entry of the batch that the shred is in.
    pub reference_tick: u8,
    /// Whether the shred is marked as the last one of its batch.
    pub data_complete: bool,
    /// The whole shred as it came over the wire.
    pub payload: Vec<u8>,
}

/// A code shred. The cache has no use for it beyond telling it apart from a data shred.
#[derive(Debug, PartialEq, Eq)]
pub struct ShredCode {
    /// The slot of the block that the shred protects.
    pub slot: u64,
    /// The position of the shred among the code shreds of its slot.
    pub index: u32,
    /// The index of the first data shred of the erasure set that the shred protects.
    pub fec_set_index: u32,
    /// The whole shred as it came over the wire.
    pub payload: Vec<u8>,
}

/// A shred of either type.
#[derive(Debug, PartialEq, Eq)]
pub enum Shred {
    ShredData(ShredData),
    ShredCode(ShredCode),
}

impl View for ShredData {
    type V = DataShredView;

    open spec fn view(&self) -> DataShredView {
        DataShredView {
            slot: self.slot,
            index: self.index,
            fec_set_index: self.fec_set_index,
            reference_tick: self.reference_tick,
            data_complete: self.data_complete,
            payload: self.payload@,
        }
    }
}

impl View for ShredCode {
    type V = CodeShredView;

    open spec fn view(&self) -> CodeShredView {
        CodeShredView {
            slot: self.slot,
            index: self.index,
            fec_set_index: self.fec_set_index,
            payload: self.payload@,
        }
    }
}

impl View for Shred {
    type V = ShredView;

    open spec fn view(&self) -> ShredView {
        match self {
            Shred::ShredData(data) => ShredView::Data(data@),
            Shred::ShredCode(code) => ShredView::Code(code@),
        }
    }
}

/// Whether two byte strings are the same.
fn same_bytes(a: &Vec<u8>, b: &Vec<u8>) -> (same: bool)
    ensures
        same == (a@ == b@),
{
    if a.len() != b.len() {
        return false;
    }
    for i in 0..a.len()
        invariant
            a@.len() == b@.len(),
            forall|j: int| 0 <= j < i ==> a@[j] == b@[j],
    {
        if a[i] != b[i] {
            return false;
        }
    }
    assert(a@ =~= b@);
    true
}

impl ShredData {
    /// Whether the other shred is an exact copy of this one, header and bytes.
    pub fn is_copy_of(&self, other: &ShredData) -> (same: bool)
        ensures
            same == (self@ == other@),
            same == (self.slot == other.slot && self.index == other.index && self.fec_set_index
                == other.fec_set_index && self.reference_tick == other.reference_tick
                && self.data_complete == other.data_complete && self.payload@ == other.payload@),
    {
        self.slot == other.slot && self.index == other.index && self.fec_set_index
            == other.fec_set_index && self.reference_tick == other.reference_tick
            && self.data_complete == other.data_complete && same_bytes(
            &self.payload,
            &other.payload,
        )
    }
}

impl Clone for ShredData {
    fn clone(&self) -> (copy: Self)
        ensures
            copy@ == self@,
            copy.slot == self.slot,
            copy.index == self.index,
            copy.fec_set_index == self.fec_set_index,
            copy.reference_tick == self.reference_tick,
            copy.data_complete == self.data_complete,
            copy.payload@ == self.payload@,
    {
        let payload = self.payload.clone();
        ShredData {
            slot: self.slot,
            index: self.index,
            fec_set_index: self.fec_set_index,
            reference_tick: self.reference_tick,
            data_complete: self.data_complete,
            payload,
        }
    }
}

impl Clone for ShredCode {
    fn clone(&self) -> (copy: Self)
        ensures
            copy@ == self@,
            copy.slot == self.slot,
            copy.index == self.index,
            copy.fec_set_index == self.fec_set_index,
            copy.payload@ == self.payload@,
    {
        let payload = self.payload.clone();
        ShredCode {
            slot: self.slot,
            index: self.index,
            fec_set_index: self.fec_set_index,
            payload,
        }
    }
}

impl Clone for Shred {
    fn clone(&self) -> (copy: Self)
        ensures
            copy@ == self@,
    {
        match self {
            Shred::ShredData(data) => Shred::ShredData(data.clone()),
            Shred::ShredCode(code) => Shred::ShredCode(code.clone()),
        }
    }
}

/// Nothing of a data shred is lost to the view of it but how its bytes are held in memory.
pub proof fn law_data_shred_is_seen_whole(shred: ShredData)
    ensures
        shred@.slot == shred.slot,
        shred@.index == shred.index,
        shred@.fec_set_index == shred.fec_set_index,
        shred@.reference_tick == shred.reference_tick,
        shred@.data_complete == shred.data_complete,
        shred@.payload == shred.payload@,
        Shred::ShredData(shred)@ == ShredView::Data(shred@),
{
}

/// Nothing of a code shred is lost to the view of it but how its bytes are held in memory.
pub proof fn law_code_shred_is_seen_whole(shred: ShredCode)
    ensures
        shred@.slot == shred.slot,
        shred@.index == shred.index,
        shred@.fec_set_index == shred.fec_set_index,
        shred@.payload == shred.payload@,
        Shred::ShredCode(shred)@ == ShredView::Code(shred@),
{
}

/// The data shred inside a shred, if it is one.
pub fn shred_to_shred_data(shred: &Shred) -> (data: Option<&ShredData>)
    ensures
        match data {
            Some(data) => *shred == Shred::ShredData(*data),
            None => shred is ShredCode,
        },
{
    match shred {
        Shred::ShredData(shred_data) => Some(shred_data),
        Shred::ShredCode(_) => None,
    }
}

} // verus!
