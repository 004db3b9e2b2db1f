//! Collects the data shreds of a ledger into packet batches and tells when a batch is complete.
//!
//! A block is sent as shreds. The data shreds of one erasure set make up a packet batch, which
//! starts at the index of the set and ends at the shred that is marked as the last one. The cache
//! finds the batch of each shred and hands the shreds of a batch out, by ascending index, once
//! it holds the first one, the last one and everything in the middle.

pub mod batch;
pub mod cache;
pub mod entries;
pub mod fetch;
pub mod fixtures;
pub mod laws;
pub mod legacy;
pub mod receive;
pub mod shred;
pub mod sigverify;
pub mod store;
