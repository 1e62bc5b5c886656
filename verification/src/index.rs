//! The index store: one fixed-width entry per record.
//!
//! Entry `n` occupies bytes `16 * n .. 16 * n + 16` of the index store. Its
//! first eight bytes encode the offset of the record's payload in the data
//! store, its last eight bytes the payload's length, both little-endian.

use vstd::prelude::*;
use crate::endian::{
    get_u64, le_value, lemma_u64_round_trip, lemma_word_round_trip, put_u64, u64_le,
};
use crate::store::{Error, Store};

verus! {

/// Number of bytes that one entry occupies in the index store.
pub const ENTRY_SIZE: u64 = 16;

/// Where a record's payload lies in the data store.
#[derive(Debug, Clone, Copy, PartialEq, Eq, Structural)]
pub struct IndexEntry {
    /// Offset of the first payload byte.
    pub offset: u64,
    /// Number of payload bytes.
    pub length: u64,
}

impl IndexEntry {
    /// The sixteen bytes that stand for the entry in the index store.
    pub open spec fn to_bytes(self) -> Seq<u8> {
        u64_le(self.offset) + u64_le(self.length)
    }

    /// The entry that sixteen bytes of the index store stand for.
    pub open spec fn from_bytes(bytes: Seq<u8>) -> IndexEntry {
        IndexEntry {
            offset: le_value(bytes.subrange(0, 8)) as u64,
            length: le_value(bytes.subrange(8, 16)) as u64,
        }
    }

    /// Offset of the first byte after the payload.
    pub open spec fn end(self) -> nat {
        (self.offset + self.length) as nat
    }

    /// An entry is read back from its bytes unchanged.
    pub proof fn lemma_bytes_round_trip(self)
        ensures
            self.to_bytes().len() == 16,
            IndexEntry::from_bytes(self.to_bytes()) == self,
    {
        lemma_u64_round_trip(self.offset);
        lemma_u64_round_trip(self.length);
        assert(self.to_bytes().subrange(0, 8) =~= u64_le(self.offset));
        assert(self.to_bytes().subrange(8, 16) =~= u64_le(self.length));
    }

    /// Any sixteen bytes are the bytes of the entry they stand for.
    pub proof fn lemma_entry_round_trip(bytes: Seq<u8>)
        requires
            bytes.len() == 16,
        ensures
            IndexEntry::from_bytes(bytes).to_bytes() == bytes,
    {
        lemma_word_round_trip(bytes.subrange(0, 8));
        lemma_word_round_trip(bytes.subrange(8, 16));
    }

    /// Encodes the entry for the index store.
    pub fn encode(&self) -> (bytes: Vec<u8>)
        ensures
            bytes@ == self.to_bytes(),
    {
        let mut bytes: Vec<u8> = Vec::new();
        put_u64(&mut bytes, self.offset);
        put_u64(&mut bytes, self.length);
        bytes
    }

    /// Decodes an entry read from the index store.
    pub fn decode(bytes: &[u8]) -> (entry: IndexEntry)
        requires
            bytes.len() == 16,
        ensures
            entry == IndexEntry::from_bytes(bytes@),
    {
        IndexEntry { offset: get_u64(bytes, 0), length: get_u64(bytes, 8) }
    }
}

/// Number of whole entries in an index store with the given contents.
pub open spec fn entry_count(index: Seq<u8>) -> nat {
    index.len() / 16
}

/// Whether the index store holds all sixteen bytes of entry `n`.
pub open spec fn has_entry(index: Seq<u8>, n: nat) -> bool {
    16 * n + 16 <= index.len()
}

/// Entry `n` of the index store.
pub open spec fn entry_at(index: Seq<u8>, n: nat) -> IndexEntry
    recommends
        has_entry(index, n),
{
    IndexEntry::from_bytes(index.subrange(16 * (n as int), 16 * (n as int) + 16))
}

/// The entries that an index store holds are those numbered below its count.
pub proof fn lemma_has_entry_iff_counted(index: Seq<u8>, n: nat)
    ensures
        has_entry(index, n) <==> n < entry_count(index),
{
}

/// Appends `entry` to the index store. The entries that the store held
/// before stay as they were, whether or not the append succeeds, and a
/// failed append adds no whole entry to a store of whole entries.
pub fn append_entry<T: Store>(index: &mut T, entry: IndexEntry) -> (r: Result<(), Error>)
    ensures
        old(index).contents().is_prefix_of(final(index).contents()),
        r is Err ==> final(index).contents().len() < old(index).contents().len() + 16,
        r is Ok ==> final(index).contents() == old(index).contents() + entry.to_bytes(),
        r is Ok ==> final(index).contents().len() == old(index).contents().len() + 16,
        T::is_reliable() && old(index).contents().len() + 16 <= u64::MAX ==> r is Ok,
{
    let bytes = entry.encode();
    proof {
        entry.lemma_bytes_round_trip();
    }
    index.append(bytes.as_slice())
}

/// Reads entry `n` from the index store. The read fails when the store does
/// not hold the whole entry, and leaves the store's contents as they were.
///
/// A reliable store fails the read in no other case, as long as its contents
/// are within reach of 64-bit offsets; a sequence number whose entry would
/// lie beyond that reach is never looked up.
pub fn get_entry<T: Store>(index: &mut T, n: u64) -> (r: Result<IndexEntry, Error>)
    ensures
        final(index).contents() == old(index).contents(),
        r matches Ok(entry) ==> has_entry(old(index).contents(), n as nat)
            && entry == entry_at(old(index).contents(), n as nat),
        T::is_reliable() && old(index).contents().len() <= u64::MAX ==> (r is Ok <==> has_entry(
            old(index).contents(),
            n as nat,
        )),
        T::is_reliable() && r is Err ==> r == Err::<IndexEntry, Error>(Error::UnexpectedEof),
{
    match n.checked_mul(ENTRY_SIZE) {
        Some(offset) => {
            let bytes = index.read_range(offset, ENTRY_SIZE)?;
            Ok(IndexEntry::decode(bytes.as_slice()))
        },
        None => Err(Error::UnexpectedEof),
    }
}

} // verus!
