//! The engine that binds an index store and a data store together.

use vstd::prelude::*;
use crate::index::{append_entry, get_entry, IndexEntry};
use crate::layout::Layout;
use crate::store::{Error, Store};

verus! {

/// Database for storing and retrieving byte records of any length.
///
/// Records are appended with `write_all` and read back by sequence number
/// with `read`. An engine that appends starts from a fresh store pair; an
/// engine over stores that already hold records is for reading only, since
/// the write offset always starts at zero.
pub struct DB<T: Store> {
    data: T,
    index: T,
    /// Offset in the data store at which the next payload is recorded.
    offset: u64,
}

impl<T: Store> View for DB<T> {
    type V = Layout;

    open spec fn view(&self) -> Layout {
        Layout { index: self.index_store().contents(), data: self.data_store().contents() }
    }
}

impl<T: Store> DB<T> {
    /// The data store.
    pub closed spec fn data_store(&self) -> T {
        self.data
    }

    /// The index store.
    pub closed spec fn index_store(&self) -> T {
        self.index
    }

    /// The offset that the next index entry will carry.
    pub closed spec fn write_offset(&self) -> u64 {
        self.offset
    }

    /// What holds of an engine that has appended every record of its store
    /// pair itself: the layout is well formed and the write offset is the
    /// length of the data store.
    pub open spec fn consistent(&self) -> bool {
        &&& self@.well_formed()
        &&& self.write_offset() == self@.data.len()
    }

    /// An engine over the two stores, with the write offset at zero. Over a
    /// fresh store pair it is ready to append.
    pub fn new(data: T, index: T) -> (db: DB<T>)
        ensures
            db.data_store() == data,
            db.index_store() == index,
            db.write_offset() == 0,
            db@ == Layout::empty() ==> db.consistent(),
    {
        DB { index: index, data: data, offset: 0 }
    }

    /// Appends a record: the payload goes to the end of the data store, then
    /// an entry with the write offset and the payload's length goes to the
    /// end of the index store, then the write offset advances by the length.
    ///
    /// Whether or not the append succeeds, every record that could be read
    /// before it can be read after it, unchanged.
    ///
    /// A failure leaves the write offset where it was, and adds no record to
    /// an index store of whole entries: the payload is then either not in the
    /// index store at all, or fully in the data store with an index entry
    /// that is missing or cut short.
    pub fn write_all(&mut self, data: &[u8]) -> (r: Result<(), Error>)
        requires
            old(self).write_offset() + data.len() <= u64::MAX,
        ensures
            final(self)@.extends(old(self)@),
            forall|n: nat|
                (#[trigger] old(self)@.record(n)) is Some ==> final(self)@.record(n) == old(
                    self,
                )@.record(n),
            r is Ok ==> final(self)@ == old(self)@.append(old(self).write_offset(), data@),
            r is Ok ==> final(self)@.index.len() == old(self)@.index.len() + 16,
            r is Ok ==> final(self).write_offset() == old(self).write_offset() + data@.len(),
            r is Ok && old(self).consistent() ==> final(self).consistent()
                && final(self)@.records() == old(self)@.records().push(data@),
            r is Err ==> final(self).write_offset() == old(self).write_offset(),
            r is Err && old(self)@.index.len() % 16 == 0 ==> final(self)@.count() == old(
                self,
            )@.count(),
            r is Err ==> final(self)@.index == old(self)@.index
                || final(self)@.data == old(self)@.data + data@,
            T::is_reliable() && old(self)@.data.len() + data@.len() <= u64::MAX
                && old(self)@.index.len() + 16 <= u64::MAX ==> r is Ok,
    {
        let length: u64 = data.len() as u64;
        let entry = IndexEntry { offset: self.offset, length };
        let outcome = match self.data.append(data) {
            Ok(()) => append_entry(&mut self.index, entry),
            Err(e) => Err(e),
        };
        if outcome.is_ok() {
            self.offset = self.offset + length;
        }
        proof {
            old(self)@.lemma_extension_keeps_records(self@);
            entry.lemma_bytes_round_trip();
            if outcome is Ok && old(self).consistent() {
                old(self)@.lemma_append_records(data@);
            }
        }
        outcome
    }

    /// Reads the record with sequence number `index`: looks up its entry in
    /// the index store, then fetches the bytes that the entry points at from
    /// the data store. Neither store's contents change.
    ///
    /// The read fails where the index store holds no such entry, or the data
    /// store does not hold all of the bytes that the entry points at. Over
    /// reliable stores it fails in no other case, as long as the index store
    /// is within reach of 64-bit offsets.
    pub fn read(&mut self, index: u64) -> (r: Result<Vec<u8>, Error>)
        ensures
            final(self)@ == old(self)@,
            final(self).write_offset() == old(self).write_offset(),
            r matches Ok(bytes) ==> old(self)@.record(index as nat) == Some(bytes@),
            r matches Ok(bytes) ==> old(self)@.well_formed() ==> index < old(self)@.records().len()
                && bytes@ == old(self)@.records()[index as int],
            T::is_reliable() && old(self)@.index.len() <= u64::MAX ==> (r is Ok <==> old(
                self,
            )@.record(index as nat) is Some),
            T::is_reliable() && r is Err ==> r == Err::<Vec<u8>, Error>(Error::UnexpectedEof),
    {
        proof {
            if self@.well_formed() {
                self@.lemma_record_of_well_formed(index as nat);
            }
        }
        let entry = get_entry(&mut self.index, index)?;
        self.data.read_range(entry.offset, entry.length)
    }

    /// The offset that the next index entry will carry.
    pub fn offset(&self) -> (offset: u64)
        ensures
            offset == self.write_offset(),
    {
        self.offset
    }

    /// Gives up the engine for its stores: the data store, then the index
    /// store.
    pub fn into_parts(self) -> (parts: (T, T))
        ensures
            parts.0 == self.data_store(),
            parts.1 == self.index_store(),
    {
        (self.data, self.index)
    }
}

} // verus!
