//! A store held in memory.

use vstd::prelude::*;
use crate::store::{range_fits, Error, Store};

verus! {

/// A reliable store whose bytes live in a vector.
#[derive(Debug)]
pub struct MemStore {
    bytes: Vec<u8>,
}

impl View for MemStore {
    type V = Seq<u8>;

    closed spec fn view(&self) -> Seq<u8> {
        self.bytes@
    }
}

impl MemStore {
    /// An empty store.
    pub fn new() -> (store: MemStore)
        ensures
            store@ == Seq::<u8>::empty(),
    {
        MemStore { bytes: Vec::new() }
    }

    /// A store that holds `bytes`.
    pub fn from_bytes(bytes: Vec<u8>) -> (store: MemStore)
        ensures
            store@ == bytes@,
    {
        MemStore { bytes }
    }

    /// The bytes that the store holds.
    pub fn as_bytes(&self) -> (bytes: &[u8])
        ensures
            bytes@ == self@,
    {
        self.bytes.as_slice()
    }

    /// A store in memory holds no more bytes than the machine can address.
    pub proof fn lemma_len_fits(&self)
        ensures
            self@.len() <= usize::MAX <= u64::MAX,
    {
        assert(self.bytes.len() == self.bytes@.len());
    }

    /// Gives up the store for the bytes it holds.
    pub fn into_bytes(self) -> (bytes: Vec<u8>)
        ensures
            bytes@ == self@,
    {
        self.bytes
    }
}

impl Clone for MemStore {
    /// A second store with the same bytes, independent of this one.
    fn clone(&self) -> (store: MemStore)
        ensures
            store@ == self@,
    {
        MemStore { bytes: self.bytes.clone() }
    }
}

impl Store for MemStore {
    open spec fn contents(&self) -> Seq<u8> {
        self@
    }

    open spec fn is_reliable() -> bool {
        true
    }

    fn append(&mut self, bytes: &[u8]) -> (r: Result<(), Error>)
        ensures
            r is Ok,
    {
        self.bytes.extend_from_slice(bytes);
        Ok(())
    }

    fn read_range(&mut self, offset: u64, length: u64) -> (r: Result<Vec<u8>, Error>) {
        if !range_fits(self.bytes.len() as u64, offset, length) {
            return Err(Error::UnexpectedEof);
        }
        let start: usize = offset as usize;
        let end: usize = start + length as usize;
        let mut out: Vec<u8> = Vec::new();
        let mut i: usize = start;
        while i < end
            invariant
                start <= i <= end <= self.bytes.len(),
                out@ == self.bytes@.subrange(start as int, i as int),
            decreases end - i,
        {
            out.push(self.bytes[i]);
            i += 1;
        }
        Ok(out)
    }
}

} // verus!
