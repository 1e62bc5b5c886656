//! The byte store that the engine is built on.
//!
//! A store is a growable string of bytes: bytes are added at its end and
//! read back from any range. Both halves of a store pair are stores.

use vstd::prelude::*;

verus! {

/// Why an operation on a store failed.
#[derive(Debug, Clone, Copy, PartialEq, Eq, Structural)]
pub enum Error {
    /// The store ends before the last byte of the range that was asked for.
    UnexpectedEof,
    /// The underlying stream could not carry out the operation.
    Io,
}

/// Whether `length` bytes starting at `offset` all lie inside `contents`.
pub open spec fn in_range(contents: Seq<u8>, offset: u64, length: u64) -> bool {
    offset + length <= contents.len()
}

/// Tells whether `length` bytes starting at `offset` all lie inside a store
/// of `len` bytes, without overflowing on the way.
pub fn range_fits(len: u64, offset: u64, length: u64) -> (fits: bool)
    ensures
        fits == (offset + length <= len),
{
    offset <= len && length <= len - offset
}

/// A seekable byte stream that can be appended to and read from.
///
/// The contract of each operation says what holds of every outcome. What it
/// says about when an operation succeeds is promised by reliable stores only:
/// a stream backed by a device may fail at any time.
///
/// An implementation supplies `append` and `read_range`. One that is verified
/// also says what the store holds, and whether it is reliable; one that is
/// not leaves both as they are given here.
pub trait Store {
    /// The bytes that the store holds, first to last.
    open spec fn contents(&self) -> Seq<u8> {
        arbitrary()
    }

    /// Whether stores of this type fail only for want of bytes or of room:
    /// a read only when the range reaches past the end, an append only when
    /// the store would outgrow what a 64-bit offset can address.
    open spec fn is_reliable() -> bool {
        false
    }

    /// Writes `bytes` at the end of the store. Whether or not the append
    /// succeeds, the bytes that the store held before stay where they were.
    ///
    /// A failed append has added fewer bytes than it was given. What it has
    /// added is otherwise left open.
    fn append(&mut self, bytes: &[u8]) -> (r: Result<(), Error>)
        ensures
            old(self).contents().is_prefix_of(final(self).contents()),
            r is Ok ==> final(self).contents() == old(self).contents() + bytes@,
            r is Err && bytes@.len() > 0 ==> final(self).contents().len() < old(
                self,
            ).contents().len() + bytes@.len(),
            Self::is_reliable() && old(self).contents().len() + bytes@.len() <= u64::MAX
                ==> r is Ok,
    ;

    /// Reads exactly `length` bytes starting at `offset`. The contents of the
    /// store stay as they were, whether or not the read succeeds.
    fn read_range(&mut self, offset: u64, length: u64) -> (r: Result<Vec<u8>, Error>)
        ensures
            final(self).contents() == old(self).contents(),
            r matches Ok(bytes) ==> in_range(old(self).contents(), offset, length)
                && bytes@ == old(self).contents().subrange(offset as int, offset + length),
            Self::is_reliable() ==> (r is Ok <==> in_range(old(self).contents(), offset, length)),
            Self::is_reliable() && r is Err ==> r == Err::<Vec<u8>, Error>(Error::UnexpectedEof),
    ;
}

} // verus!
