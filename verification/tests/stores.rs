use blobstore::store::range_fits;
use blobstore::{Error, MemStore, Store, DB};

/// A store that takes a given number of appends and fails every one after.
struct Flaky {
    inner: MemStore,
    appends_left: usize,
}

impl Flaky {
    fn new(appends_left: usize) -> Flaky {
        Flaky { inner: MemStore::new(), appends_left }
    }
}

impl Store for Flaky {
    fn append(&mut self, bytes: &[u8]) -> Result<(), Error> {
        if self.appends_left == 0 {
            return Err(Error::Io);
        }
        self.appends_left -= 1;
        self.inner.append(bytes)
    }

    fn read_range(&mut self, offset: u64, length: u64) -> Result<Vec<u8>, Error> {
        self.inner.read_range(offset, length)
    }
}

/// A store that takes a given number of bytes in all. The append that would
/// pass that number keeps the part that still fits, and fails.
struct Torn {
    inner: MemStore,
    room: usize,
}

impl Torn {
    fn new(room: usize) -> Torn {
        Torn { inner: MemStore::new(), room }
    }
}

impl Store for Torn {
    fn append(&mut self, bytes: &[u8]) -> Result<(), Error> {
        if bytes.len() <= self.room {
            self.room -= bytes.len();
            return self.inner.append(bytes);
        }
        let kept = self.room;
        self.room = 0;
        self.inner.append(&bytes[..kept])?;
        Err(Error::Io)
    }

    fn read_range(&mut self, offset: u64, length: u64) -> Result<Vec<u8>, Error> {
        self.inner.read_range(offset, length)
    }
}

#[test]
fn mem_store_starts_empty() {
    let store = MemStore::new();
    assert!(store.as_bytes().is_empty());
    assert_eq!(store.into_bytes(), Vec::<u8>::new());
}

#[test]
fn mem_store_appends_at_the_end() {
    let mut store = MemStore::from_bytes(vec![1]);
    assert_eq!(store.append(&[2, 3]), Ok(()));
    assert_eq!(store.append(&[]), Ok(()));
    assert_eq!(store.append(&[4]), Ok(()));
    assert_eq!(store.as_bytes(), [1, 2, 3, 4]);
}

#[test]
fn mem_store_append_after_read_still_goes_to_the_end() {
    let mut store = MemStore::from_bytes(vec![1, 2, 3]);
    assert_eq!(store.read_range(0, 1), Ok(vec![1]));
    assert_eq!(store.append(&[4]), Ok(()));
    assert_eq!(store.as_bytes(), [1, 2, 3, 4]);
}

#[test]
fn mem_store_reads_exact_ranges() {
    let mut store = MemStore::from_bytes(vec![10, 11, 12, 13, 14]);
    assert_eq!(store.read_range(0, 5), Ok(vec![10, 11, 12, 13, 14]));
    assert_eq!(store.read_range(1, 3), Ok(vec![11, 12, 13]));
    assert_eq!(store.read_range(4, 1), Ok(vec![14]));
    assert_eq!(store.read_range(2, 0), Ok(vec![]));
    assert_eq!(store.read_range(5, 0), Ok(vec![]));
    assert_eq!(store.as_bytes(), [10, 11, 12, 13, 14]);
}

#[test]
fn mem_store_fails_reads_that_pass_the_end() {
    let mut store = MemStore::from_bytes(vec![10, 11, 12, 13, 14]);
    assert_eq!(store.read_range(0, 6), Err(Error::UnexpectedEof));
    assert_eq!(store.read_range(5, 1), Err(Error::UnexpectedEof));
    assert_eq!(store.read_range(6, 0), Err(Error::UnexpectedEof));
    assert_eq!(store.read_range(u64::MAX, 1), Err(Error::UnexpectedEof));
    assert_eq!(store.read_range(1, u64::MAX), Err(Error::UnexpectedEof));
    assert_eq!(store.read_range(u64::MAX, u64::MAX), Err(Error::UnexpectedEof));
    assert_eq!(store.as_bytes(), [10, 11, 12, 13, 14]);
}

#[test]
fn mem_store_clone_is_independent() {
    let mut store = MemStore::from_bytes(vec![1, 2]);
    let mut copy = store.clone();
    store.append(&[3]).unwrap();
    assert_eq!(copy.as_bytes(), [1, 2]);
    assert_eq!(copy.read_range(0, 2), Ok(vec![1, 2]));
    assert_eq!(copy.read_range(0, 3), Err(Error::UnexpectedEof));
    assert_eq!(store.read_range(0, 3), Ok(vec![1, 2, 3]));
}

#[test]
fn failed_data_append_leaves_index_and_offset_alone() {
    let mut db = DB::new(Flaky::new(1), Flaky::new(9));
    assert_eq!(db.write_all(&[1, 2, 3]), Ok(()));
    assert_eq!(db.write_all(&[4, 5]), Err(Error::Io));
    assert_eq!(db.offset(), 3);
    let (data, index) = db.into_parts();
    assert_eq!(data.inner.as_bytes(), [1, 2, 3]);
    assert_eq!(index.inner.as_bytes().len(), 16);
}

#[test]
fn failed_index_append_leaves_the_record_invisible() {
    let mut db = DB::new(Flaky::new(9), Flaky::new(1));
    assert_eq!(db.write_all(&[1, 2, 3]), Ok(()));
    assert_eq!(db.write_all(&[4, 5]), Err(Error::Io));
    assert_eq!(db.offset(), 3);
    assert_eq!(db.read(0), Ok(vec![1, 2, 3]));
    assert_eq!(db.read(1), Err(Error::UnexpectedEof));
    let (data, index) = db.into_parts();
    assert_eq!(data.inner.as_bytes(), [1, 2, 3, 4, 5]);
    assert_eq!(index.inner.as_bytes().len(), 16);
}

#[test]
fn engine_works_over_any_store() {
    let mut db = DB::new(Flaky::new(2), Flaky::new(2));
    assert_eq!(db.write_all(&[1]), Ok(()));
    assert_eq!(db.write_all(&[2, 2]), Ok(()));
    assert_eq!(db.read(1), Ok(vec![2, 2]));
    assert_eq!(db.read(0), Ok(vec![1]));
    assert_eq!(db.write_all(&[3]), Err(Error::Io));
}

#[test]
fn range_fits_up_to_the_end_and_no_further() {
    assert!(range_fits(5, 0, 5));
    assert!(range_fits(5, 2, 3));
    assert!(range_fits(5, 5, 0));
    assert!(range_fits(0, 0, 0));
    assert!(range_fits(u64::MAX, 1, u64::MAX - 1));
    assert!(!range_fits(5, 0, 6));
    assert!(!range_fits(5, 2, 4));
    assert!(!range_fits(5, 6, 0));
    assert!(!range_fits(0, 0, 1));
}

#[test]
fn range_fits_does_not_wrap_around() {
    assert!(!range_fits(5, u64::MAX, 1));
    assert!(!range_fits(5, 1, u64::MAX));
    assert!(!range_fits(5, u64::MAX, u64::MAX));
    assert!(!range_fits(u64::MAX, 2, u64::MAX - 1));
    assert!(!range_fits(u64::MAX, u64::MAX, 1));
}

#[test]
fn torn_index_entry_adds_no_record() {
    let mut db = DB::new(Torn::new(100), Torn::new(16 + 9));
    assert_eq!(db.write_all(&[1, 2, 3]), Ok(()));
    assert_eq!(db.write_all(&[4, 5]), Err(Error::Io));
    assert_eq!(db.offset(), 3);
    assert_eq!(db.read(0), Ok(vec![1, 2, 3]));
    assert_eq!(db.read(1), Err(Error::UnexpectedEof));
    let (data, index) = db.into_parts();
    assert_eq!(data.inner.as_bytes(), [1, 2, 3, 4, 5]);
    assert_eq!(index.inner.as_bytes().len(), 25);
    assert_eq!(index.inner.as_bytes()[..16], [0, 0, 0, 0, 0, 0, 0, 0, 3, 0, 0, 0, 0, 0, 0, 0]);
}

#[test]
fn torn_payload_adds_no_record_and_keeps_the_others() {
    let mut db = DB::new(Torn::new(4), Torn::new(100));
    assert_eq!(db.write_all(&[1, 2, 3]), Ok(()));
    assert_eq!(db.write_all(&[4, 5]), Err(Error::Io));
    assert_eq!(db.offset(), 3);
    assert_eq!(db.read(0), Ok(vec![1, 2, 3]));
    assert_eq!(db.read(1), Err(Error::UnexpectedEof));
    let (data, index) = db.into_parts();
    assert_eq!(data.inner.as_bytes(), [1, 2, 3, 4]);
    assert_eq!(index.inner.as_bytes().len(), 16);
}
