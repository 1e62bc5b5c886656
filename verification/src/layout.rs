//! The layout of a store pair, as a mathematical value.
//!
//! A `Layout` is what the two stores hold, byte for byte. The functions here
//! say which records such a pair describes, what an append does to it, and
//! which pairs a writer can have produced.

use vstd::prelude::*;
use crate::index::{entry_at, entry_count, has_entry, lemma_has_entry_iff_counted, IndexEntry};

verus! {

/// The payloads laid end to end, first to last.
pub open spec fn concat(payloads: Seq<Seq<u8>>) -> Seq<u8>
    decreases payloads.len(),
{
    if payloads.len() == 0 {
        Seq::empty()
    } else {
        concat(payloads.drop_last()) + payloads.last()
    }
}

/// The contents of an index store and of the data store that goes with it.
pub struct Layout {
    /// Contents of the index store.
    pub index: Seq<u8>,
    /// Contents of the data store.
    pub data: Seq<u8>,
}

impl Layout {
    /// The layout of a fresh store pair: both stores empty.
    pub open spec fn empty() -> Layout {
        Layout { index: Seq::empty(), data: Seq::empty() }
    }

    /// Number of records, which is the number of whole index entries.
    pub open spec fn count(self) -> nat {
        entry_count(self.index)
    }

    /// Index entry `n`.
    pub open spec fn entry(self, n: nat) -> IndexEntry
        recommends
            has_entry(self.index, n),
    {
        entry_at(self.index, n)
    }

    /// Whether the data store holds every byte that `entry` points at.
    pub open spec fn covers(self, entry: IndexEntry) -> bool {
        entry.end() <= self.data.len()
    }

    /// The bytes of the data store that `entry` points at.
    pub open spec fn payload(self, entry: IndexEntry) -> Seq<u8>
        recommends
            self.covers(entry),
    {
        self.data.subrange(entry.offset as int, entry.end() as int)
    }

    /// What reading sequence number `n` yields: the payload that entry `n`
    /// points at, or nothing where the index store has no such entry or the
    /// data store does not hold all of the payload.
    pub open spec fn record(self, n: nat) -> Option<Seq<u8>> {
        if has_entry(self.index, n) && self.covers(self.entry(n)) {
            Some(self.payload(self.entry(n)))
        } else {
            None
        }
    }

    /// The layout after `payload` went to the end of the data store and an
    /// entry with the given offset and the payload's length to the end of the
    /// index store.
    pub open spec fn append(self, offset: u64, payload: Seq<u8>) -> Layout {
        Layout {
            index: self.index + (IndexEntry { offset, length: payload.len() as u64 }).to_bytes(),
            data: self.data + payload,
        }
    }

    /// Whether both stores still begin with what they held in `earlier`.
    pub open spec fn extends(self, earlier: Layout) -> bool {
        &&& earlier.index.is_prefix_of(self.index)
        &&& earlier.data.is_prefix_of(self.data)
    }

    /// Offset of the first byte after the last record.
    pub open spec fn extent(self) -> nat {
        if self.count() == 0 {
            0
        } else {
            self.entry((self.count() - 1) as nat).end()
        }
    }

    /// The first entry starts at offset zero and every other entry starts
    /// where the one before it ends.
    pub open spec fn contiguous(self) -> bool {
        &&& self.count() > 0 ==> self.entry(0).offset == 0
        &&& forall|m: nat, n: nat|
            m + 1 == n && n < self.count() ==> (#[trigger] self.entry(n)).offset
                == (#[trigger] self.entry(m)).end()
    }

    /// What holds of every store pair that a writer filled from empty: the
    /// index store holds whole entries only, they are contiguous, and the
    /// data store ends where the last record ends.
    pub open spec fn well_formed(self) -> bool {
        &&& self.index.len() % 16 == 0
        &&& self.contiguous()
        &&& self.data.len() == self.extent()
    }

    /// The payloads that the entries point at, in sequence-number order.
    pub open spec fn records(self) -> Seq<Seq<u8>> {
        Seq::new(self.count(), |n: int| self.payload(self.entry(n as nat)))
    }

    /// The layout of a fresh store pair after `payloads` were appended to it
    /// in order, each at the end of the data store.
    pub open spec fn of(payloads: Seq<Seq<u8>>) -> Layout
        decreases payloads.len(),
    {
        if payloads.len() == 0 {
            Layout::empty()
        } else {
            let before = Layout::of(payloads.drop_last());
            before.append(before.data.len() as u64, payloads.last())
        }
    }

    /// The layout without its last record: the index store loses its last
    /// entry, the data store the bytes from that entry's offset onwards.
    pub open spec fn without_last(self) -> Layout
        recommends
            self.count() > 0,
    {
        let last = self.entry((self.count() - 1) as nat);
        Layout {
            index: self.index.take(16 * (self.count() - 1)),
            data: self.data.take(last.offset as int),
        }
    }

    /// An append adds one entry and leaves the entries before it as they were.
    pub proof fn lemma_append_entries(self, offset: u64, payload: Seq<u8>)
        requires
            self.index.len() % 16 == 0,
            payload.len() <= u64::MAX,
        ensures
            self.append(offset, payload).index.len() % 16 == 0,
            self.append(offset, payload).count() == self.count() + 1,
            self.append(offset, payload).entry(self.count()) == (IndexEntry {
                offset,
                length: payload.len() as u64,
            }),
            forall|n: nat|
                n < self.count() ==> #[trigger] self.append(offset, payload).entry(n)
                    == self.entry(n),
    {
        let added = IndexEntry { offset, length: payload.len() as u64 };
        let after = self.append(offset, payload);
        added.lemma_bytes_round_trip();
        let last = self.count();
        assert(after.index.subrange(16 * (last as int), 16 * (last as int) + 16)
            =~= added.to_bytes());
        assert forall|n: nat| n < self.count() implies #[trigger] after.entry(n) == self.entry(
            n,
        ) by {
            assert(after.index.subrange(16 * (n as int), 16 * (n as int) + 16)
                =~= self.index.subrange(16 * (n as int), 16 * (n as int) + 16));
        }
    }

    /// Records that could be read stay the same whatever is added behind
    /// them in either store.
    pub proof fn lemma_extension_keeps_records(self, later: Layout)
        requires
            later.extends(self),
        ensures
            forall|n: nat|
                (#[trigger] self.record(n)) is Some ==> later.record(n) == self.record(n),
    {
        assert forall|n: nat| (#[trigger] self.record(n)) is Some implies later.record(n)
            == self.record(n) by {
            assert(later.index.subrange(16 * (n as int), 16 * (n as int) + 16)
                =~= self.index.subrange(16 * (n as int), 16 * (n as int) + 16));
        }
    }

    /// Appending at the end of a well-formed layout keeps it well formed and
    /// adds the payload as the last record, after the records already there.
    pub proof fn lemma_append_records(self, payload: Seq<u8>)
        requires
            self.well_formed(),
            self.data.len() + payload.len() <= u64::MAX,
        ensures
            self.append(self.data.len() as u64, payload).well_formed(),
            self.append(self.data.len() as u64, payload).records() == self.records().push(
                payload,
            ),
    {
        let after = self.append(self.data.len() as u64, payload);
        self.lemma_append_entries(self.data.len() as u64, payload);
        self.lemma_extents();
        assert forall|n: int| 0 <= n < after.count() implies after.records()[n]
            == self.records().push(payload)[n] by {}
    }

    /// In a well-formed layout every record lies inside the data store.
    pub proof fn lemma_extents(self)
        requires
            self.well_formed(),
        ensures
            forall|n: nat| n < self.count() ==> self.covers(#[trigger] self.entry(n)),
    {
        assert forall|n: nat| n < self.count() implies self.covers(#[trigger] self.entry(n)) by {
            self.lemma_entry_below_extent(n, (self.count() - 1) as nat);
        }
    }

    /// In a contiguous layout an entry ends no later than any entry after it.
    pub proof fn lemma_entry_below_extent(self, n: nat, m: nat)
        requires
            self.contiguous(),
            n <= m < self.count(),
        ensures
            self.entry(n).end() <= self.entry(m).end(),
        decreases m - n,
    {
        if n < m {
            self.lemma_entry_below_extent(n, (m - 1) as nat);
        }
    }

    /// Reading a well-formed layout yields the record with that sequence
    /// number where there is one, and nothing from the count upwards.
    pub proof fn lemma_record_of_well_formed(self, n: nat)
        requires
            self.well_formed(),
        ensures
            self.records().len() == self.count(),
            n < self.count() ==> self.record(n) == Some(self.records()[n as int]),
            n >= self.count() ==> self.record(n) is None,
    {
        self.lemma_extents();
        lemma_has_entry_iff_counted(self.index, n);
    }

    /// Appending one more payload to a store pair extends its layout by one
    /// append at the end of the data store.
    pub proof fn lemma_of_push(payloads: Seq<Seq<u8>>, payload: Seq<u8>)
        ensures
            Layout::of(payloads.push(payload)) == Layout::of(payloads).append(
                Layout::of(payloads).data.len() as u64,
                payload,
            ),
    {
        assert(payloads.push(payload).drop_last() =~= payloads);
    }

    /// A store pair filled from empty is well formed and holds exactly the
    /// payloads that were appended, in order, as long as they fit together
    /// in a data store that 64-bit offsets can address.
    pub proof fn lemma_of_records(payloads: Seq<Seq<u8>>)
        requires
            concat(payloads).len() <= u64::MAX,
        ensures
            Layout::of(payloads).well_formed(),
            Layout::of(payloads).records() == payloads,
        decreases payloads.len(),
    {
        Layout::lemma_of_data(payloads);
        if payloads.len() > 0 {
            let earlier = payloads.drop_last();
            Layout::lemma_of_data(earlier);
            Layout::lemma_of_push(earlier, payloads.last());
            Layout::lemma_of_records(earlier);
            Layout::of(earlier).lemma_append_records(payloads.last());
        }
    }

    /// The data store of a store pair filled from empty holds the payloads
    /// end to end, with nothing before, between or after them.
    pub proof fn lemma_of_data(payloads: Seq<Seq<u8>>)
        ensures
            Layout::of(payloads).data == concat(payloads),
        decreases payloads.len(),
    {
        if payloads.len() > 0 {
            Layout::lemma_of_data(payloads.drop_last());
        }
    }

    /// Taking the last record off a well-formed layout leaves a well-formed
    /// layout with the other records, and appending the record again gives
    /// the layout back.
    pub proof fn lemma_without_last(self)
        requires
            self.well_formed(),
            self.count() > 0,
        ensures
            self.without_last().well_formed(),
            self.without_last().records() == self.records().drop_last(),
            self.without_last().append(
                self.without_last().data.len() as u64,
                self.records().last(),
            ) == self,
    {
        let k = (self.count() - 1) as nat;
        let before = self.without_last();
        self.lemma_extents();
        assert forall|n: nat| n < k implies #[trigger] before.entry(n) == self.entry(n) by {
            assert(before.index.subrange(16 * (n as int), 16 * (n as int) + 16)
                == self.index.subrange(16 * (n as int), 16 * (n as int) + 16));
        }
        assert forall|n: int| 0 <= n < k implies before.records()[n] == self.records()[n] by {
            self.lemma_entry_below_extent(n as nat, (k - 1) as nat);
        }
        IndexEntry::lemma_entry_round_trip(
            self.index.subrange(16 * (k as int), 16 * (k as int) + 16),
        );
        let again = before.append(before.data.len() as u64, self.records().last());
        assert(again.index == self.index);
        assert(again.data == self.data);
    }

    /// A well-formed layout is the layout of a fresh store pair after its
    /// records were appended in order: a writer can have produced it.
    pub proof fn lemma_well_formed_is_of(self)
        requires
            self.well_formed(),
        ensures
            self == Layout::of(self.records()),
        decreases self.count(),
    {
        if self.count() == 0 {
            assert(self.index == Seq::<u8>::empty());
            assert(self.data == Seq::<u8>::empty());
        } else {
            let before = self.without_last();
            self.lemma_without_last();
            before.lemma_well_formed_is_of();
            Layout::lemma_of_push(before.records(), self.records().last());
        }
    }

    /// The data store of a well-formed layout holds its records end to end,
    /// with nothing before, between or after them.
    pub proof fn lemma_data_is_concat(self)
        requires
            self.well_formed(),
        ensures
            self.data == concat(self.records()),
    {
        self.lemma_well_formed_is_of();
        Layout::lemma_of_data(self.records());
    }

    /// In a well-formed layout the offset of an entry is the total length of
    /// the records before it.
    pub proof fn lemma_offset_is_total(self, n: nat)
        requires
            self.well_formed(),
            n < self.count(),
        ensures
            self.entry(n).offset == concat(self.records().take(n as int)).len(),
        decreases n,
    {
        let earlier = self.records().take(n as int);
        if n > 0 {
            let m = (n - 1) as nat;
            self.lemma_offset_is_total(m);
            self.lemma_extents();
            assert(earlier.drop_last() == self.records().take(m as int));
        }
    }

    /// Every payload appended to a fresh store pair is read back unchanged
    /// under its sequence number.
    pub proof fn lemma_round_trip(payloads: Seq<Seq<u8>>, n: nat)
        requires
            concat(payloads).len() <= u64::MAX,
            n < payloads.len(),
        ensures
            Layout::of(payloads).record(n) == Some(payloads[n as int]),
    {
        Layout::lemma_of_records(payloads);
        Layout::of(payloads).lemma_record_of_well_formed(n);
    }

    /// After that many appends to a fresh store pair, exactly the sequence
    /// numbers below the number of appends can be read.
    pub proof fn lemma_dense(payloads: Seq<Seq<u8>>, n: nat)
        requires
            concat(payloads).len() <= u64::MAX,
        ensures
            Layout::of(payloads).count() == payloads.len(),
            Layout::of(payloads).record(n) is Some <==> n < payloads.len(),
    {
        Layout::lemma_of_records(payloads);
        Layout::of(payloads).lemma_record_of_well_formed(n);
    }

    /// An empty payload takes an index entry of length zero and no byte of
    /// the data store, and is read back as the empty byte string.
    pub proof fn lemma_append_empty(self, offset: u64)
        requires
            self.index.len() % 16 == 0,
            offset <= self.data.len(),
        ensures
            ({
                let after = self.append(offset, Seq::empty());
                &&& after.data == self.data
                &&& after.count() == self.count() + 1
                &&& after.entry(self.count()) == (IndexEntry { offset, length: 0 })
                &&& after.record(self.count()) == Some(Seq::<u8>::empty())
            }),
    {
        self.lemma_append_entries(offset, Seq::empty());
    }
}

} // verus!
