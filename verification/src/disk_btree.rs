//! The slotted index-page layout: a sorted slot directory growing upward
//! from the slot header, a fragmented-slot list behind it, and a record heap
//! growing downward from the end of the page.

use vstd::prelude::*;

use core::marker::PhantomData;

use crate::errors::StorageError;
use crate::page::{
    DbColumn, Page, PageId, PageType, SlotHeader, SlotIndex, PAGE_MAGIC_NUMBER, PAGE_TYPE_START,
    SLOTS_FRAGMENTED_SLOTS_START, SLOTS_NEXT_EMPTY_OFFSET_START, SLOTS_OCCUPIED_SLOTS_START,
    SLOTS_START,
};
use crate::page::{spec_read_header, PageHeader, HEADER_SIZE, SLOTS_HEADER_START};
use crate::serialization_helpers::{
    read_u16, read_u32, read_u64, spec_read_u16, spec_read_u32, spec_read_u64, write_bytes,
    write_u16, write_u64,
};

verus! {

broadcast use vstd::std_specs::vec::group_vec_axioms;

/// Page header plus slot header.
pub const INDEX_PAGE_HEADER_SIZE: usize = 31;

/// The fixed prefix of every record: child page id plus in-child slot index.
pub const TUPLE_HEADER_SIZE: usize = 10;

/// The occupied-slot count held in the slot header of `s`.
pub open spec fn spec_n_slots(s: Seq<u8>) -> u16 {
    spec_read_u16(s, SLOTS_OCCUPIED_SLOTS_START as int)
}

/// The fragmented-slot count held in the slot header of `s`.
pub open spec fn spec_fragmented_slots(s: Seq<u8>) -> u16 {
    spec_read_u16(s, SLOTS_FRAGMENTED_SLOTS_START as int)
}

/// The next-empty-offset field held in the slot header of `s`: the highest
/// byte offset currently unused by the record heap.
pub open spec fn spec_next_empty_offset(s: Seq<u8>) -> u16 {
    spec_read_u16(s, SLOTS_NEXT_EMPTY_OFFSET_START as int)
}

/// One past the last byte of the slot directory of `s`.
pub open spec fn spec_slots_end(s: Seq<u8>) -> int {
    SLOTS_START + 2 * (spec_n_slots(s) + spec_fragmented_slots(s))
}

/// The record offset held at position `i` of the occupied region of the
/// slot directory of `s`.
pub open spec fn spec_entry_offset(s: Seq<u8>, i: int) -> u16 {
    spec_read_u16(s, SLOTS_START + 2 * i)
}

/// The record offset held at position `i` of the fragmented region of the
/// slot directory of `s`.
pub open spec fn spec_fragmented_offset(s: Seq<u8>, i: int) -> u16 {
    spec_read_u16(s, SLOTS_START + 2 * (spec_n_slots(s) + i))
}

/// Whether the type tag of `s` marks an index leaf.
pub open spec fn spec_is_leaf(s: Seq<u8>) -> bool {
    s[PAGE_TYPE_START as int] == 2
}

/// The key decoded from the record that starts at byte `off` of `s`.
pub open spec fn spec_key_at<KeyType: DbColumn>(s: Seq<u8>, off: int) -> KeyType {
    KeyType::decode_spec(s.subrange(off + 10, off + 10 + KeyType::spec_len()))
}

/// The key entry decoded from the record that starts at byte `off` of `s`.
/// The in-child slot index is interpreted only on leaf pages.
pub open spec fn spec_entry_at<KeyType: DbColumn>(s: Seq<u8>, off: int) -> KeyEntry<KeyType> {
    KeyEntry {
        key: spec_key_at(s, off),
        page_id: spec_read_u64(s, off),
        slot_index: if spec_is_leaf(s) {
            Some(spec_read_u16(s, off + 8))
        } else {
            None
        },
    }
}

/// The integer view of the key of the entry at directory position `i`.
pub open spec fn spec_entry_key<KeyType: DbColumn>(s: Seq<u8>, i: int) -> int {
    spec_key_at::<KeyType>(s, spec_entry_offset(s, i) as int).key_view()
}

/// The sequence of live key entries of `s`, in slot-directory order.
pub open spec fn spec_entries<KeyType: DbColumn>(s: Seq<u8>) -> Seq<KeyEntry<KeyType>> {
    Seq::new(
        spec_n_slots(s) as nat,
        |i: int| spec_entry_at::<KeyType>(s, spec_entry_offset(s, i) as int),
    )
}

/// Well-formedness of a slotted index page over key type `KeyType`: a valid
/// header, a slot directory that ends at or before the record heap, records
/// that lie wholly between the heap boundary and the end of the page and
/// never overlap one another, and keys that appear in non-decreasing order.
pub open spec fn index_wf<KeyType: DbColumn>(s: Seq<u8>) -> bool {
    &&& 32 <= s.len() <= 65536
    &&& spec_read_u32(s, 0) == PAGE_MAGIC_NUMBER
    &&& crate::page::spec_valid_page_type_tag(s[PAGE_TYPE_START as int])
    &&& spec_slots_end(s) <= spec_next_empty_offset(s) + 1 <= s.len()
    &&& forall|i: int|
        0 <= i < spec_n_slots(s) ==> spec_next_empty_offset(s) < #[trigger] spec_entry_offset(s, i)
            && spec_entry_offset(s, i) + TUPLE_HEADER_SIZE + KeyType::spec_len() <= s.len()
    &&& forall|i: int|
        0 <= i < spec_fragmented_slots(s) ==> #[trigger] spec_fragmented_offset(s, i) < s.len()
    &&& forall|i: int, j: int|
        #![trigger spec_entry_offset(s, i), spec_entry_offset(s, j)]
        0 <= i < j < spec_n_slots(s) ==> spec_entry_offset(s, i) + TUPLE_HEADER_SIZE
            + KeyType::spec_len() <= spec_entry_offset(s, j) || spec_entry_offset(s, j)
            + TUPLE_HEADER_SIZE + KeyType::spec_len() <= spec_entry_offset(s, i)
    &&& forall|i: int, j: int|
        0 <= i <= j < spec_n_slots(s) ==> #[trigger] spec_entry_key::<KeyType>(s, i)
            <= #[trigger] spec_entry_key::<KeyType>(s, j)
}

/// The logical record stored in an index page: a key, the downward page
/// link, and (for leaves) the slot of the tuple within its data page.
pub struct KeyEntry<KeyType: DbColumn> {
    pub key: KeyType,
    pub page_id: PageId,
    pub slot_index: Option<SlotIndex>,
}

/// A read-only index view borrowing a page frame.
pub struct IndexPage<'a, KeyType: DbColumn> {
    pub phantom: PhantomData<KeyType>,
    pub inner_page: &'a Page,
}

/// An exclusive index view owning a page frame.
pub struct IndexPageMut<KeyType: DbColumn> {
    pub phantom: PhantomData<KeyType>,
    pub inner_page: Page,
}

impl<'a, KeyType: DbColumn> IndexPage<'a, KeyType> {
    /// Wraps an already-initialized page in a read-only index view.
    pub fn read_existing_page(page: &'a Page) -> (r: Self)
        ensures
            r.inner_page == page,
    {
        IndexPage { inner_page: page, phantom: PhantomData }
    }

    /// Whether the borrowed page is a well-formed index page.
    pub open spec fn wf(&self) -> bool {
        index_wf::<KeyType>(self.inner_page.data@)
    }

    pub fn inner_page(&self) -> (r: &'a Page)
        ensures
            r == self.inner_page,
    {
        self.inner_page
    }

    /// The number of occupied slots.
    pub fn read_n_slots(&self) -> (r: u16)
        requires
            SLOTS_START <= self.inner_page.data.len(),
        ensures
            r == spec_n_slots(self.inner_page.data@),
    {
        read_u16(&self.inner_page.data, SLOTS_OCCUPIED_SLOTS_START)
    }

    /// The number of fragmented slots.
    pub fn read_fragmented_slots(&self) -> (r: u16)
        requires
            SLOTS_START <= self.inner_page.data.len(),
        ensures
            r == spec_fragmented_slots(self.inner_page.data@),
    {
        read_u16(&self.inner_page.data, SLOTS_FRAGMENTED_SLOTS_START)
    }

    /// The highest byte offset not yet used by the record heap.
    pub fn read_next_empty_offset(&self) -> (r: u16)
        requires
            SLOTS_START <= self.inner_page.data.len(),
        ensures
            r == spec_next_empty_offset(self.inner_page.data@),
    {
        read_u16(&self.inner_page.data, SLOTS_NEXT_EMPTY_OFFSET_START)
    }

    /// The whole slot header.
    pub fn read_slots_header(&self) -> (r: SlotHeader)
        requires
            SLOTS_START <= self.inner_page.data.len(),
        ensures
            r.occupied_slots == spec_n_slots(self.inner_page.data@),
            r.fragmented_slots == spec_fragmented_slots(self.inner_page.data@),
            r.next_empty_offset == spec_next_empty_offset(self.inner_page.data@),
    {
        SlotHeader {
            occupied_slots: self.read_n_slots(),
            fragmented_slots: self.read_fragmented_slots(),
            next_empty_offset: self.read_next_empty_offset(),
        }
    }

    /// One past the last byte of the slot directory.
    pub fn slots_end(&self) -> (r: usize)
        requires
            self.wf(),
        ensures
            r == spec_slots_end(self.inner_page.data@),
    {
        let n = self.read_n_slots();
        let f = self.read_fragmented_slots();
        SLOTS_START + (n as usize + f as usize) * 2
    }

    /// The record offset held at occupied directory position `slot_index`.
    pub fn get_entry_offset(&self, slot_index: SlotIndex) -> (r: usize)
        requires
            self.wf(),
            slot_index < spec_n_slots(self.inner_page.data@),
        ensures
            r == spec_entry_offset(self.inner_page.data@, slot_index as int),
    {
        let start = SLOTS_START + 2 * slot_index as usize;
        read_u16(&self.inner_page.data, start) as usize
    }

    /// The record offset held at fragmented directory position `slot_index`.
    pub fn get_fragmented_slot_offset(&self, slot_index: SlotIndex) -> (r: usize)
        requires
            self.wf(),
            slot_index < spec_fragmented_slots(self.inner_page.data@),
        ensures
            r == spec_fragmented_offset(self.inner_page.data@, slot_index as int),
    {
        let n = self.read_n_slots();
        let start = SLOTS_START + 2 * (n as usize + slot_index as usize);
        read_u16(&self.inner_page.data, start) as usize
    }

    /// All occupied record offsets, in directory order.
    pub fn get_occupied_slots(&self) -> (r: Vec<usize>)
        requires
            self.wf(),
        ensures
            r@.len() == spec_n_slots(self.inner_page.data@),
            forall|i: int|
                0 <= i < r@.len() ==> r@[i] == spec_entry_offset(self.inner_page.data@, i),
    {
        let mut slots: Vec<usize> = Vec::new();
        let n = self.read_n_slots();
        let mut i: u16 = 0;
        while i < n
            invariant
                self.wf(),
                n == spec_n_slots(self.inner_page.data@),
                i <= n,
                slots@.len() == i as int,
                forall|k: int|
                    0 <= k < i as int ==> slots@[k] == spec_entry_offset(
                        self.inner_page.data@,
                        k,
                    ),
            decreases n - i,
        {
            let off = self.get_entry_offset(i);
            slots.push(off);
            i = i + 1;
        }
        slots
    }

    /// All fragmented record offsets, in directory order.
    pub fn get_fragmented_slots(&self) -> (r: Vec<usize>)
        requires
            self.wf(),
        ensures
            r@.len() == spec_fragmented_slots(self.inner_page.data@),
            forall|i: int|
                0 <= i < r@.len() ==> r@[i] == spec_fragmented_offset(self.inner_page.data@, i),
    {
        let mut slots: Vec<usize> = Vec::new();
        let f = self.read_fragmented_slots();
        let mut i: u16 = 0;
        while i < f
            invariant
                self.wf(),
                f == spec_fragmented_slots(self.inner_page.data@),
                i <= f,
                slots@.len() == i as int,
                forall|k: int|
                    0 <= k < i as int ==> slots@[k] == spec_fragmented_offset(
                        self.inner_page.data@,
                        k,
                    ),
            decreases f - i,
        {
            let off = self.get_fragmented_slot_offset(i);
            slots.push(off);
            i = i + 1;
        }
        slots
    }

    /// Decodes the key entry at occupied directory position `slot_index`.
    pub fn read_key_node(&self, slot_index: SlotIndex) -> (r: KeyEntry<KeyType>)
        requires
            self.wf(),
            slot_index < spec_n_slots(self.inner_page.data@),
        ensures
            r == spec_entries::<KeyType>(self.inner_page.data@)[slot_index as int],
    {
        let offset = self.get_entry_offset(slot_index);

        let page_id = read_u64(&self.inner_page.data, offset);

        // In a B+ tree only leaf entries carry tuple pointers.
        let slot_index_in_child: Option<SlotIndex> = match self.inner_page.read_page_type() {
            Ok(PageType::IndexLeaf) => Some(read_u16(&self.inner_page.data, offset + 8)),
            _ => None,
        };

        let key = KeyType::from_bytes(&self.inner_page.data, offset + TUPLE_HEADER_SIZE);

        KeyEntry { key, page_id, slot_index: slot_index_in_child }
    }
}


/// The position at which a key with integer view `k` is inserted into
/// `entries`: the first position whose key is at or above `k`, or the length
/// when every key lies below `k`. Equal keys are placed before existing
/// equals.
pub open spec fn spec_insert_pos<KeyType: DbColumn>(
    entries: Seq<KeyEntry<KeyType>>,
    k: int,
) -> int
    decreases entries.len(),
{
    if entries.len() == 0 {
        0
    } else if k <= entries[0].key.key_view() {
        0
    } else {
        1 + spec_insert_pos(entries.drop_first(), k)
    }
}

/// The entry that a page of the given leafness stores when `e` is appended:
/// the in-child slot index is kept (or zero when absent) on leaves and
/// dropped on interior nodes.
pub open spec fn spec_stored_entry<KeyType: DbColumn>(
    e: KeyEntry<KeyType>,
    leaf: bool,
) -> KeyEntry<KeyType> {
    KeyEntry {
        key: e.key,
        page_id: e.page_id,
        slot_index: if leaf {
            Some(
                match e.slot_index {
                    Some(si) => si,
                    None => 0u16,
                },
            )
        } else {
            None
        },
    }
}

/// Any position with the first-at-or-above property is the insertion
/// position.
pub proof fn lemma_insert_pos_unique<KeyType: DbColumn>(
    entries: Seq<KeyEntry<KeyType>>,
    k: int,
    p: int,
)
    requires
        0 <= p <= entries.len(),
        forall|j: int| 0 <= j < p ==> (#[trigger] entries[j]).key.key_view() < k,
        p < entries.len() ==> k <= entries[p].key.key_view(),
    ensures
        spec_insert_pos(entries, k) == p,
    decreases entries.len(),
{
    if entries.len() == 0 {
    } else if k <= entries[0].key.key_view() {
        assert(p == 0) by {
            if p > 0 {
                assert(entries[0].key.key_view() < k);
            }
        }
    } else {
        assert(p >= 1) by {
            if p == 0 {
                assert(k <= entries[0].key.key_view());
            }
        }
        assert forall|j: int| 0 <= j < p - 1 implies (
        #[trigger] entries.drop_first()[j]).key.key_view() < k by {
            assert(entries.drop_first()[j] == entries[j + 1]);
        }
        if p - 1 < entries.drop_first().len() {
            assert(entries.drop_first()[p - 1] == entries[p]);
        }
        lemma_insert_pos_unique(entries.drop_first(), k, p - 1);
    }
}

/// Two equal-length byte sequences that agree on a record's span and on the
/// type tag decode the same entry at that span.
pub proof fn lemma_entry_at_stable<KeyType: DbColumn>(s1: Seq<u8>, s2: Seq<u8>, off: int)
    requires
        s1.len() == s2.len(),
        0 <= off,
        off + TUPLE_HEADER_SIZE + KeyType::spec_len() <= s1.len(),
        forall|j: int| off <= j < off + TUPLE_HEADER_SIZE + KeyType::spec_len() ==> s1[j] == s2[j],
        s1[PAGE_TYPE_START as int] == s2[PAGE_TYPE_START as int],
    ensures
        spec_entry_at::<KeyType>(s1, off) == spec_entry_at::<KeyType>(s2, off),
        spec_key_at::<KeyType>(s1, off) == spec_key_at::<KeyType>(s2, off),
{
    assert(s1.subrange(off + 10, off + 10 + KeyType::spec_len()) =~= s2.subrange(
        off + 10,
        off + 10 + KeyType::spec_len(),
    ));
}

/// Law: every initialized (well-formed) page carries the magic number at
/// byte zero and one of the three defined type tags.
pub proof fn lemma_initialized_page_header<KeyType: DbColumn>(s: Seq<u8>)
    requires
        index_wf::<KeyType>(s),
    ensures
        spec_read_u32(s, 0) == PAGE_MAGIC_NUMBER,
        crate::page::spec_valid_page_type_tag(s[PAGE_TYPE_START as int]),
{
}

/// Law: on a well-formed slotted page, the keys read through in-order
/// iteration form a non-decreasing sequence.
pub proof fn lemma_entries_sorted<KeyType: DbColumn>(s: Seq<u8>, i: int, j: int)
    requires
        index_wf::<KeyType>(s),
        0 <= i <= j < spec_entries::<KeyType>(s).len(),
    ensures
        spec_entries::<KeyType>(s)[i].key.key_view() <= spec_entries::<KeyType>(
            s,
        )[j].key.key_view(),
{
    assert(spec_entry_key::<KeyType>(s, i) <= spec_entry_key::<KeyType>(s, j));
}

impl<KeyType: DbColumn> IndexPageMut<KeyType> {
    /// Whether the owned page is a well-formed index page.
    pub open spec fn wf(&self) -> bool {
        index_wf::<KeyType>(self.inner_page.data@)
    }

    /// Writes a fresh page header and an empty slot header onto `page`,
    /// marking it dirty, and returns the exclusive index view over it.
    pub fn init_page(page_type: PageType, parent_page_id: PageId, page: Page) -> (r: Self)
        requires
            32 <= page.data.len() <= 65536,
            page_type == PageType::IndexNode || page_type == PageType::IndexLeaf,
        ensures
            r.wf(),
            spec_n_slots(r.inner_page.data@) == 0,
            spec_fragmented_slots(r.inner_page.data@) == 0,
            spec_next_empty_offset(r.inner_page.data@) == page.data@.len() - 1,
            spec_entries::<KeyType>(r.inner_page.data@) =~= Seq::<KeyEntry<KeyType>>::empty(),
            spec_read_header(r.inner_page.data@) == Ok::<PageHeader, StorageError>(
                PageHeader {
                    magic_number: PAGE_MAGIC_NUMBER,
                    page_type: page_type,
                    log_sequence_number: 0,
                    parent_page_id: parent_page_id,
                    page_id: page.page_id,
                },
            ),
            r.inner_page.is_dirty,
            r.inner_page.page_id == page.page_id,
            r.inner_page.data@.len() == page.data@.len(),
    {
        let mut page = page;
        let page_size = page.page_size();

        let header = PageHeader {
            magic_number: PAGE_MAGIC_NUMBER,
            page_type,
            log_sequence_number: 0,
            parent_page_id,
            page_id: page.page_id,
        };
        page.write_header(header);

        let mut node_page = IndexPageMut { inner_page: page, phantom: PhantomData };

        let slots_header = SlotHeader {
            occupied_slots: 0,
            fragmented_slots: 0,
            next_empty_offset: (page_size - 1) as u16,
        };
        node_page.write_slots_header(&slots_header);

        node_page
    }

    /// A read-only view borrowing the owned page.
    pub fn as_read_only<'b>(&'b self) -> (r: IndexPage<'b, KeyType>)
        ensures
            *r.inner_page == self.inner_page,
    {
        IndexPage { inner_page: &self.inner_page, phantom: PhantomData }
    }

    pub fn inner_page(&self) -> (r: &Page)
        ensures
            *r == self.inner_page,
    {
        &self.inner_page
    }

    /// The number of occupied slots.
    pub fn read_n_slots(&self) -> (r: u16)
        requires
            SLOTS_START <= self.inner_page.data.len(),
        ensures
            r == spec_n_slots(self.inner_page.data@),
    {
        self.as_read_only().read_n_slots()
    }

    /// The number of fragmented slots.
    pub fn read_fragmented_slots(&self) -> (r: u16)
        requires
            SLOTS_START <= self.inner_page.data.len(),
        ensures
            r == spec_fragmented_slots(self.inner_page.data@),
    {
        self.as_read_only().read_fragmented_slots()
    }

    /// The highest byte offset not yet used by the record heap.
    pub fn read_next_empty_offset(&self) -> (r: u16)
        requires
            SLOTS_START <= self.inner_page.data.len(),
        ensures
            r == spec_next_empty_offset(self.inner_page.data@),
    {
        self.as_read_only().read_next_empty_offset()
    }

    /// The whole slot header.
    pub fn read_slots_header(&self) -> (r: SlotHeader)
        requires
            SLOTS_START <= self.inner_page.data.len(),
        ensures
            r.occupied_slots == spec_n_slots(self.inner_page.data@),
            r.fragmented_slots == spec_fragmented_slots(self.inner_page.data@),
            r.next_empty_offset == spec_next_empty_offset(self.inner_page.data@),
    {
        self.as_read_only().read_slots_header()
    }

    /// One past the last byte of the slot directory.
    pub fn slots_end(&self) -> (r: usize)
        requires
            self.wf(),
        ensures
            r == spec_slots_end(self.inner_page.data@),
    {
        self.as_read_only().slots_end()
    }

    /// Decodes the key entry at occupied directory position `slot_index`.
    pub fn read_key_node(&self, slot_index: SlotIndex) -> (r: KeyEntry<KeyType>)
        requires
            self.wf(),
            slot_index < spec_n_slots(self.inner_page.data@),
        ensures
            r == spec_entries::<KeyType>(self.inner_page.data@)[slot_index as int],
    {
        self.as_read_only().read_key_node(slot_index)
    }

    /// Writes the three slot-header fields, leaving every other byte of the
    /// page unchanged.
    pub fn write_slots_header(&mut self, slots_header: &SlotHeader)
        requires
            SLOTS_START <= old(self).inner_page.data.len(),
        ensures
            final(self).inner_page.data@.len() == old(self).inner_page.data@.len(),
            spec_n_slots(final(self).inner_page.data@) == slots_header.occupied_slots,
            spec_fragmented_slots(final(self).inner_page.data@) == slots_header.fragmented_slots,
            spec_next_empty_offset(final(self).inner_page.data@)
                == slots_header.next_empty_offset,
            forall|j: int|
                0 <= j < old(self).inner_page.data@.len() && !(SLOTS_HEADER_START <= j
                    < SLOTS_START) ==> final(self).inner_page.data@[j] == old(
                    self,
                ).inner_page.data@[j],
            final(self).inner_page.is_dirty == old(self).inner_page.is_dirty,
            final(self).inner_page.page_id == old(self).inner_page.page_id,
    {
        write_u16(
            &mut self.inner_page.data,
            SLOTS_OCCUPIED_SLOTS_START,
            slots_header.occupied_slots,
        );
        write_u16(
            &mut self.inner_page.data,
            SLOTS_FRAGMENTED_SLOTS_START,
            slots_header.fragmented_slots,
        );
        write_u16(
            &mut self.inner_page.data,
            SLOTS_NEXT_EMPTY_OFFSET_START,
            slots_header.next_empty_offset,
        );
    }

    /// Encodes one record at `offset`: child page id, in-child slot index
    /// (zero when absent), then the key bytes.
    fn write_entry(&mut self, new_entry: KeyEntry<KeyType>, offset: usize)
        requires
            offset + TUPLE_HEADER_SIZE + KeyType::spec_len() <= old(self).inner_page.data.len(),
        ensures
            final(self).inner_page.data@.len() == old(self).inner_page.data@.len(),
            forall|j: int|
                0 <= j < old(self).inner_page.data@.len() && !(offset <= j < offset
                    + TUPLE_HEADER_SIZE + KeyType::spec_len()) ==> final(self).inner_page.data@[j]
                    == old(self).inner_page.data@[j],
            spec_read_u64(final(self).inner_page.data@, offset as int) == new_entry.page_id,
            spec_read_u16(final(self).inner_page.data@, offset + 8) == (match new_entry.slot_index {
                Some(si) => si,
                None => 0u16,
            }),
            spec_key_at::<KeyType>(final(self).inner_page.data@, offset as int) == new_entry.key,
            final(self).inner_page.is_dirty == old(self).inner_page.is_dirty,
            final(self).inner_page.page_id == old(self).inner_page.page_id,
    {
        let mut cursor = offset;
        cursor = write_u64(&mut self.inner_page.data, cursor, new_entry.page_id);

        let slot_index_in_child: SlotIndex = match new_entry.slot_index {
            Some(si) => si,
            None => 0,
        };
        cursor = write_u16(&mut self.inner_page.data, cursor, slot_index_in_child);

        let bytes = new_entry.key.to_bytes();
        write_bytes(&mut self.inner_page.data, cursor, &bytes);

        proof {
            assert(final(self).inner_page.data@.subrange(
                offset + 10,
                offset + 10 + KeyType::spec_len(),
            ) =~= bytes@);
        }
    }
}


impl<KeyType: DbColumn> IndexPageMut<KeyType> {
    /// Atomic rewrite of the slot header and slot directory; used for
    /// insertion and compaction. The caller supplies offsets that describe a
    /// well-formed configuration of the current record bytes, and the page
    /// is well-formed again on return.
    pub fn update_slots(
        &mut self,
        slots: Vec<usize>,
        slots_fragmented: Vec<usize>,
        next_empty_offset: usize,
    )
        requires
            ({
                let s = old(self).inner_page.data@;
                &&& 32 <= s.len() <= 65536
                &&& spec_read_u32(s, 0) == PAGE_MAGIC_NUMBER
                &&& crate::page::spec_valid_page_type_tag(s[PAGE_TYPE_START as int])
                &&& SLOTS_START + 2 * (slots@.len() + slots_fragmented@.len())
                    <= next_empty_offset + 1 <= s.len()
                &&& forall|i: int|
                    0 <= i < slots@.len() ==> next_empty_offset < #[trigger] slots@[i]
                        && slots@[i] + TUPLE_HEADER_SIZE + KeyType::spec_len() <= s.len()
                &&& forall|i: int|
                    0 <= i < slots_fragmented@.len() ==> #[trigger] slots_fragmented@[i] < s.len()
                &&& forall|i: int, j: int|
                    #![trigger slots@[i], slots@[j]]
                    0 <= i < j < slots@.len() ==> slots@[i] + TUPLE_HEADER_SIZE
                        + KeyType::spec_len() <= slots@[j] || slots@[j] + TUPLE_HEADER_SIZE
                        + KeyType::spec_len() <= slots@[i]
                &&& forall|i: int, j: int|
                    #![trigger slots@[i], slots@[j]]
                    0 <= i <= j < slots@.len() ==> spec_key_at::<KeyType>(
                        s,
                        slots@[i] as int,
                    ).key_view() <= spec_key_at::<KeyType>(s, slots@[j] as int).key_view()
            }),
        ensures
            ({
                let s = old(self).inner_page.data@;
                let t = final(self).inner_page.data@;
                &&& t.len() == s.len()
                &&& index_wf::<KeyType>(t)
                &&& spec_n_slots(t) == slots@.len()
                &&& spec_fragmented_slots(t) == slots_fragmented@.len()
                &&& spec_next_empty_offset(t) == next_empty_offset
                &&& forall|i: int|
                    0 <= i < slots@.len() ==> #[trigger] spec_entry_offset(t, i) == slots@[i]
                &&& forall|i: int|
                    0 <= i < slots_fragmented@.len() ==> #[trigger] spec_fragmented_offset(t, i)
                        == slots_fragmented@[i]
                &&& spec_entries::<KeyType>(t) =~= Seq::new(
                    slots@.len(),
                    |i: int| spec_entry_at::<KeyType>(s, slots@[i] as int),
                )
                &&& forall|j: int| 0 <= j < HEADER_SIZE ==> t[j] == s[j]
                &&& forall|j: int|
                    SLOTS_START + 2 * (slots@.len() + slots_fragmented@.len()) <= j < s.len()
                        ==> t[j] == s[j]
                &&& final(self).inner_page.is_dirty
                &&& final(self).inner_page.page_id == old(self).inner_page.page_id
            }),
    {
        let ghost s = old(self).inner_page.data@;

        self.inner_page.is_dirty = true;

        let n = slots.len();
        let m = slots_fragmented.len();
        proof {
            assert(2 * (n + m) <= next_empty_offset + 1 - SLOTS_START);
        }

        let header = SlotHeader {
            occupied_slots: n as u16,
            fragmented_slots: m as u16,
            next_empty_offset: next_empty_offset as u16,
        };
        self.write_slots_header(&header);

        let mut i: usize = 0;
        while i < n
            invariant
                i <= n,
                n == slots@.len(),
                m == slots_fragmented@.len(),
                self.inner_page.data@.len() == s.len(),
                32 <= s.len() <= 65536,
                SLOTS_START + 2 * (n + m) <= next_empty_offset + 1 <= s.len(),
                forall|k: int|
                    0 <= k < n ==> next_empty_offset < #[trigger] slots@[k] && slots@[k]
                        + TUPLE_HEADER_SIZE + KeyType::spec_len() <= s.len(),
                spec_n_slots(self.inner_page.data@) == n,
                spec_fragmented_slots(self.inner_page.data@) == m,
                spec_next_empty_offset(self.inner_page.data@) == next_empty_offset,
                forall|k: int|
                    0 <= k < i ==> #[trigger] spec_entry_offset(self.inner_page.data@, k)
                        == slots@[k],
                forall|j: int| 0 <= j < HEADER_SIZE ==> self.inner_page.data@[j] == s[j],
                forall|j: int|
                    SLOTS_START + 2 * i <= j < s.len() ==> self.inner_page.data@[j] == s[j],
                self.inner_page.is_dirty,
                self.inner_page.page_id == old(self).inner_page.page_id,
            decreases n - i,
        {
            let off = slots[i];
            let ghost c_pre = self.inner_page.data@;
            write_u16(&mut self.inner_page.data, SLOTS_START + 2 * i, off as u16);
            proof {
                assert forall|k: int| 0 <= k < i + 1 implies #[trigger] spec_entry_offset(
                    self.inner_page.data@,
                    k,
                ) == slots@[k] by {
                    if k < i {
                        assert(spec_entry_offset(c_pre, k) == slots@[k]);
                        assert(self.inner_page.data@[SLOTS_START + 2 * k] == c_pre[SLOTS_START + 2
                            * k]);
                        assert(self.inner_page.data@[SLOTS_START + 2 * k + 1] == c_pre[SLOTS_START
                            + 2 * k + 1]);
                    }
                }
            }
            i = i + 1;
        }

        let mut i: usize = 0;
        while i < m
            invariant
                i <= m,
                n == slots@.len(),
                m == slots_fragmented@.len(),
                self.inner_page.data@.len() == s.len(),
                32 <= s.len() <= 65536,
                SLOTS_START + 2 * (n + m) <= next_empty_offset + 1 <= s.len(),
                forall|k: int| 0 <= k < m ==> #[trigger] slots_fragmented@[k] < s.len(),
                spec_n_slots(self.inner_page.data@) == n,
                spec_fragmented_slots(self.inner_page.data@) == m,
                spec_next_empty_offset(self.inner_page.data@) == next_empty_offset,
                forall|k: int|
                    0 <= k < n ==> #[trigger] spec_entry_offset(self.inner_page.data@, k)
                        == slots@[k],
                forall|k: int|
                    0 <= k < i ==> #[trigger] spec_fragmented_offset(self.inner_page.data@, k)
                        == slots_fragmented@[k],
                forall|j: int| 0 <= j < HEADER_SIZE ==> self.inner_page.data@[j] == s[j],
                forall|j: int|
                    SLOTS_START + 2 * (n + i) <= j < s.len() ==> self.inner_page.data@[j] == s[j],
                self.inner_page.is_dirty,
                self.inner_page.page_id == old(self).inner_page.page_id,
            decreases m - i,
        {
            let off = slots_fragmented[i];
            let ghost c_pre = self.inner_page.data@;
            write_u16(&mut self.inner_page.data, SLOTS_START + 2 * (n + i), off as u16);
            proof {
                assert forall|k: int| 0 <= k < n implies #[trigger] spec_entry_offset(
                    self.inner_page.data@,
                    k,
                ) == slots@[k] by {
                    assert(spec_entry_offset(c_pre, k) == slots@[k]);
                    assert(self.inner_page.data@[SLOTS_START + 2 * k] == c_pre[SLOTS_START + 2
                        * k]);
                    assert(self.inner_page.data@[SLOTS_START + 2 * k + 1] == c_pre[SLOTS_START + 2
                        * k + 1]);
                }
                assert forall|k: int| 0 <= k < i + 1 implies #[trigger] spec_fragmented_offset(
                    self.inner_page.data@,
                    k,
                ) == slots_fragmented@[k] by {
                    if k < i {
                        assert(spec_fragmented_offset(c_pre, k) == slots_fragmented@[k]);
                        assert(self.inner_page.data@[SLOTS_START + 2 * (n + k)] == c_pre[
                            SLOTS_START + 2 * (n + k)]);
                        assert(self.inner_page.data@[SLOTS_START + 2 * (n + k) + 1] == c_pre[
                            SLOTS_START + 2 * (n + k) + 1]);
                    }
                }
            }
            i = i + 1;
        }

        proof {
            let t = self.inner_page.data@;
            assert forall|i: int| 0 <= i < slots@.len() implies spec_key_at::<KeyType>(
                t,
                #[trigger] slots@[i] as int,
            ) == spec_key_at::<KeyType>(s, slots@[i] as int) && spec_entry_at::<KeyType>(
                t,
                slots@[i] as int,
            ) == spec_entry_at::<KeyType>(s, slots@[i] as int) by {
                lemma_entry_at_stable::<KeyType>(t, s, slots@[i] as int);
            }
            assert forall|i: int, j: int|
                #![trigger spec_entry_key::<KeyType>(t, i), spec_entry_key::<KeyType>(t, j)]
                0 <= i <= j < spec_n_slots(t) implies spec_entry_key::<KeyType>(t, i)
                <= spec_entry_key::<KeyType>(t, j) by {
                assert(spec_entry_offset(t, i) == slots@[i]);
                assert(spec_entry_offset(t, j) == slots@[j]);
            }
            assert forall|i: int, j: int|
                #![trigger spec_entry_offset(t, i), spec_entry_offset(t, j)]
                0 <= i < j < spec_n_slots(t) implies spec_entry_offset(t, i) + TUPLE_HEADER_SIZE
                + KeyType::spec_len() <= spec_entry_offset(t, j) || spec_entry_offset(t, j)
                + TUPLE_HEADER_SIZE + KeyType::spec_len() <= spec_entry_offset(t, i) by {
                assert(spec_entry_offset(t, i) == slots@[i]);
                assert(spec_entry_offset(t, j) == slots@[j]);
            }
            assert(index_wf::<KeyType>(t));
        }
    }

    /// Inserts `offset_start` at `insert_index` of the occupied directory
    /// and lowers the heap boundary to just below the new record.
    fn insert_slot(&mut self, insert_index: usize, offset_start: usize)
        requires
            old(self).wf(),
            insert_index <= spec_n_slots(old(self).inner_page.data@),
            spec_slots_end(old(self).inner_page.data@) + 2 <= offset_start,
            offset_start + TUPLE_HEADER_SIZE + KeyType::spec_len() <= spec_next_empty_offset(
                old(self).inner_page.data@,
            ) + 1,
            forall|j: int|
                0 <= j < insert_index ==> #[trigger] spec_entry_key::<KeyType>(
                    old(self).inner_page.data@,
                    j,
                ) <= spec_key_at::<KeyType>(
                    old(self).inner_page.data@,
                    offset_start as int,
                ).key_view(),
            forall|j: int|
                insert_index <= j < spec_n_slots(old(self).inner_page.data@)
                    ==> spec_key_at::<KeyType>(
                    old(self).inner_page.data@,
                    offset_start as int,
                ).key_view() <= #[trigger] spec_entry_key::<KeyType>(
                    old(self).inner_page.data@,
                    j,
                ),
        ensures
            ({
                let s = old(self).inner_page.data@;
                let t = final(self).inner_page.data@;
                &&& t.len() == s.len()
                &&& index_wf::<KeyType>(t)
                &&& spec_n_slots(t) == spec_n_slots(s) + 1
                &&& spec_fragmented_slots(t) == spec_fragmented_slots(s)
                &&& spec_next_empty_offset(t) == offset_start - 1
                &&& spec_entries::<KeyType>(t) =~= spec_entries::<KeyType>(s).insert(
                    insert_index as int,
                    spec_entry_at::<KeyType>(s, offset_start as int),
                )
                &&& forall|i: int|
                    0 <= i < spec_fragmented_slots(s) ==> #[trigger] spec_fragmented_offset(t, i)
                        == spec_fragmented_offset(s, i)
                &&& forall|j: int|
                    0 <= j < s.len() && !(SLOTS_HEADER_START <= j < spec_slots_end(s) + 2)
                        ==> t[j] == s[j]
                &&& final(self).inner_page.is_dirty
                &&& final(self).inner_page.page_id == old(self).inner_page.page_id
            }),
    {
        let ghost s = old(self).inner_page.data@;
        let ghost n = spec_n_slots(s) as int;

        let ro = self.as_read_only();
        let mut slots = ro.get_occupied_slots();
        let slots_fragmented = ro.get_fragmented_slots();

        slots.insert(insert_index, offset_start);

        proof {
            assert forall|i: int, j: int|
                #![trigger slots@[i], slots@[j]]
                0 <= i <= j < slots@.len() implies spec_key_at::<KeyType>(
                    s,
                    slots@[i] as int,
                ).key_view() <= spec_key_at::<KeyType>(s, slots@[j] as int).key_view() by {
                let ii = insert_index as int;
                if i < ii {
                    assert(slots@[i] == spec_entry_offset(s, i));
                }
                if j < ii {
                    assert(slots@[j] == spec_entry_offset(s, j));
                }
                if i > ii {
                    assert(slots@[i] == spec_entry_offset(s, i - 1));
                }
                if j > ii {
                    assert(slots@[j] == spec_entry_offset(s, j - 1));
                }
                if i < ii && j < ii {
                    assert(spec_entry_key::<KeyType>(s, i) <= spec_entry_key::<KeyType>(s, j));
                } else if i < ii && j == ii {
                    assert(spec_entry_key::<KeyType>(s, i) <= spec_key_at::<KeyType>(
                        s,
                        offset_start as int,
                    ).key_view());
                } else if i < ii && j > ii {
                    assert(spec_entry_key::<KeyType>(s, i) <= spec_entry_key::<KeyType>(
                        s,
                        j - 1,
                    ));
                } else if i == ii && j == ii {
                } else if i == ii && j > ii {
                    assert(spec_key_at::<KeyType>(s, offset_start as int).key_view()
                        <= spec_entry_key::<KeyType>(s, j - 1));
                } else {
                    assert(spec_entry_key::<KeyType>(s, i - 1) <= spec_entry_key::<KeyType>(
                        s,
                        j - 1,
                    ));
                }
            }
        }

        self.update_slots(slots, slots_fragmented, offset_start - 1);

        proof {
            let t = final(self).inner_page.data@;
            assert(spec_entries::<KeyType>(t) =~= spec_entries::<KeyType>(s).insert(
                insert_index as int,
                spec_entry_at::<KeyType>(s, offset_start as int),
            ));
        }
    }
}


impl<KeyType: DbColumn> IndexPageMut<KeyType> {
    /// Sorted insert of one key entry. Finds the first slot whose key is at
    /// or above the new key, writes the record into the heap, and splices
    /// the record's offset into the directory at that position; equal keys
    /// land before existing equals. Fails with `PageFull`, leaving the page
    /// unchanged, exactly when heap and directory would collide.
    pub fn append_key(&mut self, new_entry: KeyEntry<KeyType>) -> (r: Result<(), StorageError>)
        requires
            old(self).wf(),
        ensures
            ({
                let s = old(self).inner_page.data@;
                let t = final(self).inner_page.data@;
                match r {
                    Ok(_) => {
                        &&& spec_slots_end(s) + TUPLE_HEADER_SIZE + KeyType::spec_len() + 2
                            <= spec_next_empty_offset(s)
                        &&& final(self).wf()
                        &&& t.len() == s.len()
                        &&& spec_n_slots(t) == spec_n_slots(s) + 1
                        &&& spec_fragmented_slots(t) == spec_fragmented_slots(s)
                        &&& spec_next_empty_offset(t) == spec_next_empty_offset(s) - (
                        TUPLE_HEADER_SIZE + KeyType::spec_len() + 1)
                        &&& spec_entries::<KeyType>(t) =~= spec_entries::<KeyType>(s).insert(
                            spec_insert_pos(spec_entries::<KeyType>(s), new_entry.key.key_view()),
                            spec_stored_entry(new_entry, spec_is_leaf(s)),
                        )
                        &&& final(self).inner_page.is_dirty
                        &&& final(self).inner_page.page_id == old(self).inner_page.page_id
                        &&& forall|j: int| 0 <= j < HEADER_SIZE ==> t[j] == s[j]
                        &&& forall|i: int|
                            0 <= i < spec_fragmented_slots(s)
                                ==> #[trigger] spec_fragmented_offset(t, i)
                                == spec_fragmented_offset(s, i)
                        &&& forall|j: int|
                            0 <= j < s.len() && !(SLOTS_HEADER_START <= j < spec_slots_end(s) + 2)
                                && !(spec_next_empty_offset(s) - (TUPLE_HEADER_SIZE
                                + KeyType::spec_len()) <= j < spec_next_empty_offset(s)) ==> t[j]
                                == s[j]
                    },
                    Err(e) => {
                        &&& e == StorageError::PageFull
                        &&& spec_next_empty_offset(s) < spec_slots_end(s) + TUPLE_HEADER_SIZE
                            + KeyType::spec_len() + 2
                        &&& *final(self) == *old(self)
                    },
                }
            }),
    {
        let ghost s = old(self).inner_page.data@;
        let ghost k = new_entry.key.key_view();
        let ghost entries = spec_entries::<KeyType>(s);

        let key_len = new_entry.key.len();
        let neo = self.read_next_empty_offset() as usize;
        let se = self.slots_end();

        if key_len > neo {
            return Err(StorageError::PageFull);
        }
        let entry_size = key_len + TUPLE_HEADER_SIZE;
        if entry_size > neo {
            return Err(StorageError::PageFull);
        }
        let offset_start = neo - entry_size;
        if offset_start < se + 2 {
            return Err(StorageError::PageFull);
        }

        let n_slots = self.read_n_slots();
        let mut insert_index: u16 = n_slots;
        let mut i: u16 = 0;
        while i < n_slots && insert_index == n_slots
            invariant
                self.wf(),
                *self == *old(self),
                s == old(self).inner_page.data@,
                k == new_entry.key.key_view(),
                n_slots == spec_n_slots(s),
                i <= n_slots,
                insert_index <= n_slots,
                insert_index == n_slots ==> forall|j: int|
                    0 <= j < i ==> #[trigger] spec_entry_key::<KeyType>(s, j) < k,
                insert_index < n_slots ==> {
                    &&& i == insert_index
                    &&& k <= spec_entry_key::<KeyType>(s, insert_index as int)
                    &&& forall|j: int|
                        0 <= j < insert_index ==> #[trigger] spec_entry_key::<KeyType>(s, j) < k
                },
            decreases n_slots - i + (if insert_index == n_slots { 1int } else { 0int }),
        {
            let entry = self.read_key_node(i);
            proof {
                assert(entry == spec_entries::<KeyType>(s)[i as int]);
                assert(entry.key.key_view() == spec_entry_key::<KeyType>(s, i as int));
            }
            if new_entry.key.le(&entry.key) {
                insert_index = i;
            } else {
                i = i + 1;
            }
        }

        proof {
            assert forall|j: int| 0 <= j < entries.len() implies (#[trigger] entries[
            j]).key.key_view() == spec_entry_key::<KeyType>(s, j) by {}
            lemma_insert_pos_unique::<KeyType>(entries, k, insert_index as int);
        }

        self.write_entry(new_entry, offset_start);

        let ghost t1 = self.inner_page.data@;
        proof {
            // The record landed in the free region, so the directory, the
            // slot header, the page header, and every live record read the
            // same as before.
            assert forall|idx: int| 0 <= idx < spec_n_slots(t1) implies #[trigger] spec_entry_offset(
                t1,
                idx,
            ) == spec_entry_offset(s, idx) && spec_entry_at::<KeyType>(
                t1,
                spec_entry_offset(t1, idx) as int,
            ) == spec_entry_at::<KeyType>(s, spec_entry_offset(s, idx) as int)
                && spec_entry_key::<KeyType>(t1, idx) == spec_entry_key::<KeyType>(s, idx) by {
                assert(spec_entry_offset(t1, idx) == spec_entry_offset(s, idx));
                lemma_entry_at_stable::<KeyType>(t1, s, spec_entry_offset(s, idx) as int);
            }
            assert forall|idx: int| 0 <= idx < spec_fragmented_slots(t1) implies
                #[trigger] spec_fragmented_offset(t1, idx) == spec_fragmented_offset(s, idx) by {}
            assert(index_wf::<KeyType>(t1));
            assert(spec_entries::<KeyType>(t1) =~= spec_entries::<KeyType>(s));
            assert(spec_key_at::<KeyType>(t1, offset_start as int).key_view() == k);
        }

        self.insert_slot(insert_index as usize, offset_start);

        proof {
            let t = final(self).inner_page.data@;
            assert(spec_entry_at::<KeyType>(t1, offset_start as int) == spec_stored_entry(
                new_entry,
                spec_is_leaf(s),
            ));
            assert(spec_entries::<KeyType>(t) =~= spec_entries::<KeyType>(s).insert(
                spec_insert_pos(entries, k),
                spec_stored_entry(new_entry, spec_is_leaf(s)),
            ));
        }

        Ok(())
    }

    /// The first entry in slot order whose key equals `key`, if any.
    pub fn find_entry(&self, key: &KeyType) -> (r: Option<KeyEntry<KeyType>>)
        requires
            self.wf(),
        ensures
            ({
                let entries = spec_entries::<KeyType>(self.inner_page.data@);
                match r {
                    Some(e) => exists|i: int|
                        0 <= i < entries.len() && e == entries[i] && (#[trigger] entries[
                        i]).key.key_view() == key.key_view() && (forall|j: int|
                            0 <= j < i ==> (#[trigger] entries[j]).key.key_view()
                                != key.key_view()),
                    None => forall|i: int|
                        0 <= i < entries.len() ==> (#[trigger] entries[i]).key.key_view()
                            != key.key_view(),
                }
            }),
    {
        let ghost entries = spec_entries::<KeyType>(self.inner_page.data@);
        let n_slots = self.read_n_slots();
        let mut i: u16 = 0;
        while i < n_slots
            invariant
                self.wf(),
                n_slots == spec_n_slots(self.inner_page.data@),
                entries == spec_entries::<KeyType>(self.inner_page.data@),
                i <= n_slots,
                forall|j: int|
                    0 <= j < i ==> (#[trigger] entries[j]).key.key_view() != key.key_view(),
            decreases n_slots - i,
        {
            let entry = self.read_key_node(i);
            if entry.key.le(key) && key.le(&entry.key) {
                return Some(entry);
            }
            i = i + 1;
        }
        None
    }

    /// An in-order iterator over the live key entries.
    pub fn iter<'b>(&'b self) -> (r: PageIterator<'b, KeyType>)
        requires
            self.wf(),
        ensures
            r.wf(),
            *r.index_node == self.inner_page,
            r.slot_index == 0,
    {
        PageIterator {
            index_node: &self.inner_page,
            n_slots: self.read_n_slots(),
            slot_index: 0,
            phantom: PhantomData,
        }
    }
}

impl<'a, KeyType: DbColumn> IndexPage<'a, KeyType> {
    /// An in-order iterator over the live key entries.
    pub fn iter(&self) -> (r: PageIterator<'a, KeyType>)
        requires
            self.wf(),
        ensures
            r.wf(),
            r.index_node == self.inner_page,
            r.slot_index == 0,
    {
        PageIterator {
            index_node: self.inner_page,
            n_slots: self.read_n_slots(),
            slot_index: 0,
            phantom: PhantomData,
        }
    }
}

/// A cursor over the live key entries of an index page, yielding them in
/// slot-directory order, which is key-ascending.
pub struct PageIterator<'a, KeyType: DbColumn> {
    pub index_node: &'a Page,
    pub n_slots: u16,
    pub slot_index: u16,
    pub phantom: PhantomData<KeyType>,
}

impl<'a, KeyType: DbColumn> PageIterator<'a, KeyType> {
    /// Whether this cursor ranges over a well-formed index page.
    pub open spec fn wf(&self) -> bool {
        index_wf::<KeyType>(self.index_node.data@) && self.n_slots == spec_n_slots(
            self.index_node.data@,
        )
    }

    /// The next entry in slot order, or `None` past the end.
    pub fn next(&mut self) -> (r: Option<KeyEntry<KeyType>>)
        requires
            old(self).wf(),
        ensures
            final(self).wf(),
            final(self).index_node == old(self).index_node,
            if old(self).slot_index < old(self).n_slots {
                r == Some(
                    spec_entries::<KeyType>(old(self).index_node.data@)[old(
                        self,
                    ).slot_index as int],
                ) && final(self).slot_index == old(self).slot_index + 1
            } else {
                r == None::<KeyEntry<KeyType>> && final(self).slot_index == old(self).slot_index
            },
    {
        if self.slot_index >= self.n_slots {
            None
        } else {
            let view = IndexPage::<KeyType>::read_existing_page(self.index_node);
            let entry = view.read_key_node(self.slot_index);
            self.slot_index = self.slot_index + 1;
            Some(entry)
        }
    }
}


/// Keys that are non-decreasing between neighbours are non-decreasing
/// between any two positions.
proof fn lemma_adjacent_sorted<KeyType: DbColumn>(s: Seq<u8>, i: int, j: int)
    requires
        0 <= i <= j < spec_n_slots(s),
        forall|k: int|
            0 <= k < spec_n_slots(s) - 1 ==> #[trigger] spec_entry_key::<KeyType>(s, k)
                <= spec_entry_key::<KeyType>(s, k + 1),
    ensures
        spec_entry_key::<KeyType>(s, i) <= spec_entry_key::<KeyType>(s, j),
    decreases j - i,
{
    if i < j {
        lemma_adjacent_sorted::<KeyType>(s, i, j - 1);
        assert(spec_entry_key::<KeyType>(s, j - 1) <= spec_entry_key::<KeyType>(s, j));
    }
}

impl<'a, KeyType: DbColumn> IndexPage<'a, KeyType> {
    /// Checks the page bytes against every slotted-page invariant; a page
    /// that fails any of them is corrupt. A page loaded from disk passes
    /// through this before its entries are read.
    pub fn validate(&self) -> (r: Result<(), StorageError>)
        ensures
            r is Ok <==> self.wf(),
            r is Err ==> r == Err::<(), StorageError>(StorageError::CorruptPage),
    {
        let ghost s = self.inner_page.data@;
        let len = self.inner_page.page_size();
        if len < 32 || len > 65536 {
            return Err(StorageError::CorruptPage);
        }
        if read_u32(&self.inner_page.data, 0) != PAGE_MAGIC_NUMBER {
            return Err(StorageError::CorruptPage);
        }
        let tag = self.inner_page.data[PAGE_TYPE_START];
        if !(tag == 1 || tag == 2 || tag == 3) {
            return Err(StorageError::CorruptPage);
        }

        let n = self.read_n_slots();
        let f = self.read_fragmented_slots();
        let neo = self.read_next_empty_offset() as usize;
        if SLOTS_START + 2 * (n as usize + f as usize) > neo + 1 || neo + 1 > len {
            return Err(StorageError::CorruptPage);
        }

        let key_len = KeyType::encoded_len();
        if key_len > len {
            // No record could fit; with occupied slots this page cannot be
            // well-formed, and without them the loop below never runs.
            if n > 0 {
                proof {
                    if index_wf::<KeyType>(s) {
                        assert(spec_entry_offset(s, 0) + TUPLE_HEADER_SIZE + KeyType::spec_len()
                            <= s.len());
                    }
                }
                return Err(StorageError::CorruptPage);
            }
        }

        let mut i: u16 = 0;
        while i < n
            invariant
                self.inner_page.data@ == s,
                32 <= len <= 65536,
                len == s.len(),
                n == spec_n_slots(s),
                neo == spec_next_empty_offset(s),
                key_len == KeyType::spec_len(),
                i <= n,
                f == spec_fragmented_slots(s),
                SLOTS_START + 2 * (n + f) <= neo + 1,
                neo + 1 <= len,
                n > 0 ==> key_len <= len,
                forall|k: int|
                    0 <= k < i ==> neo < #[trigger] spec_entry_offset(s, k)
                        && spec_entry_offset(s, k) + TUPLE_HEADER_SIZE + KeyType::spec_len()
                        <= len,
                forall|k: int|
                    0 <= k < i - 1 ==> #[trigger] spec_entry_key::<KeyType>(s, k)
                        <= spec_entry_key::<KeyType>(s, k + 1),
            decreases n - i,
        {
            let start = SLOTS_START + 2 * i as usize;
            let off = read_u16(&self.inner_page.data, start) as usize;
            if off <= neo || off + TUPLE_HEADER_SIZE > len || off + TUPLE_HEADER_SIZE > len
                - key_len {
                proof {
                    if index_wf::<KeyType>(s) {
                        assert(neo < spec_entry_offset(s, i as int) && spec_entry_offset(
                            s,
                            i as int,
                        ) + TUPLE_HEADER_SIZE + KeyType::spec_len() <= s.len());
                    }
                }
                return Err(StorageError::CorruptPage);
            }
            let key = KeyType::from_bytes(&self.inner_page.data, off + TUPLE_HEADER_SIZE);
            proof {
                assert(key == spec_key_at::<KeyType>(s, spec_entry_offset(s, i as int) as int));
            }
            if i > 0 {
                let prev_off = self.get_entry_offset_unchecked(i - 1);
                let prev = KeyType::from_bytes(&self.inner_page.data, prev_off
                    + TUPLE_HEADER_SIZE);
                if !prev.le(&key) {
                    proof {
                        assert(spec_entry_key::<KeyType>(s, i as int - 1)
                            > spec_entry_key::<KeyType>(s, i as int));
                    }
                    return Err(StorageError::CorruptPage);
                }
            }
            i = i + 1;
        }

        let mut a: u16 = 0;
        while a < n
            invariant
                self.inner_page.data@ == s,
                32 <= len <= 65536,
                len == s.len(),
                n == spec_n_slots(s),
                f == spec_fragmented_slots(s),
                SLOTS_START + 2 * (n + f) <= neo + 1,
                neo == spec_next_empty_offset(s),
                neo + 1 <= len,
                key_len == KeyType::spec_len(),
                n > 0 ==> key_len <= len,
                a <= n,
                forall|x: int, y: int|
                    #![trigger spec_entry_offset(s, x), spec_entry_offset(s, y)]
                    0 <= x < y < n && x < a ==> spec_entry_offset(s, x) + TUPLE_HEADER_SIZE
                        + KeyType::spec_len() <= spec_entry_offset(s, y) || spec_entry_offset(
                        s,
                        y,
                    ) + TUPLE_HEADER_SIZE + KeyType::spec_len() <= spec_entry_offset(s, x),
            decreases n - a,
        {
            let off_a = self.get_entry_offset_unchecked(a);
            let mut b: u16 = a + 1;
            while b < n
                invariant
                    self.inner_page.data@ == s,
                    32 <= len <= 65536,
                    len == s.len(),
                    n == spec_n_slots(s),
                    f == spec_fragmented_slots(s),
                    SLOTS_START + 2 * (n + f) <= neo + 1,
                    neo + 1 <= len,
                    key_len == KeyType::spec_len(),
                    n > 0 ==> key_len <= len,
                    a < n,
                    a < b,
                    b <= n,
                    off_a == spec_entry_offset(s, a as int),
                    forall|y: int|
                        a < y < b ==> spec_entry_offset(s, a as int) + TUPLE_HEADER_SIZE
                            + KeyType::spec_len() <= #[trigger] spec_entry_offset(s, y)
                            || spec_entry_offset(s, y) + TUPLE_HEADER_SIZE + KeyType::spec_len()
                            <= spec_entry_offset(s, a as int),
                decreases n - b,
            {
                let off_b = self.get_entry_offset_unchecked(b);
                if !(off_a + TUPLE_HEADER_SIZE + key_len <= off_b || off_b + TUPLE_HEADER_SIZE
                    + key_len <= off_a) {
                    proof {
                        if index_wf::<KeyType>(s) {
                            assert(spec_entry_offset(s, a as int) + TUPLE_HEADER_SIZE
                                + KeyType::spec_len() <= spec_entry_offset(s, b as int)
                                || spec_entry_offset(s, b as int) + TUPLE_HEADER_SIZE
                                + KeyType::spec_len() <= spec_entry_offset(s, a as int));
                        }
                    }
                    return Err(StorageError::CorruptPage);
                }
                b = b + 1;
            }
            proof {
                assert forall|x: int, y: int|
                    #![trigger spec_entry_offset(s, x), spec_entry_offset(s, y)]
                    0 <= x < y < n && x < a + 1 implies (spec_entry_offset(s, x)
                    + TUPLE_HEADER_SIZE + KeyType::spec_len() <= spec_entry_offset(s, y)
                    || spec_entry_offset(s, y) + TUPLE_HEADER_SIZE + KeyType::spec_len()
                    <= spec_entry_offset(s, x)) by {
                    if x == a as int {
                        assert((a as int) < y < n);
                    }
                }
            }
            a = a + 1;
        }

        let mut i: u16 = 0;
        while i < f
            invariant
                self.inner_page.data@ == s,
                32 <= len <= 65536,
                len == s.len(),
                n == spec_n_slots(s),
                f == spec_fragmented_slots(s),
                SLOTS_START + 2 * (n + f) <= neo + 1,
                neo == spec_next_empty_offset(s),
                neo + 1 <= len,
                i <= f,
                forall|x: int, y: int|
                    #![trigger spec_entry_offset(s, x), spec_entry_offset(s, y)]
                    0 <= x < y < n ==> spec_entry_offset(s, x) + TUPLE_HEADER_SIZE
                        + KeyType::spec_len() <= spec_entry_offset(s, y) || spec_entry_offset(
                        s,
                        y,
                    ) + TUPLE_HEADER_SIZE + KeyType::spec_len() <= spec_entry_offset(s, x),
                forall|k: int| 0 <= k < i ==> #[trigger] spec_fragmented_offset(s, k) < len,
            decreases f - i,
        {
            let start = SLOTS_START + 2 * (n as usize + i as usize);
            let off = read_u16(&self.inner_page.data, start) as usize;
            if off >= len {
                proof {
                    if index_wf::<KeyType>(s) {
                        assert(spec_fragmented_offset(s, i as int) < s.len());
                    }
                }
                return Err(StorageError::CorruptPage);
            }
            i = i + 1;
        }

        proof {
            assert forall|a: int, b: int|
                0 <= a <= b < spec_n_slots(s) implies #[trigger] spec_entry_key::<KeyType>(s, a)
                <= #[trigger] spec_entry_key::<KeyType>(s, b) by {
                lemma_adjacent_sorted::<KeyType>(s, a, b);
            }
            assert(index_wf::<KeyType>(s));
        }
        Ok(())
    }

    /// The record offset held at occupied directory position `slot_index`,
    /// read without assuming the page is well-formed.
    fn get_entry_offset_unchecked(&self, slot_index: SlotIndex) -> (r: usize)
        requires
            SLOTS_START + 2 * (slot_index + 1) <= self.inner_page.data.len(),
        ensures
            r == spec_entry_offset(self.inner_page.data@, slot_index as int),
    {
        let start = SLOTS_START + 2 * slot_index as usize;
        read_u16(&self.inner_page.data, start) as usize
    }
}

} // verus!
