//! The page frame: a fixed-size byte buffer with an on-page header, plus the
//! column contract that key types present to the slotted-page layer.

use vstd::prelude::*;

use crate::disk_btree::IndexPage;
use crate::errors::StorageError;
use crate::serialization_helpers::{
    read_u32, read_u64, spec_read_u32, spec_read_u64, write_u32, write_u64,
};

verus! {

broadcast use vstd::std_specs::vec::group_vec_axioms;

pub const PAGE_SIZE_BYTES: u16 = 1024;

pub const PAGE_MAGIC_NUMBER: u32 = 0xFBEA82B9;

pub type PageId = u64;

pub type SlotIndex = u16;

pub const MAGIC_NUMBER_START: usize = 0;

pub const PAGE_TYPE_START: usize = 4;

pub const LOG_SEQUENCE_NUMBER_START: usize = 5;

pub const PARENT_PAGE_ID_START: usize = 9;

pub const PAGE_ID_START: usize = 17;

pub const HEADER_SIZE: usize = 25;

pub const SLOTS_HEADER_START: usize = 25;

pub const SLOTS_OCCUPIED_SLOTS_START: usize = 25;

pub const SLOTS_FRAGMENTED_SLOTS_START: usize = 27;

pub const SLOTS_NEXT_EMPTY_OFFSET_START: usize = 29;

pub const SLOTS_HEADER_SIZE: usize = 6;

pub const SLOTS_START: usize = 31;

/// A fixed-size byte buffer, the unit of disk transfer and cache residency.
pub struct Page {
    pub data: Vec<u8>,
    pub is_dirty: bool,
    pub page_id: PageId,
}

/// The kind of content a page holds, as recorded in its type tag.
#[derive(Clone, Copy, Debug, PartialEq, Eq, Structural)]
pub enum PageType {
    IndexNode,
    IndexLeaf,
    DataPage,
}

/// The on-page tag byte that stands for `t`.
pub open spec fn spec_page_type_tag(t: PageType) -> u8 {
    match t {
        PageType::IndexNode => 1u8,
        PageType::IndexLeaf => 2u8,
        PageType::DataPage => 3u8,
    }
}

/// Whether `v` is one of the three defined type tags.
pub open spec fn spec_valid_page_type_tag(v: u8) -> bool {
    v == 1 || v == 2 || v == 3
}

/// The page type a valid tag byte stands for.
pub open spec fn spec_page_type_of_tag(v: u8) -> PageType {
    if v == 1 {
        PageType::IndexNode
    } else if v == 2 {
        PageType::IndexLeaf
    } else {
        PageType::DataPage
    }
}

/// The result of decoding the type tag of the page bytes `s`.
pub open spec fn spec_read_page_type(s: Seq<u8>) -> Result<PageType, StorageError> {
    if spec_valid_page_type_tag(s[PAGE_TYPE_START as int]) {
        Ok(spec_page_type_of_tag(s[PAGE_TYPE_START as int]))
    } else {
        Err(StorageError::CorruptPage)
    }
}

/// The result of decoding the whole page header from the page bytes `s`.
pub open spec fn spec_read_header(s: Seq<u8>) -> Result<PageHeader, StorageError> {
    match spec_read_page_type(s) {
        Ok(t) => Ok(
            PageHeader {
                magic_number: spec_read_u32(s, MAGIC_NUMBER_START as int),
                page_type: t,
                log_sequence_number: spec_read_u32(s, LOG_SEQUENCE_NUMBER_START as int),
                parent_page_id: spec_read_u64(s, PARENT_PAGE_ID_START as int),
                page_id: spec_read_u64(s, PAGE_ID_START as int),
            },
        ),
        Err(e) => Err(e),
    }
}

impl PageType {
    /// The tag byte written to disk for this page type.
    pub fn tag(&self) -> (r: u8)
        ensures
            r == spec_page_type_tag(*self),
    {
        match self {
            PageType::IndexNode => 1,
            PageType::IndexLeaf => 2,
            PageType::DataPage => 3,
        }
    }

    /// Decodes a tag byte; a tag outside the three defined values is a
    /// format-corruption error, never silently mapped.
    pub fn from_tag(value: u8) -> (r: Result<PageType, StorageError>)
        ensures
            r == (if spec_valid_page_type_tag(value) {
                Ok::<PageType, StorageError>(spec_page_type_of_tag(value))
            } else {
                Err::<PageType, StorageError>(StorageError::CorruptPage)
            }),
    {
        match value {
            1 => Ok(PageType::IndexNode),
            2 => Ok(PageType::IndexLeaf),
            3 => Ok(PageType::DataPage),
            _ => Err(StorageError::CorruptPage),
        }
    }
}

/// The slot-directory header that follows the page header on slotted pages.
#[derive(Clone, Copy, Debug, PartialEq, Eq, Structural)]
pub struct SlotHeader {
    pub occupied_slots: u16,
    pub fragmented_slots: u16,
    pub next_empty_offset: u16,
}

/// The decoded common page header.
#[derive(Clone, Copy, Debug, PartialEq, Eq, Structural)]
pub struct PageHeader {
    pub magic_number: u32,
    pub page_type: PageType,
    pub log_sequence_number: u32,
    pub parent_page_id: PageId,
    pub page_id: PageId,
}

impl Page {
    /// Decodes the page header; fails with `CorruptPage` on an unknown type
    /// tag.
    pub fn read_header(&self) -> (r: Result<PageHeader, StorageError>)
        requires
            HEADER_SIZE <= self.data.len(),
        ensures
            r == spec_read_header(self.data@),
    {
        match self.read_page_type() {
            Ok(t) => Ok(
                PageHeader {
                    magic_number: read_u32(&self.data, MAGIC_NUMBER_START),
                    page_type: t,
                    log_sequence_number: read_u32(&self.data, LOG_SEQUENCE_NUMBER_START),
                    parent_page_id: read_u64(&self.data, PARENT_PAGE_ID_START),
                    page_id: read_u64(&self.data, PAGE_ID_START),
                },
            ),
            Err(e) => Err(e),
        }
    }

    /// Encodes `header` at the head of the page, mirrors the page id into
    /// the frame, and marks the frame dirty. Reading the header back yields
    /// exactly `header`.
    pub fn write_header(&mut self, header: PageHeader)
        requires
            HEADER_SIZE <= old(self).data.len(),
        ensures
            final(self).data@.len() == old(self).data@.len(),
            final(self).is_dirty,
            final(self).page_id == header.page_id,
            spec_read_header(final(self).data@) == Ok::<PageHeader, StorageError>(header),
            forall|j: int|
                HEADER_SIZE <= j < old(self).data@.len() ==> final(self).data@[j] == old(
                    self,
                ).data@[j],
    {
        self.is_dirty = true;
        self.page_id = header.page_id;

        write_u32(&mut self.data, MAGIC_NUMBER_START, header.magic_number);
        let tag = header.page_type.tag();
        self.data[PAGE_TYPE_START] = tag;
        write_u32(&mut self.data, LOG_SEQUENCE_NUMBER_START, header.log_sequence_number);
        write_u64(&mut self.data, PARENT_PAGE_ID_START, header.parent_page_id);
        write_u64(&mut self.data, PAGE_ID_START, header.page_id);
        proof {
            assert(spec_page_type_of_tag(spec_page_type_tag(header.page_type))
                == header.page_type);
        }
    }

    /// The page id recorded in the on-page header.
    pub fn read_page_id(&self) -> (r: PageId)
        requires
            HEADER_SIZE <= self.data.len(),
        ensures
            r == spec_read_u64(self.data@, PAGE_ID_START as int),
    {
        read_u64(&self.data, PAGE_ID_START)
    }

    /// Decodes the type tag; fails with `CorruptPage` on an unknown value.
    pub fn read_page_type(&self) -> (r: Result<PageType, StorageError>)
        requires
            HEADER_SIZE <= self.data.len(),
        ensures
            r == spec_read_page_type(self.data@),
    {
        PageType::from_tag(self.data[PAGE_TYPE_START])
    }

    /// A read-only index view of this page; fails with `WrongPageType` when
    /// the page is not an index node or leaf, and with `CorruptPage` when
    /// the tag is not a defined value.
    pub fn as_index_node<'a, KeyType: DbColumn>(&'a self) -> (r: Result<
        IndexPage<'a, KeyType>,
        StorageError,
    >)
        requires
            HEADER_SIZE <= self.data.len(),
        ensures
            r is Ok <==> (self.data@[PAGE_TYPE_START as int] == 1 || self.data@[
                PAGE_TYPE_START as int
            ] == 2),
            match r {
                Ok(p) => {
                    let tag = self.data@[PAGE_TYPE_START as int];
                    (tag == 1 || tag == 2) && p.inner_page == self
                },
                Err(e) => {
                    &&& (e == StorageError::WrongPageType <==> self.data@[PAGE_TYPE_START as int]
                        == 3)
                    &&& (e == StorageError::CorruptPage <==> !spec_valid_page_type_tag(
                        self.data@[PAGE_TYPE_START as int],
                    ))
                },
            },
    {
        match self.read_page_type() {
            Ok(PageType::IndexNode) => Ok(IndexPage::read_existing_page(self)),
            Ok(PageType::IndexLeaf) => Ok(IndexPage::read_existing_page(self)),
            Ok(PageType::DataPage) => Err(StorageError::WrongPageType),
            Err(e) => Err(e),
        }
    }

    /// The size in bytes of the backing buffer.
    pub fn page_size(&self) -> (r: usize)
        ensures
            r == self.data@.len(),
    {
        self.data.len()
    }
}

/// The contract a key column type presents to the index layer: a fixed
/// encoded length, an encoding that decodes back to the same value, and a
/// total order given by an integer view.
pub trait DbColumn: Sized {
    /// The mathematical value this key stands for; keys are ordered by it.
    spec fn key_view(&self) -> int;

    /// The encoded length in bytes, a constant of the type.
    spec fn spec_len() -> nat;

    /// The value that `spec_len()` bytes decode to.
    spec fn decode_spec(s: Seq<u8>) -> Self;

    /// Decodes the key held at `start` in `bytes`.
    fn from_bytes(bytes: &Vec<u8>, start: usize) -> (r: Self)
        requires
            start + Self::spec_len() <= bytes.len(),
        ensures
            r == Self::decode_spec(
                bytes@.subrange(start as int, start + Self::spec_len()),
            ),
    ;

    /// Encodes the key; the encoding decodes back to the key itself.
    fn to_bytes(&self) -> (r: Vec<u8>)
        ensures
            r@.len() == Self::spec_len(),
            Self::decode_spec(r@) == *self,
    ;

    /// The encoded length in bytes.
    fn len(&self) -> (r: usize)
        ensures
            r == Self::spec_len(),
    ;

    /// The encoded length in bytes, without needing a value in hand.
    fn encoded_len() -> (r: usize)
        ensures
            r == Self::spec_len(),
    ;

    /// Whether `self` orders at or before `other`.
    fn le(&self, other: &Self) -> (r: bool)
        ensures
            r == (self.key_view() <= other.key_view()),
    ;
}

impl DbColumn for u64 {
    open spec fn key_view(&self) -> int {
        *self as int
    }

    open spec fn spec_len() -> nat {
        8
    }

    open spec fn decode_spec(s: Seq<u8>) -> u64 {
        spec_read_u64(s, 0)
    }

    fn from_bytes(bytes: &Vec<u8>, start: usize) -> (r: u64) {
        let r = read_u64(bytes, start);
        proof {
            assert(spec_read_u64(bytes@.subrange(start as int, start as int + 8), 0)
                == spec_read_u64(bytes@, start as int));
        }
        r
    }

    fn to_bytes(&self) -> (r: Vec<u8>) {
        let mut v: Vec<u8> = vec![0u8; 8];
        crate::serialization_helpers::write_u64(&mut v, 0, *self);
        v
    }

    fn len(&self) -> (r: usize) {
        8
    }

    fn encoded_len() -> (r: usize) {
        8
    }

    fn le(&self, other: &Self) -> (r: bool) {
        *self <= *other
    }
}

} // verus!
