use core::marker::PhantomData;

use paged_store::disk_btree::{IndexPageMut, KeyEntry};
use paged_store::errors::StorageError;
use paged_store::page::{Page, PageType, SlotHeader};

fn blank_page(page_id: u64) -> Page {
    Page { data: vec![0; 1024], page_id, is_dirty: false }
}

#[test]
pub fn read_write_slots_header() {
    let page = blank_page(0);

    let mut index_page = IndexPageMut::<u64> { inner_page: page, phantom: PhantomData };

    let slots_header = SlotHeader {
        occupied_slots: 0xFAFA,
        fragmented_slots: 0xAFAF,
        next_empty_offset: 0xEAFA,
    };

    index_page.write_slots_header(&slots_header);

    let header_read = index_page.read_slots_header();

    assert_eq!(slots_header.occupied_slots, header_read.occupied_slots);
    assert_eq!(slots_header.fragmented_slots, header_read.fragmented_slots);
    assert_eq!(slots_header.next_empty_offset, header_read.next_empty_offset);
}

#[test]
pub fn init_index_page() {
    let page = blank_page(0);
    let index_page = IndexPageMut::<u64>::init_page(PageType::IndexNode, 123, page);

    let slots_header = index_page.read_slots_header();

    assert_eq!(0, slots_header.occupied_slots);
    assert_eq!(0, slots_header.fragmented_slots);
    assert_eq!(1023, slots_header.next_empty_offset);

    let header = index_page.inner_page.read_header().unwrap();
    assert_eq!(PageType::IndexNode, header.page_type);
    assert_eq!(index_page.inner_page.page_id, header.page_id);
    assert_eq!(123, header.parent_page_id);
    assert!(index_page.inner_page.is_dirty);
}

#[test]
pub fn add_key() {
    let page = blank_page(0);

    let mut index_page = IndexPageMut::<u64>::init_page(PageType::IndexNode, 123, page);

    index_page
        .append_key(KeyEntry { key: 23, page_id: 345, slot_index: Some(289) })
        .unwrap();

    assert!(index_page.inner_page.is_dirty);

    let slots_header = index_page.read_slots_header();
    assert_eq!(0, slots_header.fragmented_slots);
    assert_eq!(1, slots_header.occupied_slots);

    let entry = index_page.find_entry(&23).expect("Key not found");
    assert_eq!(23, entry.key);
    assert_eq!(345, entry.page_id);
    assert_eq!(None, entry.slot_index);
}

#[test]
pub fn add_key_reverse_insertion_order() {
    let page = blank_page(0);

    let mut index_page = IndexPageMut::<u64>::init_page(PageType::IndexNode, 123, page);

    index_page.append_key(KeyEntry { key: 3, page_id: 14, slot_index: None }).unwrap();
    index_page.append_key(KeyEntry { key: 2, page_id: 15, slot_index: None }).unwrap();
    index_page.append_key(KeyEntry { key: 1, page_id: 16, slot_index: None }).unwrap();

    let mut iterator = index_page.iter();
    let entry1 = iterator.next().expect("Expected key");
    assert_eq!(1, entry1.key);
    assert_eq!(16, entry1.page_id);

    let entry2 = iterator.next().expect("Expected key");
    assert_eq!(2, entry2.key);
    assert_eq!(15, entry2.page_id);

    let entry3 = iterator.next().expect("Expected key");
    assert_eq!(3, entry3.key);
    assert_eq!(14, entry3.page_id);
}

#[test]
pub fn add_key_insertion_order() {
    let page = blank_page(0);

    let mut index_page = IndexPageMut::<u64>::init_page(PageType::IndexNode, 123, page);

    index_page.append_key(KeyEntry { key: 1, page_id: 14, slot_index: None }).unwrap();
    index_page.append_key(KeyEntry { key: 2, page_id: 15, slot_index: None }).unwrap();
    index_page.append_key(KeyEntry { key: 3, page_id: 16, slot_index: None }).unwrap();

    let mut iterator = index_page.iter();
    let entry1 = iterator.next().expect("Expected key");
    assert_eq!(1, entry1.key);
    assert_eq!(14, entry1.page_id);

    let entry2 = iterator.next().expect("Expected key");
    assert_eq!(2, entry2.key);
    assert_eq!(15, entry2.page_id);

    let entry3 = iterator.next().expect("Expected key");
    assert_eq!(3, entry3.key);
    assert_eq!(16, entry3.page_id);
}

#[test]
fn append_key_updates_slot_header_and_heap_boundary() {
    let page = blank_page(0);
    let mut index_page = IndexPageMut::<u64>::init_page(PageType::IndexNode, 0, page);

    let before = index_page.read_slots_header();
    index_page.append_key(KeyEntry { key: 7, page_id: 9, slot_index: None }).unwrap();
    let after = index_page.read_slots_header();

    // One more occupied slot; the heap boundary moved down past the
    // 18-byte record (8-byte key + 10-byte record prefix) to just below it.
    assert_eq!(before.occupied_slots + 1, after.occupied_slots);
    assert_eq!(before.fragmented_slots, after.fragmented_slots);
    assert_eq!(before.next_empty_offset - 19, after.next_empty_offset);

    let mut iterator = index_page.iter();
    let only = iterator.next().expect("Expected key");
    assert_eq!(7, only.key);
    assert!(iterator.next().is_none());
}

#[test]
fn append_key_page_full_leaves_page_unchanged() {
    // A 40-byte page: the slot directory ends at 31 and the heap boundary
    // starts at 39, so not even one 18-byte record fits.
    let page = Page { data: vec![0; 40], page_id: 5, is_dirty: false };
    let mut index_page = IndexPageMut::<u64>::init_page(PageType::IndexNode, 0, page);

    let before = index_page.read_slots_header();
    let result = index_page.append_key(KeyEntry { key: 1, page_id: 2, slot_index: None });
    assert_eq!(Err(StorageError::PageFull), result);

    let after = index_page.read_slots_header();
    assert_eq!(before, after);
}

#[test]
fn leaf_pages_keep_the_child_slot_index() {
    let page = blank_page(0);
    let mut index_page = IndexPageMut::<u64>::init_page(PageType::IndexLeaf, 0, page);

    index_page.append_key(KeyEntry { key: 8, page_id: 77, slot_index: Some(3) }).unwrap();

    let entry = index_page.find_entry(&8).expect("Key not found");
    assert_eq!(Some(3), entry.slot_index);
    assert_eq!(77, entry.page_id);
}

#[test]
fn find_entry_misses_an_absent_key() {
    let page = blank_page(0);
    let mut index_page = IndexPageMut::<u64>::init_page(PageType::IndexNode, 0, page);
    index_page.append_key(KeyEntry { key: 4, page_id: 1, slot_index: None }).unwrap();

    assert!(index_page.find_entry(&5).is_none());
}

#[test]
fn equal_keys_insert_before_existing_equals() {
    let page = blank_page(0);
    let mut index_page = IndexPageMut::<u64>::init_page(PageType::IndexNode, 0, page);

    index_page.append_key(KeyEntry { key: 2, page_id: 10, slot_index: None }).unwrap();
    index_page.append_key(KeyEntry { key: 2, page_id: 11, slot_index: None }).unwrap();

    // The later duplicate lands at the front of the run of equals.
    let mut iterator = index_page.iter();
    assert_eq!(11, iterator.next().unwrap().page_id);
    assert_eq!(10, iterator.next().unwrap().page_id);
}

#[test]
fn validate_accepts_initialized_pages_and_rejects_corrupt_ones() {
    let page = blank_page(0);
    let mut index_page = IndexPageMut::<u64>::init_page(PageType::IndexNode, 0, page);
    index_page.append_key(KeyEntry { key: 6, page_id: 1, slot_index: None }).unwrap();

    assert_eq!(Ok(()), index_page.as_read_only().validate());

    // Break the magic number.
    let mut broken = index_page.inner_page;
    broken.data[0] = 0;
    assert_eq!(
        Err(StorageError::CorruptPage),
        broken.as_index_node::<u64>().unwrap().validate()
    );

    // A record offset pointing past the end of the page is corruption too.
    let mut page = blank_page(0);
    {
        let mut fixed = IndexPageMut::<u64>::init_page(PageType::IndexNode, 0, page);
        fixed.append_key(KeyEntry { key: 6, page_id: 1, slot_index: None }).unwrap();
        page = fixed.inner_page;
    }
    // The first slot offset lives right after the slot header.
    page.data[31] = 0xFF;
    page.data[32] = 0xFF;
    assert_eq!(
        Err(StorageError::CorruptPage),
        page.as_index_node::<u64>().unwrap().validate()
    );

    // Two slots pointing at overlapping records are corruption as well.
    let mut page = blank_page(0);
    {
        let mut fixed = IndexPageMut::<u64>::init_page(PageType::IndexNode, 0, page);
        fixed.append_key(KeyEntry { key: 6, page_id: 1, slot_index: None }).unwrap();
        fixed.append_key(KeyEntry { key: 6, page_id: 2, slot_index: None }).unwrap();
        page = fixed.inner_page;
    }
    let second = [page.data[33], page.data[34]];
    page.data[31] = second[0];
    page.data[32] = second[1];
    assert_eq!(
        Err(StorageError::CorruptPage),
        page.as_index_node::<u64>().unwrap().validate()
    );
}

#[test]
fn as_read_only_sees_the_same_slots() {
    let page = blank_page(0);
    let mut index_page = IndexPageMut::<u64>::init_page(PageType::IndexNode, 0, page);
    index_page.append_key(KeyEntry { key: 1, page_id: 2, slot_index: None }).unwrap();

    let read_only = index_page.as_read_only();
    assert_eq!(1, read_only.read_n_slots());
    let entry = read_only.read_key_node(0);
    assert_eq!(1, entry.key);
}
