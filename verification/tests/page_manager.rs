use std::collections::HashMap;

use paged_store::errors::StorageError;
use paged_store::page::Page;
use paged_store::page_manager::{FindPage, PageManager};

/// The tests stand in for the embedding program: they play the disk with an
/// in-memory map, persisting eviction victims and serving loads from it.
fn fetch(pool: &mut PageManager, disk: &mut HashMap<u64, Vec<u8>>, id: u64) {
    match pool.find_page(id).unwrap() {
        FindPage::Cached => {}
        FindPage::Missing => {
            let bytes = match disk.get(&id) {
                Some(b) => b.clone(),
                None => vec![0; 1024],
            };
            if let Some(ev) = pool.insert_page(id, bytes).unwrap() {
                disk.insert(ev.page_id, ev.data);
            }
        }
    }
}

fn take_free(pool: &mut PageManager, disk: &mut HashMap<u64, Vec<u8>>) -> u64 {
    let (id, victim) = pool.next_free_page().unwrap();
    if let Some(ev) = victim {
        disk.insert(ev.page_id, ev.data);
    }
    id
}

#[test]
pub fn allocate_empty_pages() {
    let mut manager = PageManager::new(50, "./test1");

    manager.add_empty_pages("empty.db", 100);

    assert_eq!(manager.num_cached_pages(), 50);
    assert_eq!(manager.num_tracked_pages(), 50);
    assert_eq!(manager.num_empty_pages(), 100);
}

#[test]
pub fn write_free_page_persisted() {
    let mut disk: HashMap<u64, Vec<u8>> = HashMap::new();
    let mut manager = PageManager::new(1, "./test2");
    manager.add_empty_pages("empty.db", 2);

    let page_id_1 = take_free(&mut manager, &mut disk);
    manager
        .update_page(page_id_1, Page { data: vec![88; 1024], is_dirty: true, page_id: page_id_1 })
        .unwrap();
    manager.unpin(page_id_1).unwrap();

    let page_id_2 = take_free(&mut manager, &mut disk);
    manager
        .update_page(page_id_2, Page { data: vec![77; 1024], is_dirty: true, page_id: page_id_2 })
        .unwrap();
    manager.unpin(page_id_2).unwrap();

    assert_eq!(manager.num_cached_pages(), 1);
    assert_eq!(manager.num_tracked_pages(), 1);

    fetch(&mut manager, &mut disk, page_id_1);
    {
        let page = manager.read_page(page_id_1).unwrap();
        assert_eq!(page.data.len(), 1024);
        for b in page.data.iter() {
            assert_eq!(*b, 88);
        }
    }
    manager.unpin(page_id_1).unwrap();

    assert_eq!(manager.num_cached_pages(), 1);
    assert_eq!(manager.num_tracked_pages(), 1);

    fetch(&mut manager, &mut disk, page_id_2);
    {
        let page = manager.read_page(page_id_2).unwrap();
        assert_eq!(page.data.len(), 1024);
        for b in page.data.iter() {
            assert_eq!(*b, 77);
        }
    }
    manager.unpin(page_id_2).unwrap();
}

#[test]
fn evict_lru_page() {
    let mut disk: HashMap<u64, Vec<u8>> = HashMap::new();
    let mut manager = PageManager::new(2, "./test2");
    manager.add_empty_pages("empty.db", 3);

    let page_id_1 = take_free(&mut manager, &mut disk);
    manager.unpin(page_id_1).unwrap();
    let page_id_2 = take_free(&mut manager, &mut disk);
    manager.unpin(page_id_2).unwrap();
    let page_id_3 = take_free(&mut manager, &mut disk);
    manager.unpin(page_id_3).unwrap();

    assert_eq!(manager.num_empty_pages(), 0);
    assert_eq!(manager.num_cached_pages(), 2);

    // Make pages 1 and 2 the most recently used, in that order.
    fetch(&mut manager, &mut disk, page_id_1);
    manager.unpin(page_id_1).unwrap();
    fetch(&mut manager, &mut disk, page_id_2);
    manager.unpin(page_id_2).unwrap();

    assert_eq!(Some(page_id_1), manager.peek_lru());

    fetch(&mut manager, &mut disk, page_id_3);
    manager.unpin(page_id_3).unwrap();

    assert_eq!(Some(page_id_2), manager.peek_lru());
}

#[test]
pub fn page_with_reference_is_not_evicted() {
    let mut disk: HashMap<u64, Vec<u8>> = HashMap::new();
    let mut manager = PageManager::new(2, "./test3");
    manager.add_empty_pages("empty.db", 3);

    let page_id_1 = take_free(&mut manager, &mut disk);
    manager.unpin(page_id_1).unwrap();
    let page_id_2 = take_free(&mut manager, &mut disk);
    manager.unpin(page_id_2).unwrap();
    let page_id_3 = take_free(&mut manager, &mut disk);
    manager.unpin(page_id_3).unwrap();

    // Hold on to page 1: it stays pinned through what follows.
    fetch(&mut manager, &mut disk, page_id_1);
    fetch(&mut manager, &mut disk, page_id_2);
    manager.unpin(page_id_2).unwrap();

    assert_eq!(Some(page_id_1), manager.peek_lru());

    fetch(&mut manager, &mut disk, page_id_3);
    manager.unpin(page_id_3).unwrap();

    // The eviction scan skipped the pinned page 1 and evicted page 2
    // instead; page 1 is still the eviction candidate by age.
    assert_eq!(Some(page_id_1), manager.peek_lru());
    assert_eq!(Some(1), manager.pin_count(page_id_1));
}

#[test]
fn next_free_page_runs_out() {
    let mut manager = PageManager::new(2, "./test4");
    assert!(matches!(manager.next_free_page(), Err(StorageError::NoFreePages)));
}

#[test]
fn a_fully_pinned_cache_rejects_new_pages() {
    let mut disk: HashMap<u64, Vec<u8>> = HashMap::new();
    let mut manager = PageManager::new(1, "./test5");
    manager.add_empty_pages("empty.db", 2);

    let _page_id_1 = take_free(&mut manager, &mut disk);
    // The only frame stays pinned, so the next free page cannot be staged.
    assert!(matches!(manager.next_free_page(), Err(StorageError::OutOfBufferSlots)));
}

#[test]
fn unknown_page_ids_are_rejected() {
    let mut manager = PageManager::new(2, "./test6");
    assert!(matches!(manager.find_page(9), Err(StorageError::UnknownPageId)));
    assert!(matches!(manager.read_page(9), Err(StorageError::UnknownPageId)));
    assert!(matches!(manager.unpin(9), Err(StorageError::UnknownPageId)));
    assert!(matches!(
        manager.insert_page(9, vec![0; 1024]),
        Err(StorageError::UnknownPageId)
    ));
    assert!(matches!(
        manager.update_page(9, Page { data: vec![0; 1024], is_dirty: false, page_id: 9 }),
        Err(StorageError::UnknownPageId)
    ));
}

#[test]
fn fresh_pages_are_zeroed_until_written() {
    let mut disk: HashMap<u64, Vec<u8>> = HashMap::new();
    let mut manager = PageManager::new(1, "./test7");
    manager.add_empty_pages("empty.db", 2);

    let page_id = take_free(&mut manager, &mut disk);
    let page = manager.read_page(page_id).unwrap();
    assert!(page.data.iter().all(|b| *b == 0));
    assert!(!page.is_dirty);
}
