use paged_store::disk_manager::DiskManager;

#[test]
fn allocate_pages_assigns_consecutive_ids_and_offsets() {
    let mut manager = DiskManager::new("./base");

    let first = manager.allocate_pages(3, "a.db");
    assert_eq!(vec![0, 1, 2], first);

    let second = manager.allocate_pages(2, "b.db");
    assert_eq!(vec![3, 4], second);

    let entry = manager.page_location(1).unwrap();
    assert_eq!("a.db", entry.file_name);
    assert_eq!(1024, entry.offset);
    assert_eq!(1, entry.page_id);

    let entry = manager.page_location(4).unwrap();
    assert_eq!("b.db", entry.file_name);
    assert_eq!(1024, entry.offset);

    assert_eq!("./base", manager.base_directory());
}

#[test]
fn unallocated_ids_have_no_location() {
    let mut manager = DiskManager::new("./base");
    manager.allocate_pages(1, "a.db");
    assert!(manager.page_location(0).is_some());
    assert!(manager.page_location(1).is_none());
}
