use paged_store::errors::StorageError;
use paged_store::page::{DbColumn, Page, PageHeader, PageType, PAGE_MAGIC_NUMBER};

#[test]
pub fn test_read_write_header() {
    let mut page = Page { page_id: 0xABCDEF, data: vec![0; 1024], is_dirty: false };

    let header = PageHeader {
        log_sequence_number: 0xAFAFAFE,
        magic_number: PAGE_MAGIC_NUMBER,
        page_type: PageType::DataPage,
        page_id: 0xABCDEF,
        parent_page_id: 0xFEDCBA,
    };

    page.write_header(header);

    let header = page.read_header().unwrap();

    assert!(page.is_dirty);
    assert_eq!(0xAFAFAFE, header.log_sequence_number);
    assert_eq!(PAGE_MAGIC_NUMBER, header.magic_number);
    assert_eq!(PageType::DataPage, header.page_type);
    assert_eq!(0xABCDEF, header.page_id);
    assert_eq!(0xFEDCBA, header.parent_page_id);
}

#[test]
fn write_header_mirrors_the_page_id() {
    let mut page = Page { page_id: 1, data: vec![0; 1024], is_dirty: false };
    let header = PageHeader {
        magic_number: PAGE_MAGIC_NUMBER,
        page_type: PageType::IndexNode,
        log_sequence_number: 0,
        parent_page_id: 0,
        page_id: 42,
    };
    page.write_header(header);
    assert_eq!(42, page.page_id);
    assert_eq!(42, page.read_page_id());
}

#[test]
fn unknown_type_tag_is_corruption() {
    assert_eq!(Err(StorageError::CorruptPage), PageType::from_tag(0));
    assert_eq!(Err(StorageError::CorruptPage), PageType::from_tag(7));
    assert_eq!(Ok(PageType::IndexNode), PageType::from_tag(1));
    assert_eq!(Ok(PageType::IndexLeaf), PageType::from_tag(2));
    assert_eq!(Ok(PageType::DataPage), PageType::from_tag(3));

    let mut page = Page { page_id: 0, data: vec![0; 1024], is_dirty: false };
    page.data[4] = 9;
    assert_eq!(Err(StorageError::CorruptPage), page.read_page_type());
    assert_eq!(Err(StorageError::CorruptPage), page.read_header());
}

#[test]
fn data_page_is_no_index_page() {
    let mut page = Page { page_id: 0, data: vec![0; 1024], is_dirty: false };
    let header = PageHeader {
        magic_number: PAGE_MAGIC_NUMBER,
        page_type: PageType::DataPage,
        log_sequence_number: 0,
        parent_page_id: 0,
        page_id: 0,
    };
    page.write_header(header);

    match page.as_index_node::<u64>() {
        Err(e) => assert_eq!(StorageError::WrongPageType, e),
        Ok(_) => panic!("a data page must not read as an index page"),
    }

    page.data[4] = 1;
    assert!(page.as_index_node::<u64>().is_ok());
}

#[test]
fn u64_column_round_trip() {
    let value: u64 = 0x0102030405060708;
    let bytes = value.to_bytes();
    assert_eq!(8, bytes.len());
    assert_eq!(8, value.len());
    assert_eq!(value, u64::from_bytes(&bytes, 0));

    assert!(DbColumn::le(&3u64, &5));
    assert!(DbColumn::le(&5u64, &5));
    assert!(!DbColumn::le(&6u64, &5));
}

#[test]
fn page_size_is_the_buffer_length() {
    let page = Page { page_id: 0, data: vec![0; 1024], is_dirty: false };
    assert_eq!(1024, page.page_size());
}
