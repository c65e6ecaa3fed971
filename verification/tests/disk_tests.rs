use rustydb::disk::DiskManager;
use rustydb::page::TablePage;
use rustydb::record_id::RecordId;
use rustydb::tuple::{Tuple, TupleMetadata};

#[test]
fn test_write_and_read_page() {
    let mut disk_manager = DiskManager::new();

    let page_id = disk_manager.allocate_new_page();

    let mut page = TablePage::builder().page_id(page_id).build();
    let tuple_data = b"Hello, DiskManager!".to_vec();
    let tuple_metadata = TupleMetadata::new(false);
    let tuple = Tuple::from(&tuple_data[..]);

    let slot_id = page
        .insert_tuple(tuple_metadata, tuple.clone())
        .expect("Failed to insert tuple");
    let record_id = RecordId::new(page.page_id, slot_id);

    disk_manager.write_page(page.clone());

    let read_page = disk_manager.read_page(&page_id);

    let retrieved_tuple = read_page
        .get_tuple(&record_id)
        .expect("Failed to retrieve tuple");

    assert_eq!(
        retrieved_tuple, tuple,
        "Data read from disk does not match data written"
    );
}

#[test]
fn test_multiple_page_write_and_read() {
    let mut disk_manager = DiskManager::new();
    let num_pages = 5;
    let mut page_ids = Vec::new();

    let tuple_metadata = TupleMetadata::new(false);

    // Allocate and write multiple pages.
    for _ in 0..num_pages {
        let page_id = disk_manager.allocate_new_page();
        page_ids.push(page_id);

        let mut page = TablePage::builder().page_id(page_id).build();

        let test_string = format!("Page number {}", page_id);
        let test_data = test_string.as_bytes().to_vec();
        let tuple = Tuple::from(&test_data[..]);

        page.insert_tuple(tuple_metadata, tuple.clone())
            .expect("Failed to insert tuple");

        disk_manager.write_page(page.clone());
    }

    // Read back and verify each page.
    for &page_id in &page_ids {
        let read_page = disk_manager.read_page(&page_id);
        let record_id = RecordId::new(page_id, 0);

        let retrieved_tuple = read_page
            .get_tuple(&record_id)
            .expect("Failed to retrieve a tuple");

        let expected_string = format!("Page number {}", page_id);
        let expected_data = expected_string.as_bytes().to_vec();
        let expected_tuple = Tuple::from(&expected_data[..]);

        assert_eq!(
            retrieved_tuple, expected_tuple,
            "Data read back does not match the expected data"
        );
    }
}
