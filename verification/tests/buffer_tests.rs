use rustydb::buffer::BufferPoolManager;
use rustydb::disk::DiskManager;
use rustydb::record_id::RecordId;
use rustydb::tuple::{Tuple, TupleMetadata};
use rustydb::INVALID_PID;

fn get_bpm_with_pool_size(pool_size: usize) -> BufferPoolManager {
    BufferPoolManager::builder()
        .pool_size(pool_size)
        .replacer_k(5)
        .disk_manager(DiskManager::new())
        .build()
}

fn create_n_pages(bpm: &mut BufferPoolManager, n: usize) -> Vec<u32> {
    (0..n).map(|_| bpm.new_page().expect("no frame was free for a new page")).collect()
}

fn page_in_buffer(bpm: &BufferPoolManager, page_id: &u32) -> bool {
    let entry = bpm.page_table.iter().find(|e| e.0 == *page_id);
    match entry {
        Some(e) => !bpm.free_list.contains(&e.1.frame_id),
        None => false,
    }
}

fn fetch_page_get_id(page_id: &u32, bpm: &mut BufferPoolManager) -> u32 {
    let frame = bpm.fetch_page(page_id).expect("the page could not be fetched");
    bpm.pages[frame].page_id
}

fn set_pages_to_dirty(bpm: &mut BufferPoolManager, page_ids: &Vec<u32>) {
    for page_id in page_ids {
        bpm.set_is_dirty(page_id, true).unwrap();
    }
}

#[test]
fn test_new_page_basic() {
    let mut bpm = get_bpm_with_pool_size(5);

    let page_id = bpm.new_page().unwrap();
    let page = bpm.get_page(&page_id).unwrap();

    // new page correctly initialized.
    assert_eq!(page_id, 1);
    assert_eq!(page_id, page.page_id);

    // page inserted into buffer pool, and pinned to prevent eviction.
    assert!(page_in_buffer(&bpm, &page_id));
    assert_eq!(bpm.get_pin_count(&page_id).unwrap(), 1);
}

#[test]
fn test_new_page_no_initial_frames() {
    let mut bpm = get_bpm_with_pool_size(0);
    assert!(bpm.new_page().is_none());
}

#[test]
fn test_cannot_create_page_beyond_buffer_pool_size() {
    let mut bpm = get_bpm_with_pool_size(2);

    let page_id1 = bpm.new_page().unwrap();
    let page_id2 = bpm.new_page().unwrap();

    bpm.fetch_page(&page_id1);
    bpm.fetch_page(&page_id2);

    // All frames are now pinned, attempt to create another page.
    let result = bpm.new_page();
    assert!(result.is_none());
}

#[test]
fn test_new_page_evict_frame() {
    let pool_size = 3_usize;
    let mut bpm = get_bpm_with_pool_size(pool_size);

    let mut new_page_id: Option<u32> = None;
    for _ in 0..pool_size {
        assert!(!bpm.free_list.is_empty());
        new_page_id = bpm.new_page();
        assert!(new_page_id.is_some());
    }

    // free list empty, and no evictable page.
    assert!(bpm.free_list.is_empty());
    assert!(bpm.new_page().is_none());

    // free list empty, but there's an evictable page.
    let page_id_to_evict = new_page_id.unwrap();
    bpm.set_evictable(&page_id_to_evict, true).unwrap();
    assert!(bpm.free_list.is_empty());
    let new_page_after_eviction = bpm.new_page();
    assert!(new_page_after_eviction.is_some());

    assert!(bpm.free_list.is_empty());
    assert!(bpm.new_page().is_none());
}

#[test]
fn test_fetch_page_in_buffer() {
    let pool_size = 10_usize;
    let mut bpm = get_bpm_with_pool_size(pool_size);

    let page_ids = create_n_pages(&mut bpm, pool_size);
    for page_id in page_ids.iter() {
        assert_eq!(fetch_page_get_id(page_id, &mut bpm), *page_id);
    }
}

#[test]
fn test_fetch_page_not_in_buffer() {
    let pool_size = 10_usize;
    let mut bpm = get_bpm_with_pool_size(pool_size);

    // fill buffer pool to capacity with new pages.
    let page_id_to_evict = bpm.new_page().unwrap();
    bpm.unpin_page(&page_id_to_evict, false).unwrap();
    create_n_pages(&mut bpm, pool_size - 1);

    // and add another page.
    let another_page_id = bpm.new_page().unwrap();
    bpm.unpin_page(&another_page_id, false).unwrap();

    // verify a page was evicted for the new page.
    assert!(!page_in_buffer(&bpm, &page_id_to_evict));

    // ...we should still be able to fetch that evicted page (from disk).
    assert_eq!(fetch_page_get_id(&page_id_to_evict, &mut bpm), page_id_to_evict);

    // another fetch of that page (this time from the buffer pool!)
    assert_eq!(fetch_page_get_id(&page_id_to_evict, &mut bpm), page_id_to_evict);
}

#[test]
fn test_unpin_page_changes_dirty_flag() {
    let mut bpm = get_bpm_with_pool_size(5);
    let page_id = bpm.new_page().unwrap();

    assert!(!bpm.get_is_dirty(&page_id).unwrap());
    assert!(bpm.unpin_page(&page_id, true).unwrap());
    assert!(bpm.get_is_dirty(&page_id).unwrap());
}

#[test]
fn test_unpin_page_not_in_buffer_pool() {
    let mut bpm = get_bpm_with_pool_size(0);
    // buffer pool is empty
    assert!(bpm.unpin_page(&INVALID_PID, false).is_err());
}

#[test]
fn test_unpin_page_before_and_after_deletion() {
    let mut bpm = get_bpm_with_pool_size(5);

    // Pin count: 1
    let page_id = bpm.new_page().unwrap();

    // Pin count: 0
    assert!(bpm.unpin_page(&page_id, false).unwrap());

    // Pin count: still 0
    assert!(!bpm.unpin_page(&page_id, false).unwrap());
    assert!(bpm.delete_page(page_id).unwrap());
}

#[test]
fn test_unpin_page_decrements_multiple_times() {
    let mut bpm = get_bpm_with_pool_size(5);

    // Pin count: 1
    let page_id = bpm.new_page().unwrap();
    // Pin count: 26
    for _ in 0..25 {
        bpm.fetch_page(&page_id);
    }
    assert_eq!(bpm.get_pin_count(&page_id).unwrap(), 26);

    // Pin count: 25 -> 24 -> ... -> 0
    for i in (0..26).rev() {
        assert!(bpm.unpin_page(&page_id, false).unwrap());
        assert_eq!(bpm.get_pin_count(&page_id).unwrap(), i);
    }
}

#[test]
fn test_flush_page_does_not_exist() {
    let mut bpm = get_bpm_with_pool_size(5);
    let page_id = bpm.new_page().unwrap();
    let different_page_id = page_id + 1;

    assert!(bpm.flush_page(&different_page_id).is_err());
}

#[test]
fn test_flush_page() {
    // the page should flush regardless of the dirty flag
    for &is_dirty in [true, false].iter() {
        let mut bpm = get_bpm_with_pool_size(5);
        let unevictable_page_id = bpm.new_page().unwrap();
        let evictable_page_id = bpm.new_page().unwrap();
        bpm.set_evictable(&evictable_page_id, true).unwrap();

        // Insert a tuple into both pages
        let metadata = TupleMetadata::new(false);
        let tuple_unevictable = Tuple::from(vec![42, 43, 44, 45, 46]);
        let tuple_evictable = Tuple::from(vec![50, 51, 52, 53, 54]);

        bpm.page_insert_tuple(&unevictable_page_id, metadata, tuple_unevictable.clone())
            .unwrap()
            .unwrap();
        bpm.page_insert_tuple(&evictable_page_id, metadata, tuple_evictable.clone())
            .unwrap()
            .unwrap();

        bpm.set_is_dirty(&unevictable_page_id, is_dirty).unwrap();
        bpm.set_is_dirty(&evictable_page_id, is_dirty).unwrap();

        bpm.flush_page(&unevictable_page_id).unwrap();
        bpm.flush_page(&evictable_page_id).unwrap();

        // is_dirty flag should be reset to false after page flush
        assert!(!bpm.get_is_dirty(&unevictable_page_id).unwrap());
        assert!(!bpm.get_is_dirty(&evictable_page_id).unwrap());

        // Read the pages back from the disk image to check the write-through.
        let record_id_unevictable = RecordId::new(unevictable_page_id, 0);
        let retrieved_unevictable_page = bpm.disk_manager.read_page(&unevictable_page_id);
        let retrieved_tuple_unevictable = retrieved_unevictable_page
            .get_tuple(&record_id_unevictable)
            .unwrap();
        assert_eq!(retrieved_tuple_unevictable, tuple_unevictable);

        let record_id_evictable = RecordId::new(evictable_page_id, 0);
        let retrieved_evictable_page = bpm.disk_manager.read_page(&evictable_page_id);
        let retrieved_tuple_evictable = retrieved_evictable_page
            .get_tuple(&record_id_evictable)
            .unwrap();
        assert_eq!(retrieved_tuple_evictable, tuple_evictable);
    }
}

#[test]
fn test_flush_all_pages() {
    let pool_size = 100;
    let mut bpm = get_bpm_with_pool_size(pool_size);

    let page_ids: Vec<u32> = create_n_pages(&mut bpm, pool_size);

    let metadata = TupleMetadata::new(false);

    // Insert a unique tuple into each page
    for (i, page_id) in page_ids.iter().enumerate() {
        let tuple = Tuple::from((i as u8..=(i + 4) as u8).collect::<Vec<u8>>());
        bpm.page_insert_tuple(page_id, metadata, tuple).unwrap().unwrap();
    }

    set_pages_to_dirty(&mut bpm, &page_ids);

    bpm.flush_all_pages();
    for page_id in page_ids.iter() {
        assert!(!bpm.get_is_dirty(page_id).unwrap());
    }

    // Read each page from the disk image, and check the tuple.
    for (i, page_id) in page_ids.iter().enumerate() {
        let record_id = RecordId::new(*page_id, 0);
        let retrieved_page = bpm.disk_manager.read_page(page_id);
        let retrieved_tuple = retrieved_page.get_tuple(&record_id).unwrap();
        let expected_tuple = Tuple::from((i as u8..=(i + 4) as u8).collect::<Vec<u8>>());
        assert_eq!(retrieved_tuple, expected_tuple);
    }
}

#[test]
fn test_delete_page_does_not_exist() {
    let mut bpm = get_bpm_with_pool_size(5);
    let page_id = bpm.new_page().unwrap();
    let different_page_id = page_id + 1;
    assert!(bpm.delete_page(different_page_id).is_err());
}

#[test]
fn test_cannot_delete_pinned_page() {
    let mut bpm = get_bpm_with_pool_size(5);
    // this is pinned in the buffer pool, shouldn't be able to delete
    let page_id = bpm.new_page().unwrap();
    assert!(!bpm.delete_page(page_id).unwrap());
}

#[test]
fn test_delete_evictable_page() {
    let mut bpm = get_bpm_with_pool_size(5);
    let page_id = bpm.new_page().unwrap();

    bpm.unpin_page(&page_id, false).unwrap();
    assert!(bpm.delete_page(page_id).unwrap());
    assert!(!page_in_buffer(&bpm, &page_id));
}

fn page_number_is_even(page_id: &u32) -> bool {
    page_id % 2 == 0
}

#[test]
fn test_attempt_deletion_of_evictable_and_pinned_pages() {
    let pool_size = 20_usize;
    let mut bpm = get_bpm_with_pool_size(pool_size);
    let page_ids = create_n_pages(&mut bpm, pool_size);

    // set half the pages to evictable; the other half remain pinned
    let mut evictable_page_ids = Vec::new();
    for page_id in page_ids.iter().filter(|p| page_number_is_even(p)) {
        for _ in 0..bpm.get_pin_count(page_id).unwrap() {
            bpm.unpin_page(page_id, false).unwrap();
        }
        evictable_page_ids.push(*page_id);
    }

    for page_id in page_ids {
        let was_deleted = bpm.delete_page(page_id).unwrap_or(false);
        let should_have_been_deleted = evictable_page_ids.contains(&page_id);
        assert_eq!(was_deleted, should_have_been_deleted);
    }
}

#[test]
fn test_dirty_pages_eviction() {
    let mut bpm = BufferPoolManager::new(2, 5, DiskManager::new());

    // Create and unpin a page.
    let page_id1 = bpm.new_page().unwrap();
    bpm.fetch_page(&page_id1).unwrap();
    let tuple = Tuple::from(&b"Northwestern"[..]);
    let tuple_metadata = TupleMetadata::new(false);
    bpm.page_insert_tuple(&page_id1, tuple_metadata, tuple.clone())
        .unwrap()
        .unwrap();
    bpm.unpin_page(&page_id1, true).unwrap();
    bpm.unpin_page(&page_id1, true).unwrap();

    // Create and unpin another page.
    let page_id2 = bpm.new_page().unwrap();
    bpm.unpin_page(&page_id2, false).unwrap();

    // Now the buffer pool is full. Creating a new page will cause eviction.
    let page_id3 = bpm.new_page().unwrap();
    bpm.unpin_page(&page_id3, true).unwrap();

    let frame = bpm.fetch_page(&page_id1).unwrap();
    let rc1 = RecordId::new(bpm.pages[frame].page_id, 0);
    assert_eq!(bpm.pages[frame].get_tuple(&rc1).unwrap(), tuple);

    // The dirty page should have been evicted and written to disk.
    let page_on_disk = bpm.disk_manager.read_page(&page_id1);
    assert_eq!(
        page_on_disk.get_tuple(&rc1).unwrap(),
        tuple,
        "Data on disk should match data in memory"
    );
}

#[test]
fn page_pin_test() {
    // Number of frames in the buffer pool.
    const FRAMES: usize = 10;

    let mut bpm = BufferPoolManager::new(FRAMES, 2, DiskManager::new());
    let mut pages: Vec<u32> = Vec::new();

    // The buffer pool is empty. We should be able to create a new page.
    let pid0 = bpm.new_page().expect("Failed to create a new page.");
    pages.push(pid0);

    // Fetch the page and write a greeting to it.
    let rid0;
    {
        bpm.fetch_page(&pid0).expect("Failed to fetch the first page.");
        let tuple = Tuple::from(b"Hello".to_vec());
        let meta = TupleMetadata::new(false);
        let slot_id = bpm
            .page_insert_tuple(&pid0, meta, tuple)
            .unwrap()
            .expect("Failed to insert tuple.");
        rid0 = RecordId::new(pid0, slot_id);
        // Verify that we can read the greeting back.
        let page0 = bpm.get_page(&pid0).unwrap();
        let tuple = page0.get_tuple(&rid0).expect("Failed to get tuple.");
        assert_eq!(tuple.data, b"Hello", "Data read does not match the greeting.");
        // Unpin the page.
        bpm.unpin_page(&pid0, true).unwrap();
    }

    // We should be able to create new pages until we fill up the buffer pool.
    for _ in 0..FRAMES - 1 {
        let pid = bpm.new_page().expect("Failed to create a new page.");
        pages.push(pid);
    }

    // All pin counts should be 1.
    for pid in &pages {
        assert_eq!(bpm.get_pin_count(pid).unwrap(), 1);
    }

    // Once the buffer pool is full, we should not be able to create any new pages.
    for _ in 0..FRAMES {
        assert!(bpm.new_page().is_none());
    }

    // Drop the first 5 pages to unpin them.
    for _ in 0..(FRAMES / 2) {
        let pid = pages.remove(0);
        bpm.unpin_page(&pid, false).unwrap();
        assert_eq!(bpm.get_pin_count(&pid).unwrap(), 0);
    }

    // All pin counts of the pages we haven't dropped yet should still be 1.
    for pid in &pages {
        assert_eq!(bpm.get_pin_count(pid).unwrap(), 1);
    }

    // After unpinning pages, we should be able to create new pages.
    for _ in 0..((FRAMES / 2) - 1) {
        let pid = bpm.new_page().expect("Failed to create a new page.");
        pages.push(pid);
    }

    // There should be one frame available, and we should be able to fetch
    // the data we wrote earlier.
    {
        let frame = bpm.fetch_page(&pid0).expect("Failed to fetch the first page.");
        let tuple = bpm.pages[frame].get_tuple(&rid0).expect("Failed to get tuple.");
        assert_eq!(tuple.data, b"Hello", "The reloaded data does not match the greeting.");
        bpm.unpin_page(&pid0, false).unwrap();
    }

    // Once we unpin page 0 and then make a new page, all the buffer pages
    // should be pinned, and fetching page 0 again fails.
    let _last_pid = bpm.new_page().expect("Failed to create a new page.");
    let result = bpm.fetch_page(&pid0);
    assert!(result.is_none(), "Expected the fetch of the first page to fail.");
}
