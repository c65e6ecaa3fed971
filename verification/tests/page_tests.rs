use rustydb::page::TablePage;
use rustydb::record_id::RecordId;
use rustydb::tuple::{Tuple, TupleMetadata};
use rustydb::RUSTY_DB_PAGE_SIZE_BYTES;

#[test]
pub fn tests_test_insert_tuple() {
    let mut page = TablePage::builder().page_id(0).next_page_id(1).build();
    let tuple = Tuple::from(vec![1_u8, 2_u8, 3_u8, 4_u8]);
    let meta = TupleMetadata::new(false);
    let slot = page.insert_tuple(meta, tuple.clone()).unwrap();

    assert_eq!(1, page.tuple_count());
    assert_eq!(0, page.deleted_tuple_count());
    assert_eq!(1, page.get_next_page_id());

    let rid = RecordId::new(page.page_id, slot);
    assert_eq!(tuple, page.get_tuple(&rid).unwrap());
}

#[test]
pub fn test_overfull_page() {
    let mut page = TablePage::builder().page_id(0).build();
    let mut page_size: usize = 8;
    let tuple_size: usize = 128;

    loop {
        let tuple = Tuple::from(vec![7u8; tuple_size]);
        if page_size + tuple_size + 4 > RUSTY_DB_PAGE_SIZE_BYTES {
            assert!(page.get_next_tuple_offset(&tuple).is_none());
            break;
        }
        page.insert_tuple(TupleMetadata::new(false), tuple);
        page_size += tuple_size + 4;
    }
}

#[test]
pub fn test_iterate_page() {
    let mut page = TablePage::builder().page_id(0).build();
    for i in 0..5u8 {
        let meta = TupleMetadata::new(i % 2 == 1);
        page.insert_tuple(meta, Tuple::from(vec![i, i, i])).unwrap();
    }
    let mut iter = page.iter();
    let mut seen = 0;
    while let Some((rid, tuple)) = iter.next() {
        assert_eq!(rid.page_id, 0);
        assert_eq!(tuple.data.len(), 3);
        seen += 1;
    }
    assert_eq!(seen, page.tuple_count() as usize);
}

#[test]
pub fn page_serialize_round_trip() {
    let mut page = TablePage::builder().page_id(3).next_page_id(9).build();
    let s0 = page
        .insert_tuple(TupleMetadata::new(false), Tuple::from(vec![1u8, 2, 3]))
        .unwrap();
    let s1 = page
        .insert_tuple(TupleMetadata::new(false), Tuple::from(vec![4u8, 5]))
        .unwrap();
    let s2 = page
        .insert_tuple(TupleMetadata::new(false), Tuple::from(vec![6u8]))
        .unwrap();
    // tombstone the middle tuple
    page.update_tuple_metadata(&TupleMetadata::deleted_payload_metadata(), &RecordId::new(3, s1))
        .unwrap();

    let bytes = page.serialize();
    assert_eq!(bytes.len(), RUSTY_DB_PAGE_SIZE_BYTES);
    let back = TablePage::deserialize(bytes.as_slice());

    assert_eq!(back.page_id, 3);
    assert_eq!(back.next_page_id, 9);
    assert_eq!(back.tuple_count(), 2);
    assert_eq!(back.deleted_tuple_count(), 1);
    // live tuples come back byte for byte
    assert_eq!(
        back.get_tuple(&RecordId::new(3, s0)).unwrap().data,
        vec![1u8, 2, 3]
    );
    assert_eq!(back.get_tuple(&RecordId::new(3, s2)).unwrap().data, vec![6u8]);
    // the tombstone stays a tombstone
    assert!(back.get_tuple(&RecordId::new(3, s1)).is_err());
}

#[test]
pub fn page_update_in_place_keeps_size() {
    let mut page = TablePage::builder().page_id(1).build();
    let slot = page
        .insert_tuple(TupleMetadata::new(false), Tuple::from(vec![9u8, 9, 9]))
        .unwrap();
    let rid = RecordId::new(1, slot);
    page.update_tuple_in_place_unchecked(TupleMetadata::new(false), Tuple::from(vec![8u8, 7, 6]), &rid)
        .unwrap();
    assert_eq!(page.get_tuple(&rid).unwrap().data, vec![8u8, 7, 6]);
}
