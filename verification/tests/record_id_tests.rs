use rustydb::record_id::RecordId;

fn setup() -> RecordId {
    RecordId::new(1, 1)
}

#[test]
fn test_page_id() {
    let rid = setup();
    assert_eq!(1, rid.page_id());
}

#[test]
fn test_slot_id() {
    let rid = setup();
    assert_eq!(1, rid.slot_id);
}

#[test]
fn test_to_string() {
    let rid = setup();
    assert_eq!("1:1", rid.to_string());
}

#[test]
fn record_id_test_equals() {
    let rid1 = RecordId::new(1, 1);
    let rid1_copy = RecordId::new(1, 1);
    let rid2 = RecordId::new(2, 2);

    assert_eq!(rid1, rid1);
    assert_eq!(rid1, rid1_copy);
    assert_eq!(rid1_copy, rid1);
    assert_eq!(rid2, rid2);

    assert_ne!(rid1, rid2);
    assert_ne!(rid1_copy, rid2);
    assert_ne!(rid2, rid1);
    assert_ne!(rid2, rid1_copy);
}

#[test]
fn record_id_test_comparison() {
    let rid1 = RecordId::new(1, 1);
    let rid2 = RecordId::new(2, 2);
    let rid3 = RecordId::new(3, 1);
    let rid4 = RecordId::new(4, 1);
    let rid5 = RecordId::new(5, 2);

    assert!(rid1 < rid2);
    assert!(rid2 < rid3);
    assert!(rid3 < rid4);
    assert!(rid4 < rid5);
}

#[test]
fn record_id_bytes_round_trip() {
    let rid = RecordId::new(70000, 513);
    let bytes = rid.to_bytes().unwrap();
    assert_eq!(bytes.len(), 6);
    let back = RecordId::from_bytes(bytes.as_slice()).unwrap();
    assert_eq!(back, rid);
    assert!(RecordId::from_bytes(&bytes[0..5]).is_err());
}
