use collab::database::row_order_from_fields;
use collab::row::{
    meta_id_from_row_id, parse_row_uuid, row_from_fields, CreateRowParams, DatabaseError, Row,
    RowMetaKey,
};

#[test]
fn row_document_id_test() {
    for _ in 0..10 {
        let namespace = parse_row_uuid("43f6c30f-9d23-470c-a0dd-8819f08dcf2f").unwrap();
        let derived = meta_id_from_row_id(namespace, RowMetaKey::DocumentId);
        assert_eq!(derived, "0b1903ac-0dc2-5643-b0b5-a3f893cac26b".to_string());
    }
}

#[test]
fn document_id_of_row_test() {
    let row = Row::new("43f6c30f-9d23-470c-a0dd-8819f08dcf2f".to_string());
    let expected = meta_id_from_row_id(parse_row_uuid(&row.id).unwrap(), RowMetaKey::DocumentId);
    assert_eq!(row.document_id(), expected);
    assert_eq!(row.document_id(), expected);
    assert_ne!(row.icon_id(), row.cover_id());
    assert_eq!(row.height, 60);
    assert!(row.visibility);
}

#[test]
fn row_with_non_uuid_id_gets_random_meta_ids() {
    let row = Row::new("1".to_string());
    assert_eq!(row.document_id().len(), 36);
    assert_ne!(row.document_id(), row.document_id());
}

#[test]
fn meta_keys_as_str() {
    assert_eq!(RowMetaKey::DocumentId.as_str(), "document_id");
    assert_eq!(RowMetaKey::IconId.as_str(), "icon_id");
    assert_eq!(RowMetaKey::CoverId.as_str(), "cover_id");
}

#[test]
fn create_row_params_validation() {
    let p = CreateRowParams::new(String::new());
    assert_eq!(p.validate().unwrap_err(), DatabaseError::EmptyRowId);
    let mut p = CreateRowParams::new("r".to_string());
    p.prev_row_id = Some(String::new());
    assert_eq!(p.validate().unwrap_err(), DatabaseError::EmptyPrevRowId);
    let mut p = CreateRowParams::new("r".to_string());
    p.timestamp = 0;
    let v = p.validate().unwrap();
    assert!(v.timestamp > 0);
    let row = Row::from_params(v.clone());
    assert_eq!(row.created_at, v.timestamp);
    assert_eq!(row.id, "r");
}

#[test]
fn row_fields_take_defaults() {
    assert!(row_from_fields(None, Some(false), Some(5), Some(1), Some(2), Vec::new(), 9).is_none());
    let r = row_from_fields(Some("a".to_string()), None, None, None, Some(7), Vec::new(), 9).unwrap();
    assert_eq!(r.id, "a");
    assert!(r.visibility);
    assert_eq!(r.height, 60);
    assert_eq!(r.created_at, 9);
    assert_eq!(r.modified_at, 7);
    let r = row_from_fields(Some("b".to_string()), Some(false), Some(88), Some(3), None, Vec::new(), 9).unwrap();
    assert!(!r.visibility);
    assert_eq!((r.height, r.created_at, r.modified_at), (88, 3, 9));
}

#[test]
fn row_order_fields_take_defaults() {
    assert!(row_order_from_fields(None, Some(1), Some(2)).is_none());
    let (order, created) = row_order_from_fields(Some("x".to_string()), None, None).unwrap();
    assert_eq!((order.id.as_str(), order.height, created), ("x", 60, 0));
    let (order, created) = row_order_from_fields(Some("y".to_string()), Some(44), Some(123)).unwrap();
    assert_eq!((order.id.as_str(), order.height, created), ("y", 44, 123));
}

#[test]
fn default_params_have_fresh_uuid_and_no_timestamp() {
    let p = CreateRowParams::default();
    assert_eq!(p.id.len(), 36);
    assert!(parse_row_uuid(&p.id).is_some());
    assert_eq!((p.height, p.visibility, p.timestamp), (60, true, 0));
    assert!(p.prev_row_id.is_none());
    assert_ne!(CreateRowParams::default().id, p.id);
}

#[test]
fn validate_at_stamps_missing_timestamp() {
    let mut p = CreateRowParams::new("r".to_string());
    p.timestamp = 0;
    assert_eq!(p.validate_at(77).unwrap().timestamp, 77);
    let mut p = CreateRowParams::new("r".to_string());
    p.timestamp = 5;
    assert_eq!(p.validate_at(77).unwrap().timestamp, 5);
}
