use collab::database::{CreateViewParams, Database};
use collab::row::CreateRowParams;

fn create_database(_uid: i64, database_id: &str) -> Database {
    Database::new(database_id.to_string(), "v1".to_string())
}

fn create_database_with_default_data(uid: i64, database_id: &str) -> Database {
    let mut database = create_database(uid, database_id);
    let mut prev: Option<String> = None;
    for id in ["1", "2", "3"] {
        let mut params = CreateRowParams::new(id.to_string());
        params.prev_row_id = prev.clone();
        database.create_row(params).unwrap();
        prev = Some(id.to_string());
    }
    database
}

fn params(id: &str) -> CreateRowParams {
    CreateRowParams::new(id.to_string())
}

fn ids(database: &Database, view_id: &str) -> Vec<String> {
    database.get_rows_for_view(view_id).into_iter().map(|r| r.id).collect()
}

fn linked_view(database_id: &str, view_id: &str) -> CreateViewParams {
    CreateViewParams { database_id: database_id.to_string(), view_id: view_id.to_string() }
}

#[test]
fn create_rows_test() {
    let mut database_test = create_database(1, "1");
    for i in 0..100 {
        database_test.create_row_in_view("v1", params(&i.to_string()));
    }
    let rows = database_test.get_rows_for_view("v1");
    assert_eq!(rows.len(), 100);
}

#[test]
fn create_row_shared_by_two_view_test() {
    let mut database_test = create_database(1, "1");
    database_test.create_linked_view(linked_view("1", "v2")).unwrap();
    let row_id = "f3c0a5d2-0d38-4d5e-9d8c-5b0e4a1f6c21".to_string();
    database_test.create_row(params(&row_id)).unwrap();
    let view_1 = database_test.get_view("v1").unwrap();
    let view_2 = database_test.get_view("v2").unwrap();
    assert_eq!(view_1.row_orders[0].id, row_id);
    assert_eq!(view_2.row_orders[0].id, row_id);
}

#[test]
fn delete_row_shared_by_two_view_test() {
    let mut database_test = create_database(1, "1");
    database_test.create_linked_view(linked_view("1", "v2")).unwrap();
    let row_order = database_test.create_row(params("9a1e0b7c-2f44-4e0e-8a57-3d4c2b1a0f99")).unwrap();
    database_test.remove_row(&row_order.id);
    let view_1 = database_test.get_view("v1").unwrap();
    let view_2 = database_test.get_view("v2").unwrap();
    assert!(view_1.row_orders.is_empty());
    assert!(view_2.row_orders.is_empty());
}

#[test]
fn move_row_in_view_test() {
    let mut database_test = create_database_with_default_data(1, "1");
    let rows = ids(&database_test, "v1");
    assert_eq!(rows[0], "1");
    assert_eq!(rows[1], "2");
    assert_eq!(rows[2], "3");

    database_test.move_row_order("v1", 2, 1);
    let rows2 = ids(&database_test, "v1");
    assert_eq!(rows2[0], "1");
    assert_eq!(rows2[1], "3");
    assert_eq!(rows2[2], "2");

    database_test.move_row_order("v1", 2, 0);
    let row3 = ids(&database_test, "v1");
    assert_eq!(row3[0], "2");
    assert_eq!(row3[1], "1");
    assert_eq!(row3[2], "3");
}

#[test]
fn move_row_in_views_test() {
    let mut database_test = create_database_with_default_data(1, "1");
    database_test.create_linked_view(linked_view("1", "v2")).unwrap();
    database_test.move_row_order("v1", 2, 1);

    let rows_1 = ids(&database_test, "v1");
    assert_eq!(rows_1[0], "1");
    assert_eq!(rows_1[1], "3");
    assert_eq!(rows_1[2], "2");

    let rows_2 = ids(&database_test, "v2");
    assert_eq!(rows_2[0], "1");
    assert_eq!(rows_2[1], "2");
    assert_eq!(rows_2[2], "3");
}

#[test]
fn insert_row_in_views_test() {
    let mut database_test = create_database_with_default_data(1, "1");
    let mut row = params("4");
    row.prev_row_id = Some("2".to_string());
    database_test.create_row_in_view("v1", row);

    let rows = ids(&database_test, "v1");
    assert_eq!(rows[0], "1");
    assert_eq!(rows[1], "2");
    assert_eq!(rows[2], "4");
    assert_eq!(rows[3], "3");
}

#[test]
fn insert_row_at_front_in_views_test() {
    let mut database_test = create_database_with_default_data(1, "1");
    database_test.create_row_in_view("v1", params("4"));

    let rows = ids(&database_test, "v1");
    assert_eq!(rows[0], "4");
    assert_eq!(rows[1], "1");
    assert_eq!(rows[2], "2");
    assert_eq!(rows[3], "3");
}

#[test]
fn insert_row_at_last_in_views_test() {
    let mut database_test = create_database_with_default_data(1, "1");
    let mut row = params("4");
    row.prev_row_id = Some("3".to_string());
    database_test.create_row_in_view("v1", row);

    let rows = ids(&database_test, "v1");
    assert_eq!(rows[0], "1");
    assert_eq!(rows[1], "2");
    assert_eq!(rows[2], "3");
    assert_eq!(rows[3], "4");
}

#[test]
fn duplicate_row_test() {
    let mut database_test = create_database_with_default_data(1, "1");
    let rows = database_test.get_rows_for_view("v1");
    assert_eq!(rows.len(), 3);

    let params = database_test.duplicate_row("2").unwrap();
    let (index, row_order) = database_test.create_row_in_view("v1", params).unwrap();
    assert_eq!(index, 2);

    let rows = ids(&database_test, "v1");
    assert_eq!(rows.len(), 4);
    assert_eq!(rows[0], "1");
    assert_eq!(rows[1], "2");
    assert_eq!(rows[2], row_order.id);
    assert_eq!(rows[3], "3");
}

#[test]
fn duplicate_last_row_test() {
    let mut database_test = create_database_with_default_data(1, "1");
    let rows = database_test.get_rows_for_view("v1");
    assert_eq!(rows.len(), 3);

    let params = database_test.duplicate_row("3").unwrap();
    let (index, row_order) = database_test.create_row_in_view("v1", params).unwrap();
    assert_eq!(index, 3);

    let rows = ids(&database_test, "v1");
    assert_eq!(rows.len(), 4);
    assert_eq!(rows[3], row_order.id);
}

#[test]
fn invalid_params_create_nothing() {
    let mut database = create_database(1, "1");
    assert!(database.create_row(params("")).is_none());
    assert!(database.create_row_in_view("missing", params("a")).is_none());
    assert!(database.get_rows_for_view("v1").is_empty());
    assert!(database.duplicate_row("absent").is_none());
}

#[test]
fn linked_view_ids_are_unique() {
    let mut database = create_database(1, "1");
    assert!(database.create_linked_view(linked_view("1", "v2")).is_ok());
    assert_eq!(
        database.create_linked_view(linked_view("1", "v1")),
        Err(collab::row::DatabaseError::ViewAlreadyExists)
    );
}
