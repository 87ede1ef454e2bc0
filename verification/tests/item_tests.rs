use configstore::common::{Pagination, StoreError};
use configstore::item::ItemStore;
use configstore::meta::{MappingDefinition, MetaStore};
use configstore::value::{lookup, Value};

fn def(code: &str, property: &str, column: &str) -> MappingDefinition {
    MappingDefinition {
        id: 0,
        code: code.to_string(),
        property: property.to_string(),
        column_name: column.to_string(),
        description: String::new(),
        sort: 0,
        gmt_create: 0,
        gmt_modified: 0,
    }
}

/// A metadata store mapping, for code "user": "name" to varchar1 and
/// "age" to decimal1.
fn user_meta() -> MetaStore {
    let mut meta = MetaStore::new();
    meta.create(def("user", "name", "varchar1"), 0);
    meta.create(def("user", "age", "decimal1"), 0);
    meta
}

fn body(pairs: &[(&str, Value)]) -> Vec<(String, Value)> {
    pairs
        .iter()
        .map(|(k, v)| (k.to_string(), v.clone()))
        .collect()
}

fn get_value(map: &Vec<(String, Value)>, key: &str) -> Option<Value> {
    lookup(map, &key.to_string())
}

fn get_num(map: &Vec<(String, Value)>, key: &str) -> i64 {
    match get_value(map, key) {
        Some(Value::Num(n)) => n,
        other => panic!("expected a number under {}, got {:?}", key, other),
    }
}

fn get_text(map: &Vec<(String, Value)>, key: &str) -> String {
    match get_value(map, key) {
        Some(Value::Text(t)) => t,
        other => panic!("expected text under {}, got {:?}", key, other),
    }
}

#[test]
fn create_then_get_one_presents_the_logical_record() {
    let meta = user_meta();
    let mut items = ItemStore::new();
    let code = "user".to_string();
    let input = body(&[
        ("name", Value::Text("Alice".to_string())),
        ("age", Value::Num(30)),
    ]);
    let id = items.create(&meta, &code, &input, 1700000000).expect("create succeeds");
    assert_eq!(id, 1);
    let got = items.get_one(&meta, &code, 1).expect("record exists");
    assert_eq!(get_text(&got, "name"), "Alice");
    assert_eq!(get_num(&got, "age"), 30);
    assert_eq!(get_num(&got, "id"), 1);
    assert_eq!(get_num(&got, "parent_id"), 0);
    assert_eq!(get_num(&got, "sort"), 0);
    assert_eq!(get_num(&got, "gmt_create"), 1700000000);
    assert_eq!(get_num(&got, "gmt_modified"), 1700000000);
}

#[test]
fn update_merges_only_supplied_properties() {
    let meta = user_meta();
    let mut items = ItemStore::new();
    let code = "user".to_string();
    let input = body(&[
        ("name", Value::Text("Alice".to_string())),
        ("age", Value::Num(30)),
    ]);
    items.create(&meta, &code, &input, 100).expect("create succeeds");
    let patch = body(&[("age", Value::Num(31))]);
    let updated = items.update(&meta, &code, 1, &patch, 200).expect("update succeeds");
    assert_eq!(get_text(&updated, "name"), "Alice");
    assert_eq!(get_num(&updated, "age"), 31);
    assert_eq!(get_num(&updated, "gmt_create"), 100);
    assert_eq!(get_num(&updated, "gmt_modified"), 200);
    let got = items.get_one(&meta, &code, 1).expect("record exists");
    assert_eq!(get_text(&got, "name"), "Alice");
    assert_eq!(get_num(&got, "age"), 31);
}

#[test]
fn update_of_missing_record_is_not_found() {
    let meta = user_meta();
    let mut items = ItemStore::new();
    let patch = body(&[("age", Value::Num(31))]);
    let err = items.update(&meta, &"user".to_string(), 5, &patch, 0).unwrap_err();
    assert_eq!(err, StoreError::NotFound);
}

#[test]
fn list_windows_are_exact_and_repeatable() {
    let meta = user_meta();
    let mut items = ItemStore::new();
    let code = "user".to_string();
    for i in 0..3 {
        let input = body(&[("age", Value::Num(20 + i))]);
        items.create(&meta, &code, &input, 0).expect("create succeeds");
    }
    let first = items.list(&meta, &code, &Pagination { offset: 0, limit: 2 });
    assert_eq!(first.len(), 2);
    assert_eq!(get_num(&first[0], "id"), 1);
    assert_eq!(get_num(&first[1], "id"), 2);
    let rest = items.list(&meta, &code, &Pagination { offset: 2, limit: 2 });
    assert_eq!(rest.len(), 1);
    assert_eq!(get_num(&rest[0], "id"), 3);
    let again = items.list(&meta, &code, &Pagination { offset: 0, limit: 2 });
    assert_eq!(again.len(), 2);
    assert_eq!(get_num(&again[0], "id"), 1);
    assert_eq!(get_num(&again[1], "age"), 21);
}

#[test]
fn list_is_scoped_by_code() {
    let mut meta = user_meta();
    meta.create(def("order", "total", "decimal1"), 0);
    let mut items = ItemStore::new();
    items
        .create(&meta, &"user".to_string(), &body(&[("age", Value::Num(30))]), 0)
        .expect("create succeeds");
    items
        .create(&meta, &"order".to_string(), &body(&[("total", Value::Num(9))]), 0)
        .expect("create succeeds");
    let users = items.list(&meta, &"user".to_string(), &Pagination::default());
    assert_eq!(users.len(), 1);
    assert_eq!(get_num(&users[0], "id"), 1);
    let orders = items.list(&meta, &"order".to_string(), &Pagination::default());
    assert_eq!(orders.len(), 1);
    assert_eq!(get_num(&orders[0], "total"), 9);
}

#[test]
fn get_one_needs_both_code_and_identifier() {
    let meta = user_meta();
    let mut items = ItemStore::new();
    let code = "user".to_string();
    let input = body(&[("name", Value::Text("Alice".to_string()))]);
    items.create(&meta, &code, &input, 0).expect("create succeeds");
    assert!(items.get_one(&meta, &code, 2).is_none());
    assert!(items.get_one(&meta, &"order".to_string(), 1).is_none());
    assert!(items.get_one(&meta, &code, 1).is_some());
}

#[test]
fn item_delete_reports_one_then_zero() {
    let meta = user_meta();
    let mut items = ItemStore::new();
    let code = "user".to_string();
    items.create(&meta, &code, &body(&[("age", Value::Num(1))]), 0).expect("create succeeds");
    assert_eq!(items.delete(&code, 1), 1);
    assert_eq!(items.delete(&code, 1), 0);
    assert!(items.get_one(&meta, &code, 1).is_none());
}

#[test]
fn delete_is_scoped_by_code() {
    let meta = user_meta();
    let mut items = ItemStore::new();
    let code = "user".to_string();
    items.create(&meta, &code, &body(&[("age", Value::Num(1))]), 0).expect("create succeeds");
    assert_eq!(items.delete(&"order".to_string(), 1), 0);
    assert_eq!(items.delete(&code, 1), 1);
}

#[test]
fn unmapped_properties_are_dropped() {
    let meta = user_meta();
    let mut items = ItemStore::new();
    let code = "user".to_string();
    let input = body(&[
        ("name", Value::Text("Alice".to_string())),
        ("nickname", Value::Text("Al".to_string())),
    ]);
    items.create(&meta, &code, &input, 0).expect("create succeeds");
    let got = items.get_one(&meta, &code, 1).expect("record exists");
    assert_eq!(get_text(&got, "name"), "Alice");
    assert!(get_value(&got, "nickname").is_none());
}

#[test]
fn unmapped_slots_present_their_defaults() {
    let meta = user_meta();
    let mut items = ItemStore::new();
    let code = "user".to_string();
    items.create(&meta, &code, &body(&[]), 0).expect("create succeeds");
    let got = items.get_one(&meta, &code, 1).expect("record exists");
    assert_eq!(get_text(&got, "name"), "");
    assert_eq!(get_num(&got, "age"), 0);
}

#[test]
fn mistyped_value_is_a_bad_request_and_stores_nothing() {
    let meta = user_meta();
    let mut items = ItemStore::new();
    let code = "user".to_string();
    let input = body(&[("name", Value::Num(30))]);
    let err = items.create(&meta, &code, &input, 0).unwrap_err();
    assert_eq!(err, StoreError::BadRequest);
    assert_eq!(items.list(&meta, &code, &Pagination::default()).len(), 0);
}

#[test]
fn mistyped_update_leaves_the_record_alone() {
    let meta = user_meta();
    let mut items = ItemStore::new();
    let code = "user".to_string();
    let input = body(&[("name", Value::Text("Alice".to_string()))]);
    items.create(&meta, &code, &input, 0).expect("create succeeds");
    let patch = body(&[("age", Value::Text("old".to_string()))]);
    let err = items.update(&meta, &code, 1, &patch, 9).unwrap_err();
    assert_eq!(err, StoreError::BadRequest);
    let got = items.get_one(&meta, &code, 1).expect("record exists");
    assert_eq!(get_text(&got, "name"), "Alice");
    assert_eq!(get_num(&got, "gmt_modified"), 0);
}

#[test]
fn parent_and_sort_come_from_the_body() {
    let meta = user_meta();
    let mut items = ItemStore::new();
    let code = "user".to_string();
    let input = body(&[("parent_id", Value::Num(7)), ("sort", Value::Num(3))]);
    items.create(&meta, &code, &input, 0).expect("create succeeds");
    let got = items.get_one(&meta, &code, 1).expect("record exists");
    assert_eq!(get_num(&got, "parent_id"), 7);
    assert_eq!(get_num(&got, "sort"), 3);
}

#[test]
fn out_of_range_parent_is_a_bad_request() {
    let meta = user_meta();
    let mut items = ItemStore::new();
    let code = "user".to_string();
    let input = body(&[("parent_id", Value::Num(1 << 40))]);
    let err = items.create(&meta, &code, &input, 0).unwrap_err();
    assert_eq!(err, StoreError::BadRequest);
}

#[test]
fn supplied_identifier_and_timestamps_are_ignored() {
    let meta = user_meta();
    let mut items = ItemStore::new();
    let code = "user".to_string();
    let input = body(&[
        ("id", Value::Num(99)),
        ("gmt_create", Value::Num(123)),
        ("gmt_modified", Value::Num(456)),
    ]);
    let id = items.create(&meta, &code, &input, 7).expect("create succeeds");
    assert_eq!(id, 1);
    let got = items.get_one(&meta, &code, 1).expect("record exists");
    assert_eq!(get_num(&got, "id"), 1);
    assert_eq!(get_num(&got, "gmt_create"), 7);
    assert_eq!(get_num(&got, "gmt_modified"), 7);
}

#[test]
fn long_text_slots_take_text_or_null() {
    let mut meta = MetaStore::new();
    meta.create(def("note", "bio", "text1"), 0);
    let mut items = ItemStore::new();
    let code = "note".to_string();
    items
        .create(&meta, &code, &body(&[("bio", Value::Text("hi".to_string()))]), 0)
        .expect("create succeeds");
    items.create(&meta, &code, &body(&[("bio", Value::Null)]), 0).expect("create succeeds");
    items.create(&meta, &code, &body(&[]), 0).expect("create succeeds");
    let rows = items.list(&meta, &code, &Pagination::default());
    assert_eq!(get_text(&rows[0], "bio"), "hi");
    assert!(matches!(get_value(&rows[1], "bio"), Some(Value::Null)));
    assert!(matches!(get_value(&rows[2], "bio"), Some(Value::Null)));
}

#[test]
fn record_type_cannot_change_by_update() {
    let meta = user_meta();
    let mut items = ItemStore::new();
    items
        .create(&meta, &"user".to_string(), &body(&[("age", Value::Num(1))]), 0)
        .expect("create succeeds");
    let err = items
        .update(&meta, &"order".to_string(), 1, &body(&[("age", Value::Num(2))]), 0)
        .unwrap_err();
    assert_eq!(err, StoreError::NotFound);
    let got = items.get_one(&meta, &"user".to_string(), 1).expect("record exists");
    assert_eq!(get_num(&got, "age"), 1);
}
