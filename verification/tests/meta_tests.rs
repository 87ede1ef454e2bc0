use configstore::common::{Pagination, StoreError};
use configstore::meta::{ConfigMetaUpdate, Filter, MappingDefinition, MetaStore};

fn def(code: &str, property: &str, column: &str) -> MappingDefinition {
    MappingDefinition {
        id: 0,
        code: code.to_string(),
        property: property.to_string(),
        column_name: column.to_string(),
        description: String::new(),
        sort: 0,
        gmt_create: 0,
        gmt_modified: 0,
    }
}

fn no_change() -> ConfigMetaUpdate {
    ConfigMetaUpdate {
        code: None,
        property: None,
        column_name: None,
        description: None,
        sort: None,
    }
}

#[test]
fn pagination_defaults_to_first_ten() {
    let p = Pagination::default();
    assert_eq!(p.offset, 0);
    assert_eq!(p.limit, 10);
}

#[test]
fn create_assigns_identifier_and_timestamps() {
    let mut store = MetaStore::new();
    let mut input = def("user", "name", "varchar1");
    input.id = 99;
    input.gmt_create = 77;
    input.gmt_modified = 88;
    let created = store.create(input, 5);
    assert_eq!(created.id, 1);
    assert_eq!(created.code, "user");
    assert_eq!(created.property, "name");
    assert_eq!(created.column_name, "varchar1");
    assert_eq!(created.gmt_create, 5);
    assert_eq!(created.gmt_modified, 5);
    let second = store.create(def("user", "age", "decimal1"), 6);
    assert_eq!(second.id, 2);
}

#[test]
fn list_filters_by_code() {
    let mut store = MetaStore::new();
    store.create(def("user", "name", "varchar1"), 0);
    store.create(def("order", "total", "decimal1"), 0);
    store.create(def("user", "age", "decimal2"), 0);
    let page = Pagination::default();
    let users = store.list(&Filter { code: Some("user".to_string()) }, &page);
    assert_eq!(users.len(), 2);
    assert_eq!(users[0].property, "name");
    assert_eq!(users[1].property, "age");
    let all = store.list(&Filter { code: None }, &page);
    assert_eq!(all.len(), 3);
}

#[test]
fn list_windows_are_exact_and_stable() {
    let mut store = MetaStore::new();
    for i in 0..5 {
        store.create(def("user", &format!("p{}", i), "varchar1"), 0);
    }
    let filter = Filter { code: None };
    let first = store.list(&filter, &Pagination { offset: 0, limit: 3 });
    assert_eq!(first.len(), 3);
    assert_eq!(first[0].id, 1);
    assert_eq!(first[2].id, 3);
    let rest = store.list(&filter, &Pagination { offset: 3, limit: 10 });
    assert_eq!(rest.len(), 2);
    assert_eq!(rest[0].id, 4);
    assert_eq!(rest[1].id, 5);
    let again = store.list(&filter, &Pagination { offset: 0, limit: 3 });
    assert_eq!(again.len(), 3);
    assert_eq!(again[0].id, first[0].id);
    let beyond = store.list(&filter, &Pagination { offset: 9, limit: 10 });
    assert_eq!(beyond.len(), 0);
}

#[test]
fn list_clamps_negative_pagination() {
    let mut store = MetaStore::new();
    store.create(def("user", "name", "varchar1"), 0);
    let filter = Filter { code: None };
    let clamped_offset = store.list(&filter, &Pagination { offset: -4, limit: 10 });
    assert_eq!(clamped_offset.len(), 1);
    let clamped_limit = store.list(&filter, &Pagination { offset: 0, limit: -1 });
    assert_eq!(clamped_limit.len(), 0);
}

#[test]
fn get_one_finds_by_identifier() {
    let mut store = MetaStore::new();
    store.create(def("user", "name", "varchar1"), 0);
    store.create(def("user", "age", "decimal1"), 0);
    let found = store.get_one(2).expect("row 2 exists");
    assert_eq!(found.property, "age");
    assert!(store.get_one(3).is_none());
}

#[test]
fn update_changes_only_supplied_fields() {
    let mut store = MetaStore::new();
    store.create(def("user", "name", "varchar1"), 5);
    let upd = ConfigMetaUpdate {
        property: Some("full_name".to_string()),
        ..no_change()
    };
    let updated = store.update(1, upd, 9).expect("row exists");
    assert_eq!(updated.property, "full_name");
    assert_eq!(updated.code, "user");
    assert_eq!(updated.column_name, "varchar1");
    assert_eq!(updated.gmt_create, 5);
    assert_eq!(updated.gmt_modified, 9);
    let stored = store.get_one(1).expect("row exists");
    assert_eq!(stored.property, "full_name");
}

#[test]
fn update_with_no_fields_is_not_found() {
    let mut store = MetaStore::new();
    store.create(def("user", "name", "varchar1"), 0);
    let err = store.update(1, no_change(), 9).unwrap_err();
    assert_eq!(err, StoreError::NotFound);
}

#[test]
fn update_of_missing_row_is_not_found() {
    let mut store = MetaStore::new();
    let upd = ConfigMetaUpdate {
        property: Some("x".to_string()),
        ..no_change()
    };
    let err = store.update(7, upd, 9).unwrap_err();
    assert_eq!(err, StoreError::NotFound);
}

#[test]
fn meta_delete_reports_one_then_zero() {
    let mut store = MetaStore::new();
    store.create(def("user", "name", "varchar1"), 0);
    assert_eq!(store.delete(1), 1);
    assert_eq!(store.delete(1), 0);
    assert!(store.get_one(1).is_none());
}
