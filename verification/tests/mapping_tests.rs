use configstore::codec::{decode, encode};
use configstore::item::{ItemStore, Record};
use configstore::mapping::{parse_column, resolve};
use configstore::meta::{MappingDefinition, MetaStore};
use configstore::slot::{empty_slots, SlotId};
use configstore::value::{lookup, Value};

fn def(code: &str, property: &str, column: &str) -> MappingDefinition {
    MappingDefinition {
        id: 0,
        code: code.to_string(),
        property: property.to_string(),
        column_name: column.to_string(),
        description: String::new(),
        sort: 0,
        gmt_create: 0,
        gmt_modified: 0,
    }
}

fn get_value(map: &Vec<(String, Value)>, key: &str) -> Option<Value> {
    lookup(map, &key.to_string())
}

#[test]
fn column_names_parse_to_slots() {
    assert_eq!(parse_column(&"varchar1".to_string()), Some(SlotId::Varchar1));
    assert_eq!(parse_column(&"varchar5".to_string()), Some(SlotId::Varchar5));
    assert_eq!(parse_column(&"text3".to_string()), Some(SlotId::Text3));
    assert_eq!(parse_column(&"decimal2".to_string()), Some(SlotId::Decimal2));
    assert_eq!(parse_column(&"datetime3".to_string()), Some(SlotId::Datetime3));
    assert_eq!(parse_column(&"id".to_string()), None);
    assert_eq!(parse_column(&"varchar6".to_string()), None);
    assert_eq!(parse_column(&"".to_string()), None);
}

#[test]
fn resolve_collects_definitions_for_the_code_only() {
    let mut meta = MetaStore::new();
    meta.create(def("user", "name", "varchar1"), 0);
    meta.create(def("order", "total", "decimal1"), 0);
    let m = resolve(&meta, &"user".to_string());
    assert_eq!(m.pairs.len(), 1);
    assert_eq!(m.pairs[0].0, SlotId::Varchar1);
    assert_eq!(m.pairs[0].1, "name");
}

#[test]
fn resolve_ignores_unknown_columns_and_system_names() {
    let mut meta = MetaStore::new();
    meta.create(def("user", "alias", "id"), 0);
    meta.create(def("user", "alias", "nosuchcolumn"), 0);
    meta.create(def("user", "id", "varchar1"), 0);
    meta.create(def("user", "gmt_create", "varchar2"), 0);
    let m = resolve(&meta, &"user".to_string());
    assert_eq!(m.pairs.len(), 0);
}

#[test]
fn resolve_lets_the_latest_definition_win() {
    let mut meta = MetaStore::new();
    meta.create(def("user", "first", "varchar1"), 0);
    meta.create(def("user", "name", "varchar1"), 0);
    let m = resolve(&meta, &"user".to_string());
    assert_eq!(m.pairs.len(), 1);
    assert_eq!(m.pairs[0].0, SlotId::Varchar1);
    assert_eq!(m.pairs[0].1, "name");

    let mut meta2 = MetaStore::new();
    meta2.create(def("user", "name", "varchar1"), 0);
    meta2.create(def("user", "name", "varchar2"), 0);
    let m2 = resolve(&meta2, &"user".to_string());
    assert_eq!(m2.pairs.len(), 1);
    assert_eq!(m2.pairs[0].0, SlotId::Varchar2);
    assert_eq!(m2.pairs[0].1, "name");
}

#[test]
fn encode_then_decode_round_trips_mapped_properties() {
    let mut meta = MetaStore::new();
    meta.create(def("user", "name", "varchar1"), 0);
    meta.create(def("user", "age", "decimal1"), 0);
    meta.create(def("user", "seen", "datetime1"), 0);
    meta.create(def("user", "bio", "text1"), 0);
    let m = resolve(&meta, &"user".to_string());
    let logical = vec![
        ("name".to_string(), Value::Text("Alice".to_string())),
        ("age".to_string(), Value::Num(-12)),
        ("seen".to_string(), Value::Num(1700000000)),
        ("bio".to_string(), Value::Null),
    ];
    let slots = encode(&m, &logical).expect("everything fits");
    let rec = Record {
        id: 1,
        meta_code: "user".to_string(),
        parent_id: 0,
        sort: 0,
        slots,
        gmt_create: 0,
        gmt_modified: 0,
    };
    let decoded = decode(&m, &rec);
    assert!(matches!(get_value(&decoded, "name"), Some(Value::Text(t)) if t == "Alice"));
    assert!(matches!(get_value(&decoded, "age"), Some(Value::Num(-12))));
    assert!(matches!(get_value(&decoded, "seen"), Some(Value::Num(1700000000))));
    assert!(matches!(get_value(&decoded, "bio"), Some(Value::Null)));
}

#[test]
fn decode_presents_only_system_and_mapped_properties() {
    let mut meta = MetaStore::new();
    meta.create(def("user", "name", "varchar1"), 0);
    let m = resolve(&meta, &"user".to_string());
    let rec = Record {
        id: 4,
        meta_code: "user".to_string(),
        parent_id: 2,
        sort: 9,
        slots: empty_slots(),
        gmt_create: 10,
        gmt_modified: 20,
    };
    let decoded = decode(&m, &rec);
    assert_eq!(decoded.len(), 6);
    assert!(matches!(get_value(&decoded, "id"), Some(Value::Num(4))));
    assert!(matches!(get_value(&decoded, "parent_id"), Some(Value::Num(2))));
    assert!(matches!(get_value(&decoded, "sort"), Some(Value::Num(9))));
    assert!(matches!(get_value(&decoded, "gmt_create"), Some(Value::Num(10))));
    assert!(matches!(get_value(&decoded, "gmt_modified"), Some(Value::Num(20))));
    assert!(matches!(get_value(&decoded, "name"), Some(Value::Text(t)) if t.is_empty()));
    assert!(get_value(&decoded, "varchar2").is_none());
    assert!(get_value(&decoded, "meta_code").is_none());
}

#[test]
fn a_record_presents_differently_when_the_mapping_changes() {
    let mut meta = MetaStore::new();
    meta.create(def("user", "name", "varchar1"), 0);
    let mut items = ItemStore::new();
    let code = "user".to_string();
    let input = vec![("name".to_string(), Value::Text("Alice".to_string()))];
    items.create(&meta, &code, &input, 0).expect("create succeeds");

    meta.create(def("user", "label", "varchar1"), 0);
    let got = items.get_one(&meta, &code, 1).expect("record exists");
    assert!(get_value(&got, "name").is_none());
    assert!(matches!(get_value(&got, "label"), Some(Value::Text(t)) if t == "Alice"));
}
