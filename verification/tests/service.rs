use crud_lambda::assoc::{kv_get, kv_set};
use crud_lambda::crud::{prepare_create, require_found, CrudError};
use crud_lambda::json::JsonValue;
use crud_lambda::store::Table;

fn s(x: &str) -> String {
    x.to_string()
}

#[test]
fn create_then_get_round_trip() {
    let mut table = Table::new();
    let body = JsonValue::Obj(vec![(s("name"), JsonValue::Str(s("foo")))]);
    let (rec, id) = prepare_create(body, &s("id")).expect("object body");
    table.put(id.clone(), rec);

    let got = table.get(&id).expect("record was just created");
    assert_eq!(kv_get(got, &s("name")), Some(&JsonValue::Str(s("foo"))));
    assert_eq!(kv_get(got, &s("id")), Some(&JsonValue::Str(id.clone())));
}

#[test]
fn create_overwrites_client_supplied_key() {
    let body = JsonValue::Obj(vec![
        (s("id"), JsonValue::Str(s("attacker-chosen"))),
        (s("name"), JsonValue::Str(s("foo"))),
    ]);
    let (rec, id) = prepare_create(body, &s("id")).expect("object body");
    assert_ne!(id, s("attacker-chosen"));
    assert_eq!(kv_get(&rec, &s("id")), Some(&JsonValue::Str(id)));
}

#[test]
fn created_ids_are_fresh() {
    let (_, id1) = prepare_create(JsonValue::Obj(vec![]), &s("id")).unwrap();
    let (_, id2) = prepare_create(JsonValue::Obj(vec![]), &s("id")).unwrap();
    assert_ne!(id1, id2);
    assert_eq!(id1.chars().count(), 36);
}

#[test]
fn create_rejects_non_object_body() {
    let r = prepare_create(JsonValue::Int(3), &s("id"));
    assert_eq!(r, Err(CrudError::NotAnObject));
    assert_eq!(CrudError::NotAnObject.status_code(), 400);
}

#[test]
fn missing_record_maps_to_not_found() {
    let r = require_found(None);
    assert_eq!(r, Err(CrudError::NotFound));
    assert_eq!(CrudError::NotFound.status_code(), 404);

    let rec = vec![(s("a"), JsonValue::Int(1))];
    let kept = vec![(s("a"), JsonValue::Int(1))];
    assert_eq!(require_found(Some(rec)), Ok(kept));
}

#[test]
fn delete_is_idempotent() {
    let mut table = Table::new();
    table.put(s("k"), vec![(s("a"), JsonValue::Int(1))]);
    table.delete(&s("k"));
    assert!(table.get(&s("k")).is_none());
    table.delete(&s("k"));
    assert!(table.get(&s("k")).is_none());
}

#[test]
fn update_then_get_drops_null_field() {
    let mut table = Table::new();
    table.put(
        s("k"),
        vec![
            (s("name"), JsonValue::Str(s("foo"))),
            (s("age"), JsonValue::Int(30)),
        ],
    );
    table.update(&s("k"), vec![(s("name"), JsonValue::Null)]);

    let got = table.get(&s("k")).expect("record still present");
    assert_eq!(kv_get(got, &s("name")), None);
    assert_eq!(kv_get(got, &s("age")), Some(&JsonValue::Int(30)));
}

#[test]
fn update_assigns_and_adds_fields() {
    let mut table = Table::new();
    table.put(s("k"), vec![(s("a"), JsonValue::Int(1))]);
    table.update(
        &s("k"),
        vec![
            (s("a"), JsonValue::Str(s("x"))),
            (s("b"), JsonValue::Bool(false)),
        ],
    );

    let got = table.get(&s("k")).expect("record still present");
    assert_eq!(kv_get(got, &s("a")), Some(&JsonValue::Str(s("x"))));
    assert_eq!(kv_get(got, &s("b")), Some(&JsonValue::Bool(false)));
}

#[test]
fn update_of_missing_key_leaves_table_unchanged() {
    let mut table = Table::new();
    table.put(s("k"), vec![(s("a"), JsonValue::Int(1))]);
    table.update(&s("other"), vec![(s("a"), JsonValue::Null)]);

    assert_eq!(table.scan().len(), 1);
    assert!(table.get(&s("other")).is_none());
    let got = table.get(&s("k")).expect("untouched record");
    assert_eq!(kv_get(got, &s("a")), Some(&JsonValue::Int(1)));
}

#[test]
fn scan_returns_every_record() {
    let mut table = Table::new();
    table.put(s("k1"), vec![(s("a"), JsonValue::Int(1))]);
    table.put(s("k2"), vec![(s("a"), JsonValue::Int(2))]);
    let rows = table.scan();
    assert_eq!(rows.len(), 2);
}

#[test]
fn record_insert_or_replace() {
    let mut rec = Vec::new();
    kv_set(&mut rec, s("a"), JsonValue::Int(1));
    kv_set(&mut rec, s("a"), JsonValue::Int(2));
    assert_eq!(rec.len(), 1);
    assert_eq!(kv_get(&rec, &s("a")), Some(&JsonValue::Int(2)));
}
