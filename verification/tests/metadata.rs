//! The metadata of cells.
use indexmap::IndexMap;
use nota_bene::fixtures::Fixture;
use nota_bene::json::{parse_json, print_pretty, Json, JsonMap};
use nota_bene::metadata::{
    read_data, read_fixture, read_nota_bene, read_test, NotaBeneData, NotaBeneView, ShaEntry,
    TestMeta,
};
use serde_json::Value;

/// An object with the given members.
fn object(members: Vec<(&str, Value)>) -> Value {
    Value::Object(members.into_iter().map(|(k, v)| (k.to_string(), v)).collect())
}

/// A JSON value as the library has it.
fn lib(value: &Value) -> Json {
    parse_json(&serde_json::to_string(value).unwrap()).unwrap()
}

/// A JSON value of the library.
fn val(json: &Json) -> Value {
    serde_json::from_str(&print_pretty(json).unwrap()).unwrap()
}

/// A JSON value from its text.
fn json(text: &str) -> Json {
    parse_json(text).unwrap()
}

/// The metadata object.
fn nb(additional: &JsonMap) -> Value {
    val(additional.get("nota-bene").unwrap())
}

fn make_additional(nb_val: Value) -> JsonMap {
    let mut m = JsonMap::new();
    m.insert("nota-bene".to_string(), lib(&nb_val));
    m
}

// --- read_nota_bene ---

#[test]
fn read_absent_key_returns_none() {
    assert!(read_nota_bene(&JsonMap::new()).is_none());
}

#[test]
fn read_present_key_returns_some() {
    let add = make_additional(object(vec![("diff", Value::from("some diff"))]));
    assert!(read_nota_bene(&add).is_some());
}

#[test]
fn read_malformed_value_returns_some_default() {
    // A non-object value silently falls back to Default.
    let add = make_additional(Value::from(42));
    let data = read_nota_bene(&add).expect("expected Some");
    assert!(data.diff.is_none());
    assert!(data.fixtures.is_none());
    assert!(data.test.is_none());
}

// --- source_lines serde (tested through Fixture / TestMeta) ---

#[test]
fn fixture_source_from_plain_string() {
    let f: Fixture =
        read_fixture(&json(r#"{"description":"d","priority":1,"source":"x = 1"}"#)).unwrap();
    assert_eq!(f.source, "x = 1");
}

#[test]
fn fixture_source_from_array_of_strings() {
    let f: Fixture = read_fixture(&json(
        r#"{"description":"d","priority":1,"source":["x = 1\n","y = 2"]}"#,
    ))
    .unwrap();
    assert_eq!(f.source, "x = 1\ny = 2");
}

#[test]
fn fixture_source_from_empty_array() {
    let f: Fixture =
        read_fixture(&json(r#"{"description":"d","priority":1,"source":[]}"#)).unwrap();
    assert_eq!(f.source, "");
}

#[test]
fn test_meta_source_from_array() {
    let t: TestMeta =
        read_test(&json(r#"{"name":"my_test","source":["assert True\n","assert 1==1"]}"#))
            .unwrap();
    assert_eq!(t.source, "assert True\nassert 1==1");
}

// --- Option<T> on NotaBeneData ---

#[test]
fn nota_bene_data_diff_absent_is_none() {
    let data: NotaBeneData = read_data(&json(r#"{}"#)).unwrap();
    assert!(data.diff.is_none());
}

#[test]
fn nota_bene_data_diff_null_is_none() {
    // null and absent both deserialize to None
    let data: NotaBeneData = read_data(&json(r#"{"diff":null}"#)).unwrap();
    assert!(data.diff.is_none());
}

#[test]
fn nota_bene_data_diff_value_is_some() {
    let data: NotaBeneData = read_data(&json(r#"{"diff":"some patch"}"#)).unwrap();
    assert!(matches!(data.diff, Some(_)));
}

#[test]
fn nota_bene_data_fixtures_null_is_none() {
    let data: NotaBeneData = read_data(&json(r#"{"fixtures":null}"#)).unwrap();
    assert!(data.fixtures.is_none());
}

#[test]
fn nota_bene_data_extra_fields_preserved() {
    // Unknown keys land in `extra` and survive round-trips.
    let add = make_additional(object(vec![
        ("editor", object(vec![("role", Value::from("test"))])),
        ("diff", Value::Null),
    ]));
    let data = read_nota_bene(&add).expect("expected Some");
    assert!(data.extra.contains_key("editor"));
}

// --- NotaBeneView ---

fn fresh() -> JsonMap {
    JsonMap::new()
}

#[test]
fn view_ensure_nb_object_creates_empty_object() {
    let mut add = fresh();
    NotaBeneView::new(&mut add).ensure_nb_object();
    assert!(nb(&add).is_object());
}

#[test]
fn view_ensure_nb_object_is_idempotent() {
    let mut add = fresh();
    {
        let mut v = NotaBeneView::new(&mut add);
        v.ensure_nb_object().insert("x".to_string(), lib(&Value::from(1)));
    }
    // Calling again should not overwrite existing content.
    NotaBeneView::new(&mut add).ensure_nb_object();
    assert_eq!(nb(&add)["x"], Value::from(1));
}

#[test]
fn view_mark_addressed_creates_nb_key() {
    let mut add = fresh();
    NotaBeneView::new(&mut add).mark_addressed();
    assert!(add.contains_key("nota-bene"));
}

#[test]
fn view_set_diff_stores_string() {
    let mut add = fresh();
    NotaBeneView::new(&mut add).set_diff(Some("patch".to_string()));
    assert_eq!(nb(&add)["diff"], Value::from("patch"));
}

#[test]
fn view_set_diff_none_removes_key() {
    let mut add = fresh();
    NotaBeneView::new(&mut add).set_diff(Some("x".to_string()));
    NotaBeneView::new(&mut add).set_diff(None);
    assert!(!nb(&add).as_object().unwrap().contains_key("diff"));
}

#[test]
fn view_set_fixtures_some_stores_map() {
    let mut add = fresh();
    let mut map = IndexMap::new();
    map.insert(
        "f1".to_string(),
        Fixture {
            description: "desc".to_string(),
            priority: 1,
            source: "x = 1".to_string(),
        },
    );
    NotaBeneView::new(&mut add).set_fixtures(Some(map));
    assert!(nb(&add)["fixtures"].is_object());
    assert_eq!(nb(&add)["fixtures"]["f1"]["priority"], Value::from(1));
}

#[test]
fn view_set_fixtures_none_removes_key() {
    let mut add = fresh();
    // First write a fixture, then set to None → key removed
    let mut map = IndexMap::new();
    map.insert(
        "f1".to_string(),
        Fixture {
            description: "d".to_string(),
            priority: 0,
            source: "x = 1".to_string(),
        },
    );
    NotaBeneView::new(&mut add).set_fixtures(Some(map));
    NotaBeneView::new(&mut add).set_fixtures(None);
    assert!(!nb(&add)
        .as_object()
        .unwrap()
        .contains_key("fixtures"));
}

#[test]
fn view_set_test_stores_name_and_source() {
    let mut add = fresh();
    NotaBeneView::new(&mut add).set_test(Some(TestMeta {
        name: "my_test".to_string(),
        source: "assert True".to_string(),
    }));
    assert_eq!(nb(&add)["test"]["name"], Value::from("my_test"));
    assert_eq!(nb(&add)["test"]["source"], Value::from("assert True"));
}

#[test]
fn view_set_test_none_removes_key() {
    let mut add = fresh();
    NotaBeneView::new(&mut add).set_test(Some(TestMeta {
        name: "t".to_string(),
        source: "s".to_string(),
    }));
    NotaBeneView::new(&mut add).set_test(None);
    assert!(!nb(&add).as_object().unwrap().contains_key("test"));
}

#[test]
fn view_set_shas_stores_entries() {
    let mut add = fresh();
    let shas = vec![ShaEntry {
        cell_id: "c1".to_string(),
        sha: "abc123".to_string(),
    }];
    NotaBeneView::new(&mut add).set_shas(shas);
    assert_eq!(nb(&add)["shas"][0]["cell_id"], Value::from("c1"));
    assert_eq!(nb(&add)["shas"][0]["sha"], Value::from("abc123"));
}

#[test]
fn view_remove_field_removes_existing_key() {
    let mut add = fresh();
    NotaBeneView::new(&mut add).set_diff(Some("d".to_string()));
    NotaBeneView::new(&mut add).remove_field("diff");
    assert!(!nb(&add).as_object().unwrap().contains_key("diff"));
}

#[test]
fn view_remove_field_is_no_op_when_key_absent() {
    let mut add = fresh();
    NotaBeneView::new(&mut add).mark_addressed();
    // Should not panic.
    NotaBeneView::new(&mut add).remove_field("nonexistent");
}

#[test]
fn view_remove_field_is_no_op_when_nb_key_missing() {
    let mut add = fresh();
    // nota-bene key doesn't exist; should not panic.
    NotaBeneView::new(&mut add).remove_field("diff");
}
