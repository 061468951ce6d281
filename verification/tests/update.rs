//! Updates.
use nota_bene::diagnostics::{DiagnosticType, Severity};
use nota_bene::json::{parse_json, Json, JsonMap};
use nota_bene::notebook::{
    blank_cell_metadata, Cell, CellBody, CellExt, CellId, CellMetadata, Metadata, Notebook,
};
use nota_bene::update::{
    apply_updates, parse_updates, validate_updates, CellUpdate, UpdateField,
};
use serde_json::Value;

/// An object with the given members.
fn object(members: Vec<(&str, Value)>) -> Value {
    Value::Object(members.into_iter().map(|(k, v)| (k.to_string(), v)).collect())
}

/// A JSON value as the library has it.
fn lib(value: &Value) -> Json {
    parse_json(&serde_json::to_string(value).unwrap()).unwrap()
}

/// Notebook metadata without any field.
fn blank_metadata() -> Metadata {
    Metadata { standard: JsonMap::new(), additional: JsonMap::new() }
}

/// A code cell that was never run.
fn code(id: &str, metadata: CellMetadata, source: Vec<String>) -> Cell {
    Cell {
        id: CellId::new(id).unwrap(),
        metadata,
        source,
        body: CellBody::Code { execution_count: None, outputs: vec![] },
    }
}

fn plain_cell(id: &str, source: &str) -> Cell {
    code(id, blank_cell_metadata(), vec![source.to_string()])
}

fn cell_with_nb(id: &str, source: &str, nb_val: Value) -> Cell {
    let mut meta = blank_cell_metadata();
    meta.additional.insert("nota-bene".to_string(), lib(&nb_val));
    code(id, meta, vec![source.to_string()])
}

fn notebook(cells: Vec<Cell>) -> Notebook {
    Notebook {
        metadata: blank_metadata(),
        nbformat: 4,
        nbformat_minor: 5,
        cells,
    }
}

// ---- parse_updates ----

#[test]
fn parse_single_object() {
    let updates = parse_updates(r#"{"cell_id": "c1"}"#).unwrap();
    assert_eq!(updates.len(), 1);
    assert_eq!(updates[0].cell_id, "c1");
}

#[test]
fn parse_array() {
    let updates = parse_updates(r#"[{"cell_id": "c1"}, {"cell_id": "c2"}]"#).unwrap();
    assert_eq!(updates.len(), 2);
    assert_eq!(updates[1].cell_id, "c2");
}

#[test]
fn parse_empty_array() {
    let updates = parse_updates("[]").unwrap();
    assert!(updates.is_empty());
}

#[test]
fn parse_non_object_non_array_rejected() {
    assert!(parse_updates(r#""hello""#).is_err());
    assert!(parse_updates("42").is_err());
    assert!(parse_updates("true").is_err());
}

#[test]
fn parse_malformed_json_rejected() {
    assert!(parse_updates("{not json}").is_err());
}

#[test]
fn parse_missing_cell_id_rejected() {
    assert!(parse_updates(r#"{"test": null}"#).is_err());
}

#[test]
fn parse_non_string_cell_id_rejected() {
    assert!(parse_updates(r#"{"cell_id": 42}"#).is_err());
}

// ---- CellUpdate::from_value / UpdateField ----

#[test]
fn from_value_absent_fields() {
    let v = object(vec![("cell_id", Value::from("c1"))]);
    let u = CellUpdate::from_value(&lib(&v)).unwrap();
    assert!(matches!(u.fixtures, UpdateField::Absent));
    assert!(matches!(u.diff, UpdateField::Absent));
    assert!(matches!(u.test, UpdateField::Absent));
}

#[test]
fn from_value_null_fields() {
    let v = object(vec![
        ("cell_id", Value::from("c1")),
        ("fixtures", Value::Null),
        ("diff", Value::Null),
        ("test", Value::Null),
    ]);
    let u = CellUpdate::from_value(&lib(&v)).unwrap();
    assert!(matches!(u.fixtures, UpdateField::Null));
    assert!(matches!(u.diff, UpdateField::Null));
    assert!(matches!(u.test, UpdateField::Null));
}

#[test]
fn from_value_present_fields() {
    let v = object(vec![
        ("cell_id", Value::from("c1")),
        (
            "fixtures",
            object(vec![
                (
                    "f1",
                    object(vec![
                        ("description", Value::from("d")),
                        ("priority", Value::from(1)),
                        ("source", Value::from("s")),
                    ]),
                ),
            ]),
        ),
        ("diff", Value::from("some diff")),
        ("test", object(vec![("name", Value::from("t")), ("source", Value::from("s"))])),
    ]);
    let u = CellUpdate::from_value(&lib(&v)).unwrap();
    assert!(matches!(u.fixtures, UpdateField::Value(_)));
    assert!(matches!(u.diff, UpdateField::Value(_)));
    assert!(matches!(u.test, UpdateField::Value(_)));
}

// ---- validate_updates ----

#[test]
fn validate_unknown_cell() {
    let nb = notebook(vec![plain_cell("c1", "x = 1")]);
    let updates = parse_updates(r#"{"cell_id": "nonexistent"}"#).unwrap();
    let diags = validate_updates(&updates, &nb);
    assert_eq!(diags.len(), 1);
    assert_eq!(diags[0].kind, DiagnosticType::InvalidField);
    assert_eq!(diags[0].severity, Severity::Error);
}

#[test]
fn validate_fixtures_not_object() {
    let nb = notebook(vec![plain_cell("c1", "x = 1")]);
    let updates = parse_updates(r#"{"cell_id": "c1", "fixtures": 42}"#).unwrap();
    let diags = validate_updates(&updates, &nb);
    assert!(diags
        .iter()
        .any(|d| d.kind == DiagnosticType::InvalidField && d.field == "fixtures"));
}

#[test]
fn validate_fixture_missing_required_fields() {
    let nb = notebook(vec![plain_cell("c1", "x = 1")]);
    let updates =
        parse_updates(r#"{"cell_id": "c1", "fixtures": {"f1": {"description": "d"}}}"#)
            .unwrap();
    let diags = validate_updates(&updates, &nb);
    let fields: Vec<&str> = diags.iter().map(|d| d.field.as_str()).collect();
    assert!(fields.contains(&"fixtures.f1.priority"));
    assert!(fields.contains(&"fixtures.f1.source"));
}

#[test]
fn validate_fixture_wrong_types() {
    let nb = notebook(vec![plain_cell("c1", "x = 1")]);
    let updates = parse_updates(
        r#"{"cell_id": "c1", "fixtures": {"f1": {"description": 42, "priority": "bad", "source": 99}}}"#,
    )
    .unwrap();
    let diags = validate_updates(&updates, &nb);
    assert_eq!(diags.len(), 3);
    assert!(diags
        .iter()
        .all(|d| d.kind == DiagnosticType::InvalidField));
}

#[test]
fn validate_fixture_null_entry_skipped() {
    let nb = notebook(vec![plain_cell("c1", "x = 1")]);
    let updates =
        parse_updates(r#"{"cell_id": "c1", "fixtures": {"remove_me": null}}"#).unwrap();
    let diags = validate_updates(&updates, &nb);
    assert!(diags.is_empty());
}

#[test]
fn validate_fixture_not_object_entry() {
    let nb = notebook(vec![plain_cell("c1", "x = 1")]);
    let updates = parse_updates(r#"{"cell_id": "c1", "fixtures": {"f1": "bad"}}"#).unwrap();
    let diags = validate_updates(&updates, &nb);
    assert!(diags
        .iter()
        .any(|d| d.kind == DiagnosticType::InvalidField && d.field == "fixtures.f1"));
}

#[test]
fn validate_test_missing_name() {
    let nb = notebook(vec![plain_cell("c1", "x = 1")]);
    let updates = parse_updates(r#"{"cell_id": "c1", "test": {"source": "s"}}"#).unwrap();
    let diags = validate_updates(&updates, &nb);
    assert!(diags
        .iter()
        .any(|d| d.kind == DiagnosticType::InvalidField && d.field == "test.name"));
}

#[test]
fn validate_test_missing_source() {
    let nb = notebook(vec![plain_cell("c1", "x = 1")]);
    let updates = parse_updates(r#"{"cell_id": "c1", "test": {"name": "t"}}"#).unwrap();
    let diags = validate_updates(&updates, &nb);
    assert!(diags
        .iter()
        .any(|d| d.kind == DiagnosticType::InvalidField && d.field == "test.source"));
}

#[test]
fn validate_test_wrong_name_type() {
    let nb = notebook(vec![plain_cell("c1", "x = 1")]);
    let updates =
        parse_updates(r#"{"cell_id": "c1", "test": {"name": 42, "source": "s"}}"#).unwrap();
    let diags = validate_updates(&updates, &nb);
    assert!(diags
        .iter()
        .any(|d| d.kind == DiagnosticType::InvalidField && d.field == "test.name"));
}

#[test]
fn validate_test_wrong_source_type() {
    let nb = notebook(vec![plain_cell("c1", "x = 1")]);
    let updates =
        parse_updates(r#"{"cell_id": "c1", "test": {"name": "t", "source": 42}}"#).unwrap();
    let diags = validate_updates(&updates, &nb);
    assert!(diags
        .iter()
        .any(|d| d.kind == DiagnosticType::InvalidField && d.field == "test.source"));
}

#[test]
fn validate_test_not_object() {
    let nb = notebook(vec![plain_cell("c1", "x = 1")]);
    let updates = parse_updates(r#"{"cell_id": "c1", "test": "bad"}"#).unwrap();
    let diags = validate_updates(&updates, &nb);
    assert!(diags
        .iter()
        .any(|d| d.kind == DiagnosticType::InvalidField && d.field == "test"));
}

#[test]
fn validate_diff_wrong_type() {
    let nb = notebook(vec![plain_cell("c1", "x = 1")]);
    let updates = parse_updates(r#"{"cell_id": "c1", "diff": 42}"#).unwrap();
    let diags = validate_updates(&updates, &nb);
    assert!(diags
        .iter()
        .any(|d| d.kind == DiagnosticType::InvalidField && d.field == "diff"));
}

#[test]
fn validate_valid_update_no_diagnostics() {
    let nb = notebook(vec![plain_cell("c1", "x = 1")]);
    let updates = parse_updates(
        r#"{
        "cell_id": "c1",
        "test": {"name": "t", "source": "s"},
        "diff": "d",
        "fixtures": {"f": {"description": "d", "priority": 1, "source": "s"}}
    }"#,
    )
    .unwrap();
    let diags = validate_updates(&updates, &nb);
    assert!(diags.is_empty());
}

// ---- apply_updates ----

#[test]
fn apply_absent_fields_no_op() {
    let cell = cell_with_nb(
        "c1",
        "x = 1",
        object(vec![
            ("test", object(vec![("name", Value::from("t")), ("source", Value::from("s"))])),
            ("diff", Value::from("d")),
        ]),
    );
    let mut nb = notebook(vec![cell]);
    let updates = parse_updates(r#"{"cell_id": "c1"}"#).unwrap();
    apply_updates(updates, &mut nb).unwrap();
    let data = nb.cells[0].nota_bene().unwrap();
    assert!(data.test.is_some(), "test should be preserved");
    assert!(data.diff.is_some(), "diff should be preserved");
}

#[test]
fn apply_null_clears_fields() {
    let cell = cell_with_nb(
        "c1",
        "x = 1",
        object(vec![
            ("test", object(vec![("name", Value::from("t")), ("source", Value::from("s"))])),
            ("diff", Value::from("d")),
            (
                "fixtures",
                object(vec![
                    (
                        "f",
                        object(vec![
                            ("description", Value::from("d")),
                            ("priority", Value::from(1)),
                            ("source", Value::from("s")),
                        ]),
                    ),
                ]),
            ),
        ]),
    );
    let mut nb = notebook(vec![cell]);
    let updates =
        parse_updates(r#"{"cell_id": "c1", "test": null, "diff": null, "fixtures": null}"#)
            .unwrap();
    apply_updates(updates, &mut nb).unwrap();
    let data = nb.cells[0].nota_bene().unwrap();
    assert!(data.test.is_none());
    assert!(data.diff.is_none());
    assert!(data.fixtures.is_none());
}

#[test]
fn apply_set_test() {
    let mut nb = notebook(vec![plain_cell("c1", "x = 1")]);
    let updates =
        parse_updates(r#"{"cell_id": "c1", "test": {"name": "t1", "source": "assert True"}}"#)
            .unwrap();
    apply_updates(updates, &mut nb).unwrap();
    let data = nb.cells[0].nota_bene().unwrap();
    let test = data.test.unwrap();
    assert_eq!(test.name, "t1");
    assert_eq!(test.source, "assert True");
}

#[test]
fn apply_set_diff() {
    let mut nb = notebook(vec![plain_cell("c1", "x = 1")]);
    let updates = parse_updates(r#"{"cell_id": "c1", "diff": "some diff"}"#).unwrap();
    apply_updates(updates, &mut nb).unwrap();
    let data = nb.cells[0].nota_bene().unwrap();
    assert_eq!(data.diff.unwrap(), "some diff");
}

#[test]
fn apply_fixture_merge_upsert() {
    let cell = cell_with_nb(
        "c1",
        "x = 1",
        object(vec![
            (
                "fixtures",
                object(vec![
                    (
                        "existing",
                        object(vec![
                            ("description", Value::from("old")),
                            ("priority", Value::from(0)),
                            ("source", Value::from("old_src")),
                        ]),
                    ),
                ]),
            ),
        ]),
    );
    let mut nb = notebook(vec![cell]);
    let updates = parse_updates(
        r#"{
        "cell_id": "c1",
        "fixtures": {
            "new_fix": {"description": "new", "priority": 1, "source": "new_src"}
        }
    }"#,
    )
    .unwrap();
    apply_updates(updates, &mut nb).unwrap();
    let data = nb.cells[0].nota_bene().unwrap();
    let fixtures = data.fixtures.unwrap();
    assert!(
        fixtures.contains_key("existing"),
        "existing fixture preserved"
    );
    assert!(fixtures.contains_key("new_fix"), "new fixture added");
}

#[test]
fn apply_fixture_merge_update_existing() {
    let cell = cell_with_nb(
        "c1",
        "x = 1",
        object(vec![
            (
                "fixtures",
                object(vec![
                    (
                        "f1",
                        object(vec![
                            ("description", Value::from("old")),
                            ("priority", Value::from(0)),
                            ("source", Value::from("old")),
                        ]),
                    ),
                ]),
            ),
        ]),
    );
    let mut nb = notebook(vec![cell]);
    let updates = parse_updates(
        r#"{
        "cell_id": "c1",
        "fixtures": {
            "f1": {"description": "updated", "priority": 5, "source": "new"}
        }
    }"#,
    )
    .unwrap();
    apply_updates(updates, &mut nb).unwrap();
    let data = nb.cells[0].nota_bene().unwrap();
    let f1 = &data.fixtures.unwrap()["f1"];
    assert_eq!(f1.description, "updated");
    assert_eq!(f1.priority, 5);
}

#[test]
fn apply_fixture_remove_via_null() {
    let cell = cell_with_nb(
        "c1",
        "x = 1",
        object(vec![
            (
                "fixtures",
                object(vec![
                    (
                        "f1",
                        object(vec![
                            ("description", Value::from("d")),
                            ("priority", Value::from(0)),
                            ("source", Value::from("s")),
                        ]),
                    ),
                    (
                        "f2",
                        object(vec![
                            ("description", Value::from("d")),
                            ("priority", Value::from(0)),
                            ("source", Value::from("s")),
                        ]),
                    ),
                ]),
            ),
        ]),
    );
    let mut nb = notebook(vec![cell]);
    let updates = parse_updates(
        r#"{
        "cell_id": "c1",
        "fixtures": {"f1": null}
    }"#,
    )
    .unwrap();
    apply_updates(updates, &mut nb).unwrap();
    let data = nb.cells[0].nota_bene().unwrap();
    let fixtures = data.fixtures.unwrap();
    assert!(!fixtures.contains_key("f1"), "f1 should be removed");
    assert!(fixtures.contains_key("f2"), "f2 should remain");
}

#[test]
fn apply_removing_all_fixtures_yields_none() {
    let cell = cell_with_nb(
        "c1",
        "x = 1",
        object(vec![
            (
                "fixtures",
                object(vec![
                    (
                        "f1",
                        object(vec![
                            ("description", Value::from("d")),
                            ("priority", Value::from(0)),
                            ("source", Value::from("s")),
                        ]),
                    ),
                ]),
            ),
        ]),
    );
    let mut nb = notebook(vec![cell]);
    let updates = parse_updates(
        r#"{
        "cell_id": "c1",
        "fixtures": {"f1": null}
    }"#,
    )
    .unwrap();
    apply_updates(updates, &mut nb).unwrap();
    let data = nb.cells[0].nota_bene().unwrap();
    assert!(
        data.fixtures.is_none(),
        "fixtures should be None when all removed"
    );
}

#[test]
fn apply_ensures_nb_key_exists() {
    let mut nb = notebook(vec![plain_cell("c1", "x = 1")]);
    let updates = parse_updates(r#"{"cell_id": "c1"}"#).unwrap();
    apply_updates(updates, &mut nb).unwrap();
    assert!(nb.cells[0].nota_bene().is_some(), "nota-bene key should exist");
}
