//! What a cell shows of itself.
use nota_bene::json::{parse_json, print_pretty, Json, JsonMap};
use nota_bene::notebook::{
    blank_cell_metadata, Cell, CellBody, CellExt, CellId, CellMetadata, Metadata, Notebook,
};
use nota_bene::shas::compute_cell_sha;
use nota_bene::view::{parse_fields, CellView};
use serde_json::Value;

/// An object with the given members.
fn object(members: Vec<(&str, Value)>) -> Value {
    Value::Object(members.into_iter().map(|(k, v)| (k.to_string(), v)).collect())
}

/// A value as JSON.
fn value_of<T: serde::Serialize>(value: T) -> Value {
    serde_json::to_value(value).unwrap()
}

/// A JSON value as the library has it.
fn lib(value: &Value) -> Json {
    parse_json(&serde_json::to_string(value).unwrap()).unwrap()
}

/// A JSON value of the library.
fn val(json: &Json) -> Value {
    serde_json::from_str(&print_pretty(json).unwrap()).unwrap()
}

/// Notebook metadata without any field.
fn blank_metadata() -> Metadata {
    Metadata { standard: JsonMap::new(), additional: JsonMap::new() }
}

/// A code cell that was never run.
fn code(id: &str, metadata: CellMetadata, source: Vec<String>) -> Cell {
    Cell {
        id: CellId::new(id).unwrap(),
        metadata,
        source,
        body: CellBody::Code { execution_count: None, outputs: vec![] },
    }
}

fn plain_cell(id: &str, source: &str) -> Cell {
    code(id, blank_cell_metadata(), vec![source.to_string()])
}

fn cell_with_nb(id: &str, source: &str, nb_val: Value) -> Cell {
    let mut meta = blank_cell_metadata();
    meta.additional.insert("nota-bene".to_string(), lib(&nb_val));
    code(id, meta, vec![source.to_string()])
}

fn notebook(cells: Vec<Cell>) -> Notebook {
    Notebook {
        metadata: blank_metadata(),
        nbformat: 4,
        nbformat_minor: 5,
        cells,
    }
}

fn sha_json(cell: &Cell) -> Value {
    object(vec![
        ("cell_id", value_of(&cell.cell_id_str())),
        ("sha", value_of(&compute_cell_sha(cell))),
    ])
}

// --- CellView::from_cell ---

#[test]
fn from_plain_cell_has_no_fixtures_diff_test_and_is_missing() {
    // Plain code cells now produce a Missing diagnostic (bug fix: they must
    // be configured before they can be considered valid).
    let cell = plain_cell("c1", "x = 1");
    let nb = notebook(vec![cell]);
    let view = CellView::from_cell(&nb, 0);
    assert_eq!(view.cell_id, "c1");
    assert_eq!(view.source, "x = 1");
    assert!(view.fixtures.is_none());
    assert!(view.diff.is_none());
    assert!(view.test.is_none());
    assert!(!view.status.valid);
    assert!(view
        .status
        .diagnostics
        .iter()
        .any(|d| d.kind == nota_bene::diagnostics::DiagnosticType::Missing));
}

#[test]
fn from_cell_with_test_includes_test() {
    let cell = cell_with_nb(
        "c1",
        "x = 1",
        object(vec![
            (
                "test",
                object(vec![
                    ("name", Value::from("test_x")),
                    ("source", Value::from("assert x == 1")),
                ]),
            ),
        ]),
    );
    let nb = notebook(vec![cell]);
    let view = CellView::from_cell(&nb, 0);
    assert!(view.test.is_some());
    assert_eq!(view.test.unwrap().name, "test_x");
}

#[test]
fn from_cell_with_shas_valid_is_valid() {
    let raw = plain_cell("c1", "x = 1");
    let shas = Value::Array(vec![sha_json(&raw)]);
    let cell = cell_with_nb("c1", "x = 1", object(vec![("shas", value_of(&shas))]));
    let nb = notebook(vec![cell]);
    let view = CellView::from_cell(&nb, 0);
    assert!(view.status.valid);
}

#[test]
fn shas_not_in_serialized_output() {
    let raw = plain_cell("c1", "x = 1");
    let shas = Value::Array(vec![sha_json(&raw)]);
    let cell = cell_with_nb("c1", "x = 1", object(vec![("shas", value_of(&shas))]));
    let nb = notebook(vec![cell]);
    let view = CellView::from_cell(&nb, 0);
    let val = val(&view.to_json_value(&None));
    assert!(val.get("shas").is_none(), "shas must not appear in output");
}

// --- to_json_value with fields projection ---

#[test]
fn fields_projection_keeps_requested_fields() {
    let cell = plain_cell("c1", "x = 1");
    let nb = notebook(vec![cell]);
    let view = CellView::from_cell(&nb, 0);
    let val = val(&view.to_json_value(&Some(vec!["source".to_string()])));
    assert!(val.get("cell_id").is_some());
    assert!(val.get("source").is_some());
    // Other fields stripped
    assert!(val.get("fixtures").is_none());
    assert!(val.get("status").is_none());
}

#[test]
fn fields_none_returns_all_fields() {
    let cell = plain_cell("c1", "x = 1");
    let nb = notebook(vec![cell]);
    let view = CellView::from_cell(&nb, 0);
    let val = val(&view.to_json_value(&None));
    assert!(val.get("cell_id").is_some());
    assert!(val.get("source").is_some());
    assert!(val.get("status").is_some());
}

#[test]
fn cell_id_always_kept_even_when_not_in_fields() {
    let cell = plain_cell("c1", "x = 1");
    let nb = notebook(vec![cell]);
    let view = CellView::from_cell(&nb, 0);
    let val = val(&view.to_json_value(&Some(vec!["source".to_string()])));
    assert!(val.get("cell_id").is_some());
}

// --- parse_fields ---

#[test]
fn parse_fields_single() {
    assert_eq!(parse_fields("status"), vec!["status"]);
}

#[test]
fn parse_fields_multiple() {
    let fields = parse_fields("cell_id,source,test");
    assert_eq!(fields, vec!["cell_id", "source", "test"]);
}

#[test]
fn parse_fields_trims_whitespace() {
    let fields = parse_fields("cell_id, source , test");
    assert_eq!(fields, vec!["cell_id", "source", "test"]);
}

// --- CellView::from_cell with various metadata ---

#[test]
fn from_cell_with_fixtures_includes_fixtures() {
    let cell = cell_with_nb(
        "c1",
        "x = 1",
        object(vec![
            (
                "fixtures",
                object(vec![
                    (
                        "f1",
                        object(vec![
                            ("description", Value::from("d")),
                            ("priority", Value::from(1)),
                            ("source", Value::from("s")),
                        ]),
                    ),
                ]),
            ),
        ]),
    );
    let nb = notebook(vec![cell]);
    let view = CellView::from_cell(&nb, 0);
    let fixtures = view.fixtures.unwrap();
    assert!(fixtures.contains_key("f1"));
    assert_eq!(fixtures["f1"].description, "d");
}

#[test]
fn from_cell_with_diff_includes_diff() {
    let cell = cell_with_nb("c1", "x = 1", object(vec![("diff", Value::from("some diff"))]));
    let nb = notebook(vec![cell]);
    let view = CellView::from_cell(&nb, 0);
    assert_eq!(view.diff.unwrap(), "some diff");
}

#[test]
fn from_cell_with_nb_no_shas_has_missing_sha_diagnostic() {
    let cell = cell_with_nb("c1", "x = 1", object(vec![]));
    let nb = notebook(vec![cell]);
    let view = CellView::from_cell(&nb, 0);
    assert!(!view.status.valid);
    assert!(view
        .status
        .diagnostics
        .iter()
        .any(|d| { d.kind == nota_bene::diagnostics::DiagnosticType::Missing }));
}
