//! Cells and notebooks.
use nota_bene::json::{parse_json, Json};
use nota_bene::notebook::{
    blank_cell_metadata, clear_editor_meta, new_cell_id, Cell, CellBody, CellExt, CellId,
    CellMetadata,
};
use serde_json::Value;

/// An object with the given members.
fn object(members: Vec<(&str, Value)>) -> Value {
    Value::Object(members.into_iter().map(|(k, v)| (k.to_string(), v)).collect())
}

/// A JSON value as the library has it.
fn lib(value: &Value) -> Json {
    parse_json(&serde_json::to_string(value).unwrap()).unwrap()
}

/// A code cell that was never run.
fn code(id: &str, metadata: CellMetadata, source: Vec<String>) -> Cell {
    Cell {
        id: CellId::new(id).unwrap(),
        metadata,
        source,
        body: CellBody::Code { execution_count: None, outputs: vec![] },
    }
}

fn code_cell(id: &str, lines: Vec<&str>) -> Cell {
    code(id, blank_cell_metadata(), lines.into_iter().map(String::from).collect())
}

fn code_cell_with_nb(id: &str, lines: Vec<&str>, nb_val: Value) -> Cell {
    let mut meta = blank_cell_metadata();
    meta.additional.insert("nota-bene".to_string(), lib(&nb_val));
    code(id, meta, lines.into_iter().map(String::from).collect())
}

// --- source_str ---

#[test]
fn source_str_empty_vec() {
    assert_eq!(code_cell("c1", vec![]).source_str(), "");
}

#[test]
fn source_str_single_line() {
    assert_eq!(code_cell("c1", vec!["x = 1"]).source_str(), "x = 1");
}

#[test]
fn source_str_multiline_joined() {
    assert_eq!(
        code_cell("c1", vec!["x = 1\n", "y = 2"]).source_str(),
        "x = 1\ny = 2"
    );
}

// --- cell_id / cell_id_str ---

#[test]
fn cell_id_str_returns_correct_id() {
    assert_eq!(code_cell("my-cell", vec![]).cell_id_str(), "my-cell");
}

// --- editor_role ---

#[test]
fn editor_role_present() {
    let cell = code_cell_with_nb("c1", vec![], object(vec![("editor", object(vec![("role", Value::from("setup"))]))]));
    assert_eq!(cell.editor_role(), Some("setup".to_string()));
}

#[test]
fn editor_role_absent_when_no_nb_key() {
    assert_eq!(code_cell("c1", vec![]).editor_role(), None);
}

#[test]
fn editor_role_absent_when_no_editor_key() {
    let cell = code_cell_with_nb("c1", vec![], object(vec![("diff", Value::from("d"))]));
    assert_eq!(cell.editor_role(), None);
}

#[test]
fn editor_role_absent_when_no_role_key() {
    let cell = code_cell_with_nb("c1", vec![], object(vec![("editor", object(vec![]))]));
    assert_eq!(cell.editor_role(), None);
}

// --- editor_cell_id ---

#[test]
fn editor_cell_id_present() {
    let cell = code_cell_with_nb("c1", vec![], object(vec![("editor", object(vec![("cell_id", Value::from("other-cell"))]))]));
    assert_eq!(cell.editor_cell_id(), Some("other-cell".to_string()));
}

#[test]
fn editor_cell_id_absent_when_no_nb_key() {
    assert_eq!(code_cell("c1", vec![]).editor_cell_id(), None);
}

#[test]
fn editor_cell_id_absent_when_no_cell_id_key() {
    let cell = code_cell_with_nb("c1", vec![], object(vec![("editor", object(vec![("role", Value::from("test"))]))]));
    assert_eq!(cell.editor_cell_id(), None);
}

// --- nota_bene ---

#[test]
fn ipso_absent_when_no_key() {
    assert!(code_cell("c1", vec![]).nota_bene().is_none());
}

#[test]
fn ipso_present_when_key_exists() {
    let cell = code_cell_with_nb("c1", vec![], object(vec![("diff", Value::from("d"))]));
    assert!(cell.nota_bene().is_some());
}

// --- clear_editor_meta ---

#[test]
fn clear_editor_meta_removes_editor_subkey() {
    let mut cell = code_cell_with_nb(
        "c1",
        vec![],
        object(vec![
            ("editor", object(vec![("role", Value::from("test"))])),
            ("diff", Value::from("d")),
        ]),
    );
    clear_editor_meta(&mut cell);
    let data = cell.nota_bene().expect("expected Some");
    assert!(!data.extra.contains_key("editor"));
    // diff should still be there
    assert!(data.diff.is_some());
}

#[test]
fn clear_editor_meta_no_op_when_no_nb_key() {
    let mut cell = code_cell("c1", vec![]);
    clear_editor_meta(&mut cell); // must not panic
}

// --- blank_cell_metadata ---

#[test]
fn blank_cell_metadata_is_empty() {
    let meta = blank_cell_metadata();
    assert!(meta.additional.entries.is_empty());
    assert!(meta.standard.get("collapsed").is_none());
    assert!(meta.standard.get("tags").is_none());
}

// --- new_cell_id ---

#[test]
fn new_cell_id_produces_non_empty_string() {
    let id = new_cell_id();
    assert!(!id.as_str().is_empty());
}

#[test]
fn new_cell_id_produces_unique_ids() {
    let a = new_cell_id();
    let b = new_cell_id();
    assert_ne!(a.as_str(), b.as_str());
}
