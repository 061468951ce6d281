//! The editor notebook.
use nota_bene::edit::{build_editor_notebook, split_source};
use nota_bene::json::{parse_json, print_pretty, Json, JsonMap};
use nota_bene::notebook::{
    blank_cell_metadata, Cell, CellBody, CellExt, CellId, CellMetadata, Metadata, Notebook,
};
use serde_json::Value;

/// An object with the given members.
fn object(members: Vec<(&str, Value)>) -> Value {
    Value::Object(members.into_iter().map(|(k, v)| (k.to_string(), v)).collect())
}

/// A value as JSON.
fn value_of<T: serde::Serialize>(value: T) -> Value {
    serde_json::to_value(value).unwrap()
}

/// A JSON value as the library has it.
fn lib(value: &Value) -> Json {
    parse_json(&serde_json::to_string(value).unwrap()).unwrap()
}

/// A JSON value of the library.
fn val(json: &Json) -> Value {
    serde_json::from_str(&print_pretty(json).unwrap()).unwrap()
}

/// Notebook metadata without any field.
fn blank_metadata() -> Metadata {
    Metadata { standard: JsonMap::new(), additional: JsonMap::new() }
}

/// A code cell that was never run.
fn code(id: &str, metadata: CellMetadata, source: Vec<String>) -> Cell {
    Cell {
        id: CellId::new(id).unwrap(),
        metadata,
        source,
        body: CellBody::Code { execution_count: None, outputs: vec![] },
    }
}

/// A markdown cell.
fn note(id: &str, source: Vec<String>) -> Cell {
    Cell {
        id: CellId::new(id).unwrap(),
        metadata: blank_cell_metadata(),
        source,
        body: CellBody::Markdown { attachments: None },
    }
}

fn code_cell(id: &str, source: &str) -> Cell {
    code(id, blank_cell_metadata(), split_source(source))
}

fn md_cell(id: &str, source: &str) -> Cell {
    note(id, split_source(source))
}

fn notebook(cells: Vec<Cell>) -> Notebook {
    Notebook {
        metadata: blank_metadata(),
        nbformat: 4,
        nbformat_minor: 5,
        cells,
    }
}

// --- split_source ---

#[test]
fn split_source_empty_returns_empty_vec() {
    assert_eq!(split_source(""), Vec::<String>::new());
}

#[test]
fn split_source_single_line_no_newline() {
    assert_eq!(split_source("hello"), vec!["hello"]);
}

#[test]
fn split_source_preserves_trailing_newlines_on_all_but_last() {
    assert_eq!(split_source("a\nb\n"), vec!["a\n", "b\n"]);
}

#[test]
fn split_source_last_line_has_no_trailing_newline() {
    assert_eq!(split_source("a\nb"), vec!["a\n", "b"]);
}

#[test]
fn split_source_single_newline_only() {
    assert_eq!(split_source("\n"), vec!["\n"]);
}

// --- build_editor_notebook structure ---

#[test]
fn edit_first_cell_is_setup() {
    let nb = notebook(vec![code_cell("c1", "x = 1")]);
    let editor = build_editor_notebook(&nb, "test.ipynb").unwrap();
    assert_eq!(editor.cells[0].editor_role().as_deref(), Some("setup"));
}

#[test]
fn setup_cell_has_correct_source() {
    let nb = notebook(vec![]);
    let editor = build_editor_notebook(&nb, "test.ipynb").unwrap();
    assert!(editor.cells[0]
        .source_str()
        .contains("nota_bene.register_nb_skip"));
}

#[test]
fn markdown_cell_is_skipped_in_editor_notebook() {
    let nb = notebook(vec![md_cell("md-1", "# Title\n")]);
    let editor = build_editor_notebook(&nb, "test.ipynb").unwrap();
    // Non-code cells are skipped; only the setup cell should be present
    assert_eq!(editor.cells.len(), 1);
    assert_eq!(editor.cells[0].editor_role().as_deref(), Some("setup"));
}

#[test]
fn code_cell_without_meta_produces_header_and_passthrough_source() {
    let nb = notebook(vec![code_cell("c1", "x = 1")]);
    let editor = build_editor_notebook(&nb, "test.ipynb").unwrap();
    // [setup, section-header, source]
    assert_eq!(editor.cells.len(), 3);
    assert_eq!(
        editor.cells[1].editor_role().as_deref(),
        Some("section-header")
    );
    assert_eq!(editor.cells[2].editor_role().as_deref(), Some("source"));
    assert_eq!(editor.cells[2].source_str(), "x = 1");
}

#[test]
fn section_header_references_source_cell_id() {
    let nb = notebook(vec![code_cell("my-cell", "x = 1")]);
    let editor = build_editor_notebook(&nb, "test.ipynb").unwrap();
    assert_eq!(editor.cells[1].editor_cell_id().as_deref(), Some("my-cell"));
}

#[test]
fn code_cell_with_meta_produces_header_source_and_test_cells() {
    let mut meta = blank_cell_metadata();
    meta.additional.insert("nota-bene".to_string(), lib(&object(vec![])));
    let cell = code("c1", meta, split_source("x = 1"));
    let nb = notebook(vec![cell]);
    let editor = build_editor_notebook(&nb, "test.ipynb").unwrap();
    // [setup, section-header, stub-fixture, patched-source, test]
    assert_eq!(editor.cells.len(), 5);
    assert_eq!(editor.cells[4].editor_role().as_deref(), Some("test"));
}

#[test]
fn fixture_cells_emitted_sorted_by_priority() {
    let mut meta = blank_cell_metadata();
    meta.additional.insert("nota-bene".to_string(), lib(&object(vec![
            (
                "fixtures",
                object(vec![
                    (
                        "z_fix",
                        object(vec![
                            ("description", Value::from("d")),
                            ("priority", Value::from(10)),
                            ("source", Value::from("z = 10")),
                        ]),
                    ),
                    (
                        "a_fix",
                        object(vec![
                            ("description", Value::from("d")),
                            ("priority", Value::from(1)),
                            ("source", Value::from("a = 1")),
                        ]),
                    ),
                ]),
            ),
        ])));
    let cell = code("c1", meta, split_source("x = 1"));
    let nb = notebook(vec![cell]);
    let editor = build_editor_notebook(&nb, "test.ipynb").unwrap();

    let fixture_cells: Vec<_> = editor
        .cells
        .iter()
        .filter(|c| c.editor_role().as_deref() == Some("fixture"))
        .collect();

    assert_eq!(fixture_cells.len(), 2);
    // Lower priority first.
    assert!(fixture_cells[0].source_str().contains("a_fix"));
    assert!(fixture_cells[1].source_str().contains("z_fix"));
}

#[test]
fn editor_notebook_has_nota_bene_editor_with_source_shas() {
    let mut nb = notebook(vec![]);
    nb.metadata
        .additional
        .insert("nota-bene".to_string(), lib(&object(vec![("key", Value::from("val"))])));
    let editor = build_editor_notebook(&nb, "test.ipynb").unwrap();
    // The editor notebook should have nota-bene.editor with source_shas.
    let nb_meta = val(editor.metadata.additional.get("nota-bene").unwrap());
    assert!(nb_meta.get("editor").is_some());
    assert!(nb_meta["editor"].get("source_shas").is_some());
    assert!(nb_meta["editor"].get("source_path").is_some());
    // Original keys from source notebook-level metadata should be cleared.
    assert!(nb_meta.get("key").is_none());
}

#[test]
fn patched_source_cell_uses_diff_when_present() {
    let original = "x = 1\n";
    let patched = "x = 99\n";
    let diff = nota_bene::diff_utils::compute_diff(original, patched).unwrap();
    let mut meta = blank_cell_metadata();
    meta.additional
        .insert("nota-bene".to_string(), lib(&object(vec![("diff", value_of(&diff))])));
    let cell = code("c1", meta, split_source(original));
    let nb = notebook(vec![cell]);
    let editor = build_editor_notebook(&nb, "test.ipynb").unwrap();

    let src_cell = editor
        .cells
        .iter()
        .find(|c| c.editor_role().as_deref() == Some("patched-source"))
        .unwrap();
    assert_eq!(src_cell.source_str(), patched);
}

#[test]
fn test_cell_source_includes_nb_skip_and_name() {
    let mut meta = blank_cell_metadata();
    meta.additional.insert("nota-bene".to_string(), lib(&object(vec![
            (
                "test",
                object(vec![
                    ("name", Value::from("check_x")),
                    ("source", Value::from("assert x == 1")),
                ]),
            ),
        ])));
    let cell = code("c1", meta, split_source("x = 1"));
    let nb = notebook(vec![cell]);
    let editor = build_editor_notebook(&nb, "test.ipynb").unwrap();

    let test_cell = editor
        .cells
        .iter()
        .find(|c| c.editor_role().as_deref() == Some("test"))
        .unwrap();
    let src = test_cell.source_str();
    assert!(src.starts_with("%%nb_skip\n"));
    assert!(src.contains("# test: check_x"));
    assert!(src.contains("assert x == 1"));
}

/// A `Present` cell with no fixtures should emit exactly one stub fixture cell.
#[test]
fn present_cell_with_no_fixtures_emits_stub_fixture() {
    let mut meta = blank_cell_metadata();
    meta.additional.insert("nota-bene".to_string(), lib(&object(vec![])));
    let cell = code("c1", meta, split_source("x = 1"));
    let nb = notebook(vec![cell]);
    let editor = build_editor_notebook(&nb, "test.ipynb").unwrap();

    let fixture_cells: Vec<_> = editor
        .cells
        .iter()
        .filter(|c| c.editor_role().as_deref() == Some("fixture"))
        .collect();
    assert_eq!(
        fixture_cells.len(),
        1,
        "expected exactly one stub fixture cell"
    );

    // Stub body should be empty (only comment headers).
    let stub_src = fixture_cells[0].source_str();
    assert!(
        stub_src.contains("# fixture:"),
        "stub missing # fixture: header"
    );
    assert!(
        stub_src.contains("# priority: 0"),
        "stub missing # priority header"
    );
}

/// A `Present` cell with existing fixtures should NOT emit a stub — it emits
/// the real fixture cells instead.
#[test]
fn present_cell_with_real_fixtures_emits_no_stub() {
    let mut meta = blank_cell_metadata();
    meta.additional.insert("nota-bene".to_string(), lib(&object(vec![
            (
                "fixtures",
                object(vec![
                    (
                        "my_fix",
                        object(vec![
                            ("description", Value::from("d")),
                            ("priority", Value::from(0)),
                            ("source", Value::from("x = 1")),
                        ]),
                    ),
                ]),
            ),
        ])));
    let cell = code("c1", meta, split_source("x = 1"));
    let nb = notebook(vec![cell]);
    let editor = build_editor_notebook(&nb, "test.ipynb").unwrap();

    let fixture_cells: Vec<_> = editor
        .cells
        .iter()
        .filter(|c| c.editor_role().as_deref() == Some("fixture"))
        .collect();
    assert_eq!(fixture_cells.len(), 1);
    // The real fixture source must be present, not a stub.
    assert!(
        fixture_cells[0].source_str().contains("x = 1"),
        "expected real fixture source"
    );
}

/// A `Present` cell with `fixtures: null` (`Some(None)`) should also emit a
/// stub so the user can decide whether to add one.
#[test]
fn present_cell_with_explicit_null_fixtures_emits_stub() {
    let mut meta = blank_cell_metadata();
    meta.additional
        .insert("nota-bene".to_string(), lib(&object(vec![("fixtures", Value::Null)])));
    let cell = code("c1", meta, split_source("x = 1"));
    let nb = notebook(vec![cell]);
    let editor = build_editor_notebook(&nb, "test.ipynb").unwrap();

    let fixture_cells: Vec<_> = editor
        .cells
        .iter()
        .filter(|c| c.editor_role().as_deref() == Some("fixture"))
        .collect();
    assert_eq!(
        fixture_cells.len(),
        1,
        "expected stub even when fixtures is explicit null"
    );
}

/// A Valid cell with `diff: null` (Some(None)) should NOT show "Original source".
#[test]
fn section_header_valid_with_explicit_null_diff_omits_original_source() {
    let mut meta = blank_cell_metadata();
    // shas must be present so cell_state() returns Valid, not Missing.
    // Use an empty shas list for simplicity (no preceding cells to check).
    meta.additional.insert("nota-bene".to_string(), lib(&object(vec![("diff", Value::Null), ("shas", Value::Array(vec![]))])));
    let cell = code("c1", meta, split_source("x = 1"));
    let nb = notebook(vec![cell]);
    let editor = build_editor_notebook(&nb, "/some/path.ipynb").unwrap();

    let header = editor
        .cells
        .iter()
        .find(|c| c.editor_role().as_deref() == Some("section-header"))
        .expect("section header not found");

    let src = header.source_str();
    assert!(
        !src.contains("Original source"),
        "header should NOT contain 'Original source' when diff is explicit null, but got:\n{src}"
    );
}

/// A Valid cell with a real diff should show "Original source".
#[test]
fn section_header_valid_with_real_diff_includes_original_source() {
    let original = "x = 1\n";
    let patched = "x = 99\n";
    let diff = nota_bene::diff_utils::compute_diff(original, patched).unwrap();
    let mut meta = blank_cell_metadata();
    meta.additional.insert("nota-bene".to_string(), lib(&object(vec![
            ("diff", value_of(&diff)),
            ("shas", Value::Array(vec![])),
        ])));
    let cell = code("c1", meta, split_source(patched));
    let nb = notebook(vec![cell]);
    let editor = build_editor_notebook(&nb, "/some/path.ipynb").unwrap();

    let header = editor
        .cells
        .iter()
        .find(|c| c.editor_role().as_deref() == Some("section-header"))
        .expect("section header not found");

    let src = header.source_str();
    assert!(
        src.contains("Original source"),
        "header should contain 'Original source' when diff is present, but got:\n{src}"
    );
}

/// A changed cell with no diff should NOT include the original source section.
#[test]
fn section_header_out_of_date_without_diff_omits_original_source() {
    // Cell has nota-bene metadata with shas (triggering cell_state check),
    // but no diff. The section header should not contain "Original source".
    let c1_old = plain_cell_for_staleness("c1", "x = 1");
    let c2_meta = {
        let mut meta = blank_cell_metadata();
        // shas that record c1 as "x = 1" but c1 is now "x = 999" → Changed
        let shas = Value::Array(vec![
            object(vec![
                ("cell_id", Value::from("c1")),
                ("sha", value_of(nota_bene::shas::compute_cell_sha(&c1_old))),
            ]),
        ]);
        meta.additional
            .insert("nota-bene".to_string(), lib(&object(vec![("shas", value_of(&shas))])));
        meta
    };
    // Now c1 is different to trigger Changed
    let c1_changed = plain_cell_for_staleness("c1", "x = 999");
    let c2 = code("c2", c2_meta, split_source("y = 2"));
    let nb = notebook(vec![c1_changed, c2]);
    let editor = build_editor_notebook(&nb, "/some/path.ipynb").unwrap();

    let header = editor
        .cells
        .iter()
        .find(|c| {
            c.editor_role().as_deref() == Some("section-header")
                && c.editor_cell_id().as_deref() == Some("c2")
        })
        .expect("section header for c2 not found");

    let src = header.source_str();
    assert!(
        src.contains("Needs review"),
        "expected 'Needs review' in header but got:\n{src}"
    );
    assert!(
        !src.contains("Original source"),
        "header should NOT contain 'Original source' when there is no diff, but got:\n{src}"
    );
}

fn plain_cell_for_staleness(id: &str, source: &str) -> Cell {
    code(id, blank_cell_metadata(), split_source(source))
}

#[test]
fn present_cell_with_no_test_emits_stub_test() {
    let mut meta = blank_cell_metadata();
    meta.additional.insert("nota-bene".to_string(), lib(&object(vec![])));
    let cell = code("c1", meta, split_source("x = 1"));
    let nb = notebook(vec![cell]);
    let editor = build_editor_notebook(&nb, "test.ipynb").unwrap();

    let test_cells: Vec<_> = editor
        .cells
        .iter()
        .filter(|c| c.editor_role().as_deref() == Some("test"))
        .collect();
    assert_eq!(test_cells.len(), 1, "expected exactly one test cell");
    assert!(
        test_cells[0].source_str().starts_with("%%nb_skip\n"),
        "test stub must start with %%nb_skip"
    );
}
