//! Diagnostics for a language client.
use nota_bene::diagnostic_cache::{cached_count, new_cache, DiagnosticCache};
use nota_bene::diagnostics::Severity;
use nota_bene::json::{parse_json, print_pretty, Json, JsonMap};
use nota_bene::json_path::{json_path_range, JsonPathSegment, LineIndex};
use nota_bene::lsp::compute_lsp_diagnostics;
use nota_bene::notebook::{
    blank_cell_metadata, Cell, CellBody, CellExt, CellId, CellMetadata, Metadata, Notebook,
};
use nota_bene::notebook_json::notebook_to_json;
use nota_bene::shas::compute_cell_sha;
use serde_json::Value;

/// An object with the given members.
fn object(members: Vec<(&str, Value)>) -> Value {
    Value::Object(members.into_iter().map(|(k, v)| (k.to_string(), v)).collect())
}

/// A value as JSON.
fn value_of<T: serde::Serialize>(value: T) -> Value {
    serde_json::to_value(value).unwrap()
}

/// A JSON value as the library has it.
fn lib(value: &Value) -> Json {
    parse_json(&serde_json::to_string(value).unwrap()).unwrap()
}

/// Notebook metadata without any field.
fn blank_metadata() -> Metadata {
    Metadata { standard: JsonMap::new(), additional: JsonMap::new() }
}

/// A code cell that was never run.
fn code(id: &str, metadata: CellMetadata, source: Vec<String>) -> Cell {
    Cell {
        id: CellId::new(id).unwrap(),
        metadata,
        source,
        body: CellBody::Code { execution_count: None, outputs: vec![] },
    }
}

/// A markdown cell.
fn note(id: &str, source: Vec<String>) -> Cell {
    Cell {
        id: CellId::new(id).unwrap(),
        metadata: blank_cell_metadata(),
        source,
        body: CellBody::Markdown { attachments: None },
    }
}

/// The path of the source of the first cell.
fn source_path() -> Vec<JsonPathSegment> {
    vec![
        JsonPathSegment::from("cells"),
        JsonPathSegment::from(0usize),
        JsonPathSegment::from("source"),
    ]
}

fn fresh_cache() -> DiagnosticCache {
    new_cache()
}

fn sha_entry(cell: &Cell) -> Value {
    object(vec![
        ("cell_id", value_of(&cell.cell_id_str())),
        ("sha", value_of(&compute_cell_sha(cell))),
    ])
}

fn nb_text(nb: &Notebook) -> String {
    print_pretty(&notebook_to_json(nb)).unwrap()
}

fn plain_code_cell(id: &str, source: &str) -> Cell {
    code(id, blank_cell_metadata(), vec![source.to_string()])
}

fn cell_with_shas(id: &str, source: &str, shas: Value) -> Cell {
    let mut meta = blank_cell_metadata();
    meta.additional
        .insert("nota-bene".to_string(), lib(&object(vec![("shas", value_of(&shas))])));
    code(id, meta, vec![source.to_string()])
}

fn cell_with_diff_and_shas(
    id: &str,
    source: &str,
    diff: &str,
    shas: Value,
) -> Cell {
    let mut meta = blank_cell_metadata();
    meta.additional.insert("nota-bene".to_string(), lib(&object(vec![
            ("shas", value_of(&shas)),
            ("diff", value_of(&diff)),
        ])));
    code(id, meta, vec![source.to_string()])
}

fn notebook(cells: Vec<Cell>) -> Notebook {
    Notebook {
        metadata: blank_metadata(),
        nbformat: 4,
        nbformat_minor: 5,
        cells,
    }
}

#[test]
fn parse_failure_returns_empty() {
    let mut cache = fresh_cache();
    let diags = compute_lsp_diagnostics("not json at all", &mut cache);
    assert!(diags.is_empty());
}

#[test]
fn valid_notebook_no_diagnostics() {
    let c1_plain = plain_code_cell("c1", "x = 1");
    let shas = Value::Array(vec![sha_entry(&c1_plain)]);
    let c1 = cell_with_shas("c1", "x = 1", shas);
    let nb = notebook(vec![c1]);
    let text = nb_text(&nb);
    let mut cache = fresh_cache();
    let diags = compute_lsp_diagnostics(&text, &mut cache);
    assert!(diags.is_empty(), "unexpected: {:?}", diags);
}

#[test]
fn missing_cell_produces_error() {
    let nb = notebook(vec![plain_code_cell("c1", "x = 1")]);
    let text = nb_text(&nb);
    let mut cache = fresh_cache();
    let diags = compute_lsp_diagnostics(&text, &mut cache);
    assert_eq!(diags.len(), 1);
    assert_eq!(diags[0].severity, Severity::Error);
    assert_eq!(
        diags[0].code,
        "missing"
    );
}

#[test]
fn needs_review_produces_warning() {
    let c1_old = plain_code_cell("c1", "x = 1");
    let shas = Value::Array(vec![sha_entry(&c1_old)]);
    let c1 = cell_with_shas("c1", "x = 999", shas);
    let nb = notebook(vec![c1]);
    let text = nb_text(&nb);
    let mut cache = fresh_cache();
    let diags = compute_lsp_diagnostics(&text, &mut cache);
    assert!(
        diags.iter().any(|d| d.code
            == "needs_review"
            && d.severity == Severity::Warning),
        "got: {:?}",
        diags
    );
}

#[test]
fn ancestor_modified_produces_warning() {
    let c1_old = plain_code_cell("c1", "x = 1");
    let c2_plain = plain_code_cell("c2", "y = 2");
    let shas = Value::Array(vec![
        sha_entry(&c1_old),
        sha_entry(&c2_plain),
    ]);
    let c1 = plain_code_cell("c1", "x = 999");
    let c2 = cell_with_shas("c2", "y = 2", shas);
    let nb = notebook(vec![c1, c2]);
    let text = nb_text(&nb);
    let mut cache = fresh_cache();
    let diags = compute_lsp_diagnostics(&text, &mut cache);
    assert!(
        diags
            .iter()
            .any(|d| d.code == "ancestor_modified"),
        "got: {:?}",
        diags
    );
}

#[test]
fn lsp_diff_conflict_produces_error() {
    let bad_diff = "--- a\n+++ b\n@@ -1 +1 @@\n-old line\n+new line\n".to_string();
    let c1_plain = plain_code_cell("c1", "completely different");
    let shas = Value::Array(vec![sha_entry(&c1_plain)]);
    let c1 = cell_with_diff_and_shas("c1", "completely different", &bad_diff, shas);
    let nb = notebook(vec![c1]);
    let text = nb_text(&nb);
    let mut cache = fresh_cache();
    let diags = compute_lsp_diagnostics(&text, &mut cache);
    assert!(
        diags.iter().any(|d| d.code
            == "diff_conflict"
            && d.severity == Severity::Error),
        "got: {:?}",
        diags
    );
}

#[test]
fn cache_hit_reuses_own_diagnostics() {
    let bad_diff = "--- a\n+++ b\n@@ -1 +1 @@\n-old line\n+new line\n".to_string();
    let c1_plain = plain_code_cell("c1", "completely different");
    let shas = Value::Array(vec![sha_entry(&c1_plain)]);
    let c1 = cell_with_diff_and_shas("c1", "completely different", &bad_diff, shas);
    let nb = notebook(vec![c1]);
    let text = nb_text(&nb);
    let mut cache = fresh_cache();
    let diags1 = compute_lsp_diagnostics(&text, &mut cache);
    let diags2 = compute_lsp_diagnostics(&text, &mut cache);
    assert_eq!(diags1.len(), diags2.len());
    assert_eq!(cached_count(&cache), 1);
}

#[test]
fn cache_miss_on_sha_change() {
    let bad_diff = "--- a\n+++ b\n@@ -1 +1 @@\n-old line\n+new line\n".to_string();
    let c1_plain = plain_code_cell("c1", "version A");
    let shas_a = Value::Array(vec![sha_entry(&c1_plain)]);
    let c1_a = cell_with_diff_and_shas("c1", "version A", &bad_diff, shas_a);
    let nb_a = notebook(vec![c1_a]);

    let c1_plain_b = plain_code_cell("c1", "version B");
    let shas_b = Value::Array(vec![sha_entry(&c1_plain_b)]);
    let c1_b = cell_with_diff_and_shas("c1", "version B", &bad_diff, shas_b);
    let nb_b = notebook(vec![c1_b]);

    let mut cache = fresh_cache();
    compute_lsp_diagnostics(&nb_text(&nb_a), &mut cache);
    assert_eq!(cached_count(&cache), 1);
    compute_lsp_diagnostics(&nb_text(&nb_b), &mut cache);
    assert_eq!(cached_count(&cache), 2);
}

#[test]
fn state_diagnostics_always_fresh() {
    // c2's SHA is stable; only its ancestor changes between calls.
    let c1_v1 = plain_code_cell("c1", "x = 1");
    let c2_plain = plain_code_cell("c2", "y = 2");
    let shas = Value::Array(vec![
        sha_entry(&c1_v1),
        sha_entry(&c2_plain),
    ]);
    let c2 = cell_with_shas("c2", "y = 2", shas.clone());

    let nb1 = notebook(vec![plain_code_cell("c1", "x = 1"), c2.clone()]);
    let mut cache = fresh_cache();
    let diags1 = compute_lsp_diagnostics(&nb_text(&nb1), &mut cache);
    assert!(
        !diags1
            .iter()
            .any(|d| d.code == "ancestor_modified"),
        "unexpected ancestor_modified in first call"
    );

    // c2 SHA hits cache, but state diagnostics must still catch the ancestor change.
    let nb2 = notebook(vec![plain_code_cell("c1", "x = 999"), c2.clone()]);
    let diags2 = compute_lsp_diagnostics(&nb_text(&nb2), &mut cache);
    assert!(
        diags2
            .iter()
            .any(|d| d.code == "ancestor_modified"),
        "expected ancestor_modified in second call"
    );
}

#[test]
fn diagnostic_range_points_to_source() {
    let c1_old = plain_code_cell("c1", "x = 1");
    let shas = Value::Array(vec![sha_entry(&c1_old)]);
    let c1 = cell_with_shas("c1", "x = 999", shas);
    let nb = notebook(vec![c1]);
    let text = nb_text(&nb);
    let mut cache = fresh_cache();
    let diags = compute_lsp_diagnostics(&text, &mut cache);
    let d = diags
        .iter()
        .find(|d| d.code == "needs_review")
        .unwrap();
    let expected = json_path_range(&text, &source_path()).unwrap();
    let line_index = LineIndex::new(&text);
    let (sl, sc) = line_index.offset_to_position(expected.start);
    assert_eq!(d.start_line, sl as u32);
    assert_eq!(d.start_character, sc as u32);
}

#[test]
fn missing_diagnostic_points_to_source_range() {
    let nb = notebook(vec![plain_code_cell("c1", "x = 1")]);
    let text = nb_text(&nb);
    let mut cache = fresh_cache();
    let diags = compute_lsp_diagnostics(&text, &mut cache);
    let d = diags
        .iter()
        .find(|d| d.code == "missing")
        .unwrap();
    let expected = json_path_range(&text, &source_path()).unwrap();
    let line_index = LineIndex::new(&text);
    let (sl, sc) = line_index.offset_to_position(expected.start);
    assert_eq!(d.start_line, sl as u32);
    assert_eq!(d.start_character, sc as u32);
}

#[test]
fn markdown_cell_skipped() {
    let md = note("m1", vec!["# Hello".to_string()]);
    let nb = notebook(vec![md]);
    let text = nb_text(&nb);
    let mut cache = fresh_cache();
    let diags = compute_lsp_diagnostics(&text, &mut cache);
    assert!(diags.is_empty());
}
