//! Diagnostics of cells.
use nota_bene::diagnostics::{
    compute_cell_diagnostics, compute_own_diagnostics, compute_state_diagnostics, DiagnosticType,
    Severity,
};
use nota_bene::json::{parse_json, Json, JsonMap};
use nota_bene::notebook::{
    blank_cell_metadata, Cell, CellBody, CellExt, CellId, CellMetadata, Metadata, Notebook,
};
use nota_bene::shas::compute_cell_sha;
use serde_json::Value;

/// An object with the given members.
fn object(members: Vec<(&str, Value)>) -> Value {
    Value::Object(members.into_iter().map(|(k, v)| (k.to_string(), v)).collect())
}

/// A value as JSON.
fn value_of<T: serde::Serialize>(value: T) -> Value {
    serde_json::to_value(value).unwrap()
}

/// A JSON value as the library has it.
fn lib(value: &Value) -> Json {
    parse_json(&serde_json::to_string(value).unwrap()).unwrap()
}

/// Notebook metadata without any field.
fn blank_metadata() -> Metadata {
    Metadata { standard: JsonMap::new(), additional: JsonMap::new() }
}

/// A code cell that was never run.
fn code(id: &str, metadata: CellMetadata, source: Vec<String>) -> Cell {
    Cell {
        id: CellId::new(id).unwrap(),
        metadata,
        source,
        body: CellBody::Code { execution_count: None, outputs: vec![] },
    }
}

/// A markdown cell.
fn note(id: &str, source: Vec<String>) -> Cell {
    Cell {
        id: CellId::new(id).unwrap(),
        metadata: blank_cell_metadata(),
        source,
        body: CellBody::Markdown { attachments: None },
    }
}

fn plain_cell(id: &str, source: &str) -> Cell {
    code(id, blank_cell_metadata(), vec![source.to_string()])
}

fn cell_with_shas(id: &str, source: &str, shas: Value) -> Cell {
    let mut meta = blank_cell_metadata();
    meta.additional
        .insert("nota-bene".to_string(), lib(&object(vec![("shas", value_of(&shas))])));
    code(id, meta, vec![source.to_string()])
}

fn cell_with_nb_no_shas(id: &str, source: &str) -> Cell {
    let mut meta = blank_cell_metadata();
    meta.additional.insert("nota-bene".to_string(), lib(&object(vec![])));
    code(id, meta, vec![source.to_string()])
}

fn notebook(cells: Vec<Cell>) -> Notebook {
    Notebook {
        metadata: blank_metadata(),
        nbformat: 4,
        nbformat_minor: 5,
        cells,
    }
}

fn sha_json(cell: &Cell) -> Value {
    object(vec![
        ("cell_id", value_of(&cell.cell_id_str())),
        ("sha", value_of(&compute_cell_sha(cell))),
    ])
}

fn cell_with_diff_and_shas(
    id: &str,
    source: &str,
    diff: &str,
    shas: Value,
) -> Cell {
    let mut meta = blank_cell_metadata();
    meta.additional
        .insert("nota-bene".to_string(), lib(&object(vec![
            ("shas", value_of(&shas)),
            ("diff", value_of(&diff)),
        ])));
    code(id, meta, vec![source.to_string()])
}

fn cell_with_diff_no_shas(id: &str, source: &str, diff: &str) -> Cell {
    let mut meta = blank_cell_metadata();
    meta.additional
        .insert("nota-bene".to_string(), lib(&object(vec![("diff", value_of(&diff))])));
    code(id, meta, vec![source.to_string()])
}

fn markdown_cell(id: &str, source: &str) -> Cell {
    note(id, vec![source.to_string()])
}

#[test]
fn diagnostic_type_display_strings() {
    assert_eq!(DiagnosticType::Missing.to_string(), "missing");
    assert_eq!(DiagnosticType::NeedsReview.to_string(), "needs_review");
    assert_eq!(
        DiagnosticType::AncestorModified.to_string(),
        "ancestor_modified"
    );
    assert_eq!(DiagnosticType::DiffConflict.to_string(), "diff_conflict");
    assert_eq!(DiagnosticType::InvalidField.to_string(), "invalid_field");
}

#[test]
fn missing_diagnostic_has_shas_field() {
    let nb = notebook(vec![plain_cell("c1", "x = 1")]);
    let status = compute_cell_diagnostics(&nb, 0);
    assert_eq!(status.diagnostics[0].field, "shas");
}

#[test]
fn needs_review_diagnostic_has_shas_field() {
    let c1_old = plain_cell("c1", "x = 1");
    let shas = Value::Array(vec![sha_json(&c1_old)]);
    let c1 = cell_with_shas("c1", "x = 999", shas);
    let nb = notebook(vec![c1]);
    let status = compute_cell_diagnostics(&nb, 0);
    let d = status
        .diagnostics
        .iter()
        .find(|d| d.kind == DiagnosticType::NeedsReview)
        .unwrap();
    assert_eq!(d.field, "shas");
}

#[test]
fn ancestor_modified_diagnostic_has_shas_field() {
    let c1_old = plain_cell("c1", "x = 1");
    let c2_plain = plain_cell("c2", "y = 2");
    let shas = Value::Array(vec![sha_json(&c1_old), sha_json(&c2_plain)]);
    let c1 = plain_cell("c1", "x = 999");
    let c2 = cell_with_shas("c2", "y = 2", shas);
    let nb = notebook(vec![c1, c2]);
    let status = compute_cell_diagnostics(&nb, 1);
    let d = status
        .diagnostics
        .iter()
        .find(|d| d.kind == DiagnosticType::AncestorModified)
        .unwrap();
    assert_eq!(d.field, "shas");
}

#[test]
fn diff_conflict_diagnostic_has_diff_field() {
    let diff = "--- a\n+++ b\n@@ -1 +1 @@\n-old line\n+new line\n".to_string();
    let c1_plain = plain_cell("c1", "completely different");
    let shas = Value::Array(vec![sha_json(&c1_plain)]);
    let cell = cell_with_diff_and_shas("c1", "completely different", &diff, shas);
    let nb = notebook(vec![cell]);
    let status = compute_cell_diagnostics(&nb, 0);
    let d = status
        .diagnostics
        .iter()
        .find(|d| d.kind == DiagnosticType::DiffConflict)
        .unwrap();
    assert_eq!(d.field, "diff");
}

#[test]
fn markdown_cell_produces_no_diagnostics() {
    let nb = notebook(vec![markdown_cell("m1", "# Hello")]);
    let status = compute_cell_diagnostics(&nb, 0);
    assert!(status.valid);
    assert!(status.diagnostics.is_empty());
}

#[test]
fn valid_cell_with_clean_diff_produces_no_diagnostics() {
    // In nota-bene the cell stores the original source; the diff is applied
    // forward to get the patched version. apply_diff(original, diff) must succeed.
    let original = "x = 1\n";
    let patched = "x = 99\n";
    let diff = nota_bene::diff_utils::compute_diff(original, patched).unwrap();

    // Build the cell with the original source and the diff, then compute its SHA.
    let cell_for_sha = {
        let mut m = blank_cell_metadata();
        m.additional
            .insert("nota-bene".to_string(), lib(&object(vec![("diff", value_of(&diff))])));
        code("c1", m, vec![original.to_string()])
    };
    let shas = Value::Array(vec![sha_json(&cell_for_sha)]);
    let cell = cell_with_diff_and_shas("c1", original, &diff, shas);
    let nb = notebook(vec![cell]);
    let status = compute_cell_diagnostics(&nb, 0);
    assert!(
        status.valid,
        "unexpected diagnostics: {:?}",
        status.diagnostics
    );
}

#[test]
fn needs_review_and_ancestor_modified_both_emitted() {
    // Both this cell's own source changed AND a predecessor changed.
    let c1_old = plain_cell("c1", "x = 1");
    let c2_old = plain_cell("c2", "y = 2");
    let shas = Value::Array(vec![sha_json(&c1_old), sha_json(&c2_old)]);
    let c1 = plain_cell("c1", "x = 999"); // ancestor changed
    let c2 = cell_with_shas("c2", "y = 999", shas); // own source changed too
    let nb = notebook(vec![c1, c2]);
    let status = compute_cell_diagnostics(&nb, 1);
    assert!(!status.valid);
    assert!(status
        .diagnostics
        .iter()
        .any(|d| d.kind == DiagnosticType::NeedsReview));
    assert!(status
        .diagnostics
        .iter()
        .any(|d| d.kind == DiagnosticType::AncestorModified));
}

#[test]
fn needs_review_and_diff_conflict_both_emitted() {
    // Cell's own source changed (NeedsReview) AND the stored diff no longer applies.
    let bad_diff = "--- a\n+++ b\n@@ -1 +1 @@\n-old line\n+new line\n".to_string();
    // Record shas when source was "original source"
    let c1_for_sha = cell_with_diff_and_shas("c1", "original source", &bad_diff, Value::Array(vec![]));
    let shas = Value::Array(vec![sha_json(&c1_for_sha)]);
    // Now source is "completely different" — both sha mismatch and diff won't apply
    let cell = cell_with_diff_and_shas("c1", "completely different", &bad_diff, shas);
    let nb = notebook(vec![cell]);
    let status = compute_cell_diagnostics(&nb, 0);
    assert!(!status.valid);
    assert!(status
        .diagnostics
        .iter()
        .any(|d| d.kind == DiagnosticType::NeedsReview));
    assert!(status
        .diagnostics
        .iter()
        .any(|d| d.kind == DiagnosticType::DiffConflict));
}

#[test]
fn ancestor_modified_and_diff_conflict_both_emitted() {
    // Ancestor changed (AncestorModified) AND the diff on this cell won't apply.
    let bad_diff = "--- a\n+++ b\n@@ -1 +1 @@\n-old line\n+new line\n".to_string();
    let c1_old = plain_cell("c1", "x = 1");
    let c2_for_sha =
        cell_with_diff_and_shas("c2", "completely different", &bad_diff, Value::Array(vec![]));
    let shas = Value::Array(vec![sha_json(&c1_old), sha_json(&c2_for_sha)]);
    let c1 = plain_cell("c1", "x = 999"); // ancestor changed
    let c2 = cell_with_diff_and_shas("c2", "completely different", &bad_diff, shas); // own sha unchanged
    let nb = notebook(vec![c1, c2]);
    let status = compute_cell_diagnostics(&nb, 1);
    assert!(!status.valid);
    assert!(status
        .diagnostics
        .iter()
        .any(|d| d.kind == DiagnosticType::AncestorModified));
    assert!(status
        .diagnostics
        .iter()
        .any(|d| d.kind == DiagnosticType::DiffConflict));
    // Own source didn't change, so no NeedsReview
    assert!(!status
        .diagnostics
        .iter()
        .any(|d| d.kind == DiagnosticType::NeedsReview));
}

#[test]
fn missing_and_diff_conflict_both_emitted_when_nb_has_diff_but_no_shas() {
    // Cell has nota-bene with a diff but no shas — Missing fires.
    // The diff also doesn't apply — DiffConflict fires too.
    let bad_diff = "--- a\n+++ b\n@@ -1 +1 @@\n-old line\n+new line\n".to_string();
    let cell = cell_with_diff_no_shas("c1", "completely different", &bad_diff);
    let nb = notebook(vec![cell]);
    let status = compute_cell_diagnostics(&nb, 0);
    assert!(!status.valid);
    assert!(status
        .diagnostics
        .iter()
        .any(|d| d.kind == DiagnosticType::Missing));
    assert!(status
        .diagnostics
        .iter()
        .any(|d| d.kind == DiagnosticType::DiffConflict));
}

#[test]
fn multiple_ancestor_reasons_each_produce_a_diagnostic() {
    // Both a deletion and a modification among ancestors → two AncestorModified diagnostics.
    let c1_old = plain_cell("c1", "x = 1");
    let c_gone = plain_cell("c-gone", "old");
    let c2_plain = plain_cell("c2", "y = 2");
    let shas = Value::Array(vec![sha_json(&c1_old), sha_json(&c_gone), sha_json(&c2_plain)]);
    // c1 was also modified on top of c_gone being deleted
    let c1 = plain_cell("c1", "x = 999");
    let c2 = cell_with_shas("c2", "y = 2", shas);
    let nb = notebook(vec![c1, c2]);
    let status = compute_cell_diagnostics(&nb, 1);
    let ancestor_diags: Vec<_> = status
        .diagnostics
        .iter()
        .filter(|d| d.kind == DiagnosticType::AncestorModified)
        .collect();
    assert!(
        ancestor_diags.len() >= 2,
        "expected at least 2 AncestorModified diagnostics (deleted + modified), got {}",
        ancestor_diags.len()
    );
}

#[test]
fn all_three_state_plus_diff_conflict() {
    // NeedsReview + AncestorModified + DiffConflict all at once.
    let bad_diff = "--- a\n+++ b\n@@ -1 +1 @@\n-old line\n+new line\n".to_string();
    let c1_old = plain_cell("c1", "x = 1");
    let c2_for_sha = cell_with_diff_and_shas("c2", "original", &bad_diff, Value::Array(vec![]));
    let shas = Value::Array(vec![sha_json(&c1_old), sha_json(&c2_for_sha)]);
    let c1 = plain_cell("c1", "x = 999"); // ancestor changed
    let c2 = cell_with_diff_and_shas("c2", "completely different", &bad_diff, shas); // own source changed + bad diff
    let nb = notebook(vec![c1, c2]);
    let status = compute_cell_diagnostics(&nb, 1);
    assert!(!status.valid);
    assert!(status
        .diagnostics
        .iter()
        .any(|d| d.kind == DiagnosticType::NeedsReview));
    assert!(status
        .diagnostics
        .iter()
        .any(|d| d.kind == DiagnosticType::AncestorModified));
    assert!(status
        .diagnostics
        .iter()
        .any(|d| d.kind == DiagnosticType::DiffConflict));
}

#[test]
fn valid_cell_no_diagnostics() {
    let c1_plain = plain_cell("c1", "x = 1");
    let shas = Value::Array(vec![sha_json(&c1_plain)]);
    let c1 = cell_with_shas("c1", "x = 1", shas);
    let nb = notebook(vec![c1]);
    let status = compute_cell_diagnostics(&nb, 0);
    assert!(status.valid);
    assert!(status.diagnostics.is_empty());
}

#[test]
fn plain_code_cell_produces_missing_error() {
    let nb = notebook(vec![plain_cell("c1", "x = 1")]);
    let status = compute_cell_diagnostics(&nb, 0);
    assert!(!status.valid);
    assert_eq!(status.diagnostics.len(), 1);
    assert_eq!(status.diagnostics[0].kind, DiagnosticType::Missing);
    assert_eq!(status.diagnostics[0].severity, Severity::Error);
}

#[test]
fn cell_with_nb_no_shas_produces_missing_error() {
    let nb = notebook(vec![cell_with_nb_no_shas("c1", "x = 1")]);
    let status = compute_cell_diagnostics(&nb, 0);
    assert!(!status.valid);
    assert_eq!(status.diagnostics.len(), 1);
    assert_eq!(status.diagnostics[0].kind, DiagnosticType::Missing);
    assert_eq!(status.diagnostics[0].severity, Severity::Error);
}

#[test]
fn changed_own_source_produces_needs_review_warning() {
    let c1_old = plain_cell("c1", "x = 1");
    let shas = Value::Array(vec![sha_json(&c1_old)]);
    // Cell is now "x = 999"
    let c1 = cell_with_shas("c1", "x = 999", shas);
    let nb = notebook(vec![c1]);
    let status = compute_cell_diagnostics(&nb, 0);
    assert!(!status.valid);
    assert!(status
        .diagnostics
        .iter()
        .any(|d| d.kind == DiagnosticType::NeedsReview && d.severity == Severity::Warning));
}

#[test]
fn ancestor_change_produces_ancestor_modified_warning() {
    let c1_old = plain_cell("c1", "x = 1");
    let c2_plain = plain_cell("c2", "y = 2");
    let shas = Value::Array(vec![sha_json(&c1_old), sha_json(&c2_plain)]);
    let c1 = plain_cell("c1", "x = 999"); // c1 changed
    let c2 = cell_with_shas("c2", "y = 2", shas); // c2 unchanged
    let nb = notebook(vec![c1, c2]);
    let status = compute_cell_diagnostics(&nb, 1);
    assert!(!status.valid);
    assert!(status.diagnostics.iter().any(
        |d| d.kind == DiagnosticType::AncestorModified && d.severity == Severity::Warning
    ));
    assert!(!status
        .diagnostics
        .iter()
        .any(|d| d.kind == DiagnosticType::NeedsReview));
}

#[test]
fn diagnostics_diff_conflict_produces_error() {
    let diff = "--- a\n+++ b\n@@ -1 +1 @@\n-old line\n+new line\n".to_string();
    let mut meta = blank_cell_metadata();
    // Valid shas so no cell-state issues, but diff that won't apply
    let c1_plain = plain_cell("c1", "completely different");
    let shas = Value::Array(vec![sha_json(&c1_plain)]);
    meta.additional
        .insert("nota-bene".to_string(), lib(&object(vec![
            ("shas", value_of(&shas)),
            ("diff", value_of(&diff)),
        ])));
    let cell = code("c1", meta, vec!["completely different".to_string()]);
    let nb = notebook(vec![cell]);
    let status = compute_cell_diagnostics(&nb, 0);
    assert!(status
        .diagnostics
        .iter()
        .any(|d| d.kind == DiagnosticType::DiffConflict));
}

#[test]
fn own_diagnostics_diff_conflict() {
    let diff = "--- a\n+++ b\n@@ -1 +1 @@\n-old line\n+new line\n".to_string();
    let cell = cell_with_diff_no_shas("c1", "completely different", &diff);
    let diags = compute_own_diagnostics(&cell);
    assert!(diags
        .iter()
        .any(|d| d.kind == DiagnosticType::DiffConflict));
}

#[test]
fn own_diagnostics_clean_diff() {
    let original = "x = 1\n";
    let patched = "x = 99\n";
    let diff = nota_bene::diff_utils::compute_diff(original, patched).unwrap();
    let mut meta = blank_cell_metadata();
    meta.additional
        .insert("nota-bene".to_string(), lib(&object(vec![("diff", value_of(&diff))])));
    let cell = code("c1", meta, vec![original.to_string()]);
    let diags = compute_own_diagnostics(&cell);
    assert!(diags.is_empty());
}

#[test]
fn own_diagnostics_no_metadata() {
    let cell = plain_cell("c1", "x = 1");
    let diags = compute_own_diagnostics(&cell);
    assert!(diags.is_empty());
}

#[test]
fn state_diagnostics_missing() {
    let nb = notebook(vec![plain_cell("c1", "x = 1")]);
    let diags = compute_state_diagnostics(&nb, 0);
    assert!(diags.iter().any(|d| d.kind == DiagnosticType::Missing));
}

#[test]
fn state_diagnostics_valid() {
    let c1_plain = plain_cell("c1", "x = 1");
    let shas = Value::Array(vec![sha_json(&c1_plain)]);
    let c1 = cell_with_shas("c1", "x = 1", shas);
    let nb = notebook(vec![c1]);
    let diags = compute_state_diagnostics(&nb, 0);
    assert!(diags.is_empty());
}

#[test]
fn state_diagnostics_both_buckets() {
    let c1_old = plain_cell("c1", "x = 1");
    let c2_old = plain_cell("c2", "y = 2");
    let shas = Value::Array(vec![sha_json(&c1_old), sha_json(&c2_old)]);
    let c1 = plain_cell("c1", "x = 999");
    let c2 = cell_with_shas("c2", "y = 999", shas);
    let nb = notebook(vec![c1, c2]);
    let diags = compute_state_diagnostics(&nb, 1);
    assert!(diags
        .iter()
        .any(|d| d.kind == DiagnosticType::NeedsReview));
    assert!(diags
        .iter()
        .any(|d| d.kind == DiagnosticType::AncestorModified));
}
