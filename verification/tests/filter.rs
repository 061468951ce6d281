//! Filters.
use nota_bene::filter::{cell_matches_all, match_index, Filter};
use nota_bene::json::{parse_json, Json, JsonMap};
use nota_bene::notebook::{
    blank_cell_metadata, Cell, CellBody, CellExt, CellId, CellMetadata, Metadata, Notebook,
};
use nota_bene::shas::compute_cell_sha;
use serde_json::Value;

/// An object with the given members.
fn object(members: Vec<(&str, Value)>) -> Value {
    Value::Object(members.into_iter().map(|(k, v)| (k.to_string(), v)).collect())
}

/// A value as JSON.
fn value_of<T: serde::Serialize>(value: T) -> Value {
    serde_json::to_value(value).unwrap()
}

/// A JSON value as the library has it.
fn lib(value: &Value) -> Json {
    parse_json(&serde_json::to_string(value).unwrap()).unwrap()
}

/// Notebook metadata without any field.
fn blank_metadata() -> Metadata {
    Metadata { standard: JsonMap::new(), additional: JsonMap::new() }
}

/// A code cell that was never run.
fn code(id: &str, metadata: CellMetadata, source: Vec<String>) -> Cell {
    Cell {
        id: CellId::new(id).unwrap(),
        metadata,
        source,
        body: CellBody::Code { execution_count: None, outputs: vec![] },
    }
}

fn plain_cell(id: &str, source: &str) -> Cell {
    code(id, blank_cell_metadata(), vec![source.to_string()])
}

fn cell_with_nb(id: &str, source: &str, nb_val: Value) -> Cell {
    let mut meta = blank_cell_metadata();
    meta.additional.insert("nota-bene".to_string(), lib(&nb_val));
    code(id, meta, vec![source.to_string()])
}

fn notebook(cells: Vec<Cell>) -> Notebook {
    Notebook {
        metadata: blank_metadata(),
        nbformat: 4,
        nbformat_minor: 5,
        cells,
    }
}

/// Test helper: build a code cell whose stored SHA matches its current content,
/// so `cell_state` returns `Valid` and `status.valid` is `true`.
fn sha_accepted_cell(id: &str, source: &str) -> Cell {
    let plain = plain_cell(id, source);
    let sha = compute_cell_sha(&plain);
    cell_with_nb(
        id,
        source,
        object(vec![
            (
                "shas",
                Value::Array(vec![
                    object(vec![
                        ("cell_id", value_of(&id)),
                        ("sha", value_of(&sha)),
                    ]),
                ]),
            ),
        ]),
    )
}

// --- Filter::parse ---

#[test]
fn parse_simple_key_value() {
    let f = Filter::parse("cell:my-cell").unwrap();
    assert_eq!(f.values, vec!["my-cell"]);
}

#[test]
fn parse_multi_value_or() {
    let f = Filter::parse("diagnostics.type:needs_review,diff_conflict").unwrap();
    assert_eq!(f.values, vec!["needs_review", "diff_conflict"]);
}

#[test]
fn parse_unknown_key_errors() {
    assert!(Filter::parse("unknown_key:value").is_err());
}

#[test]
fn parse_missing_colon_errors() {
    assert!(Filter::parse("nocoron").is_err());
}

// --- match_index ---

#[test]
fn index_exact() {
    assert!(match_index(3, "3"));
    assert!(!match_index(2, "3"));
}

#[test]
fn index_range_n_to_m() {
    assert!(match_index(2, "1..3"));
    assert!(match_index(1, "1..3"));
    assert!(match_index(3, "1..3"));
    assert!(!match_index(0, "1..3"));
    assert!(!match_index(4, "1..3"));
}

#[test]
fn index_range_open_end() {
    assert!(match_index(5, "2.."));
    assert!(match_index(2, "2.."));
    assert!(!match_index(1, "2.."));
}

#[test]
fn index_range_open_start() {
    assert!(match_index(0, "..3"));
    assert!(match_index(3, "..3"));
    assert!(!match_index(4, "..3"));
}

// --- FilterKey::Cell ---

#[test]
fn filter_cell_id_matches() {
    let cell = plain_cell("my-id", "x = 1");
    let nb = notebook(vec![cell.clone()]);
    let f = Filter::parse("cell:my-id").unwrap();
    assert!(f.matches(&nb, &cell, 0));
}

#[test]
fn filter_cell_id_no_match() {
    let cell = plain_cell("my-id", "x = 1");
    let nb = notebook(vec![cell.clone()]);
    let f = Filter::parse("cell:other-id").unwrap();
    assert!(!f.matches(&nb, &cell, 0));
}

// --- FilterKey::Test ---

#[test]
fn filter_test_null_when_absent() {
    let cell = plain_cell("c1", "x = 1");
    let nb = notebook(vec![cell.clone()]);
    let f = Filter::parse("test:null").unwrap();
    assert!(f.matches(&nb, &cell, 0));
}

#[test]
fn filter_test_not_null_when_present() {
    let cell = cell_with_nb(
        "c1",
        "x = 1",
        object(vec![
            (
                "test",
                object(vec![
                    ("name", Value::from("t")),
                    ("source", Value::from("assert True")),
                ]),
            ),
        ]),
    );
    let nb = notebook(vec![cell.clone()]);
    let f = Filter::parse("test:not null").unwrap();
    assert!(f.matches(&nb, &cell, 0));
}

// --- FilterKey::StatusValid ---

#[test]
fn filter_status_valid_true_for_accepted_cell() {
    // A plain code cell now produces a Missing diagnostic (bug fix), so
    // use a cell with matching shas to get status.valid:true.
    let cell = sha_accepted_cell("c1", "x = 1");
    let nb = notebook(vec![cell.clone()]);
    let f = Filter::parse("status.valid:true").unwrap();
    assert!(f.matches(&nb, &cell, 0));
}

#[test]
fn filter_status_valid_false_for_unaccepted_cell_with_nb() {
    let cell = cell_with_nb("c1", "x = 1", object(vec![]));
    let nb = notebook(vec![cell.clone()]);
    let f = Filter::parse("status.valid:false").unwrap();
    assert!(f.matches(&nb, &cell, 0));
}

// --- cell_matches_all (AND semantics) ---

#[test]
fn cell_matches_all_with_no_filters_is_true() {
    let cell = plain_cell("c1", "x = 1");
    let nb = notebook(vec![cell.clone()]);
    assert!(cell_matches_all(&[], &nb, &cell, 0));
}

#[test]
fn cell_matches_all_and_semantics() {
    let cell = plain_cell("c1", "x = 1");
    let nb = notebook(vec![cell.clone()]);
    let f1 = Filter::parse("cell:c1").unwrap();
    let f2 = Filter::parse("test:null").unwrap();
    // Both match
    assert!(cell_matches_all(&[f1, f2], &nb, &cell, 0));
}

#[test]
fn cell_matches_all_fails_if_one_filter_misses() {
    let cell = plain_cell("c1", "x = 1");
    let nb = notebook(vec![cell.clone()]);
    let f1 = Filter::parse("cell:c1").unwrap();
    let f2 = Filter::parse("cell:other").unwrap();
    assert!(!cell_matches_all(&[f1, f2], &nb, &cell, 0));
}

// --- FilterKey::Diff ---

#[test]
fn filter_diff_null_when_absent() {
    let cell = plain_cell("c1", "x = 1");
    let nb = notebook(vec![cell.clone()]);
    let f = Filter::parse("diff:null").unwrap();
    assert!(f.matches(&nb, &cell, 0));
}

#[test]
fn filter_diff_not_null_when_present() {
    let cell = cell_with_nb("c1", "x = 1", object(vec![("diff", Value::from("some diff"))]));
    let nb = notebook(vec![cell.clone()]);
    let f = Filter::parse("diff:not null").unwrap();
    assert!(f.matches(&nb, &cell, 0));
}

#[test]
fn filter_diff_null_when_diff_present() {
    let cell = cell_with_nb("c1", "x = 1", object(vec![("diff", Value::from("some diff"))]));
    let nb = notebook(vec![cell.clone()]);
    let f = Filter::parse("diff:null").unwrap();
    assert!(!f.matches(&nb, &cell, 0));
}

// --- FilterKey::Fixtures ---

#[test]
fn filter_fixtures_null_when_absent() {
    let cell = plain_cell("c1", "x = 1");
    let nb = notebook(vec![cell.clone()]);
    let f = Filter::parse("fixtures:null").unwrap();
    assert!(f.matches(&nb, &cell, 0));
}

#[test]
fn filter_fixtures_not_null_when_present() {
    let cell = cell_with_nb(
        "c1",
        "x = 1",
        object(vec![
            (
                "fixtures",
                object(vec![
                    (
                        "f1",
                        object(vec![
                            ("description", Value::from("d")),
                            ("priority", Value::from(1)),
                            ("source", Value::from("s")),
                        ]),
                    ),
                ]),
            ),
        ]),
    );
    let nb = notebook(vec![cell.clone()]);
    let f = Filter::parse("fixtures:not null").unwrap();
    assert!(f.matches(&nb, &cell, 0));
}

#[test]
fn filter_fixtures_null_for_empty_map() {
    let cell = cell_with_nb("c1", "x = 1", object(vec![("fixtures", object(vec![]))]));
    let nb = notebook(vec![cell.clone()]);
    let f = Filter::parse("fixtures:null").unwrap();
    assert!(
        f.matches(&nb, &cell, 0),
        "empty fixture map should count as null"
    );
}

#[test]
fn filter_diagnostics_type_needs_review() {
    // A cell whose own SHA changed since last accept → NeedsReview warning.
    let plain = plain_cell("c1", "x = 1");
    let old_sha = compute_cell_sha(&plain);
    let cell = cell_with_nb(
        "c1",
        "x = 999",
        object(vec![
            (
                "shas",
                Value::Array(vec![
                    object(vec![
                        ("cell_id", Value::from("c1")),
                        ("sha", value_of(&old_sha)),
                    ]),
                ]),
            ),
        ]),
    );
    let nb = notebook(vec![cell.clone()]);
    let f = Filter::parse("diagnostics.type:needs_review").unwrap();
    assert!(f.matches(&nb, &cell, 0));
}

#[test]
fn filter_diagnostics_type_ancestor_modified() {
    // A preceding cell changed → AncestorModified warning on this cell.
    let c1_old = plain_cell("c1", "x = 1");
    let c2_plain = plain_cell("c2", "y = 2");
    let old_sha_c1 = compute_cell_sha(&c1_old);
    let old_sha_c2 = compute_cell_sha(&c2_plain);
    let c1 = plain_cell("c1", "x = 999"); // ancestor changed
    let c2 = cell_with_nb(
        "c2",
        "y = 2",
        object(vec![
            (
                "shas",
                Value::Array(vec![
                    object(vec![
                        ("cell_id", Value::from("c1")),
                        ("sha", value_of(&old_sha_c1)),
                    ]),
                    object(vec![
                        ("cell_id", Value::from("c2")),
                        ("sha", value_of(&old_sha_c2)),
                    ]),
                ]),
            ),
        ]),
    );
    let nb = notebook(vec![c1, c2.clone()]);
    let f = Filter::parse("diagnostics.type:ancestor_modified").unwrap();
    assert!(f.matches(&nb, &c2, 1));
}

#[test]
fn filter_diagnostics_severity_warning_matches_needs_review() {
    // NeedsReview is a Warning — severity:warning should match.
    let plain = plain_cell("c1", "x = 1");
    let old_sha = compute_cell_sha(&plain);
    let cell = cell_with_nb(
        "c1",
        "x = 999",
        object(vec![
            (
                "shas",
                Value::Array(vec![
                    object(vec![
                        ("cell_id", Value::from("c1")),
                        ("sha", value_of(&old_sha)),
                    ]),
                ]),
            ),
        ]),
    );
    let nb = notebook(vec![cell.clone()]);
    let f = Filter::parse("diagnostics.severity:warning").unwrap();
    assert!(f.matches(&nb, &cell, 0));
}

// --- FilterKey::DiagnosticsType ---

#[test]
fn filter_diagnostics_type_missing() {
    let cell = cell_with_nb("c1", "x = 1", object(vec![])); // nb meta but no shas → Missing
    let nb = notebook(vec![cell.clone()]);
    let f = Filter::parse("diagnostics.type:missing").unwrap();
    assert!(f.matches(&nb, &cell, 0));
}

#[test]
fn filter_diagnostics_type_no_match() {
    let cell = plain_cell("c1", "x = 1"); // no nb meta → Missing diagnostic
    let nb = notebook(vec![cell.clone()]);
    let f = Filter::parse("diagnostics.type:diff_conflict").unwrap();
    assert!(!f.matches(&nb, &cell, 0));
}

// --- FilterKey::DiagnosticsSeverity ---

#[test]
fn filter_diagnostics_severity_error() {
    let cell = cell_with_nb("c1", "x = 1", object(vec![])); // missing → error
    let nb = notebook(vec![cell.clone()]);
    let f = Filter::parse("diagnostics.severity:error").unwrap();
    assert!(f.matches(&nb, &cell, 0));
}

#[test]
fn filter_diagnostics_severity_warning_no_match_for_missing() {
    let cell = cell_with_nb("c1", "x = 1", object(vec![])); // missing → error, not warning
    let nb = notebook(vec![cell.clone()]);
    let f = Filter::parse("diagnostics.severity:warning").unwrap();
    assert!(!f.matches(&nb, &cell, 0));
}

// --- OR semantics through Filter::matches ---

#[test]
fn filter_or_cell_ids() {
    let c1 = plain_cell("c1", "x = 1");
    let c2 = plain_cell("c2", "y = 2");
    let c3 = plain_cell("c3", "z = 3");
    let nb = notebook(vec![c1.clone(), c2.clone(), c3.clone()]);
    let f = Filter::parse("cell:c1,c3").unwrap();
    assert!(f.matches(&nb, &c1, 0));
    assert!(!f.matches(&nb, &c2, 1));
    assert!(f.matches(&nb, &c3, 2));
}
