//! Fingerprints of cells.
use nota_bene::json::{parse_json, Json, JsonMap};
use nota_bene::notebook::{
    blank_cell_metadata, Cell, CellBody, CellExt, CellId, CellMetadata, Metadata, Notebook,
};
use nota_bene::shas::{accept_cell, compute_cell_sha, compute_snapshot, staleness, Staleness};
use serde_json::Value;

/// An object with the given members.
fn object(members: Vec<(&str, Value)>) -> Value {
    Value::Object(members.into_iter().map(|(k, v)| (k.to_string(), v)).collect())
}

/// A value as JSON.
fn value_of<T: serde::Serialize>(value: T) -> Value {
    serde_json::to_value(value).unwrap()
}

/// A JSON value as the library has it.
fn lib(value: &Value) -> Json {
    parse_json(&serde_json::to_string(value).unwrap()).unwrap()
}

/// Notebook metadata without any field.
fn blank_metadata() -> Metadata {
    Metadata { standard: JsonMap::new(), additional: JsonMap::new() }
}

/// A code cell that was never run.
fn code(id: &str, metadata: CellMetadata, source: Vec<String>) -> Cell {
    Cell {
        id: CellId::new(id).unwrap(),
        metadata,
        source,
        body: CellBody::Code { execution_count: None, outputs: vec![] },
    }
}

fn plain_cell(id: &str, source: &str) -> Cell {
    code(id, blank_cell_metadata(), vec![source.to_string()])
}

fn cell_with_shas(id: &str, source: &str, shas: Value) -> Cell {
    let mut meta = blank_cell_metadata();
    meta.additional
        .insert("nota-bene".to_string(), lib(&object(vec![("shas", value_of(&shas))])));
    code(id, meta, vec![source.to_string()])
}

fn cell_with_nb_no_shas(id: &str, source: &str) -> Cell {
    let mut meta = blank_cell_metadata();
    meta.additional.insert("nota-bene".to_string(), lib(&object(vec![])));
    code(id, meta, vec![source.to_string()])
}

fn notebook(cells: Vec<Cell>) -> Notebook {
    Notebook {
        metadata: blank_metadata(),
        nbformat: 4,
        nbformat_minor: 5,
        cells,
    }
}

fn sha_json(cell: &Cell) -> Value {
    object(vec![
        ("cell_id", value_of(&cell.cell_id_str())),
        ("sha", value_of(&compute_cell_sha(cell))),
    ])
}

// --- compute_cell_sha ---

#[test]
fn sha_is_deterministic() {
    let c = plain_cell("c1", "x = 1");
    assert_eq!(compute_cell_sha(&c), compute_cell_sha(&c));
}

#[test]
fn sha_changes_when_source_changes() {
    let c1 = plain_cell("c1", "x = 1");
    let c2 = plain_cell("c1", "x = 2");
    assert_ne!(compute_cell_sha(&c1), compute_cell_sha(&c2));
}

#[test]
fn sha_does_not_depend_on_cell_id() {
    let c1 = plain_cell("id-a", "x = 1");
    let c2 = plain_cell("id-b", "x = 1");
    assert_eq!(compute_cell_sha(&c1), compute_cell_sha(&c2));
}

// --- compute_snapshot ---

#[test]
fn snapshot_empty_notebook() {
    let snap = compute_snapshot(&notebook(vec![]));
    assert!(snap.is_empty());
}

#[test]
fn snapshot_has_entry_per_cell_in_order() {
    let nb = notebook(vec![plain_cell("c1", "x = 1"), plain_cell("c2", "y = 2")]);
    let snap = compute_snapshot(&nb);
    assert_eq!(snap.len(), 2);
    assert_eq!(snap[0].cell_id, "c1");
    assert_eq!(snap[1].cell_id, "c2");
}

#[test]
fn snapshot_sha_matches_compute_cell_sha() {
    let c = plain_cell("c1", "x = 1");
    let expected = compute_cell_sha(&c);
    let nb = notebook(vec![c]);
    assert_eq!(compute_snapshot(&nb)[0].sha, expected);
}

// --- staleness ---

#[test]
fn absent_meta_returns_valid() {
    let nb = notebook(vec![plain_cell("c1", "x = 1")]);
    assert_eq!(staleness(&nb, 0), Staleness::Valid);
}

#[test]
fn no_shas_field_returns_not_implemented() {
    let nb = notebook(vec![cell_with_nb_no_shas("c1", "x = 1")]);
    assert_eq!(staleness(&nb, 0), Staleness::NotImplemented);
}

#[test]
fn matching_shas_returns_valid() {
    let c1 = plain_cell("c1", "x = 1");
    let c2_plain = plain_cell("c2", "y = 2");
    let shas = Value::Array(vec![sha_json(&c1), sha_json(&c2_plain)]);
    let c2 = cell_with_shas("c2", "y = 2", shas);
    let nb = notebook(vec![c1, c2]);
    assert_eq!(staleness(&nb, 1), Staleness::Valid);
}

#[test]
fn single_cell_with_its_own_sha_valid() {
    let c_plain = plain_cell("c1", "x = 1");
    let shas = Value::Array(vec![sha_json(&c_plain)]);
    let c = cell_with_shas("c1", "x = 1", shas);
    let nb = notebook(vec![c]);
    assert_eq!(staleness(&nb, 0), Staleness::Valid);
}

#[test]
fn target_cell_source_changed_returns_out_of_date() {
    let c1 = plain_cell("c1", "x = 1");
    let c2_old = plain_cell("c2", "y = 2");
    let shas = Value::Array(vec![sha_json(&c1), sha_json(&c2_old)]);
    let c2 = cell_with_shas("c2", "y = 999", shas);
    let nb = notebook(vec![c1, c2]);
    match staleness(&nb, 1) {
        Staleness::OutOfDate(reasons) => {
            assert!(reasons.iter().any(|r| r.contains("Cell source changed")));
        }
        other => panic!("expected OutOfDate, got {other:?}"),
    }
}

#[test]
fn preceding_cell_modified_returns_out_of_date() {
    let c1_old = plain_cell("c1", "x = 1");
    let c2_plain = plain_cell("c2", "y = 2");
    let shas = Value::Array(vec![sha_json(&c1_old), sha_json(&c2_plain)]);
    let c1 = plain_cell("c1", "x = 999");
    let c2 = cell_with_shas("c2", "y = 2", shas);
    let nb = notebook(vec![c1, c2]);
    match staleness(&nb, 1) {
        Staleness::OutOfDate(reasons) => {
            assert!(reasons.iter().any(|r| r.contains("modified")));
        }
        other => panic!("expected OutOfDate, got {other:?}"),
    }
}

#[test]
fn cell_deleted_returns_out_of_date() {
    let c1 = plain_cell("c1", "x = 1");
    let c_gone = plain_cell("c-gone", "old");
    let c2_plain = plain_cell("c2", "y = 2");
    let shas = Value::Array(vec![sha_json(&c1), sha_json(&c_gone), sha_json(&c2_plain)]);
    let c2 = cell_with_shas("c2", "y = 2", shas);
    let nb = notebook(vec![c1, c2]);
    match staleness(&nb, 1) {
        Staleness::OutOfDate(reasons) => {
            assert!(reasons.iter().any(|r| r.contains("deleted")));
        }
        other => panic!("expected OutOfDate, got {other:?}"),
    }
}

#[test]
fn cell_inserted_before_target_returns_out_of_date() {
    let c1 = plain_cell("c1", "x = 1");
    let c2_plain = plain_cell("c2", "y = 2");
    let shas = Value::Array(vec![sha_json(&c1), sha_json(&c2_plain)]);
    let c_new = plain_cell("c-new", "new stuff");
    let c2 = cell_with_shas("c2", "y = 2", shas);
    let nb = notebook(vec![c1, c_new, c2]);
    match staleness(&nb, 2) {
        Staleness::OutOfDate(reasons) => {
            assert!(reasons.iter().any(|r| r.contains("inserted")));
        }
        other => panic!("expected OutOfDate, got {other:?}"),
    }
}

#[test]
fn cell_reordered_returns_out_of_date() {
    let c1 = plain_cell("c1", "x = 1");
    let c2_plain = plain_cell("c2", "y = 2");
    let shas = Value::Array(vec![sha_json(&c1), sha_json(&c2_plain)]);
    let c2 = cell_with_shas("c2", "y = 2", shas);
    let nb = notebook(vec![c2, c1]); // reordered
    match staleness(&nb, 0) {
        Staleness::OutOfDate(reasons) => {
            assert!(reasons.iter().any(|r| r.contains("ordering")));
        }
        other => panic!("expected OutOfDate, got {other:?}"),
    }
}

#[test]
fn inserted_after_target_does_not_trigger_out_of_date() {
    let c1_plain = plain_cell("c1", "x = 1");
    let shas = Value::Array(vec![sha_json(&c1_plain)]);
    let c1 = cell_with_shas("c1", "x = 1", shas);
    let c_after = plain_cell("c-after", "new");
    let nb = notebook(vec![c1, c_after]);
    // c-after is after c1, so it shouldn't affect staleness of c1.
    assert_eq!(staleness(&nb, 0), Staleness::Valid);
}

// --- compute_cell_sha metadata sensitivity ---

fn cell_with_fixture(id: &str, source: &str, fixture_val: &str) -> Cell {
    let mut meta = blank_cell_metadata();
    meta.additional.insert("nota-bene".to_string(), lib(&object(vec![
            ("fixtures", object(vec![("input", value_of(&fixture_val))])),
        ])));
    code(id, meta, vec![source.to_string()])
}

fn cell_with_diff(id: &str, source: &str, diff_val: &str) -> Cell {
    let mut meta = blank_cell_metadata();
    meta.additional
        .insert("nota-bene".to_string(), lib(&object(vec![("diff", value_of(&diff_val))])));
    code(id, meta, vec![source.to_string()])
}

fn cell_with_test(id: &str, source: &str, test_val: &str) -> Cell {
    let mut meta = blank_cell_metadata();
    meta.additional.insert("nota-bene".to_string(), lib(&object(vec![
            ("test", object(vec![("code", value_of(&test_val))])),
        ])));
    code(id, meta, vec![source.to_string()])
}

fn cell_with_shas_only(id: &str, source: &str) -> Cell {
    let mut meta = blank_cell_metadata();
    meta.additional.insert("nota-bene".to_string(), lib(&object(vec![
            (
                "shas",
                Value::Array(vec![
                    object(vec![
                        ("cell_id", value_of(&id)),
                        ("sha", Value::from("deadbeef")),
                    ]),
                ]),
            ),
        ])));
    code(id, meta, vec![source.to_string()])
}

#[test]
fn sha_changes_when_fixture_changes() {
    let c1 = cell_with_fixture("c1", "x = 1", "old_fixture");
    let c2 = cell_with_fixture("c1", "x = 1", "new_fixture");
    assert_ne!(
        compute_cell_sha(&c1),
        compute_cell_sha(&c2),
        "SHA must change when fixture metadata changes"
    );
}

#[test]
fn sha_changes_when_diff_changes() {
    let c1 = cell_with_diff("c1", "x = 1", "old diff");
    let c2 = cell_with_diff("c1", "x = 1", "new diff");
    assert_ne!(
        compute_cell_sha(&c1),
        compute_cell_sha(&c2),
        "SHA must change when diff metadata changes"
    );
}

#[test]
fn sha_changes_when_test_changes() {
    let c1 = cell_with_test("c1", "x = 1", "assert x == 1");
    let c2 = cell_with_test("c1", "x = 1", "assert x == 2");
    assert_ne!(
        compute_cell_sha(&c1),
        compute_cell_sha(&c2),
        "SHA must change when test metadata changes"
    );
}

#[test]
fn sha_does_not_change_when_only_shas_change() {
    let c1 = cell_with_shas_only("c1", "x = 1");
    let mut meta = blank_cell_metadata();
    meta.additional.insert("nota-bene".to_string(), lib(&object(vec![
            (
                "shas",
                Value::Array(vec![
                    object(vec![
                        ("cell_id", Value::from("c1")),
                        ("sha", Value::from("different_sha_value")),
                    ]),
                ]),
            ),
        ])));
    let c2 = code("c1", meta, vec!["x = 1".to_string()]);
    assert_eq!(
        compute_cell_sha(&c1),
        compute_cell_sha(&c2),
        "SHA must NOT change when only shas key changes"
    );
}

#[test]
fn sha_plain_cell_uses_empty_nota_bene_object() {
    let plain = plain_cell("c1", "x = 1");
    let with_empty_nb = cell_with_nb_no_shas("c1", "x = 1");
    assert_eq!(
        compute_cell_sha(&plain),
        compute_cell_sha(&with_empty_nb),
        "Plain cell and cell with empty nota-bene must hash identically"
    );
}

// --- accept_cell ---

#[test]
fn accept_cell_stamps_nb_cell() {
    let c1 = plain_cell("c1", "x = 1");
    let c2 = cell_with_nb_no_shas("c2", "y = 2");
    let mut nb = notebook(vec![c1, c2]);
    accept_cell(&mut nb, 1);
    let data = nb.cells[1].nota_bene().expect("c2 should have nota-bene");
    let shas = data.shas.expect("shas should be set");
    assert_eq!(shas.len(), 2);
    assert_eq!(shas[1].cell_id, "c2");
}

#[test]
fn accept_cell_skips_cell_without_nb_metadata() {
    let c1 = plain_cell("c1", "x = 1"); // no nota-bene
    let mut nb = notebook(vec![c1]);
    accept_cell(&mut nb, 0);
    assert!(nb.cells[0].nota_bene().is_none());
}

#[test]
fn accept_cell_reaccept_overwrites_shas() {
    let c1 = plain_cell("c1", "x = 1");
    let c2 = cell_with_nb_no_shas("c2", "y = 2");
    let mut nb = notebook(vec![c1, c2]);
    accept_cell(&mut nb, 1);
    let shas_before = nb.cells[1].nota_bene().unwrap().shas.unwrap();

    // Modify c1's source, then re-accept c2 — shas should change
    nb.cells[0] = plain_cell("c1", "x = 999");
    accept_cell(&mut nb, 1);
    let shas_after = nb.cells[1].nota_bene().unwrap().shas.unwrap();

    assert_ne!(
        shas_before[0].sha, shas_after[0].sha,
        "shas should reflect new c1 source"
    );
}

#[test]
fn accept_cell_produces_valid_staleness() {
    let c1 = plain_cell("c1", "x = 1");
    let c2 = cell_with_nb_no_shas("c2", "y = 2");
    let mut nb = notebook(vec![c1, c2]);
    accept_cell(&mut nb, 1);
    assert_eq!(staleness(&nb, 1), Staleness::Valid);
}
