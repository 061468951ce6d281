//! Bringing the changes of an editor notebook back.
use nota_bene::edit::split_source;
use nota_bene::json::{parse_json, Json, JsonMap};
use nota_bene::notebook::{
    blank_cell_metadata, Cell, CellBody, CellExt, CellId, CellMetadata, Metadata, Notebook,
};
use nota_bene::save::apply_editor_to_source;
use serde_json::Value;

/// An object with the given members.
fn object(members: Vec<(&str, Value)>) -> Value {
    Value::Object(members.into_iter().map(|(k, v)| (k.to_string(), v)).collect())
}

/// A value as JSON.
fn value_of<T: serde::Serialize>(value: T) -> Value {
    serde_json::to_value(value).unwrap()
}

/// A JSON value as the library has it.
fn lib(value: &Value) -> Json {
    parse_json(&serde_json::to_string(value).unwrap()).unwrap()
}

/// Notebook metadata without any field.
fn blank_metadata() -> Metadata {
    Metadata { standard: JsonMap::new(), additional: JsonMap::new() }
}

/// A code cell that was never run.
fn code(id: &str, metadata: CellMetadata, source: Vec<String>) -> Cell {
    Cell {
        id: CellId::new(id).unwrap(),
        metadata,
        source,
        body: CellBody::Code { execution_count: None, outputs: vec![] },
    }
}

/// A markdown cell.
fn note(id: &str, source: Vec<String>) -> Cell {
    Cell {
        id: CellId::new(id).unwrap(),
        metadata: blank_cell_metadata(),
        source,
        body: CellBody::Markdown { attachments: None },
    }
}

/// Plain code cell with no nota-bene metadata.
fn code_cell(id: &str, source: &str) -> Cell {
    code(id, blank_cell_metadata(), split_source(source))
}

/// Code cell that already has nota-bene metadata.
fn code_cell_with_nb(id: &str, source: &str, nb_val: Value) -> Cell {
    let mut meta = blank_cell_metadata();
    meta.additional.insert("nota-bene".to_string(), lib(&nb_val));
    code(id, meta, split_source(source))
}

/// Build a cell that carries an editor role in its nota-bene metadata.
fn editor_cell(id: &str, source: &str, role: &str, target: &str) -> Cell {
    let mut meta = blank_cell_metadata();
    meta.additional.insert("nota-bene".to_string(), lib(&object(vec![
            (
                "editor",
                object(vec![
                    ("role", value_of(&role)),
                    ("cell_id", value_of(&target)),
                ]),
            ),
        ])));
    code(id, meta, split_source(source))
}

/// Markdown section-header cell pointing at `target`.
fn section_header(id: &str, target: &str) -> Cell {
    let mut meta = blank_cell_metadata();
    meta.additional.insert("nota-bene".to_string(), lib(&object(vec![
            (
                "editor",
                object(vec![
                    ("role", Value::from("section-header")),
                    ("cell_id", value_of(&target)),
                ]),
            ),
        ])));
    Cell {
        id: CellId::new(id).unwrap(),
        metadata: meta,
        source: vec!["## header".to_string()],
        body: CellBody::Markdown { attachments: None },
    }
}

fn notebook(cells: Vec<Cell>) -> Notebook {
    Notebook {
        metadata: blank_metadata(),
        nbformat: 4,
        nbformat_minor: 5,
        cells,
    }
}

/// Minimal editor notebook for one section: header + patched-source [+ optional test].
fn simple_editor(target: &str, patched: &str, test_src: Option<&str>) -> Notebook {
    let mut cells = vec![
        section_header("hdr", target),
        editor_cell("ps", patched, "patched-source", target),
    ];
    if let Some(t) = test_src {
        cells.push(editor_cell("tst", t, "test", target));
    }
    notebook(cells)
}

#[test]
fn fixture_all_headers_parsed_correctly() {
    let mut source = notebook(vec![code_cell("src", "x = 1")]);
    let fixture_src = "# fixture: my_fix\n# description: My desc\n# priority: 5\nx = 10";
    let editor = notebook(vec![
        section_header("hdr", "src"),
        editor_cell("fix", fixture_src, "fixture", "src"),
        editor_cell("ps", "x = 1", "patched-source", "src"),
    ]);
    apply_editor_to_source(&mut source, &editor).unwrap();

    let data = source.cells[0].nota_bene().unwrap();
    let fixtures = data.fixtures.as_ref().unwrap();
    let fix = fixtures.get("my_fix").expect("fixture not found");
    assert_eq!(fix.description, "My desc");
    assert_eq!(fix.priority, 5);
    assert_eq!(fix.source, "x = 10");
}

#[test]
fn fixture_missing_headers_uses_defaults() {
    let mut source = notebook(vec![code_cell("src", "x = 1")]);
    let editor = notebook(vec![
        section_header("hdr", "src"),
        editor_cell("fix", "x = 42", "fixture", "src"),
        editor_cell("ps", "x = 1", "patched-source", "src"),
    ]);
    apply_editor_to_source(&mut source, &editor).unwrap();

    let data = source.cells[0].nota_bene().unwrap();
    let fixtures = data.fixtures.as_ref().unwrap();
    assert_eq!(fixtures.len(), 1);
    let (name, fix) = fixtures.iter().next().unwrap();
    // Auto-generated name contains the parent cell id.
    assert!(name.contains("src"), "name was: {name}");
    assert_eq!(fix.source, "x = 42");
    assert_eq!(fix.priority, 0); // position 0
}

#[test]
fn fixture_partial_headers_uses_what_is_present() {
    let mut source = notebook(vec![code_cell("src", "x = 1")]);
    // Only name header, no description or priority.
    let fixture_src = "# fixture: named_fix\nx = 7";
    let editor = notebook(vec![
        section_header("hdr", "src"),
        editor_cell("fix", fixture_src, "fixture", "src"),
        editor_cell("ps", "x = 1", "patched-source", "src"),
    ]);
    apply_editor_to_source(&mut source, &editor).unwrap();

    let data = source.cells[0].nota_bene().unwrap();
    let fixtures = data.fixtures.as_ref().unwrap();
    let fix = fixtures.get("named_fix").unwrap();
    assert_eq!(fix.description, ""); // empty default
    assert_eq!(fix.priority, 0); // positional default
    assert_eq!(fix.source, "x = 7");
}

#[test]
fn test_cell_with_nb_skip_and_name() {
    let mut source = notebook(vec![code_cell("src", "x = 1")]);
    let editor = simple_editor(
        "src",
        "x = 1",
        Some("%%nb_skip\n# test: check_x\nassert x == 1"),
    );
    apply_editor_to_source(&mut source, &editor).unwrap();

    let data = source.cells[0].nota_bene().unwrap();
    let test = data.test.as_ref().unwrap();
    assert_eq!(test.name, "check_x");
    assert_eq!(test.source, "assert x == 1");
}

#[test]
fn test_cell_bare_nb_skip_yields_no_test() {
    // "%%nb_skip" alone → body is empty → has_test_content = false → test key absent.
    let mut meta = blank_cell_metadata();
    meta.additional.insert("nota-bene".to_string(), lib(&object(vec![])));
    let src_cell = code("src", meta, split_source("x = 1"));
    let mut source = notebook(vec![src_cell]);
    let editor = simple_editor("src", "x = 1", Some("%%nb_skip"));
    apply_editor_to_source(&mut source, &editor).unwrap();

    let data = source.cells[0].nota_bene().unwrap();
    // Blank test stub → test key absent.
    assert!(data.test.is_none());
}

#[test]
fn test_cell_no_test_header_uses_unnamed() {
    let mut source = notebook(vec![code_cell("src", "x = 1")]);
    let editor = simple_editor("src", "x = 1", Some("%%nb_skip\nassert x == 1"));
    apply_editor_to_source(&mut source, &editor).unwrap();

    let data = source.cells[0].nota_bene().unwrap();
    let test = data.test.as_ref().unwrap();
    assert_eq!(test.name, "<unnamed>");
    assert_eq!(test.source, "assert x == 1");
}

#[test]
fn test_cell_without_nb_skip_captures_whole_source_as_unnamed() {
    let mut source = notebook(vec![code_cell("src", "x = 1")]);
    let editor = simple_editor("src", "x = 1", Some("assert x == 1"));
    apply_editor_to_source(&mut source, &editor).unwrap();

    let data = source.cells[0].nota_bene().unwrap();
    let test = data.test.as_ref().unwrap();
    assert_eq!(test.name, "<unnamed>");
    assert_eq!(test.source, "assert x == 1");
}

#[test]
fn diff_set_when_patched_source_differs() {
    let mut source = notebook(vec![code_cell("src", "x = 1\n")]);
    let editor = simple_editor("src", "x = 99\n", None);
    apply_editor_to_source(&mut source, &editor).unwrap();

    let data = source.cells[0].nota_bene().unwrap();
    assert!(data.diff.is_some());
}

#[test]
fn diff_absent_stays_absent_when_no_change_and_no_prior_meta() {
    // Source cell has no nota-bene; editor makes no change → no diff key created.
    let mut source = notebook(vec![code_cell("src", "x = 1")]);
    let editor = simple_editor("src", "x = 1", None);
    apply_editor_to_source(&mut source, &editor).unwrap();

    // Cell had no nota-bene and nothing was written → stays absent.
    assert!(source.cells[0].nota_bene().is_none());
}

#[test]
fn diff_previously_set_becomes_absent_when_source_now_unchanged() {
    let mut source = notebook(vec![code_cell_with_nb(
        "src",
        "x = 1",
        object(vec![("diff", Value::from("--- orig\n+++ patched\n"))]),
    )]);
    let editor = simple_editor("src", "x = 1", None);
    apply_editor_to_source(&mut source, &editor).unwrap();

    let data = source.cells[0].nota_bene().unwrap();
    // Previously had a diff; now same source → diff key absent.
    assert!(data.diff.is_none());
}

#[test]
fn fixtures_absent_stays_absent_when_editor_adds_none() {
    let mut source = notebook(vec![code_cell("src", "x = 1")]);
    let editor = simple_editor("src", "x = 1", None);
    apply_editor_to_source(&mut source, &editor).unwrap();

    // No nota-bene at all (prev was absent and nothing was written).
    assert!(source.cells[0].nota_bene().is_none());
}

#[test]
fn fixtures_previously_set_now_removed_clears_key() {
    let mut source = notebook(vec![code_cell_with_nb(
        "src",
        "x = 1",
        object(vec![
            (
                "fixtures",
                object(vec![
                    (
                        "f1",
                        object(vec![
                            ("description", Value::from("d")),
                            ("priority", Value::from(0)),
                            ("source", Value::from("x")),
                        ]),
                    ),
                ]),
            ),
        ]),
    )]);
    let editor = simple_editor("src", "x = 1", None);
    apply_editor_to_source(&mut source, &editor).unwrap();

    let data = source.cells[0].nota_bene().unwrap();
    // Had fixtures → now no fixture cells → fixtures key absent.
    assert!(data.fixtures.is_none());
}

#[test]
fn test_previously_set_now_empty_removes_key() {
    let mut source = notebook(vec![code_cell_with_nb(
        "src",
        "x = 1",
        object(vec![
            (
                "test",
                object(vec![
                    ("name", Value::from("old_test")),
                    ("source", Value::from("assert True")),
                ]),
            ),
        ]),
    )]);
    // Editor has a test cell that is just %%nb_skip (empty body).
    let editor = simple_editor("src", "x = 1", Some("%%nb_skip"));
    apply_editor_to_source(&mut source, &editor).unwrap();

    let data = source.cells[0].nota_bene().unwrap();
    // Test cell present but blank → test key absent.
    assert!(data.test.is_none());
}

#[test]
fn nb_key_preserved_even_when_all_subkeys_absent() {
    let mut source = notebook(vec![code_cell_with_nb("src", "x = 1", object(vec![]))]);
    let editor = simple_editor("src", "x = 1", None);
    apply_editor_to_source(&mut source, &editor).unwrap();

    // Prior nota-bene was Some → nb key must still exist.
    assert!(source.cells[0].nota_bene().is_some());
}

#[test]
fn unknown_cell_id_skips_without_error() {
    let mut source = notebook(vec![code_cell("real-cell", "x = 1")]);
    let editor = simple_editor("ghost-cell", "x = 1", None);
    // Should not return an error; source cell stays untouched.
    apply_editor_to_source(&mut source, &editor).unwrap();
    assert!(source.cells[0].nota_bene().is_none());
}

#[test]
fn multiple_sections_applied_independently() {
    let mut source = notebook(vec![code_cell("c1", "x = 1\n"), code_cell("c2", "y = 2\n")]);
    let editor = notebook(vec![
        section_header("h1", "c1"),
        editor_cell("ps1", "x = 99\n", "patched-source", "c1"),
        section_header("h2", "c2"),
        editor_cell("ps2", "y = 2\n", "patched-source", "c2"),
    ]);
    apply_editor_to_source(&mut source, &editor).unwrap();

    // c1 should have a diff; c2 should not (and stays absent).
    let data1 = source.cells[0].nota_bene().unwrap();
    assert!(data1.diff.is_some());
    assert!(source.cells[1].nota_bene().is_none());
}

#[test]
fn untagged_code_cell_before_patched_source_treated_as_fixture() {
    let mut source = notebook(vec![code_cell("src", "x = 1")]);
    // An untagged code cell inserted between section-header and patched-source
    // should be treated as a new fixture.
    let editor = notebook(vec![
        section_header("hdr", "src"),
        // No role tag — appears before patched-source.
        code_cell("untagged", "x = 42"),
        editor_cell("ps", "x = 1", "patched-source", "src"),
    ]);
    apply_editor_to_source(&mut source, &editor).unwrap();

    let data = source.cells[0].nota_bene().unwrap();
    let fixtures = data.fixtures.as_ref().unwrap();
    assert_eq!(fixtures.len(), 1);
}

#[test]
fn multiple_tagged_test_cells_last_one_wins() {
    // When a section has two tagged test cells, the last one should be used.
    let mut source = notebook(vec![code_cell("src", "x = 1")]);
    let editor = notebook(vec![
        section_header("hdr", "src"),
        editor_cell("ps", "x = 1", "patched-source", "src"),
        editor_cell(
            "t1",
            "%%nb_skip\n# test: first_test\nassert x == 1",
            "test",
            "src",
        ),
        editor_cell(
            "t2",
            "%%nb_skip\n# test: second_test\nassert x == 2",
            "test",
            "src",
        ),
    ]);
    apply_editor_to_source(&mut source, &editor).unwrap();

    let data = source.cells[0].nota_bene().unwrap();
    let test = data.test.as_ref().unwrap();
    assert_eq!(
        test.name, "second_test",
        "expected last test cell to win, got: {}",
        test.name
    );
}

/// A markdown cell inserted between section-header and patched-source should
/// be silently ignored — not treated as a fixture.
#[test]
fn non_code_cell_before_patched_source_is_ignored() {
    let mut source = notebook(vec![code_cell("src", "x = 1")]);
    let editor = notebook(vec![
        section_header("hdr", "src"),
        // Markdown cell — user added a note; should be ignored.
        note("md-note", split_source("some notes")),
        editor_cell("ps", "x = 1", "patched-source", "src"),
    ]);
    apply_editor_to_source(&mut source, &editor).unwrap();

    // The markdown cell must not have been treated as a fixture.
    // The source cell had no prior nota-bene and nothing was written, so it stays absent.
    assert!(
        source.cells[0].nota_bene().is_none(),
        "markdown cell was incorrectly treated as a fixture (cell should remain absent)"
    );
}

/// A markdown cell inserted after the patched-source cell should be ignored —
/// not treated as a test.
#[test]
fn non_code_cell_after_patched_source_is_ignored() {
    let mut source = notebook(vec![code_cell("src", "x = 1")]);
    let editor = notebook(vec![
        section_header("hdr", "src"),
        editor_cell("ps", "x = 1", "patched-source", "src"),
        // Markdown cell after patched-source — should be ignored.
        note("md-after", split_source("# Analysis notes")),
    ]);
    apply_editor_to_source(&mut source, &editor).unwrap();

    // No test should have been parsed from the markdown cell.
    assert!(
        source.cells[0].nota_bene().is_none(),
        "markdown cell was incorrectly treated as a test (cell should remain absent)"
    );
}

/// A fixture cell with comment headers but no body is treated as a blank stub
/// and filtered out. Fixtures key is absent.
#[test]
fn fixture_with_headers_only_and_empty_body_is_filtered() {
    let mut source = notebook(vec![code_cell("src", "x = 1")]);
    let fixture_src = "# fixture: empty_fix\n# description: no body here\n# priority: 0";
    let editor = notebook(vec![
        section_header("hdr", "src"),
        editor_cell("fix", fixture_src, "fixture", "src"),
        editor_cell("ps", "x = 1", "patched-source", "src"),
    ]);
    apply_editor_to_source(&mut source, &editor).unwrap();

    // Source cell had no prior nota-bene and the only fixture was blank →
    // nothing written, cell stays without nota-bene.
    assert!(
        source.cells[0].nota_bene().is_none(),
        "expected cell to remain absent when only blank-body fixtures are present"
    );
}

/// A fixture cell with whitespace-only body is also filtered.
#[test]
fn fixture_with_whitespace_only_body_is_filtered() {
    let mut source = notebook(vec![code_cell("src", "x = 1")]);
    let fixture_src = "# fixture: ws_fix\n   \n\t\n";
    let editor = notebook(vec![
        section_header("hdr", "src"),
        editor_cell("fix", fixture_src, "fixture", "src"),
        editor_cell("ps", "x = 1", "patched-source", "src"),
    ]);
    apply_editor_to_source(&mut source, &editor).unwrap();

    assert!(source.cells[0].nota_bene().is_none());
}

/// A `# fixture:` line with only whitespace after the colon but a real body
/// should still produce a fixture (with an empty-string name).
#[test]
fn fixture_with_blank_name_but_real_body_is_kept() {
    let mut source = notebook(vec![code_cell("src", "x = 1")]);
    let fixture_src = "# fixture: \nx = 7";
    let editor = notebook(vec![
        section_header("hdr", "src"),
        editor_cell("fix", fixture_src, "fixture", "src"),
        editor_cell("ps", "x = 1", "patched-source", "src"),
    ]);
    apply_editor_to_source(&mut source, &editor).unwrap();

    let data = source.cells[0].nota_bene().unwrap();
    let fixtures = data.fixtures.as_ref().unwrap();
    assert_eq!(fixtures.len(), 1);
    let (name, fix) = fixtures.iter().next().unwrap();
    assert_eq!(fix.source, "x = 7");
    assert_eq!(name, "", "expected empty name from blank fixture header");
}

/// When the editor notebook contains a stub fixture cell (headers-only, empty
/// body), leaving it blank produces no fixtures key.
#[test]
fn blank_stub_fixture_removes_fixtures_key() {
    // Source cell is Present with no fixtures (fixtures key absent).
    let mut source = notebook(vec![code_cell_with_nb("src", "x = 1", object(vec![]))]);
    // Editor contains the stub that `edit` would have emitted.
    let stub_src = "# fixture: \n# description: \n# priority: 0";
    let editor = notebook(vec![
        section_header("hdr", "src"),
        editor_cell("fix", stub_src, "fixture", "src"),
        editor_cell("ps", "x = 1", "patched-source", "src"),
        editor_cell("tst", "%%nb_skip\n# test: <unnamed>", "test", "src"),
    ]);
    apply_editor_to_source(&mut source, &editor).unwrap();

    let data = source.cells[0].nota_bene().unwrap();
    assert!(
        data.fixtures.is_none(),
        "blank stub fixture should produce absent fixtures key"
    );
}

/// When the editor notebook contains a stub test cell, leaving it blank produces
/// no test key.
#[test]
fn blank_stub_test_removes_test_key() {
    let mut source = notebook(vec![code_cell_with_nb("src", "x = 1", object(vec![]))]);
    let editor = notebook(vec![
        section_header("hdr", "src"),
        editor_cell("ps", "x = 1", "patched-source", "src"),
        editor_cell("tst", "%%nb_skip\n# test: <unnamed>", "test", "src"),
    ]);
    apply_editor_to_source(&mut source, &editor).unwrap();

    let data = source.cells[0].nota_bene().unwrap();
    assert!(
        data.test.is_none(),
        "blank stub test should produce absent test key"
    );
}

/// Whitespace-only test body also counts as blank.
#[test]
fn whitespace_only_test_body_removes_test_key() {
    let mut source = notebook(vec![code_cell_with_nb("src", "x = 1", object(vec![]))]);
    let editor = notebook(vec![
        section_header("hdr", "src"),
        editor_cell("ps", "x = 1", "patched-source", "src"),
        editor_cell(
            "tst",
            "%%nb_skip\n# test: my_test\n   \n\t\n",
            "test",
            "src",
        ),
    ]);
    apply_editor_to_source(&mut source, &editor).unwrap();

    let data = source.cells[0].nota_bene().unwrap();
    assert!(
        data.test.is_none(),
        "whitespace-only test body should produce absent test key"
    );
}

/// A mix of one blank and one real fixture: the blank one is filtered, the
/// real one is kept.
#[test]
fn mix_of_blank_and_real_fixtures_keeps_only_real() {
    let mut source = notebook(vec![code_cell("src", "x = 1")]);
    let editor = notebook(vec![
        section_header("hdr", "src"),
        // Blank stub.
        editor_cell(
            "fix1",
            "# fixture: \n# description: \n# priority: 0",
            "fixture",
            "src",
        ),
        // Real fixture.
        editor_cell("fix2", "# fixture: real_fix\nx = 7", "fixture", "src"),
        editor_cell("ps", "x = 1", "patched-source", "src"),
    ]);
    apply_editor_to_source(&mut source, &editor).unwrap();

    let data = source.cells[0].nota_bene().unwrap();
    let fixtures = data.fixtures.as_ref().unwrap();
    assert_eq!(fixtures.len(), 1, "only the real fixture should be kept");
    assert!(
        fixtures.contains_key("real_fix"),
        "real fixture should be present"
    );
}
