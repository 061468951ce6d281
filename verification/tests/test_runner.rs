//! Running tests.
use nota_bene::edit::split_source;
use nota_bene::json::{parse_json, Json, JsonMap};
use nota_bene::notebook::{
    blank_cell_metadata, Cell, CellBody, CellExt, CellId, CellMetadata, ErrorOutput, Metadata,
    Notebook, Output,
};
use nota_bene::test_runner::{
    build_test_notebook, extract_results, runner_role, CellTestResult, SubtestResult, TestError,
    RESULTS_MARKER,
};
use serde_json::Value;

/// An object with the given members.
fn object(members: Vec<(&str, Value)>) -> Value {
    Value::Object(members.into_iter().map(|(k, v)| (k.to_string(), v)).collect())
}

/// A value as JSON.
fn value_of<T: serde::Serialize>(value: T) -> Value {
    serde_json::to_value(value).unwrap()
}

/// A JSON value as the library has it.
fn lib(value: &Value) -> Json {
    parse_json(&serde_json::to_string(value).unwrap()).unwrap()
}

/// Notebook metadata without any field.
fn blank_metadata() -> Metadata {
    Metadata { standard: JsonMap::new(), additional: JsonMap::new() }
}

/// A code cell that was never run.
fn code(id: &str, metadata: CellMetadata, source: Vec<String>) -> Cell {
    Cell {
        id: CellId::new(id).unwrap(),
        metadata,
        source,
        body: CellBody::Code { execution_count: None, outputs: vec![] },
    }
}

/// A code cell that was run.
fn ran(id: &str, metadata: CellMetadata, outputs: Vec<Output>) -> Cell {
    Cell {
        id: CellId::new(id).unwrap(),
        metadata,
        source: vec![],
        body: CellBody::Code { execution_count: None, outputs },
    }
}

fn code_cell(id: &str, source: &str) -> Cell {
    code(id, blank_cell_metadata(), split_source(source))
}

fn notebook_from(cells: Vec<Cell>) -> Notebook {
    Notebook {
        metadata: blank_metadata(),
        nbformat: 4,
        nbformat_minor: 5,
        cells,
    }
}

fn cell_with_meta(id: &str, source: &str, meta_json: Value) -> Cell {
    let mut meta = blank_cell_metadata();
    meta.additional.insert("nota-bene".to_string(), lib(&meta_json));
    code(id, meta, split_source(source))
}

// --- build_test_notebook ---

#[test]
fn test_runner_first_cell_is_setup() {
    let nb = notebook_from(vec![code_cell("c1", "x = 1")]);
    let test_nb = build_test_notebook(&nb, 0).unwrap();
    assert_eq!(runner_role(&test_nb.cells[0]).as_deref(), Some("setup"));
}

#[test]
fn setup_imports_nota_bene() {
    let nb = notebook_from(vec![code_cell("c1", "x = 1")]);
    let test_nb = build_test_notebook(&nb, 0).unwrap();
    assert_eq!(test_nb.cells[0].source_str(), "import nota_bene");
}

#[test]
fn last_cells_are_results_and_teardown() {
    let nb = notebook_from(vec![code_cell("c1", "x = 1")]);
    let test_nb = build_test_notebook(&nb, 0).unwrap();
    let n = test_nb.cells.len();
    assert_eq!(
        runner_role(&test_nb.cells[n - 2]).as_deref(),
        Some("results")
    );
    assert_eq!(
        runner_role(&test_nb.cells[n - 1]).as_deref(),
        Some("teardown")
    );
}

#[test]
fn cell_without_metadata_gets_cell_source_cell() {
    let nb = notebook_from(vec![code_cell("c1", "x = 1")]);
    let test_nb = build_test_notebook(&nb, 0).unwrap();
    let cell_source = test_nb
        .cells
        .iter()
        .find(|c| runner_role(c).as_deref() == Some("cell_source"))
        .expect("cell_source cell");
    let src = cell_source.source_str();
    assert!(src.contains("load_cell"));
    assert!(src.contains("execute_cell"));
    assert!(src.contains("x = 1"));
}

#[test]
fn fixture_wrapped_in_function() {
    let meta = object(vec![
        (
            "fixtures",
            object(vec![
                (
                    "my_fix",
                    object(vec![
                        ("description", Value::from("d")),
                        ("priority", Value::from(0)),
                        ("source", Value::from("x = 1\ny = 2")),
                    ]),
                ),
            ]),
        ),
    ]);
    let nb = notebook_from(vec![cell_with_meta("c1", "z = x + y", meta)]);
    let test_nb = build_test_notebook(&nb, 0).unwrap();
    let fixture_cell = test_nb
        .cells
        .iter()
        .find(|c| runner_role(c).as_deref() == Some("fixture"))
        .expect("fixture cell");
    let src = fixture_cell.source_str();
    assert!(src.contains("def _nb_fixture_my_fix():"));
    assert!(src.contains("    x = 1"));
    assert!(src.contains("_nb_fixture_my_fix()"));
}

#[test]
fn fixtures_sorted_by_priority() {
    let meta = object(vec![
        (
            "fixtures",
            object(vec![
                (
                    "z_fix",
                    object(vec![
                        ("description", Value::from("d")),
                        ("priority", Value::from(10)),
                        ("source", Value::from("z = 10")),
                    ]),
                ),
                (
                    "a_fix",
                    object(vec![
                        ("description", Value::from("d")),
                        ("priority", Value::from(1)),
                        ("source", Value::from("a = 1")),
                    ]),
                ),
            ]),
        ),
    ]);
    let nb = notebook_from(vec![cell_with_meta("c1", "r = a + z", meta)]);
    let test_nb = build_test_notebook(&nb, 0).unwrap();
    let fixture_cells: Vec<_> = test_nb
        .cells
        .iter()
        .filter(|c| runner_role(c).as_deref() == Some("fixture"))
        .collect();
    assert_eq!(fixture_cells.len(), 2);
    assert!(fixture_cells[0].source_str().contains("a_fix"));
    assert!(fixture_cells[1].source_str().contains("z_fix"));
}

#[test]
fn test_cell_emitted_for_target_only() {
    let meta = object(vec![
        (
            "test",
            object(vec![
                ("name", Value::from("my test")),
                ("source", Value::from("assert x == 1")),
            ]),
        ),
    ]);
    // Two cells: c1 (no test), c2 (has test). Target is c2 (idx 1).
    let nb = notebook_from(vec![
        code_cell("c1", "x = 1"),
        cell_with_meta("c2", "y = x + 1", meta),
    ]);
    let test_nb = build_test_notebook(&nb, 1).unwrap();
    let test_cells: Vec<_> = test_nb
        .cells
        .iter()
        .filter(|c| runner_role(c).as_deref() == Some("test"))
        .collect();
    assert_eq!(test_cells.len(), 1);
    assert!(test_cells[0].source_str().contains("assert x == 1"));
}

#[test]
fn preceding_cells_included_in_chain() {
    let nb = notebook_from(vec![
        code_cell("c1", "x = 1"),
        code_cell("c2", "y = 2"),
        code_cell("c3", "z = 3"),
    ]);
    // target is c3 (idx 2): all three should appear as cell_source cells
    let test_nb = build_test_notebook(&nb, 2).unwrap();
    let cell_sources: Vec<_> = test_nb
        .cells
        .iter()
        .filter(|c| runner_role(c).as_deref() == Some("cell_source"))
        .collect();
    assert_eq!(cell_sources.len(), 3);
}

#[test]
fn cells_after_target_not_included() {
    let nb = notebook_from(vec![
        code_cell("c1", "x = 1"),
        code_cell("c2", "y = 2"),
        code_cell("c3", "z = 3"),
    ]);
    // target is c1 (idx 0): only c1 should be a cell_source
    let test_nb = build_test_notebook(&nb, 0).unwrap();
    let cell_sources: Vec<_> = test_nb
        .cells
        .iter()
        .filter(|c| runner_role(c).as_deref() == Some("cell_source"))
        .collect();
    assert_eq!(cell_sources.len(), 1);
}

#[test]
fn markdown_cells_skipped() {
}

#[test]
fn diff_applied_in_cell_source() {
    let original = "x = 1\n";
    let patched = "x = 99\n";
    let diff = nota_bene::diff_utils::compute_diff(original, patched).unwrap();
    let meta = object(vec![("diff", value_of(&diff))]);
    let nb = notebook_from(vec![cell_with_meta("c1", original, meta)]);
    let test_nb = build_test_notebook(&nb, 0).unwrap();
    let cell_source = test_nb
        .cells
        .iter()
        .find(|c| runner_role(c).as_deref() == Some("cell_source"))
        .unwrap();
    assert!(cell_source.source_str().contains("x = 99"));
}

// --- extract_results ---

fn make_executed_nb_with_results(results_json: &str) -> Notebook {
    let mut results_cell_meta = blank_cell_metadata();
    results_cell_meta.additional.insert("nota-bene".to_string(), lib(&object(vec![("runner", object(vec![("role", Value::from("results"))]))])));
    let results_cell = ran("res", results_cell_meta, vec![Output::Stream {
            name: "stdout".to_string(),
            text: format!("{RESULTS_MARKER}{results_json}"),
        }]);
    notebook_from(vec![results_cell])
}

#[test]
fn extract_results_happy_path() {
    let nb = make_executed_nb_with_results(
        r#"[{"name":"t1","passed":true,"error":null,"traceback":null}]"#,
    );
    let result = extract_results(&nb, "c1", "my test");
    match result {
        CellTestResult::Completed { subtests, .. } => {
            assert_eq!(subtests.len(), 1);
            assert!(subtests[0].passed);
        }
        CellTestResult::Error { .. } => panic!("expected Completed"),
    }
}

#[test]
fn extract_results_implicit_pass() {
    // Empty results list + no error on test cell → implicit pass
    let nb = make_executed_nb_with_results("[]");
    let result = extract_results(&nb, "c1", "my test");
    match result {
        CellTestResult::Completed { subtests, .. } => {
            assert_eq!(subtests.len(), 1);
            assert!(subtests[0].passed);
            assert_eq!(subtests[0].name, "my test");
        }
        CellTestResult::Error { .. } => panic!("expected Completed"),
    }
}

#[test]
fn extract_results_implicit_fail_from_test_cell_error() {
    // Empty results list + error on test cell → implicit fail
    let mut test_cell_meta = blank_cell_metadata();
    test_cell_meta.additional.insert("nota-bene".to_string(), lib(&object(vec![
            (
                "runner",
                object(vec![
                    ("role", Value::from("test")),
                    ("source_cell_id", Value::from("c1")),
                ]),
            ),
        ])));
    let test_cell = ran("test", test_cell_meta, vec![Output::Error(ErrorOutput {
            ename: "AssertionError".to_string(),
            evalue: "x != 1".to_string(),
            traceback: vec!["line 1".to_string()],
        })]);
    let mut results_cell_meta = blank_cell_metadata();
    results_cell_meta.additional.insert("nota-bene".to_string(), lib(&object(vec![("runner", object(vec![("role", Value::from("results"))]))])));
    let results_cell = ran("res", results_cell_meta, vec![Output::Stream {
            name: "stdout".to_string(),
            text: format!("{RESULTS_MARKER}[]"),
        }]);
    let nb = notebook_from(vec![test_cell, results_cell]);
    let result = extract_results(&nb, "c1", "my test");
    match result {
        CellTestResult::Completed { subtests, .. } => {
            assert_eq!(subtests.len(), 1);
            assert!(!subtests[0].passed);
            assert!(subtests[0]
                .error
                .as_deref()
                .unwrap()
                .contains("AssertionError"));
        }
        CellTestResult::Error { .. } => panic!("expected Completed"),
    }
}

#[test]
fn extract_results_fixture_error() {
    // No results cell output — fixture errored before results could run.
    let mut fixture_meta = blank_cell_metadata();
    fixture_meta.additional.insert("nota-bene".to_string(), lib(&object(vec![
            (
                "runner",
                object(vec![
                    ("role", Value::from("fixture")),
                    ("source_cell_id", Value::from("c1")),
                    ("fixture_name", Value::from("my_fix")),
                ]),
            ),
        ])));
    let fixture_cell = ran("fix", fixture_meta, vec![Output::Error(ErrorOutput {
            ename: "NameError".to_string(),
            evalue: "name 'foo' is not defined".to_string(),
            traceback: vec![],
        })]);
    // Results cell with no output (never ran)
    let mut results_meta = blank_cell_metadata();
    results_meta.additional.insert("nota-bene".to_string(), lib(&object(vec![("runner", object(vec![("role", Value::from("results"))]))])));
    let results_cell = code("res", results_meta, vec![]);
    let nb = notebook_from(vec![fixture_cell, results_cell]);
    let result = extract_results(&nb, "c1", "my test");
    match result {
        CellTestResult::Error { error, .. } => {
            assert_eq!(error.phase, "fixture");
            assert_eq!(error.fixture_name.as_deref(), Some("my_fix"));
            assert!(error.detail.contains("NameError"));
        }
        CellTestResult::Completed { .. } => panic!("expected Error"),
    }
}

#[test]
fn cell_test_result_all_passed() {
    let r = CellTestResult::Completed {
        cell_id: "c1".to_string(),
        test_name: "t".to_string(),
        subtests: vec![
            SubtestResult {
                name: "a".to_string(),
                passed: true,
                error: None,
                traceback: None,
            },
            SubtestResult {
                name: "b".to_string(),
                passed: true,
                error: None,
                traceback: None,
            },
        ],
    };
    assert!(r.all_passed());
}

#[test]
fn cell_test_result_not_all_passed_when_one_fails() {
    let r = CellTestResult::Completed {
        cell_id: "c1".to_string(),
        test_name: "t".to_string(),
        subtests: vec![
            SubtestResult {
                name: "a".to_string(),
                passed: true,
                error: None,
                traceback: None,
            },
            SubtestResult {
                name: "b".to_string(),
                passed: false,
                error: Some("boom".to_string()),
                traceback: None,
            },
        ],
    };
    assert!(!r.all_passed());
}

#[test]
fn error_result_not_all_passed() {
    let r = CellTestResult::Error {
        cell_id: "c1".to_string(),
        test_name: "t".to_string(),
        error: TestError {
            phase: "executor".to_string(),
            source_cell_id: None,
            fixture_name: None,
            detail: "oops".to_string(),
            traceback: None,
        },
    };
    assert!(!r.all_passed());
    assert!(r.is_error());
}

// --- find_setup_error / setup error priority ---

/// A fixture error must yield status=error even when the results cell
/// also ran and produced output (allow_errors=True lets nbclient continue).
#[test]
fn fixture_error_takes_priority_over_results_output() {
    let mut fixture_meta = blank_cell_metadata();
    fixture_meta.additional.insert("nota-bene".to_string(), lib(&object(vec![
            (
                "runner",
                object(vec![
                    ("role", Value::from("fixture")),
                    ("source_cell_id", Value::from("c1")),
                    ("fixture_name", Value::from("bad_fix")),
                ]),
            ),
        ])));
    let fixture_cell = ran("fix", fixture_meta, vec![Output::Error(ErrorOutput {
            ename: "RuntimeError".to_string(),
            evalue: "boom".to_string(),
            traceback: vec![],
        })]);
    // Results cell ran anyway (allow_errors=True) and output passing results
    let mut results_meta = blank_cell_metadata();
    results_meta.additional.insert("nota-bene".to_string(), lib(&object(vec![("runner", object(vec![("role", Value::from("results"))]))])));
    let results_cell = ran("res", results_meta, vec![Output::Stream {
            name: "stdout".to_string(),
            text: format!(
                "{RESULTS_MARKER}[{{\"name\":\"t\",\"passed\":true,\"error\":null,\"traceback\":null}}]"
            ),
        }]);
    let nb = notebook_from(vec![fixture_cell, results_cell]);
    let result = extract_results(&nb, "c1", "my test");
    match result {
        CellTestResult::Error { error, .. } => {
            assert_eq!(error.phase, "fixture");
            assert_eq!(error.fixture_name.as_deref(), Some("bad_fix"));
        }
        CellTestResult::Completed { .. } => {
            panic!("fixture error must not be reported as Completed")
        }
    }
}

/// A cell_source error must yield status=error even when results ran.
#[test]
fn cell_source_error_takes_priority_over_results_output() {
    let mut cell_source_meta = blank_cell_metadata();
    cell_source_meta.additional.insert("nota-bene".to_string(), lib(&object(vec![
            (
                "runner",
                object(vec![
                    ("role", Value::from("cell_source")),
                    ("source_cell_id", Value::from("upstream")),
                ]),
            ),
        ])));
    let cell_source_cell = ran("src", cell_source_meta, vec![Output::Error(ErrorOutput {
            ename: "ValueError".to_string(),
            evalue: "bad input".to_string(),
            traceback: vec![],
        })]);
    let mut results_meta = blank_cell_metadata();
    results_meta.additional.insert("nota-bene".to_string(), lib(&object(vec![("runner", object(vec![("role", Value::from("results"))]))])));
    let results_cell = ran("res", results_meta, vec![Output::Stream {
            name: "stdout".to_string(),
            text: format!("{RESULTS_MARKER}[]"),
        }]);
    let nb = notebook_from(vec![cell_source_cell, results_cell]);
    let result = extract_results(&nb, "c1", "my test");
    match result {
        CellTestResult::Error { error, .. } => {
            assert_eq!(error.phase, "cell_source");
            assert_eq!(error.source_cell_id.as_deref(), Some("upstream"));
        }
        CellTestResult::Completed { .. } => {
            panic!("cell_source error must not be reported as Completed")
        }
    }
}

/// An error in the test cell itself does NOT count as a setup error —
/// it is handled via the implicit subtest path.
#[test]
fn test_cell_error_does_not_trigger_setup_error() {
    let mut test_meta = blank_cell_metadata();
    test_meta.additional.insert("nota-bene".to_string(), lib(&object(vec![
            (
                "runner",
                object(vec![
                    ("role", Value::from("test")),
                    ("source_cell_id", Value::from("c1")),
                ]),
            ),
        ])));
    let test_cell = ran("test", test_meta, vec![Output::Error(ErrorOutput {
            ename: "AssertionError".to_string(),
            evalue: "x != 1".to_string(),
            traceback: vec!["line 1".to_string()],
        })]);
    let mut results_meta = blank_cell_metadata();
    results_meta.additional.insert("nota-bene".to_string(), lib(&object(vec![("runner", object(vec![("role", Value::from("results"))]))])));
    let results_cell = ran("res", results_meta, vec![Output::Stream {
            name: "stdout".to_string(),
            text: format!("{RESULTS_MARKER}[]"),
        }]);
    let nb = notebook_from(vec![test_cell, results_cell]);
    let result = extract_results(&nb, "c1", "my test");
    // Should be Completed (implicit fail), not Error
    match result {
        CellTestResult::Completed { subtests, .. } => {
            assert_eq!(subtests.len(), 1);
            assert!(!subtests[0].passed);
        }
        CellTestResult::Error { .. } => {
            panic!("test cell error should produce implicit fail, not infrastructure error")
        }
    }
}

// --- no-results-output branches (branches 2-5) ---

/// Results cell is present but produced no __NB_RESULTS__ output, and
/// another cell (e.g. the test cell) has an error output → that error
/// is surfaced.
#[test]
fn results_cell_present_no_marker_with_cell_error() {
    let mut test_meta = blank_cell_metadata();
    test_meta.additional.insert("nota-bene".to_string(), lib(&object(vec![
            (
                "runner",
                object(vec![
                    ("role", Value::from("test")),
                    ("source_cell_id", Value::from("c1")),
                ]),
            ),
        ])));
    let test_cell = ran("test", test_meta, vec![Output::Error(ErrorOutput {
            ename: "RuntimeError".to_string(),
            evalue: "something went wrong".to_string(),
            traceback: vec!["tb line".to_string()],
        })]);
    let mut results_meta = blank_cell_metadata();
    results_meta.additional.insert("nota-bene".to_string(), lib(&object(vec![("runner", object(vec![("role", Value::from("results"))]))])));
    // Results cell ran but printed nothing useful (no marker)
    let results_cell = code("res", results_meta, vec![]);
    let nb = notebook_from(vec![test_cell, results_cell]);
    let result = extract_results(&nb, "c1", "my test");
    match result {
        CellTestResult::Error { error, .. } => {
            assert_eq!(error.phase, "test");
            assert!(error.detail.contains("RuntimeError"));
        }
        CellTestResult::Completed { .. } => panic!("expected Error"),
    }
}

/// Results cell is present but produced no __NB_RESULTS__ output and no
/// other cell has an error → "Results cell produced no output".
#[test]
fn results_cell_present_no_marker_no_error() {
    let mut results_meta = blank_cell_metadata();
    results_meta.additional.insert("nota-bene".to_string(), lib(&object(vec![("runner", object(vec![("role", Value::from("results"))]))])));
    let results_cell = code("res", results_meta, vec![]);
    let nb = notebook_from(vec![results_cell]);
    let result = extract_results(&nb, "c1", "my test");
    match result {
        CellTestResult::Error { error, .. } => {
            assert_eq!(error.phase, "results");
            assert!(error.detail.contains("no output"));
        }
        CellTestResult::Completed { .. } => panic!("expected Error"),
    }
}

/// Results cell is entirely absent and a cell error exists → that error
/// is surfaced.
#[test]
fn results_cell_missing_with_cell_error() {
    // An unknown role bypasses find_setup_error.
    let mut other_meta = blank_cell_metadata();
    other_meta.additional.insert("nota-bene".to_string(), lib(&object(vec![("runner", object(vec![("role", Value::from("unknown_role"))]))])));
    let erroring_cell = ran("other", other_meta, vec![Output::Error(ErrorOutput {
            ename: "KeyboardInterrupt".to_string(),
            evalue: "".to_string(),
            traceback: vec![],
        })]);
    // No results cell at all
    let nb = notebook_from(vec![erroring_cell]);
    let result = extract_results(&nb, "c1", "my test");
    match result {
        CellTestResult::Error { error, .. } => {
            assert!(error.detail.contains("KeyboardInterrupt"));
        }
        CellTestResult::Completed { .. } => panic!("expected Error"),
    }
}

/// Results cell is entirely absent and no cell errors exist →
/// "Results cell missing from executed notebook".
#[test]
fn results_cell_missing_no_error() {
    // Notebook with only a plain code cell — no results cell
    let nb = notebook_from(vec![code_cell("c1", "x = 1")]);
    let result = extract_results(&nb, "c1", "my test");
    match result {
        CellTestResult::Error { error, .. } => {
            assert_eq!(error.phase, "executor");
            assert!(error.detail.contains("missing"));
        }
        CellTestResult::Completed { .. } => panic!("expected Error"),
    }
}

/// Results JSON is present but malformed → parse error reported.
#[test]
fn results_json_parse_failure() {
    let nb = make_executed_nb_with_results("not valid json {{");
    let result = extract_results(&nb, "c1", "my test");
    match result {
        CellTestResult::Error { error, .. } => {
            assert_eq!(error.phase, "results");
            assert!(error.detail.contains("Failed to parse results JSON"));
        }
        CellTestResult::Completed { .. } => panic!("expected Error"),
    }
}
