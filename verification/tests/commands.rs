//! The commands, apart from reading and writing files.
use nota_bene::commands::{
    accept_matching, check_accept, choose_data, continue_edit, editor_path, executor_result,
    failed_executor_result, find_cells_to_accept, find_test_targets, parse_filters,
    parse_status_filters, print_cells, report_diagnostics, scaffold_fixture, scaffold_test,
    status_cells, status_exit_code, test_exit_code, update_notebook, view_cells, DataSource,
    EditOutcome, UpdateOutcome,
};
use nota_bene::edit::{build_editor_notebook, split_source};
use nota_bene::fixtures::Fixture;
use nota_bene::format::{load_notebook_from_str, serialize_notebook};
use nota_bene::json::{print_pretty, Json};
use nota_bene::metadata::TestMeta;
use nota_bene::notebook::{Cell, CellBody, CellExt, CellId, CellMetadata, Notebook};
use nota_bene::repair::format_test_result;
use nota_bene::save::{check_conflicts, check_editor};
use nota_bene::test_runner::{executor_error_result, CellTestResult, SubtestResult, RESULTS_MARKER};
use nota_bene::update::parse_updates;
use nota_bene::view::parse_fields;
use serde_json::Value;

/// A notebook with a text, a plain cell, a cell with a fixture and a test, a
/// cell that says that it needs neither, and an empty cell.
const SIMPLE: &str = r##"{
 "cells": [
  {
   "cell_type": "markdown",
   "id": "md-intro",
   "metadata": {},
   "source": ["# Simple notebook"]
  },
  {
   "cell_type": "code",
   "execution_count": null,
   "id": "plain-data",
   "metadata": {},
   "outputs": [],
   "source": ["data = [1, 2, 3]"]
  },
  {
   "cell_type": "code",
   "execution_count": null,
   "id": "compute-total",
   "metadata": {
    "nota-bene": {
     "fixtures": {
      "setup_data": {
       "description": "small list",
       "priority": 0,
       "source": "data = [10, 20, 30]"
      }
     },
     "test": {"name": "check_total", "source": "assert total == 60"}
    }
   },
   "outputs": [],
   "source": ["total = sum(data)"]
  },
  {
   "cell_type": "code",
   "execution_count": null,
   "id": "reviewed-pass",
   "metadata": {"nota-bene": {"diff": null, "fixtures": null, "test": null}},
   "outputs": [],
   "source": ["print(total)"]
  },
  {
   "cell_type": "code",
   "execution_count": null,
   "id": "empty",
   "metadata": {},
   "outputs": [],
   "source": []
  }
 ],
 "metadata": {
  "kernelspec": {"display_name": "Python 3", "language": "python", "name": "python3"},
  "language_info": {"name": "python"}
 },
 "nbformat": 4,
 "nbformat_minor": 5
}"##;

fn simple() -> Notebook {
    load_notebook_from_str(SIMPLE, "simple.ipynb").unwrap()
}

/// The notebook as it is read after it was written.
fn saved(nb: &Notebook) -> Notebook {
    load_notebook_from_str(&serialize_notebook(nb).unwrap(), "saved.ipynb").unwrap()
}

/// A JSON value of the library.
fn val(json: &Json) -> Value {
    serde_json::from_str(&print_pretty(json).unwrap()).unwrap()
}

fn strings(list: &[&str]) -> Vec<String> {
    list.iter().map(|s| s.to_string()).collect()
}

fn view(nb: &Notebook, filters: &[&str], fields: Option<&str>) -> Vec<Value> {
    let filters = parse_filters(&strings(filters)).unwrap();
    let fields = fields.map(parse_fields);
    let text = print_cells(view_cells(nb, &filters, &fields)).unwrap();
    serde_json::from_str(&text).unwrap()
}

fn status(nb: &Notebook, filters: &[&str]) -> (Vec<Value>, i32) {
    let filters = parse_status_filters(&strings(filters)).unwrap();
    let cells = status_cells(nb, &filters);
    let code = status_exit_code(&cells);
    (serde_json::from_str(&print_cells(cells).unwrap()).unwrap(), code)
}

fn accept(nb: &mut Notebook, all: bool, filters: &[&str]) -> Result<(), String> {
    check_accept(all, filters.len())?;
    let filters = parse_filters(&strings(filters)).unwrap();
    assert!(accept_matching(nb, all, &filters));
    *nb = saved(nb);
    Ok(())
}

/// Updates a notebook, or says what is wrong with the update.
fn update(nb: &mut Notebook, data: &str) -> Result<(), Value> {
    let updates = parse_updates(data).unwrap();
    match update_notebook(updates, nb) {
        UpdateOutcome::Refused(diagnostics) => Err(val(&report_diagnostics(&diagnostics))),
        UpdateOutcome::Applied => {
            *nb = saved(nb);
            Ok(())
        }
        other => panic!("unexpected outcome: {other:?}"),
    }
}

/// The metadata of a cell, null without any.
fn cell_nb_meta(nb: &Notebook, cell_id: &str) -> Value {
    let cell = nb.cells.iter().find(|c| c.cell_id_str() == cell_id).unwrap();
    match cell.additional().get("nota-bene") {
        Some(json) => val(json),
        None => Value::Null,
    }
}

/// Makes the editor notebook, lets it be changed, and applies it.
fn edit_with_modifications<F>(source: &mut Notebook, modify: F) -> Vec<String>
where
    F: FnOnce(&mut Notebook),
{
    let mut editor = saved(&build_editor_notebook(source, "simple.ipynb").unwrap());
    modify(&mut editor);
    match continue_edit(source, &editor, false) {
        EditOutcome::Applied(warnings) => {
            *source = saved(source);
            warnings
        }
        other => panic!("unexpected outcome: {other:?}"),
    }
}

/// The editor cell of a role for a cell.
fn editor_cell<'a>(editor: &'a mut Notebook, role: &str, cell_id: &str) -> &'a mut Cell {
    editor
        .cells
        .iter_mut()
        .find(|c| {
            c.editor_role().as_deref() == Some(role)
                && c.editor_cell_id().as_deref() == Some(cell_id)
        })
        .unwrap()
}

// --- edit ---

#[test]
fn round_trip_no_changes_preserves_metadata() {
    let original = simple();
    let mut source = simple();
    let warnings = edit_with_modifications(&mut source, |_| {});
    assert!(warnings.is_empty());
    for cell_id in ["plain-data", "compute-total"] {
        let mut after = cell_nb_meta(&source, cell_id);
        if let Some(obj) = after.as_object_mut() {
            obj.remove("shas");
        }
        assert_eq!(cell_nb_meta(&original, cell_id), after);
    }
}

#[test]
fn edit_rename_fixture_updates_source() {
    let mut source = simple();
    edit_with_modifications(&mut source, |editor| {
        let cell = editor_cell(editor, "fixture", "compute-total");
        let text =
            cell.source_str().replace("# fixture: setup_data", "# fixture: renamed_fixture");
        cell.source = split_source(&text);
    });
    let fixtures = &cell_nb_meta(&source, "compute-total")["fixtures"];
    assert!(fixtures.get("renamed_fixture").is_some());
    assert!(fixtures.get("setup_data").is_none());
}

#[test]
fn edit_modified_source_writes_diff() {
    let mut source = simple();
    edit_with_modifications(&mut source, |editor| {
        editor_cell(editor, "patched-source", "compute-total").source =
            split_source("total = sum(data) * 2");
    });
    let meta = cell_nb_meta(&source, "compute-total");
    let diff = meta["diff"].as_str().unwrap();
    assert_eq!(
        nota_bene::diff_utils::apply_diff("total = sum(data)", diff).unwrap(),
        "total = sum(data) * 2"
    );
}

#[test]
fn edit_add_fixture_by_position() {
    let mut source = simple();
    edit_with_modifications(&mut source, |editor| {
        let at = editor
            .cells
            .iter()
            .position(|c| {
                c.editor_role().as_deref() == Some("patched-source")
                    && c.editor_cell_id().as_deref() == Some("compute-total")
            })
            .unwrap();
        let added = Cell {
            id: CellId::new("new-fixture-cell").unwrap(),
            metadata: CellMetadata {
                standard: nota_bene::json::JsonMap::new(),
                additional: nota_bene::json::JsonMap::new(),
            },
            source: split_source("# fixture: extra_fixture\ndata = [100, 200]"),
            body: CellBody::Code { execution_count: None, outputs: vec![] },
        };
        editor.cells.insert(at, added);
    });
    let fixtures = &cell_nb_meta(&source, "compute-total")["fixtures"];
    assert!(fixtures.get("extra_fixture").is_some());
    assert!(fixtures.get("setup_data").is_some());
}

#[test]
fn edit_explicit_nulls_become_absent_after_round_trip() {
    let mut source = simple();
    assert!(cell_nb_meta(&source, "reviewed-pass")["fixtures"].is_null());
    assert!(cell_nb_meta(&source, "reviewed-pass").get("fixtures").is_some());
    edit_with_modifications(&mut source, |_| {});
    let meta = cell_nb_meta(&source, "reviewed-pass");
    assert!(!meta.is_null());
    for key in ["fixtures", "diff", "test"] {
        assert!(meta.get(key).is_none());
    }
}

#[test]
fn edit_unaccepted_cell_header_contains_needs_review_and_reason() {
    let mut editor = build_editor_notebook(&simple(), "simple.ipynb").unwrap();
    let header = editor_cell(&mut editor, "section-header", "compute-total").source_str();
    assert!(header.contains("Needs review"));
    assert!(header.to_lowercase().contains("sha"));
}

#[test]
fn edit_continue_fails_on_source_conflict() {
    let mut source = simple();
    let editor = build_editor_notebook(&source, "simple.ipynb").unwrap();
    assert!(check_conflicts(&source, &editor).is_ok());
    source.cells[2].source = split_source("total = 999  # externally modified");
    let before = serialize_notebook(&source).unwrap();
    match continue_edit(&mut source, &editor, false) {
        EditOutcome::Conflict(message) => {
            assert!(message.contains("cell 'compute-total' source changed since `edit` was run"));
        }
        other => panic!("unexpected outcome: {other:?}"),
    }
    assert_eq!(serialize_notebook(&source).unwrap(), before);
}

#[test]
fn edit_continue_force_succeeds_despite_conflict() {
    let mut source = simple();
    let editor = build_editor_notebook(&source, "simple.ipynb").unwrap();
    source.cells[2].source = split_source("total = 999  # externally modified");
    assert!(matches!(continue_edit(&mut source, &editor, true), EditOutcome::Applied(_)));
    let meta = cell_nb_meta(&source, "compute-total");
    assert_eq!(meta["test"]["name"].as_str(), Some("check_total"));
    assert!(meta["diff"].is_string());
}

#[test]
fn edit_continue_stamps_shas_on_ipso_cells() {
    let mut source = simple();
    edit_with_modifications(&mut source, |_| {});
    for cell_id in ["compute-total", "reviewed-pass"] {
        let meta = cell_nb_meta(&source, cell_id);
        assert!(!meta["shas"].as_array().unwrap().is_empty());
    }
}

#[test]
fn edit_continue_strips_ipso_skip_from_test_source() {
    let mut source = simple();
    edit_with_modifications(&mut source, |_| {});
    let meta = cell_nb_meta(&source, "compute-total");
    let test_source = meta["test"]["source"].as_str().unwrap();
    assert!(!test_source.starts_with("%%nb_skip"));
    assert_eq!(test_source, "assert total == 60");
}

#[test]
fn unchanged_editor_makes_cells_valid() {
    let mut source = simple();
    assert_eq!(status(&source, &["cell:compute-total"]).1, 1);
    edit_with_modifications(&mut source, |_| {});
    assert_eq!(status(&source, &["cell:compute-total"]), (vec![], 0));
}

#[test]
fn edit_continue_does_not_stamp_shas_on_plain_cells() {
    let mut source = simple();
    edit_with_modifications(&mut source, |_| {});
    assert!(cell_nb_meta(&source, "plain-data").is_null());
}

// --- view ---

#[test]
fn view_all_cells_returns_json_array() {
    let nb = simple();
    let text = print_cells(view_cells(&nb, &vec![], &None)).unwrap();
    let arr: Value = serde_json::from_str(&text).unwrap();
    assert!(arr.is_array());
}

#[test]
fn view_all_cells_excludes_markdown_cells() {
    for cell in &view(&simple(), &[], None) {
        assert_ne!(cell["cell_id"].as_str(), Some("md-intro"));
    }
}

#[test]
fn view_all_cells_count() {
    assert_eq!(view(&simple(), &[], None).len(), 4);
}

#[test]
fn view_cell_object_has_required_fields() {
    for cell in &view(&simple(), &[], None) {
        assert!(cell.get("cell_id").is_some());
        assert!(cell.get("source").is_some());
        assert!(cell.get("status").is_some());
    }
}

#[test]
fn view_filter_by_cell_id() {
    let arr = view(&simple(), &["cell:compute-total"], None);
    assert_eq!(arr.len(), 1);
    assert_eq!(arr[0]["cell_id"].as_str(), Some("compute-total"));
}

#[test]
fn view_filter_by_cell_id_or() {
    assert_eq!(view(&simple(), &["cell:compute-total,reviewed-pass"], None).len(), 2);
}

#[test]
fn view_filter_by_index_exact() {
    let arr = view(&simple(), &["index:1"], None);
    assert_eq!(arr.len(), 1);
    assert_eq!(arr[0]["cell_id"].as_str(), Some("plain-data"));
}

#[test]
fn view_filter_by_index_range() {
    assert_eq!(view(&simple(), &["index:1..2"], None).len(), 2);
}

#[test]
fn view_filter_test_null() {
    for cell in &view(&simple(), &["test:null"], None) {
        assert_ne!(cell["cell_id"].as_str(), Some("compute-total"));
    }
}

#[test]
fn view_filter_test_not_null() {
    let arr = view(&simple(), &["test:not null"], None);
    assert_eq!(arr.len(), 1);
    assert_eq!(arr[0]["cell_id"].as_str(), Some("compute-total"));
}

#[test]
fn view_and_filters() {
    let arr = view(&simple(), &["test:not null", "fixtures:not null"], None);
    assert_eq!(arr.len(), 1);
    assert_eq!(arr[0]["cell_id"].as_str(), Some("compute-total"));
}

#[test]
fn view_fields_projection() {
    for cell in &view(&simple(), &[], Some("cell_id,source")) {
        assert!(cell.get("cell_id").is_some());
        assert!(cell.get("source").is_some());
        assert!(cell.get("status").is_none());
        assert!(cell.get("fixtures").is_none());
    }
}

#[test]
fn view_cell_id_always_present_even_when_not_in_fields() {
    for cell in &view(&simple(), &[], Some("source")) {
        assert!(cell.get("cell_id").is_some());
    }
}

#[test]
fn view_compute_total_has_fixtures_and_test() {
    let arr = view(&simple(), &["cell:compute-total"], None);
    assert_eq!(arr.len(), 1);
    let cell = &arr[0];
    assert!(cell["fixtures"].is_object());
    assert!(cell["test"].is_object());
    assert!(cell.get("shas").is_none());
}

#[test]
fn view_no_filters_returns_empty_array_for_no_code_cells() {
    let mut nb = simple();
    nb.cells.truncate(1);
    assert_eq!(view(&nb, &[], None).len(), 0);
    assert_eq!(print_cells(view_cells(&nb, &vec![], &None)).unwrap(), "[]");
}

#[test]
fn view_filter_diff_null() {
    for cell in &view(&simple(), &["diff:null"], None) {
        assert!(cell["diff"].is_null());
    }
}

#[test]
fn view_filter_diagnostics_type() {
    let arr = view(&simple(), &["diagnostics.type:missing"], None);
    assert_eq!(arr.len(), 4);
    for cell in &arr {
        assert!(cell["status"]["diagnostics"]
            .as_array()
            .unwrap()
            .iter()
            .any(|d| d["type"].as_str() == Some("missing")));
    }
}

#[test]
fn view_filter_diagnostics_severity() {
    let mut nb = simple();
    accept(&mut nb, true, &[]).unwrap();
    nb.cells[1].source = split_source("data = [9]");
    let arr = view(&nb, &["diagnostics.severity:warning"], None);
    assert_eq!(arr.len(), 4);
    for cell in &arr {
        assert!(cell["status"]["diagnostics"]
            .as_array()
            .unwrap()
            .iter()
            .any(|d| d["severity"].as_str() == Some("warning")));
    }
}

// --- scaffold ---

#[test]
fn scaffold_fixture_produces_valid_json() {
    let fixture = Fixture {
        description: "Small test dataframe".to_string(),
        priority: 1,
        source: "global df; df = pd.DataFrame({'amount': [1, 2, 3]})".to_string(),
    };
    let val = val(&scaffold_fixture("setup_df", &fixture));
    assert!(val["fixtures"]["setup_df"].is_object());
    assert_eq!(
        val["fixtures"]["setup_df"]["description"].as_str(),
        Some("Small test dataframe")
    );
    assert_eq!(val["fixtures"]["setup_df"]["priority"].as_i64(), Some(1));
    assert!(val["fixtures"]["setup_df"]["source"].is_string());
}

#[test]
fn scaffold_fixture_minimal_uses_defaults() {
    let fixture =
        Fixture { description: String::new(), priority: 0, source: String::new() };
    let val = val(&scaffold_fixture("my_fix", &fixture));
    let fix = &val["fixtures"]["my_fix"];
    assert_eq!(fix["description"].as_str(), Some(""));
    assert_eq!(fix["priority"].as_i64(), Some(0));
    assert_eq!(fix["source"].as_str(), Some(""));
}

#[test]
fn scaffold_test_produces_valid_json() {
    let test =
        TestMeta { name: "test_total".to_string(), source: "assert total == 6".to_string() };
    let val = val(&scaffold_test(&test));
    assert_eq!(val["test"]["name"].as_str(), Some("test_total"));
    assert_eq!(val["test"]["source"].as_str(), Some("assert total == 6"));
}

#[test]
fn scaffold_test_minimal_uses_defaults() {
    let test = TestMeta { name: "test_foo".to_string(), source: String::new() };
    let val = val(&scaffold_test(&test));
    assert_eq!(val["test"]["name"].as_str(), Some("test_foo"));
    assert_eq!(val["test"]["source"].as_str(), Some(""));
}

#[test]
fn scaffold_output_has_no_cell_id() {
    let fixture =
        Fixture { description: String::new(), priority: 0, source: String::new() };
    assert!(val(&scaffold_fixture("f1", &fixture)).get("cell_id").is_none());
}

// --- status ---

#[test]
fn status_exits_nonzero_when_invalid_cells_exist() {
    let (arr, code) = status(&simple(), &[]);
    assert_eq!(code, 1);
    assert!(!arr.is_empty());
    for cell in &arr {
        assert!(cell.get("cell_id").is_some());
        assert!(cell.get("status").is_some());
        assert!(cell.get("source").is_none());
    }
}

#[test]
fn status_exits_zero_when_all_cells_valid() {
    let mut nb = simple();
    accept(&mut nb, true, &[]).unwrap();
    let (arr, code) = status(&nb, &[]);
    assert_eq!(code, 0);
    assert!(arr.is_empty());
}

#[test]
fn status_with_filter_narrows_cells() {
    let (arr, _) = status(&simple(), &["cell:compute-total"]);
    assert_eq!(arr.len(), 1);
    for cell in &arr {
        assert_eq!(cell["cell_id"].as_str(), Some("compute-total"));
    }
}

// --- accept ---

#[test]
fn accept_requires_all_or_filter() {
    assert_eq!(
        accept(&mut simple(), false, &[]),
        Err("one of --all or at least one --filter is required for `accept`".to_string())
    );
}

#[test]
fn accept_all_and_filter_together_rejected() {
    assert_eq!(
        accept(&mut simple(), true, &["cell:compute-total"]),
        Err("--all and --filter are mutually exclusive for `accept`".to_string())
    );
}

#[test]
fn accept_all_makes_cells_valid() {
    let mut nb = simple();
    assert_eq!(status(&nb, &[]).1, 1);
    accept(&mut nb, true, &[]).unwrap();
    assert_eq!(status(&nb, &[]).1, 0);
}

#[test]
fn accept_with_filter_only_accepts_matching_cells() {
    let mut nb = simple();
    accept(&mut nb, false, &["cell:compute-total"]).unwrap();
    let arr = view(&nb, &["cell:compute-total"], Some("cell_id,status"));
    assert_eq!(arr.len(), 1);
    assert_eq!(arr[0]["status"]["valid"], Value::from(true));
    let arr2 = view(&nb, &["cell:reviewed-pass"], Some("cell_id,status"));
    assert_eq!(arr2.len(), 1);
    assert_eq!(arr2[0]["status"]["valid"], Value::from(false));
}

#[test]
fn accept_all_stamps_plain_cells_with_shas_only() {
    let mut nb = simple();
    accept(&mut nb, true, &[]).unwrap();
    let arr = view(&nb, &["cell:plain-data"], None);
    assert_eq!(arr[0]["status"]["valid"].as_bool(), Some(true));
    assert!(arr[0]["fixtures"].is_null() && arr[0]["test"].is_null() && arr[0]["diff"].is_null());
}

#[test]
fn accept_with_diagnostics_type_filter() {
    let mut nb = simple();
    accept(&mut nb, false, &["diagnostics.type:missing"]).unwrap();
    assert!(view(&nb, &["diagnostics.type:missing"], None).is_empty());
}

// --- update ---

#[test]
fn update_set_test_on_cell() {
    let mut nb = simple();
    update(
        &mut nb,
        r#"{"cell_id": "plain-data",
            "test": {"name": "test_data", "source": "assert data == [1, 2, 3]"}}"#,
    )
    .unwrap();
    let arr = view(&nb, &["cell:plain-data"], None);
    assert_eq!(arr[0]["test"]["name"].as_str(), Some("test_data"));
}

#[test]
fn update_clear_test_with_null() {
    let mut nb = simple();
    update(&mut nb, r#"{"cell_id": "compute-total", "test": null}"#).unwrap();
    assert!(view(&nb, &["cell:compute-total"], None)[0]["test"].is_null());
}

#[test]
fn update_merge_fixtures() {
    let mut nb = simple();
    update(
        &mut nb,
        r#"{"cell_id": "compute-total",
            "fixtures": {"new_fixture":
                {"description": "new one", "priority": 2, "source": "x = 42"}}}"#,
    )
    .unwrap();
    let arr = view(&nb, &["cell:compute-total"], None);
    assert!(arr[0]["fixtures"]["setup_data"].is_object());
    assert!(arr[0]["fixtures"]["new_fixture"].is_object());
}

#[test]
fn update_remove_specific_fixture() {
    let mut nb = simple();
    update(&mut nb, r#"{"cell_id": "compute-total", "fixtures": {"setup_data": null}}"#).unwrap();
    assert!(view(&nb, &["cell:compute-total"], None)[0]["fixtures"].is_null());
}

#[test]
fn update_clear_all_fixtures_with_null() {
    let mut nb = simple();
    update(&mut nb, r#"{"cell_id": "compute-total", "fixtures": null}"#).unwrap();
    assert!(view(&nb, &["cell:compute-total"], None)[0]["fixtures"].is_null());
}

#[test]
fn update_unknown_cell_fails() {
    let diag =
        update(&mut simple(), r#"{"cell_id": "nonexistent-cell", "test": null}"#).unwrap_err();
    assert_eq!(diag["valid"], Value::from(false));
    assert!(diag["diagnostics"]
        .as_array()
        .unwrap()
        .iter()
        .any(|d| d["type"].as_str() == Some("invalid_field")));
}

#[test]
fn update_invalid_fixture_missing_fields_fails() {
    let diag = update(
        &mut simple(),
        r#"{"cell_id": "compute-total",
            "fixtures": {"bad_fixture": {"description": "missing priority and source"}}}"#,
    )
    .unwrap_err();
    assert_eq!(diag["valid"], Value::from(false));
    let types: Vec<&str> = diag["diagnostics"]
        .as_array()
        .unwrap()
        .iter()
        .filter_map(|d| d["type"].as_str())
        .collect();
    assert!(types.contains(&"invalid_field"));
}

#[test]
fn update_batch_multiple_cells() {
    let mut nb = simple();
    update(
        &mut nb,
        r#"[{"cell_id": "plain-data", "test": {"name": "test_plain", "source": "assert True"}},
            {"cell_id": "compute-total", "diff": "some diff text"}]"#,
    )
    .unwrap();
    let arr = view(&nb, &[], None);
    let plain = arr.iter().find(|c| c["cell_id"].as_str() == Some("plain-data")).unwrap();
    assert_eq!(plain["test"]["name"].as_str(), Some("test_plain"));
    let compute = arr.iter().find(|c| c["cell_id"].as_str() == Some("compute-total")).unwrap();
    assert_eq!(compute["diff"].as_str(), Some("some diff text"));
}

#[test]
fn update_requires_data_or_data_file() {
    assert!(choose_data(None, None).is_err());
}

#[test]
fn update_both_data_and_data_file_rejected() {
    let data = Some(r#"{"cell_id":"plain-data"}"#.to_string());
    assert!(choose_data(data, Some("data.json".to_string())).is_err());
}

#[test]
fn update_takes_data_from_either_place() {
    assert_eq!(
        choose_data(Some("[]".to_string()), None),
        Ok(DataSource::Inline("[]".to_string()))
    );
    assert_eq!(
        choose_data(None, Some("updates.json".to_string())),
        Ok(DataSource::File("updates.json".to_string()))
    );
}

#[test]
fn update_absent_field_preserves_existing() {
    let mut nb = simple();
    update(&mut nb, r#"{"cell_id": "compute-total", "diff": "new diff"}"#).unwrap();
    let arr = view(&nb, &["cell:compute-total"], None);
    assert!(arr[0]["test"].is_object());
    assert_eq!(arr[0]["diff"].as_str(), Some("new diff"));
}

#[test]
fn update_validation_failure_does_not_modify_notebook() {
    let mut nb = simple();
    let before = serialize_notebook(&nb).unwrap();
    assert!(update(&mut nb, r#"{"cell_id": "nonexistent", "test": null}"#).is_err());
    assert_eq!(serialize_notebook(&nb).unwrap(), before);
}

#[test]
fn update_ignores_source_and_status_fields() {
    let mut nb = simple();
    update(
        &mut nb,
        r#"{"cell_id": "plain-data", "source": "should be ignored",
            "status": {"valid": true, "diagnostics": []}, "diff": "real update"}"#,
    )
    .unwrap();
    let arr = view(&nb, &["cell:plain-data"], None);
    assert_ne!(arr[0]["source"].as_str(), Some("should be ignored"));
    assert_eq!(arr[0]["diff"].as_str(), Some("real update"));
}

#[test]
fn update_empty_array_is_noop() {
    let mut nb = simple();
    let before = serialize_notebook(&nb).unwrap();
    update(&mut nb, "[]").unwrap();
    assert_eq!(serialize_notebook(&nb).unwrap(), before);
}

#[test]
fn update_upsert_existing_fixture() {
    let mut nb = simple();
    update(
        &mut nb,
        r#"{"cell_id": "compute-total",
            "fixtures": {"setup_data":
                {"description": "Updated description", "priority": 99, "source": "data = [100]"}}}"#,
    )
    .unwrap();
    let arr = view(&nb, &["cell:compute-total"], None);
    let fix = &arr[0]["fixtures"]["setup_data"];
    assert_eq!(fix["description"].as_str(), Some("Updated description"));
    assert_eq!(fix["priority"].as_i64(), Some(99));
}

#[test]
fn update_diagnostics_have_all_fields() {
    let diag = update(&mut simple(), r#"{"cell_id": "nonexistent"}"#).unwrap_err();
    let d = &diag["diagnostics"][0];
    assert!(d.get("type").is_some());
    assert!(d.get("severity").is_some());
    assert!(d.get("message").is_some());
    assert!(d.get("field").is_some());
}

// --- test ---

#[test]
fn tests_to_run_are_those_that_match() {
    let nb = simple();
    let targets = find_test_targets(&nb, &vec![]);
    assert_eq!(targets.len(), 1);
    assert_eq!(targets[0].cell_id, "compute-total");
    assert_eq!(targets[0].test_name, "check_total");
    assert_eq!(targets[0].index, 2);
    let none = parse_filters(&strings(&["cell:plain-data"])).unwrap();
    assert!(find_test_targets(&nb, &none).is_empty());
}

/// A notebook with two cells that have a test.
fn multi_cell() -> Notebook {
    let mut nb = simple();
    nb.cells.truncate(2);
    for (id, name) in [("cell-a", "test_a"), ("cell-b", "test_b")] {
        let mut cell = nb.cells[1].clone();
        cell.id = CellId::new(id).unwrap();
        nb.cells.push(cell);
        let data = format!(
            r#"{{"cell_id": "{id}", "test": {{"name": "{name}", "source": "assert data"}}}}"#
        );
        update(&mut nb, &data).unwrap();
    }
    nb
}

fn targets(nb: &Notebook, filters: &[&str]) -> Vec<String> {
    let filters = parse_filters(&strings(filters)).unwrap();
    find_test_targets(nb, &filters).into_iter().map(|target| target.cell_id).collect()
}

#[test]
fn test_filter_selects_single_cell() {
    assert_eq!(targets(&multi_cell(), &["cell:cell-a"]), vec!["cell-a"]);
}

#[test]
fn test_filter_excludes_other_cell() {
    assert_eq!(targets(&multi_cell(), &["cell:cell-b"]), vec!["cell-b"]);
}

#[test]
fn test_no_matching_filter_returns_empty_array() {
    assert!(targets(&multi_cell(), &["cell:nonexistent"]).is_empty());
    assert_eq!(test_exit_code(&vec![]), 0);
}

#[test]
fn test_no_filter_runs_all_cells() {
    assert_eq!(targets(&multi_cell(), &[]), vec!["cell-a", "cell-b"]);
}

// --- paths ---

#[test]
fn editor_notebook_is_named_after_its_source() {
    assert_eq!(editor_path(Some("simple")), Ok("simple.nota-bene.ipynb".to_string()));
    assert_eq!(editor_path(None), Err("source path has no file stem".to_string()));
}

// --- metadata that is no object ---

#[test]
fn odd_metadata_is_left_alone() {
    let mut nb = simple();
    nb.cells[1]
        .metadata
        .additional
        .insert("nota-bene".to_string(), Json::Text("odd".to_string()));
    let before = serialize_notebook(&nb).unwrap();
    assert!(!accept_matching(&mut nb, true, &vec![]));
    let updates = parse_updates(r#"{"cell_id": "plain-data", "diff": "d"}"#).unwrap();
    assert!(matches!(update_notebook(updates, &mut nb), UpdateOutcome::NotAnObject));
    assert_eq!(serialize_notebook(&nb).unwrap(), before);

    let updates = parse_updates(r#"{"cell_id": "compute-total", "diff": "d"}"#).unwrap();
    assert!(matches!(update_notebook(updates, &mut nb), UpdateOutcome::Applied));
    let filters = parse_filters(&strings(&["cell:compute-total"])).unwrap();
    assert_eq!(find_cells_to_accept(&nb, false, &filters), vec![2]);
    assert!(accept_matching(&mut nb, false, &filters));
}

#[test]
fn malformed_source_is_refused() {
    let mut nb = simple();
    let before = serialize_notebook(&nb).unwrap();
    let updates = parse_updates(
        r#"[{"cell_id": "plain-data", "diff": "d"},
            {"cell_id": "plain-data", "test": {"name": "t", "source": [1]}}]"#,
    )
    .unwrap();
    match update_notebook(updates, &mut nb) {
        UpdateOutcome::Refused(diagnostics) => {
            assert_eq!(diagnostics.len(), 1);
            assert_eq!(diagnostics[0].field, "test.source");
        }
        other => panic!("unexpected outcome: {other:?}"),
    }
    assert_eq!(serialize_notebook(&nb).unwrap(), before);
}

#[test]
fn fixture_body_within_a_character_cannot_be_applied() {
    let mut source = simple();
    let mut editor = build_editor_notebook(&source, "simple.ipynb").unwrap();
    assert!(check_editor(&source, &editor));
    let text = "# fixture: a\r\n# description: \u{e9}\r\n";
    editor_cell(&mut editor, "fixture", "compute-total").source = vec![text.to_string()];
    assert!(check_editor(&source, &editor));
    let text = "# fixture: a\r\n# priority: 1\r\n# description: \u{e9}\r\nx";
    editor_cell(&mut editor, "fixture", "compute-total").source = vec![text.to_string()];
    assert!(!check_editor(&source, &editor));
    assert!(matches!(continue_edit(&mut source, &editor, false), EditOutcome::Impossible));
}

// --- outcomes of tests ---

fn outcome(passed: &[bool]) -> CellTestResult {
    CellTestResult::Completed {
        cell_id: "c1".to_string(),
        test_name: "t".to_string(),
        subtests: passed
            .iter()
            .map(|p| SubtestResult {
                name: "s".to_string(),
                passed: *p,
                error: None,
                traceback: None,
            })
            .collect(),
    }
}

#[test]
fn exit_code_tells_failures_from_errors() {
    assert_eq!(test_exit_code(&vec![]), 0);
    assert_eq!(test_exit_code(&vec![outcome(&[true]), outcome(&[])]), 0);
    assert_eq!(test_exit_code(&vec![outcome(&[true, false])]), 1);
    let error = executor_error_result("c1", "t", "x");
    assert_eq!(test_exit_code(&vec![outcome(&[false]), error]), 2);
}

#[test]
fn failed_executor_is_explained() {
    let text = |status: &str, stderr: &str| {
        format_test_result(&failed_executor_result("c1", "t", status, stderr))
    };
    assert_eq!(
        text("exit status: 1", "__NB_EXEC_ERROR__ no kernel \n"),
        "ERROR in phase `executor`: Executor error: no kernel"
    );
    assert_eq!(
        text("exit status: 1", "boom\n"),
        "ERROR in phase `executor`: Executor failed (exit status: 1). stderr: boom"
    );
    assert_eq!(
        text("exit status: 1", ""),
        "ERROR in phase `executor`: Executor failed (exit status: 1)"
    );
}

#[test]
fn output_of_the_executor_is_judged() {
    let result = executor_result("oops", "c1", "t").unwrap();
    assert_eq!(
        format_test_result(&result),
        "ERROR in phase `executor`: Failed to parse executed notebook: \
         parsing executed notebook from subprocess stdout"
    );
    let executed = format!(
        r#"{{"cells": [{{"cell_type": "code", "execution_count": 1, "id": "res",
             "metadata": {{"nota-bene": {{"runner": {{"role": "results"}}}}}},
             "outputs": [{{"name": "stdout", "output_type": "stream",
                          "text": ["{RESULTS_MARKER}[{{\"name\": \"a\", \"passed\": true}}]"]}}],
             "source": []}}],
            "metadata": {{}}, "nbformat": 4, "nbformat_minor": 5}}"#
    );
    let result = executor_result(&executed, "c1", "t").unwrap();
    assert_eq!(format_test_result(&result), "All 1 subtests passed:\n  - a ✓");

    let old = |level: i32| {
        format!(
            r#"{{"nbformat": 3, "worksheets": [{{"cells": [
                {{"cell_type": "heading", "level": {level}, "metadata": {{}}, "source": ["T"]}}]}}]}}"#
        )
    };
    let result = executor_result(&old(2), "c1", "t").unwrap();
    assert_eq!(
        format_test_result(&result),
        "ERROR in phase `executor`: Results cell missing from executed notebook"
    );
    assert!(executor_result(&old(-1), "c1", "t").is_none());
}
