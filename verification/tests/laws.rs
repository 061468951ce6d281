//! What holds of several functions together, and exact values.
use nota_bene::diagnostic_cache::{cached_count, new_cache};
use nota_bene::diagnostics::{compute_cell_diagnostics, DiagnosticType, Severity};
use nota_bene::diff_utils::{
    apply_diff, check_reversible, compute_diff, reconstruct_original, reverse_hunk_header,
    reverse_patch_str, undo_diff, DiffError,
};
use nota_bene::edit::{
    build_editor_notebook, check_diffs, open_editor_notebook, split_source,
};
use nota_bene::filter::{cell_matches_all, match_index, match_null_or_not, Filter, FilterError};
use nota_bene::fixtures::{fixtures_by_priority, Fixture};
use nota_bene::format::{
    check_upgradable, drop_null_language, load_notebook_from_str, parse_executed_notebook,
    read_notebook, serialize_line, serialize_notebook, strip_null_language_info_fields, ExecutedError, LoadError,
    StripError,
};
use nota_bene::json::{
    parse_json, print_members, print_pretty, print_string_literal, Json, JsonMap, JsonNumber,
};
use nota_bene::json_path::{json_path_range, JsonPathSegment, LineIndex};
use nota_bene::lsp::compute_lsp_diagnostics;
use nota_bene::metadata::{read_data, read_fixtures, write_fixtures, NotaBeneView, ShaEntry};
use nota_bene::notebook::{
    blank_cell_metadata, find_code_cell, new_cell_id, Cell, CellBody, CellExt, CellId,
    CellMetadata, ErrorOutput, Metadata, Notebook, Output,
};
use nota_bene::notebook_json::{notebook_from_json, notebook_to_json};
use nota_bene::save::{apply_editor_to_source, check_conflicts, parse_sections};
use nota_bene::shas::{
    accept_cell, cell_state, compute_cell_sha, compute_snapshot, CellState, Staleness,
};
use nota_bene::test_runner::{
    build_test_notebook, extract_results, format_error, runner_fixture_name, runner_role,
    runner_source_cell_id, CellTestResult, RESULTS_MARKER,
};
use nota_bene::update::{apply_updates, parse_updates, validate_updates, UpdateError};
use nota_bene::view::CellView;

fn json(text: &str) -> Json {
    parse_json(text).unwrap()
}

fn code(id: &str, metadata: CellMetadata, source: &str) -> Cell {
    Cell {
        id: CellId::new(id).unwrap(),
        metadata,
        source: split_source(source),
        body: CellBody::Code { execution_count: None, outputs: vec![] },
    }
}

fn plain_cell(id: &str, source: &str) -> Cell {
    code(id, blank_cell_metadata(), source)
}

fn cell_with_nb(id: &str, source: &str, nb: &str) -> Cell {
    let mut metadata = blank_cell_metadata();
    metadata.additional.insert("nota-bene".to_string(), json(nb));
    code(id, metadata, source)
}

fn notebook(cells: Vec<Cell>) -> Notebook {
    Notebook {
        metadata: Metadata { standard: JsonMap::new(), additional: JsonMap::new() },
        nbformat: 4,
        nbformat_minor: 5,
        cells,
    }
}

fn printed(nb: &Notebook) -> String {
    print_pretty(&notebook_to_json(nb)).unwrap()
}

// --- JSON ---

#[test]
fn json_is_parsed_and_printed() {
    let value = json(r#"{"b": [1, -2, 0.5, "x\n"], "a": null, "c": true}"#);
    assert_eq!(
        print_pretty(&value).unwrap(),
        "{\n  \"a\": null,\n  \"b\": [\n    1,\n    -2,\n    0.5,\n    \"x\\n\"\n  ],\n  \"c\": true\n}"
    );
    match value {
        Json::Object(map) => match map.get("b").unwrap() {
            Json::Array(items) => {
                assert_eq!(items[0], Json::Number(JsonNumber::Natural(1)));
                assert_eq!(items[1], Json::Number(JsonNumber::Negative(-2)));
                assert_eq!(items[3], Json::Text("x\n".to_string()));
                let copy = items[2].clone();
                assert_eq!(copy, items[2]);
                assert_ne!(copy, items[0]);
            }
            _ => panic!("expected an array"),
        },
        _ => panic!("expected an object"),
    }
}

#[test]
fn printed_json_reads_back() {
    let value = json(
        r#"{"": [], "a": {"b": [0, 18446744073709551615, -9223372036854775808, null, false]},
            "\u00e9\n\"\\": "\u0000\ud83d\ude00"}"#,
    );
    assert_eq!(json(&print_pretty(&value).unwrap()), value);
    let mut deep = Json::Null;
    for _ in 0..127 {
        deep = Json::Array(vec![deep]);
    }
    assert_eq!(json(&print_pretty(&deep).unwrap()), deep);
    let deeper = Json::Array(vec![deep]);
    assert!(parse_json(&print_pretty(&deeper).unwrap()).is_err());
}

#[test]
fn json_errors_have_messages() {
    let message = parse_json("{oops").unwrap_err();
    assert!(message.contains("line 1 column 2"), "{message}");
}

#[test]
fn members_keep_their_order_when_printed() {
    let members = JsonMap {
        entries: vec![
            ("z".to_string(), Json::Number(JsonNumber::Natural(1))),
            ("a".to_string(), Json::Text("t".to_string())),
        ],
    };
    assert_eq!(print_members(&members).unwrap(), "{\n  \"z\": 1,\n  \"a\": \"t\"\n}");
}

#[test]
fn members_are_inserted_by_key() {
    let mut map = JsonMap::new();
    map.insert("b".to_string(), Json::Null);
    map.insert("a".to_string(), Json::Bool(true));
    map.insert("b".to_string(), Json::Bool(false));
    assert_eq!(map.entries[0].0, "a");
    assert_eq!(map.entries[1], ("b".to_string(), Json::Bool(false)));
    map.remove("a");
    assert!(map.get("a").is_none());
    assert_eq!(map.entries.len(), 1);
}

#[test]
fn string_literals_are_escaped() {
    assert_eq!(print_string_literal("a \"b\"\n\\"), "\"a \\\"b\\\"\\n\\\\\"");
}

// --- positions in JSON ---

#[test]
fn range_covers_the_value_with_its_quotes() {
    let path = [JsonPathSegment::from("cells"), JsonPathSegment::from(1usize)];
    assert_eq!(json_path_range(r#"{"cells": [1, "é"]}"#, &path), Some(14..18));
    assert_eq!(json_path_range("{", &path), None);
}

#[test]
fn ranges_stand_in_one_another() {
    let text = r#" {"k\u0061": [1, {"b": "\u00e9"}]} "#;
    let path = [
        JsonPathSegment::Key("ka".to_string()),
        JsonPathSegment::Index(1),
        JsonPathSegment::Key("b".to_string()),
    ];
    let mut outer = json_path_range(text, &[]).unwrap();
    assert!(outer.end <= text.len());
    for count in 1..=path.len() {
        let inner = json_path_range(text, &path[..count]).unwrap();
        assert!(outer.start < inner.start && inner.end < outer.end);
        outer = inner;
    }
    assert_eq!(&text[outer], "\"\\u00e9\"");
}

#[test]
fn positions_count_bytes_within_lines() {
    let index = LineIndex::new("ab\nc\n");
    assert_eq!(index.line_count(), 3);
    assert_eq!(index.offset_to_position(0), (0, 0));
    assert_eq!(index.offset_to_position(2), (0, 2));
    assert_eq!(index.offset_to_position(4), (1, 1));
    assert_eq!(index.offset_to_position(5), (2, 0));
}

// --- ids ---

#[test]
fn new_ids_have_the_form_of_random_uuids() {
    let id = new_cell_id();
    let chars: Vec<char> = id.as_str().chars().collect();
    assert_eq!(chars.len(), 36);
    for at in [8, 13, 18, 23] {
        assert_eq!(chars[at], '-');
    }
    assert_eq!(chars[14], '4');
    assert!(chars.iter().all(|c| *c == '-' || c.is_ascii_hexdigit()));
}

#[test]
fn ids_have_a_limited_alphabet_and_length() {
    assert!(CellId::new("").is_none());
    assert!(CellId::new("a b").is_none());
    assert!(CellId::new(&"a".repeat(65)).is_none());
    assert!(CellId::new(&"a".repeat(64)).is_some());
    assert_eq!(CellId::new("A-z_0").unwrap().as_str(), "A-z_0");
}

// --- fingerprints ---

#[test]
fn fingerprint_has_an_exact_value() {
    assert_eq!(
        compute_cell_sha(&plain_cell("c1", "x = 1")),
        "616952b85ff077484bdb51fff6ce3298cfdf6220"
    );
    assert_eq!(
        compute_cell_sha(&cell_with_nb("c1", "x = 1", r#"{"diff": "d", "shas": []}"#)),
        "f654e5eb2ad7ee28d9b19660a7d9908d1f2cf565"
    );
}

#[test]
fn fingerprints_follow_source_and_metadata() {
    let one = cell_with_nb("c1", "x = 1", r#"{"diff": "d", "shas": []}"#);
    let other = cell_with_nb("c2", "x = 1", r#"{"diff": "d"}"#);
    assert_eq!(compute_cell_sha(&one), compute_cell_sha(&other));
    assert_ne!(compute_cell_sha(&one), compute_cell_sha(&plain_cell("c1", "x = 1")));
    let sha = compute_cell_sha(&one);
    assert_eq!(sha.len(), 40);
    assert!(sha.chars().all(|c| matches!(c, '0'..='9' | 'a'..='f')));
}

#[test]
fn accepting_changes_no_fingerprint() {
    let mut nb = notebook(vec![plain_cell("c1", "x = 1"), cell_with_nb("c2", "y = 2", "{}")]);
    let before = compute_snapshot(&nb);
    accept_cell(&mut nb, 1);
    assert_eq!(compute_snapshot(&nb), before);
    assert_eq!(cell_state(&nb, 1), CellState::Valid);
}

#[test]
fn later_cells_do_not_make_a_cell_stale() {
    let mut nb = notebook(vec![cell_with_nb("c1", "x = 1", "{}"), plain_cell("c2", "y = 2")]);
    accept_cell(&mut nb, 0);
    nb.cells[1] = plain_cell("c2", "y = 999");
    assert_eq!(cell_state(&nb, 0), CellState::Valid);
    assert_eq!(nota_bene::shas::staleness(&nb, 0), Staleness::Valid);
}

// --- metadata ---

#[test]
fn what_is_set_reads_back() {
    let mut additional = JsonMap::new();
    additional.insert("nota-bene".to_string(), json(r#"{"extra": 1, "diff": "old"}"#));
    let shas = vec![ShaEntry { cell_id: "c1".to_string(), sha: "abc".to_string() }];
    NotaBeneView::new(&mut additional).set_shas(shas);
    NotaBeneView::new(&mut additional).set_diff(Some("new".to_string()));
    let data = read_data(additional.get("nota-bene").unwrap()).unwrap();
    assert_eq!(data.diff.as_deref(), Some("new"));
    assert_eq!(data.shas.unwrap()[0].sha, "abc");
    assert!(data.extra.contains_key("extra"));
    NotaBeneView::new(&mut additional).clear();
    assert!(additional.get("nota-bene").is_none());
}

#[test]
fn fixtures_read_back_in_the_order_of_their_names() {
    let text = r#"{"b": {"description": "", "priority": -1, "source": "b"},
                   "a": {"description": "", "priority": 3, "source": "a"},
                   "c": {"description": "", "priority": -1, "source": "c"}}"#;
    let map = read_fixtures(&json(text)).unwrap();
    assert_eq!(map.len(), 3);
    assert_eq!(write_fixtures(&map), json(text));
    let order: Vec<String> = fixtures_by_priority(&map).into_iter().map(|e| e.0).collect();
    assert_eq!(order, vec!["b", "c", "a"]);
    let fixture: &Fixture = &map["b"];
    assert_eq!(fixture.priority, -1);
}

#[test]
fn malformed_fields_spoil_the_metadata() {
    assert!(read_data(&json(r#"{"diff": 1}"#)).is_none());
    assert!(read_data(&json(r#"{"shas": {}}"#)).is_none());
    assert!(read_data(&json(r#"{"test": {"name": "t"}}"#)).is_none());
    assert!(read_data(&json(r#"{"fixtures": {"f": 1}}"#)).is_none());
    assert!(read_data(&json("[]")).is_none());
}

// --- diffs ---

#[test]
fn diff_errors_are_told_apart() {
    let unparsable = "--- a\n+++ b\n@@ nonsense\n";
    assert!(matches!(apply_diff("x\n", unparsable), Err(DiffError::Parse(_))));
    assert!(matches!(
        reconstruct_original("x\n", unparsable),
        Err(DiffError::ParseForReconstruction(_))
    ));
    let diff = compute_diff("old\n", "new\n").unwrap();
    assert!(matches!(apply_diff("other\n", &diff), Err(DiffError::Apply(_))));
    let error = reconstruct_original("other\n", &diff).unwrap_err();
    assert!(matches!(error, DiffError::ApplyReversed(_)));
    assert!(error.message().starts_with("failed to apply reversed diff: "));
    assert!(apply_diff("x\n", unparsable)
        .unwrap_err()
        .message()
        .starts_with("failed to parse diff: error parsing patch: "));
}

#[test]
fn diffs_have_an_exact_form() {
    let diff = compute_diff("a\nb\n", "a\nc\n").unwrap();
    assert_eq!(diff, "--- original\n+++ modified\n@@ -1,2 +1,2 @@\n a\n-b\n+c\n");
    assert_eq!(
        reverse_patch_str(&diff),
        "--- modified\n+++ original\n@@ -1,2 +1,2 @@\n a\n-c\n+b\n"
    );
    assert_eq!(reverse_hunk_header("@@ -1,2 +3,4 @@"), "@@ -3,4 +1,2 @@");
    assert_eq!(reverse_hunk_header("@@ @@"), "@@ @@");
}

#[test]
fn diffs_apply_and_come_undone_without_a_last_line_feed() {
    let diff = compute_diff("x = 1", "x = 2\ny = 3").unwrap();
    assert_eq!(apply_diff("x = 1", &diff).unwrap(), "x = 2\ny = 3");
}

#[test]
fn diffs_come_undone() {
    let long: String = (0..40).map(|i| format!("line {i}\n")).collect();
    let edited = long.replace("line 3\n", "line three\n\n").replace("line 30\n", "");
    let pairs = [
        ("x = 1\n", "x = 2\ny = 3\n"),
        ("x", "y"),
        ("a\nx", "a\ny\n"),
        ("a\n", "a\ny"),
        ("", "a\nb\n"),
        ("a\nb\n", ""),
        (long.as_str(), edited.as_str()),
        (edited.as_str(), long.as_str()),
    ];
    for (original, patched) in pairs {
        let diff = compute_diff(original, patched).unwrap();
        assert!(check_reversible(&diff));
        assert_eq!(apply_diff(original, &diff).unwrap(), patched);
        assert_eq!(reconstruct_original(patched, &diff).unwrap(), original);
        assert_eq!(undo_diff(patched, &diff), Some(Ok(original.to_string())));
    }
}

#[test]
fn awkward_diffs_come_undone() {
    let pairs = [
        ("x\n", "y"),
        ("x", "y\n"),
        ("a\nb", "a\nc\nd"),
        ("-- x\n", "y\n"),
        ("y\n", "++ x\n"),
        ("-- x\n++ y\n", "++ y\n-- x\n"),
        ("x\r\n", "y\r\n"),
        ("a\r\n\r\nx\r\n", "a\n\r\ny\r\n"),
        ("x\r", "x\r\n"),
    ];
    for (original, patched) in pairs {
        let diff = compute_diff(original, patched).unwrap();
        assert_eq!(apply_diff(original, &diff).unwrap(), patched);
        assert_eq!(reconstruct_original(patched, &diff), Ok(original.to_string()));
        assert_eq!(reverse_patch_str(&reverse_patch_str(&diff)), diff);
    }
}

#[test]
fn reversing_keeps_lines_and_their_ends() {
    assert_eq!(
        reverse_patch_str("--- a\n+++ b\n@@ -1 +1 @@\n---x\n+y\n"),
        "--- b\n+++ a\n@@ -1 +1 @@\n-y\n+--x\n"
    );
    assert_eq!(
        reverse_patch_str(
            "--- a\n+++ b\n@@ -1 +1 @@\n-x\n\\ No newline at end of file\n+y\n"
        ),
        "--- b\n+++ a\n@@ -1 +1 @@\n-y\n+x\n\\ No newline at end of file\n"
    );
    assert_eq!(
        reverse_patch_str("--- a\n+++ b\r\n@@ -1,2 +1 @@\r\n c\r\n-x\r\n"),
        "--- b\r\n+++ a\n@@ -1 +1,2 @@\r\n c\r\n+x\r\n"
    );
    let added_first = "--- a\n+++ b\n@@ -1 +1 @@\n+y\n-x";
    let reversed = reverse_patch_str(added_first);
    assert_eq!(reversed, "--- b\n+++ a\n@@ -1 +1 @@\n-y\n+x");
    assert_ne!(reverse_patch_str(&reversed), added_first);
    assert_eq!(reverse_patch_str(&reverse_patch_str(&reversed)), reversed);
}

#[test]
fn diffs_reverse_twice_to_themselves() {
    let end = "\\ No newline at end of file";
    let diffs = [
        "--- old\n+++ new\n@@ -1,3 +1,2 @@\n a\n-b\n-c\n+d\n@@ -9 +8 @@\n-x\n+y".to_string(),
        "--- old\n+++ new\n@@ -1 +1 @@\n-x\n+y\n\n a\n+b\n".to_string(),
        format!("--- old\n+++ new\n@@ -1 +1 @@\n-x\n{end}\n+y\n{end}"),
        "--- old\n+++ new\n".to_string(),
        "--- old\n+++ new".to_string(),
    ];
    for diff in diffs {
        let reversed = reverse_patch_str(&diff);
        assert_ne!(reversed, diff);
        assert_eq!(reverse_patch_str(&reversed), diff);
    }
    assert_eq!(
        reverse_patch_str("--- old\n+++ new\n@@ -9 +8 @@\n-x\n+y"),
        "--- new\n+++ old\n@@ -8 +9 @@\n-y\n+x"
    );
}

#[test]
fn ranges_without_an_end_are_refused() {
    let first = format!("@@ -{} +1 @@\n x\n", usize::MAX);
    let diff = format!("--- a\n+++ b\n{first}@@ -1 +9 @@\n y\n");
    assert_eq!(
        apply_diff("x\n", &diff),
        Err(DiffError::Parse("error parsing patch: hunk range too large".to_string()))
    );
    assert!(matches!(
        undo_diff("x\n", &diff),
        Some(Err(DiffError::ParseForReconstruction(_)))
    ));
    let swapped = format!("--- a\n+++ b\n@@ -1 +1,{} @@\n x\n@@ -9 +9 @@\n y\n", usize::MAX);
    assert!(matches!(apply_diff("x\n", &swapped), Err(DiffError::Parse(_))));
    let alone = format!("--- a\n+++ b\n{first}");
    assert_eq!(apply_diff("x\n", &alone), Ok("x\n".to_string()));
}

#[test]
fn odd_names_keep_a_diff_from_being_reversed() {
    let diff = "--- \"a\\n@@ \u{e9} \u{e9}\"\n+++ b\n@@ -1 +1 @@\n-x\n+y\n";
    assert_eq!(apply_diff("x\n", diff).unwrap(), "y\n");
    assert!(!check_reversible(diff));
    assert_eq!(undo_diff("y\n", diff), None);
    let meta = format!(r#"{{"diff": {}}}"#, print_string_literal(diff));
    let nb = notebook(vec![cell_with_nb("c1", "x\n", &meta)]);
    assert!(!check_diffs(&nb));
    assert!(open_editor_notebook(&nb, "nb.ipynb").is_none());
    let nb = notebook(vec![cell_with_nb("c1", "x\n", "{}")]);
    let editor = open_editor_notebook(&nb, "nb.ipynb").unwrap();
    assert_eq!(editor.cells.len(), build_editor_notebook(&nb, "nb.ipynb").unwrap().cells.len());
}

// --- filters ---

#[test]
fn filter_errors_are_told_apart() {
    assert_eq!(
        Filter::parse("nocolon").unwrap_err(),
        FilterError::MissingColon("nocolon".to_string())
    );
    let error = Filter::parse("what:1").unwrap_err();
    assert_eq!(error, FilterError::UnknownKey("what".to_string()));
    assert_eq!(error.message(), "unknown filter key: what");
    assert_eq!(
        Filter::parse("nocolon").unwrap_err().message(),
        "filter must be in the form 'key:expr', got: nocolon"
    );
}

#[test]
fn filters_and_values_combine() {
    let nb = notebook(vec![plain_cell("c1", "x = 1")]);
    let cell = &nb.cells[0];
    let any = Filter::parse("cell:other, c1").unwrap();
    let first = Filter::parse("index:0").unwrap();
    let no = Filter::parse("test:not null").unwrap();
    assert!(any.matches(&nb, cell, 0));
    assert!(cell_matches_all(&[any, first], &nb, cell, 0));
    let any = Filter::parse("cell:other,c1").unwrap();
    assert!(!cell_matches_all(&[any, no], &nb, cell, 0));
}

#[test]
fn odd_values_match_nothing() {
    assert!(!match_index(0, "zero"));
    assert!(!match_index(0, "a..b"));
    assert!(!match_null_or_not(true, "maybe"));
    assert!(match_null_or_not(true, "not null"));
    assert!(match_null_or_not(false, "null"));
}

// --- views ---

#[test]
fn view_has_an_exact_form() {
    let nb = notebook(vec![plain_cell("c1", "x = 1")]);
    let view = CellView::from_cell(&nb, 0);
    let fields = Some(vec!["source".to_string()]);
    assert_eq!(
        print_pretty(&view.to_json_value(&fields)).unwrap(),
        "{\n  \"cell_id\": \"c1\",\n  \"source\": \"x = 1\"\n}"
    );
}

// --- updates ---

#[test]
fn update_errors_are_told_apart() {
    assert!(matches!(parse_updates("{"), Err(UpdateError::Syntax(_))));
    assert!(matches!(parse_updates("1"), Err(UpdateError::NotObjectOrArray)));
    assert!(matches!(parse_updates("[1]"), Err(UpdateError::NotObject)));
    let error = parse_updates("{}").unwrap_err();
    assert!(matches!(error, UpdateError::NoCellId));
    assert_eq!(error.message(), "update object missing required string field 'cell_id'");
    let mut nb = notebook(vec![plain_cell("c1", "x = 1")]);
    let bad = parse_updates(r#"{"cell_id": "c1", "fixtures": {"f": {}}}"#).unwrap();
    let error = apply_updates(bad, &mut nb).unwrap_err();
    assert_eq!(error.message(), "parsing fixture 'f'");
    let bad = parse_updates(r#"{"cell_id": "c1", "test": {}}"#).unwrap();
    let error = apply_updates(bad, &mut nb).unwrap_err();
    assert_eq!(error.message(), "parsing test");
}

#[test]
fn valid_updates_change_metadata_only() {
    let mut nb = notebook(vec![plain_cell("c1", "x = 1"), plain_cell("c2", "y = 2")]);
    let text = r#"{"cell_id": "c2", "test": {"name": "t", "source": "s"}}"#;
    let updates = parse_updates(text).unwrap();
    assert!(validate_updates(&updates, &nb).is_empty());
    apply_updates(updates, &mut nb).unwrap();
    assert!(nb.cells[0].nota_bene().is_none());
    assert_eq!(nb.cells[1].source_str(), "y = 2");
    assert_eq!(nb.cells[1].nota_bene().unwrap().test.unwrap().name, "t");
}

#[test]
fn sources_are_texts_or_lists_of_texts() {
    let mut nb = notebook(vec![plain_cell("c1", "x = 1")]);
    let bad = parse_updates(
        r#"{"cell_id": "c1", "test": {"name": "t", "source": [null]},
            "fixtures": {"f": {"description": "", "priority": 0, "source": ["a", 1]}}}"#,
    )
    .unwrap();
    let fields: Vec<String> =
        validate_updates(&bad, &nb).into_iter().map(|d| d.field).collect();
    assert_eq!(fields, vec!["fixtures.f.source", "test.source"]);
    let good = parse_updates(
        r#"{"cell_id": "c1", "test": {"name": "t", "source": ["a\n", "b"]}}"#,
    )
    .unwrap();
    assert!(validate_updates(&good, &nb).is_empty());
    apply_updates(good, &mut nb).unwrap();
    assert_eq!(nb.cells[0].nota_bene().unwrap().test.unwrap().source, "a\nb");
}

// --- the editor notebook ---

#[test]
fn going_through_the_editor_is_the_review() {
    let mut source = notebook(vec![
        cell_with_nb("c1", "x = 1\n", r#"{"diff": "stale", "editor": {"role": "source"}}"#),
        plain_cell("c2", "y = 2\n"),
        cell_with_nb("c3", "z = 3\n", r#"{"shas": []}"#),
    ]);
    let editor_text = |role: &str, id: &str| {
        format!(r#"{{"editor": {{"cell_id": "{id}", "role": "{role}"}}}}"#)
    };
    let header = |id: &str| Cell {
        body: CellBody::Markdown { attachments: None },
        ..cell_with_nb(&format!("h-{id}"), "", &editor_text("section-header", id))
    };
    let editor = notebook(vec![
        header("c1"),
        cell_with_nb("c1", "x = 10\n", &editor_text("patched-source", "c1")),
        header("c2"),
        cell_with_nb("c2", "y = 2\n", &editor_text("patched-source", "c2")),
        cell_with_nb("t2", "# test: t\nassert y", &editor_text("test", "c2")),
    ]);
    assert!(apply_editor_to_source(&mut source, &editor).unwrap().is_empty());
    let now = compute_snapshot(&source);
    for i in 0..2 {
        let data = source.cells[i].nota_bene().unwrap();
        assert_eq!(data.shas.unwrap(), now[..=i].to_vec());
        assert_eq!(nota_bene::shas::staleness(&source, i), Staleness::Valid);
        assert_eq!(cell_state(&source, i), CellState::Valid);
        assert!(!data.extra.contains_key("editor"));
    }
    let diff = source.cells[0].nota_bene().unwrap().diff.unwrap();
    assert_eq!(apply_diff("x = 1\n", &diff).unwrap(), "x = 10\n");
    assert!(source.cells[2].nota_bene().unwrap().shas.unwrap().is_empty());
}

#[test]
fn the_editor_mends_malformed_metadata() {
    let mut source = notebook(vec![cell_with_nb(
        "c1",
        "x = 1\n",
        r#"{"diff": 5, "fixtures": 3, "shas": "old", "test": "t"}"#,
    )]);
    assert_ne!(cell_state(&source, 0), CellState::Valid);
    let editor = build_editor_notebook(&source, "nb.ipynb").unwrap();
    let mut editor = notebook(
        editor.cells.into_iter().filter(|c| !c.source_str().starts_with("# test")).collect(),
    );
    for cell in editor.cells.iter_mut() {
        if cell.source_str() == "x = 1\n" {
            cell.source = split_source("x = 2\n");
        }
    }
    assert!(apply_editor_to_source(&mut source, &editor).unwrap().is_empty());
    assert_eq!(cell_state(&source, 0), CellState::Valid);
    let data = source.cells[0].nota_bene().unwrap();
    assert_eq!(apply_diff("x = 1\n", &data.diff.unwrap()).unwrap(), "x = 2\n");
}

#[test]
fn no_fixtures_are_shown_as_one_to_fill_in() {
    let nb = notebook(vec![cell_with_nb("c1", "x = 1", r#"{"fixtures": {}}"#)]);
    let editor = build_editor_notebook(&nb, "nb.ipynb").unwrap();
    let fixtures: Vec<String> = editor
        .cells
        .iter()
        .filter(|c| print_pretty(&Json::Object(c.metadata.additional.clone()))
            .unwrap()
            .contains("\"role\": \"fixture\""))
        .map(|c| c.source_str())
        .collect();
    assert_eq!(fixtures, vec!["# fixture: \n# description: \n# priority: 0"]);
}

#[test]
fn cells_that_come_to_an_empty_source_are_a_conflict() {
    let editor = build_editor_notebook(&notebook(vec![]), "nb.ipynb").unwrap();
    assert!(check_conflicts(&notebook(vec![]), &editor).is_ok());
    let message = check_conflicts(&notebook(vec![plain_cell("c1", "x")]), &editor).unwrap_err();
    assert!(message.contains("cell 'c1' was inserted into the source notebook"));
    let without = notebook(vec![]);
    assert!(check_conflicts(&notebook(vec![plain_cell("c1", "x")]), &without).is_ok());
}

#[test]
fn editor_round_trip_keeps_everything() {
    let original = "x = 1\n";
    let diff = compute_diff(original, "x = 99\n").unwrap();
    let meta = format!(
        r#"{{"diff": {},
            "fixtures": {{"late": {{"description": "two words", "priority": 5, "source": "b = 2"}},
                          "early": {{"description": "", "priority": -5, "source": "a = 1\n"}}}},
            "editor": {{"role": "source"}}, "other": [1],
            "test": {{"name": "check x", "source": "assert x"}}}}"#,
        print_string_literal(&diff)
    );
    let mut source = notebook(vec![
        plain_cell("c1", "y = 0"),
        cell_with_nb("c2", original, &meta),
        Cell {
            id: CellId::new("md").unwrap(),
            metadata: blank_cell_metadata(),
            source: split_source("# Title"),
            body: CellBody::Markdown { attachments: None },
        },
    ]);
    let before = source.clone();
    let editor = build_editor_notebook(&source, "nb.ipynb").unwrap();
    assert!(check_conflicts(&source, &editor).is_ok());
    let (sections, warnings) = parse_sections(&editor);
    assert!(warnings.is_empty());
    assert_eq!(sections.len(), 2);
    assert_eq!(sections[1].cell_id, "c2");
    assert_eq!(sections[1].fixtures[0].0, "early");
    assert_eq!(sections[1].patched_source, "x = 99\n");
    assert_eq!(sections[1].test_name.as_deref(), Some("check x"));
    assert!(apply_editor_to_source(&mut source, &editor).unwrap().is_empty());
    let data = source.cells[1].nota_bene().unwrap();
    let old = before.cells[1].nota_bene().unwrap();
    assert_eq!(data.fixtures.unwrap(), old.fixtures.unwrap());
    assert_eq!(data.diff, old.diff);
    assert_eq!(data.test, old.test);
    assert!(old.extra.contains_key("editor"));
    assert!(!data.extra.contains_key("editor"));
    assert_eq!(data.extra.get("other"), old.extra.get("other"));
    assert_eq!(data.shas.unwrap(), compute_snapshot(&source)[..2].to_vec());
    assert_eq!(source.cells[1].source_str(), original);
    assert_eq!(printed(&notebook(vec![source.cells[0].clone(), source.cells[2].clone()])),
        printed(&notebook(vec![before.cells[0].clone(), before.cells[2].clone()])));
}

#[test]
fn conflicts_are_told_apart() {
    let source =
        notebook(vec![plain_cell("c1", "x = 1"), plain_cell("c2", "y = 2")]);
    let editor = build_editor_notebook(&source, "nb.ipynb").unwrap();
    let deleted = notebook(vec![plain_cell("c1", "x = 1")]);
    let message = check_conflicts(&deleted, &editor).unwrap_err();
    assert!(message.contains("cell 'c2' was deleted"), "{message}");
    let inserted = notebook(vec![
        plain_cell("c1", "x = 1"),
        plain_cell("c2", "y = 2"),
        plain_cell("c3", "z = 3"),
    ]);
    let message = check_conflicts(&inserted, &editor).unwrap_err();
    assert!(message.contains("cell 'c3' was inserted into the source notebook"));
    let moved = notebook(vec![plain_cell("c2", "y = 2"), plain_cell("c1", "x = 1")]);
    let message = check_conflicts(&moved, &editor).unwrap_err();
    assert!(message.contains("cell ordering changed in the source notebook"));
    let changed = notebook(vec![plain_cell("c1", "x = 1"), plain_cell("c2", "y = 3")]);
    let message = check_conflicts(&changed, &editor).unwrap_err();
    assert_eq!(
        message,
        "Cannot apply: source notebook has changed since `edit` was run:\n  \
         cell 'c2' source changed since `edit` was run\n\n\
         Use `nota-bene edit --continue --force` to discard source changes and apply anyway."
    );
}

#[test]
fn odd_editor_cells_are_remarked_on() {
    let mut source = notebook(vec![cell_with_nb("c1", "x = 1", "{}")]);
    let mut editor = build_editor_notebook(&source, "nb.ipynb").unwrap();
    let second = editor.cells.last().unwrap().clone();
    editor.cells.push(second);
    editor.cells.push(Cell {
        id: CellId::new("note").unwrap(),
        metadata: blank_cell_metadata(),
        source: split_source("a note"),
        body: CellBody::Markdown { attachments: None },
    });
    source.cells[0].id = CellId::new("gone").unwrap();
    let warnings = apply_editor_to_source(&mut source, &editor).unwrap();
    assert_eq!(
        warnings,
        vec![
            "section 'c1' has multiple test cells; only the last one will be used",
            "non-code cell 'note' inside section 'c1' will be ignored",
            "section cell_id 'c1' not found in source notebook; skipping",
        ]
    );
}

// --- the notebook that runs a test ---

#[test]
fn runner_cells_have_exact_sources() {
    let meta = r#"{"fixtures": {"f": {"description": "", "priority": 0, "source": "a = 1\nb = 2"}},
                   "test": {"name": "t", "source": "assert x"}}"#;
    let nb = notebook(vec![cell_with_nb("c1", "x = \"1\"", meta)]);
    let made = build_test_notebook(&nb, 0).unwrap();
    let sources: Vec<String> = made.cells.iter().map(|c| c.source_str()).collect();
    assert_eq!(
        sources[1],
        "def _nb_fixture_f():\n    a = 1\n    b = 2\n\n_nb_fixture_f()"
    );
    assert_eq!(
        sources[2],
        "nota_bene._runner.load_cell(\"x = \\\"1\\\"\")\nnota_bene.execute_cell()"
    );
    assert_eq!(sources[3], "assert x");
    assert_eq!(runner_role(&made.cells[1]).as_deref(), Some("fixture"));
    assert_eq!(runner_source_cell_id(&made.cells[1]).as_deref(), Some("c1"));
    assert_eq!(runner_fixture_name(&made.cells[1]).as_deref(), Some("f"));
    assert_eq!(runner_fixture_name(&made.cells[2]), None);
}

#[test]
fn errors_are_formatted() {
    let error = ErrorOutput {
        ename: "ValueError".to_string(),
        evalue: "bad".to_string(),
        traceback: vec!["one".to_string(), "two".to_string()],
    };
    assert_eq!(format_error(&error), ("ValueError: bad".to_string(), "one\ntwo".to_string()));
}

#[test]
fn subtests_are_read_from_the_output() {
    let meta = r#"{"runner": {"role": "results"}}"#;
    let mut cell = cell_with_nb("res", "", meta);
    cell.body = CellBody::Code {
        execution_count: Some(1),
        outputs: vec![Output::Stream {
            name: "stdout".to_string(),
            text: format!(
                r#"{RESULTS_MARKER}[{{"name": "a", "passed": true, "error": null, "traceback": null}},
                   {{"name": "b", "passed": false, "error": "boom", "traceback": "tb"}}]"#
            ),
        }],
    };
    match extract_results(&notebook(vec![cell]), "c1", "t") {
        CellTestResult::Completed { cell_id, test_name, subtests } => {
            assert_eq!(cell_id, "c1");
            assert_eq!(test_name, "t");
            assert_eq!(subtests.len(), 2);
            assert!(subtests[0].passed);
            assert_eq!(subtests[1].error.as_deref(), Some("boom"));
            assert_eq!(subtests[1].traceback.as_deref(), Some("tb"));
        }
        CellTestResult::Error { .. } => panic!("expected Completed"),
    }
}

#[test]
fn results_may_stand_behind_other_output() {
    let mut cell = cell_with_nb("res", "", r#"{"runner": {"role": "results"}}"#);
    cell.body = CellBody::Code {
        execution_count: Some(1),
        outputs: vec![
            Output::Stream { name: "stdout".to_string(), text: "noise\n".to_string() },
            Output::Stream {
                name: "stdout".to_string(),
                text: format!(
                    r#"more{RESULTS_MARKER} [{{"name": "a", "passed": true, "error": null,
                       "traceback": null}}] "#
                ),
            },
        ],
    };
    match extract_results(&notebook(vec![cell]), "c1", "t") {
        CellTestResult::Completed { subtests, .. } => assert_eq!(subtests[0].name, "a"),
        CellTestResult::Error { .. } => panic!("expected Completed"),
    }
}

// --- files ---

#[test]
fn kept_notebooks_load_as_they_were() {
    let mut nb = notebook(vec![
        cell_with_nb("c1", "x = 1\ny = 2", r#"{"diff": "d", "n": -3, "deep": [[null]]}"#),
        plain_cell("c2", ""),
        Cell {
            id: CellId::new("md").unwrap(),
            metadata: blank_cell_metadata(),
            source: vec![],
            body: CellBody::Markdown { attachments: Some(json(r#"{"a.png": {}}"#)) },
        },
    ]);
    nb.metadata.additional.insert("mine".to_string(), json("18446744073709551615"));
    nb.metadata.standard.insert(
        "kernelspec".to_string(),
        json(r#"{"display_name": "Python 3", "env": {}, "language": "python", "name": "py"}"#),
    );
    nb.metadata.standard.insert(
        "language_info".to_string(),
        json(r#"{"codemirror_mode": "ipython", "name": "python", "other": 1, "version": "3"}"#),
    );
    nb.metadata.standard.insert("authors".to_string(), json(r#"[{"name": "a", "x": null}]"#));
    let standard = &mut nb.cells[1].metadata.standard;
    standard.insert("collapsed".to_string(), json("true"));
    standard.insert("deletable".to_string(), json("false"));
    standard.insert("editable".to_string(), json("true"));
    standard.insert("scrolled".to_string(), json("true"));
    standard.insert("format".to_string(), json("\"f\""));
    standard.insert("id".to_string(), json("\"i\""));
    standard.insert("name".to_string(), json("\"n\""));
    standard.insert("tags".to_string(), json(r#"["a", "b"]"#));
    standard.insert("jupyter".to_string(), json(r#"{"mine": true, "source_hidden": false}"#));
    standard.insert(
        "execution".to_string(),
        json(r#"{"iopub.status.busy": "t", "mine": "u"}"#),
    );
    nb.cells[1].body = CellBody::Code {
        execution_count: Some(-3),
        outputs: vec![
            Output::Stream { name: "stdout".to_string(), text: "one\ntwo".to_string() },
            Output::Stream { name: "stderr".to_string(), text: String::new() },
            Output::Error(ErrorOutput {
                ename: "E".to_string(),
                evalue: "v".to_string(),
                traceback: vec!["t".to_string()],
            }),
        ],
    };
    let text = serialize_notebook(&nb).unwrap();
    let back = load_notebook_from_str(&text, "nb.ipynb").unwrap();
    assert_eq!(printed(&back), printed(&nb));
    assert_eq!(printed(&notebook_from_json(&json(&text)).unwrap()), printed(&nb));
}

#[test]
fn notebooks_read_back_from_their_json() {
    let mut nb = notebook(vec![
        cell_with_nb("c1", "x = 1\ny = 2", r#"{"diff": "d"}"#),
        plain_cell("c2", ""),
    ]);
    nb.cells[1].body = CellBody::Code {
        execution_count: Some(3),
        outputs: vec![
            Output::Stream { name: "stdout".to_string(), text: "hello\n".to_string() },
            Output::Error(ErrorOutput {
                ename: "E".to_string(),
                evalue: "v".to_string(),
                traceback: vec!["t".to_string()],
            }),
        ],
    };
    let back = notebook_from_json(&notebook_to_json(&nb)).unwrap();
    assert_eq!(printed(&back), printed(&nb));
    assert_eq!(back.cells[1].cell_id_str(), "c2");
}

#[test]
fn saved_notebooks_load_again() {
    let nb = notebook(vec![cell_with_nb("c1", "x = 1", r#"{"diff": "d"}"#)]);
    let text = serialize_notebook(&nb).unwrap();
    let back = load_notebook_from_str(&text, "nb.ipynb").unwrap();
    assert_eq!(printed(&back), printed(&nb));
    assert_eq!(printed(&read_notebook(&text).unwrap()), printed(&nb));
    assert_eq!(serialize_notebook(&back).unwrap(), text);
    assert!(read_notebook("[]").is_none());
}

#[test]
fn notebooks_are_printed_on_a_single_line() {
    let nb = notebook(vec![cell_with_nb("c1", "x = 1\ny = 2", r#"{"diff": "d"}"#)]);
    let line = serialize_line(&nb).unwrap();
    assert!(!line.contains('\n'));
    assert_eq!(json(&line), json(&serialize_notebook(&nb).unwrap()));
    assert_eq!(printed(&load_notebook_from_str(&line, "nb.ipynb").unwrap()), printed(&nb));
}

#[test]
fn rich_outputs_leave_the_rest_of_a_cell_alone() {
    let text = r#"{"cells": [{"cell_type": "code", "execution_count": 1, "id": "c1",
        "metadata": {"nota-bene": {"diff": "d", "other": [1]}}, "source": ["x = 1\n", "x"],
        "outputs": [
            {"output_type": "display_data", "metadata": {}, "data": {"text/plain": ["a\n", "b"]}},
            {"output_type": "execute_result", "execution_count": 1, "metadata": {},
             "data": {"application/json": {"k": [1, 2]}, "image/png": "aGk="}}]}],
        "metadata": {"mine": {"k": 2}}, "nbformat": 4, "nbformat_minor": 5}"#;
    let nb = load_notebook_from_str(text, "nb.ipynb").unwrap();
    for printed in [serialize_notebook(&nb).unwrap(), serialize_line(&nb).unwrap()] {
        let back = load_notebook_from_str(&printed, "nb.ipynb").unwrap();
        assert_eq!(back.cells.len(), 1);
        assert_eq!(back.cells[0].cell_id_str(), "c1");
        assert_eq!(back.cells[0].source_str(), "x = 1\nx");
        assert_eq!(back.cells[0].metadata.additional, nb.cells[0].metadata.additional);
        assert_eq!(
            print_pretty(back.cells[0].metadata.additional.get("nota-bene").unwrap()).unwrap(),
            "{\n  \"diff\": \"d\",\n  \"other\": [\n    1\n  ]\n}"
        );
        assert_eq!(back.metadata.additional.get("mine"), nb.metadata.additional.get("mine"));
    }
}

#[test]
fn loading_errors_are_told_apart() {
    let error = load_notebook_from_str("not json", "nb.ipynb").unwrap_err();
    assert!(matches!(error, LoadError::Parse { .. }));
    assert_eq!(error.message(), "parsing notebook nb.ipynb");
    let old = r#"{"cells": [], "metadata": {}, "nbformat": 4, "nbformat_minor": 4}"#;
    let error = load_notebook_from_str(old, "nb.ipynb").unwrap_err();
    assert!(matches!(error, LoadError::NotCurrent { .. }));
    assert_eq!(
        error.message(),
        "notebook \"nb.ipynb\" is not nbformat 4.5.\n\
         Run `nota-bene upgrade nb.ipynb` to add stable cell IDs."
    );
}

#[test]
fn executed_notebooks_of_older_versions_are_upgraded() {
    let old = r#"{"cells": [{"cell_type": "markdown", "metadata": {}, "source": ["hi"]}],
                  "metadata": {}, "nbformat": 4, "nbformat_minor": 4}"#;
    let nb = parse_executed_notebook(old).unwrap();
    assert_eq!(nb.cells.len(), 1);
    assert_eq!(nb.cells[0].source_str(), "hi");
    assert_eq!(nb.cells[0].cell_id_str().len(), 36);
    let old = r#"{"metadata": {}, "nbformat": 3, "nbformat_minor": 0, "worksheets": [{"cells": [
        {"cell_type": "heading", "level": 2, "metadata": {}, "source": ["Title"]},
        {"cell_type": "code", "input": ["x = 1"], "metadata": {}, "outputs": []}]}]}"#;
    assert!(check_upgradable(old));
    assert!(!check_upgradable(&old.replace("2,", "-2,")));
    let nb = parse_executed_notebook(old).unwrap();
    assert_eq!(nb.cells[0].source_str(), "## Title");
    assert_eq!(nb.cells[1].source_str(), "x = 1");
    assert!(nb.cells[1].is_code());
    let error = parse_executed_notebook("oops").unwrap_err();
    assert!(matches!(error, ExecutedError::Parse(_)));
    assert_eq!(error.message(), "parsing executed notebook from subprocess stdout");
}

#[test]
fn null_fields_of_the_language_are_dropped() {
    let text = r#"{"metadata": {"language_info": {"name": "python", "version": null}}, "x": null}"#;
    let wanted = r#"{"metadata": {"language_info": {"name": "python"}}, "x": null}"#;
    assert_eq!(drop_null_language(&json(text)), json(wanted));
    let stripped = strip_null_language_info_fields(text).unwrap();
    assert_eq!(json(&stripped), json(wanted));
    assert!(matches!(strip_null_language_info_fields("{"), Err(StripError::Parse(_))));
}

#[test]
fn code_cells_are_found_by_id() {
    let nb = notebook(vec![plain_cell("c1", "x = 1"), plain_cell("c2", "y = 2")]);
    let (index, cell) = find_code_cell(&nb, "c2").unwrap();
    assert_eq!(index, 1);
    assert_eq!(cell.source_str(), "y = 2");
    assert!(find_code_cell(&nb, "c3").is_none());
}

// --- the cache ---

#[test]
fn cache_changes_no_diagnostics_and_is_bounded() {
    let mut cache = new_cache();
    for i in 0..300 {
        let nb = notebook(vec![cell_with_nb("c1", &format!("x = {i}"), r#"{"diff": "d"}"#)]);
        let text = printed(&nb);
        let first = compute_lsp_diagnostics(&text, &mut cache);
        let again = compute_lsp_diagnostics(&text, &mut cache);
        let fresh = compute_lsp_diagnostics(&text, &mut new_cache());
        assert_eq!(first.len(), fresh.len());
        assert_eq!(again.len(), fresh.len());
        assert_eq!(first[0].message, fresh[0].message);
    }
    assert_eq!(cached_count(&cache), 256);
}

#[test]
fn placed_diagnostics_are_exact() {
    let nb = notebook(vec![plain_cell("c1", "x = 1")]);
    let status = compute_cell_diagnostics(&nb, 0);
    assert_eq!(status.diagnostics[0].kind, DiagnosticType::Missing);
    let text = printed(&nb);
    let placed = compute_lsp_diagnostics(&text, &mut new_cache());
    assert_eq!(placed.len(), 1);
    assert_eq!(placed[0].severity, Severity::Error);
    assert_eq!(placed[0].code, "missing");
    assert_eq!(placed[0].source, "nota-bene");
    assert_eq!(placed[0].message, status.diagnostics[0].message);
    let line = text.lines().nth(placed[0].start_line as usize).unwrap();
    assert!(line.trim_start().starts_with("\"source\": ["));
    assert!(placed[0].end_line > placed[0].start_line);
}
