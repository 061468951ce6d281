//! Guiding through a repair.
use nota_bene::json::{parse_json, JsonMap};
use nota_bene::notebook::{
    blank_cell_metadata, Cell, CellBody, CellId, CellMetadata, Metadata, Notebook,
};
use nota_bene::repair::{
    choose_cell, format_test_result, generate_diff, test_to_run, write_repair_report, RepairStep,
};
use nota_bene::shas::{accept_cell, compute_cell_sha};
use nota_bene::test_runner::{executor_error_result, CellTestResult, SubtestResult};

fn notebook(cells: Vec<Cell>) -> Notebook {
    Notebook {
        metadata: Metadata { standard: JsonMap::new(), additional: JsonMap::new() },
        nbformat: 4,
        nbformat_minor: 5,
        cells,
    }
}

fn cell(id: &str, source: &str, metadata: CellMetadata) -> Cell {
    Cell {
        id: CellId::new(id).unwrap(),
        metadata,
        source: vec![source.to_string()],
        body: CellBody::Code { execution_count: None, outputs: vec![] },
    }
}

fn plain_cell(id: &str, source: &str) -> Cell {
    cell(id, source, blank_cell_metadata())
}

fn cell_with_nb(id: &str, source: &str, nb: &str) -> Cell {
    let mut metadata = blank_cell_metadata();
    metadata.additional.insert("nota-bene".to_string(), parse_json(nb).unwrap());
    cell(id, source, metadata)
}

fn note(id: &str, source: &str) -> Cell {
    Cell {
        id: CellId::new(id).unwrap(),
        metadata: blank_cell_metadata(),
        source: vec![source.to_string()],
        body: CellBody::Markdown { attachments: None },
    }
}

fn details(list: &[(&str, &str)]) -> Vec<(String, String)> {
    list.iter().map(|(k, v)| (k.to_string(), v.to_string())).collect()
}

// --- choose_cell ---

#[test]
fn first_invalid_code_cell_is_chosen() {
    let mut nb = notebook(vec![
        note("md", "# Title"),
        cell_with_nb("c1", "x = 1", "{}"),
        plain_cell("c2", "y = 2"),
    ]);
    assert_eq!(choose_cell(&nb, "nb.ipynb", &None), Ok(RepairStep::Repair(1)));
    accept_cell(&mut nb, 1);
    assert_eq!(choose_cell(&nb, "nb.ipynb", &None), Ok(RepairStep::Repair(2)));
}

#[test]
fn valid_notebook_needs_no_repair() {
    let mut nb = notebook(vec![cell_with_nb("c1", "x = 1", "{}")]);
    accept_cell(&mut nb, 0);
    assert_eq!(
        choose_cell(&nb, "nb.ipynb", &None),
        Ok(RepairStep::Done(
            "All cells in `nb.ipynb` are valid. Nothing to repair.".to_string()
        ))
    );
}

#[test]
fn named_cell_is_chosen() {
    let mut nb = notebook(vec![plain_cell("c1", "x = 1"), cell_with_nb("c2", "y = 2", "{}")]);
    let target = Some("c2".to_string());
    assert_eq!(choose_cell(&nb, "nb.ipynb", &target), Ok(RepairStep::Repair(1)));
    accept_cell(&mut nb, 1);
    assert_eq!(
        choose_cell(&nb, "nb.ipynb", &target),
        Ok(RepairStep::Done(
            "Cell `c2` in `nb.ipynb` is already valid. Nothing to repair.".to_string()
        ))
    );
}

#[test]
fn unknown_cell_cannot_be_repaired() {
    let nb = notebook(vec![note("md", "# Title")]);
    assert_eq!(
        choose_cell(&nb, "nb.ipynb", &Some("md".to_string())),
        Err("Cell `md` not found in `nb.ipynb`".to_string())
    );
}

// --- generate_diff ---

#[test]
fn generated_diff_is_explained() {
    let nb = notebook(vec![plain_cell("c1", "x = 1\n")]);
    let text = generate_diff(&nb, "nb.ipynb", "c1", "x = 2\n").unwrap();
    assert_eq!(
        text,
        "Unified diff for cell `c1` in `nb.ipynb`:\n\n```diff\n--- original\n+++ modified\n\
         @@ -1 +1 @@\n-x = 1\n+x = 2\n\n```\n\nPass this diff string as the `\"diff\"` value in:\n\
         ```bash\nnota-bene update nb.ipynb --data \
         '{\"cell_id\": \"c1\", \"diff\": \"<diff above>\"}'\n             \n```"
    );
}

#[test]
fn same_source_needs_no_diff() {
    let nb = notebook(vec![plain_cell("c1", "x = 1")]);
    let text = generate_diff(&nb, "nb.ipynb", "c1", "x = 1").unwrap();
    assert_eq!(
        text,
        "The patched source is identical to the current cell source. No diff needed.\n\
         You can omit the `diff` field in `nota-bene update`."
    );
}

#[test]
fn diff_of_unknown_cell_is_an_error() {
    let nb = notebook(vec![note("md", "# Title")]);
    assert_eq!(
        generate_diff(&nb, "nb.ipynb", "md", ""),
        Err("Code cell `md` not found in `nb.ipynb`".to_string())
    );
}

// --- format_test_result ---

fn subtest(name: &str, passed: bool, error: Option<&str>) -> SubtestResult {
    SubtestResult {
        name: name.to_string(),
        passed,
        error: error.map(|e| e.to_string()),
        traceback: None,
    }
}

fn completed(subtests: Vec<SubtestResult>) -> CellTestResult {
    CellTestResult::Completed {
        cell_id: "c1".to_string(),
        test_name: "t".to_string(),
        subtests,
    }
}

#[test]
fn passed_tests_are_listed() {
    let result = completed(vec![subtest("a", true, None), subtest("b", true, None)]);
    assert_eq!(format_test_result(&result), "All 2 subtests passed:\n  - a ✓\n  - b ✓");
}

#[test]
fn failed_tests_are_explained() {
    let result = completed(vec![
        subtest("a", true, None),
        subtest("b", false, Some("boom")),
        subtest("c", false, None),
    ]);
    assert_eq!(
        format_test_result(&result),
        "FAILED — 2 of 3 subtests failed:\n  - a ✓\n  - b ✗ — boom\n  - c ✗ — (no detail)"
    );
}

#[test]
fn errors_of_tests_are_explained() {
    let result = executor_error_result("c1", "t", "no python");
    assert_eq!(format_test_result(&result), "ERROR in phase `executor`: no python");
}

// --- write_repair_report ---

#[test]
fn brief_report_on_a_plain_cell() {
    let nb = notebook(vec![plain_cell("c1", "x = 1")]);
    assert_eq!(test_to_run(&nb, 0), None);
    let report = write_repair_report(
        &nb,
        0,
        "nb.ipynb",
        &details(&[("missing", "brief")]),
        "No test defined for this cell.",
    );
    assert_eq!(report, PLAIN_REPORT);
}

#[test]
fn detailed_report_on_a_conflict() {
    let old = plain_cell("c1", "x = 1");
    let diff = "--- a\\n+++ b\\n@@ -1 +1 @@\\n-old line\\n+new line\\n";
    let body = format!(
        r#""fixtures": {{"f": {{"description": "d", "priority": 2, "source": "x = 1"}}}},
           "diff": "{diff}", "test": {{"name": "t", "source": "assert y"}}"#
    );
    let unaccepted = cell_with_nb("c2", "y = x\n", &format!("{{{body}}}"));
    let shas = format!(
        r#"[{{"cell_id": "c1", "sha": "{}"}}, {{"cell_id": "c2", "sha": "{}"}}]"#,
        compute_cell_sha(&old),
        compute_cell_sha(&unaccepted)
    );
    let accepted = cell_with_nb("c2", "y = x\n", &format!(r#"{{{body}, "shas": {shas}}}"#));
    let nb = notebook(vec![plain_cell("c1", "x = 999"), accepted]);
    assert_eq!(test_to_run(&nb, 1), Some("t".to_string()));
    let report = write_repair_report(&nb, 1, "nb.ipynb", &details(&[]), "FAILED");
    assert_eq!(report, CONFLICT_REPORT);
}

#[test]
fn report_depends_on_the_test_result() {
    let nb = notebook(vec![cell_with_nb(
        "c1",
        "x = 1",
        r#"{"test": {"name": "t", "source": "assert x"}}"#,
    )]);
    let passed = write_repair_report(&nb, 0, "nb.ipynb", &details(&[]), "All 1 subtests passed:");
    assert!(passed.contains("## Not yet accepted\n\n"));
    assert!(passed.contains("The test passes. Accept the cell to stamp it as valid:\n\n"));
    assert!(!passed.contains("The test is failing."));
    let failed = write_repair_report(&nb, 0, "nb.ipynb", &details(&[]), "FAILED");
    assert!(failed
        .contains("The test is failing. Fix the metadata, re-run the test, then accept:\n\n"));
}

#[test]
fn report_says_what_is_missing() {
    let nb = notebook(vec![cell_with_nb("c1", "x = 1", r#"{"diff": "d"}"#)]);
    let report = write_repair_report(&nb, 0, "nb.ipynb", &details(&[]), "");
    assert!(report.contains(
        "This cell has some nota-bene metadata but is missing:\n\
         - `fixtures` (if external resources or side effects are involved)\n\
         - `test` — **required**\n\n"
    ));
    assert!(report.contains("### Fixtures\n\n"));
    assert!(!report.contains("### Diff\n\n"));
    assert!(report.contains("### Test\n\n"));
    assert!(report.contains("`detail_level: {\"missing\": \"brief\"}`"));
}

/// The report on a plain cell.
const PLAIN_REPORT: &str = r##"Cell `c1` at index 0 in `nb.ipynb` has diagnostics: missing

> **Workflow**: After making changes with `nota-bene update`, always run the tests to verify the cell works correctly before accepting:
> ```bash
> nota-bene test nb.ipynb --filter cell:c1
> ```
> Only call `accept` once the tests pass and you are satisfied the cell is fully ready. `accept` stamps the SHA snapshot — after this, the cell will no longer be flagged. The accept command is:
> ```bash
> nota-bene accept nb.ipynb --filter cell:c1
> ```

## Cell source

```python
x = 1
```

## Missing metadata

This cell has no nota-bene metadata at all.

Create the missing fields. Fixtures are needed only if the cell has external resources or side effects. A diff is needed only to reroute the cell to use fixtures.

```bash
nota-bene update nb.ipynb --data '{
  "cell_id": "c1",
  "fixtures": {
    "<fixture_name>": {
      "description": "<what this fixture sets up>",
      "priority": 0,
      "source": "<python code>"
    }
  },
  "diff": "<unified diff string, or omit entirely if not needed>",
  "test": {
    "name": "<descriptive_test_name>",
    "source": "<python test code using nota_bene.subtest()>"
  }
}'
```

Then run the test to confirm it passes:

```bash
nota-bene test nb.ipynb --filter cell:c1
```

Once passing, accept:

```bash
nota-bene accept nb.ipynb --filter cell:c1
```

Call with `detail_level: {"missing": "detailed"}` for full instructions.

Then call `repair_nota_bene` again to continue to the next cell.

For full filter syntax used in the commands above, run: `nota-bene docs filters`
"##;

/// The report on a cell whose diff conflicts and whose ancestor changed.
const CONFLICT_REPORT: &str = r##"Cell `c2` at index 1 in `nb.ipynb` has diagnostics: ancestor_modified, diff_conflict

> **Workflow**: After making changes with `nota-bene update`, always run the tests to verify the cell works correctly before accepting:
> ```bash
> nota-bene test nb.ipynb --filter cell:c2
> ```
> Only call `accept` once the tests pass and you are satisfied the cell is fully ready. `accept` stamps the SHA snapshot — after this, the cell will no longer be flagged. The accept command is:
> ```bash
> nota-bene accept nb.ipynb --filter cell:c2
> ```

## Cell source

```python
y = x
```

## Existing fixtures

```json
{
  "f": {
    "description": "d",
    "priority": 2,
    "source": "x = 1"
  }
}
```

## Existing diff

```diff
--- a
+++ b
@@ -1 +1 @@
-old line
+new line

```

## Existing test

Name: t
```python
assert y
```

## Test result

FAILED

## Ancestor modified

Changed ancestors:
- Preceding cell `c1` was modified

Preceding cells have changed, which may affect this cell's execution context. The fixtures and diff may need updating if the upstream data shape or control flow changed.

The test is failing, likely due to changes in preceding cells. Update the fixtures or test to account for the new upstream state, re-run the test to confirm it passes, then accept:

```bash
nota-bene update nb.ipynb --data '{
  "cell_id": "c2",
  <only include fields that need changing>
}'
```

```bash
nota-bene test nb.ipynb --filter cell:c2
```

```bash
nota-bene accept nb.ipynb --filter cell:c2
```

## Diff conflict

Stored diff (broken):
```diff
--- a
+++ b
@@ -1 +1 @@
-old line
+new line

```

The cell source has changed and the stored diff can no longer be applied. The diff's only purpose is to reroute code to use fixture-provided resources (e.g., swap a file path, redirect an API call to a mock). It should change as little as possible.

Do NOT write a unified diff by hand. Instead:
1. Produce the full patched cell source with your intended changes
2. Call `generate_diff` to compute the correct unified diff
3. Pass the returned diff string to `nota-bene update`

Or set `diff` to null if a diff is no longer needed.

```bash
nota-bene update nb.ipynb --data '{
  "cell_id": "c2",
  "diff": "<output of generate_diff, or null to remove>"
}'
```

Then run the test to confirm it passes:

```bash
nota-bene test nb.ipynb --filter cell:c2
```

Once passing, accept:

```bash
nota-bene accept nb.ipynb --filter cell:c2
```

Then call `repair_nota_bene` again to continue to the next cell.

On subsequent calls, you may pass `detail_level` with `"brief"` for diagnostic types you've already seen, to reduce context. For example: `detail_level: {"ancestor_modified": "brief"}`

For full filter syntax used in the commands above, run: `nota-bene docs filters`
"##;
