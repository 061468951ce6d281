//! Guiding through the repair of a notebook: which cell comes next, what is
//! wrong with it, and which commands mend it.
use vstd::prelude::*;

use crate::diagnostics::{
    cell_diagnostics, compute_cell_diagnostics, diagnostic_models, kind_name, CellStatus,
    Diagnostic, DiagnosticModel, DiagnosticType,
};
use crate::diff_utils::{compute_diff, diff_between};
use crate::fixtures::{fixture_at, fixture_count, fixture_entries, FixtureMap, FixtureModel};
use crate::json::{members_model, ordered_text, print_members, Json, JsonMap, JsonModel};
use crate::metadata::{
    data_view, fixture_json, shas_json, write_fixture, write_fixtures, write_shas, write_test,
    DataModel, NotaBeneData,
};
use crate::notebook::{code_cell_index, find_code_cell, Cell, CellExt, Notebook, NotebookModel};
use crate::repair_texts::{
    ABOUT_ANCESTORS, ABOUT_CONFLICT, ABOUT_DIFF, ABOUT_FIELDS, ABOUT_FIXTURES, ABOUT_METADATA,
    ABOUT_REVIEW, ABOUT_TEST, ACCEPT_NOW, ANCESTOR_FAILING, ANCESTOR_FAILING_BRIEF, ANCESTOR_HELP,
    ANCESTOR_PASSING, ANCESTOR_PASSING_BRIEF, ANCESTOR_UPDATE, CONFLICT_BRIEF, CONFLICT_HELP,
    CREATE_BRIEF, FIELD_HELP, FILTER_HELP, FIX_AND_ACCEPT, LACKS_DIFF, LACKS_FIXTURES, LACKS_TEST,
    MISSING_HELP, NEVER_ACCEPTED, NEXT_CELL, NO_DIFF_NEEDED, NO_METADATA, OMIT_FIELDS,
    REVIEW_FAILING, REVIEW_FAILING_BRIEF, REVIEW_HELP, REVIEW_PASSING, REVIEW_PASSING_BRIEF,
    REVIEW_UPDATE, SOME_METADATA, WORKFLOW_ACCEPT, WORKFLOW_TEST,
};
use crate::test_runner::{
    subtest_models, CellTestResult, SubtestModel, SubtestResult, TestResultModel,
};
use crate::text::{
    begins_with, concatenate, concatenated, decimal, decimal_text, join, joined, occurs_in,
    same_text, text_begins_with, text_contains, text_ends_with_char, text_view, texts,
};

verus! {

broadcast use {crate::json::array_view, crate::json::object_view};

// ---------------------------------------------------------------------------
// Diffs
// ---------------------------------------------------------------------------

/// What is said of a diff that was made.
pub open spec fn diff_text(cell_id: Seq<char>, path: Seq<char>, diff: Seq<char>) -> Seq<char> {
    "Unified diff for cell `"@ + cell_id + "` in `"@ + path + "`:\n\n```diff\n"@ + diff
        + "\n```\n\nPass this diff string as the `\"diff\"` value in:\n```bash\nnota-bene update "@
        + path + " --data '{\"cell_id\": \""@ + cell_id
        + "\", \"diff\": \"<diff above>\"}'\n             \n```"@
}

/// Makes the diff from the source of a code cell to another one, and says how
/// to use it.
pub fn generate_diff(nb: &Notebook, notebook_path: &str, cell_id: &str, patched_source: &str) -> (text:
    Result<String, String>)
    ensures
        ({
            let at = code_cell_index(nb@.cells, cell_id@);
            if at < nb@.cells.len() {
                text matches Ok(t) && t@ == match diff_between(
                    nb@.cells[at].text(),
                    patched_source@,
                ) {
                    Some(diff) => diff_text(cell_id@, notebook_path@, diff),
                    None => NO_DIFF_NEEDED@,
                }
            } else {
                text matches Err(message) && message@ == "Code cell `"@ + cell_id@
                    + "` not found in `"@ + notebook_path@ + "`"@
            }
        }),
{
    match find_code_cell(nb, cell_id) {
        None => {
            let mut message: String = "Code cell `".to_owned();
            message.append(cell_id);
            message.append("` not found in `");
            message.append(notebook_path);
            message.append("`");
            Err(message)
        },
        Some((_, cell)) => {
            let original: String = cell.source_str();
            match compute_diff(original.as_str(), patched_source) {
                None => Ok(NO_DIFF_NEEDED.to_owned()),
                Some(diff) => {
                    let mut text: String = "Unified diff for cell `".to_owned();
                    text.append(cell_id);
                    text.append("` in `");
                    text.append(notebook_path);
                    text.append("`:\n\n```diff\n");
                    text.append(diff.as_str());
                    text.append(
                        "\n```\n\nPass this diff string as the `\"diff\"` value in:\n```bash\nnota-bene update ",
                    );
                    text.append(notebook_path);
                    text.append(" --data '{\"cell_id\": \"");
                    text.append(cell_id);
                    text.append("\", \"diff\": \"<diff above>\"}'\n             \n```");
                    Ok(text)
                },
            }
        },
    }
}

// ---------------------------------------------------------------------------
// The next cell
// ---------------------------------------------------------------------------

/// The position of the first code cell from `from` on that is invalid, or the
/// number of cells.
pub open spec fn first_invalid(nb: NotebookModel, from: int) -> int
    decreases nb.cells.len() - from,
{
    if from >= nb.cells.len() {
        nb.cells.len() as int
    } else if nb.cells[from].is_code() && cell_diagnostics(nb, from).len() > 0 {
        from
    } else {
        first_invalid(nb, from + 1)
    }
}

/// What is to be done next.
#[derive(Debug, PartialEq)]
pub enum RepairStep {
    /// Nothing; with what is said about it.
    Done(String),
    /// The cell at that position is to be repaired.
    Repair(usize),
}

/// Chooses the cell to be repaired: the given one, or else the first invalid
/// one. A cell that does not exist is an error.
pub fn choose_cell(nb: &Notebook, notebook_path: &str, cell_id: &Option<String>) -> (step: Result<
    RepairStep,
    String,
>)
    ensures
        match *cell_id {
            Some(id) => {
                let at = code_cell_index(nb@.cells, id@);
                if at >= nb@.cells.len() {
                    step matches Err(message) && message@ == "Cell `"@ + id@ + "` not found in `"@
                        + notebook_path@ + "`"@
                } else if cell_diagnostics(nb@, at).len() == 0 {
                    step matches Ok(RepairStep::Done(text)) && text@ == "Cell `"@ + id@ + "` in `"@
                        + notebook_path@ + "` is already valid. Nothing to repair."@
                } else {
                    step matches Ok(RepairStep::Repair(index)) && index == at
                }
            },
            None => if first_invalid(nb@, 0) >= nb@.cells.len() {
                step matches Ok(RepairStep::Done(text)) && text@ == "All cells in `"@
                    + notebook_path@ + "` are valid. Nothing to repair."@
            } else {
                step matches Ok(RepairStep::Repair(index)) && index == first_invalid(nb@, 0)
            },
        },
        step matches Ok(RepairStep::Repair(index)) ==> index < nb.cells.len(),
{
    match cell_id {
        Some(id) => match find_code_cell(nb, id.as_str()) {
            None => {
                let mut message: String = "Cell `".to_owned();
                message.append(id.as_str());
                message.append("` not found in `");
                message.append(notebook_path);
                message.append("`");
                Err(message)
            },
            Some((index, _)) => {
                if compute_cell_diagnostics(nb, index).valid {
                    let mut text: String = "Cell `".to_owned();
                    text.append(id.as_str());
                    text.append("` in `");
                    text.append(notebook_path);
                    text.append("` is already valid. Nothing to repair.");
                    Ok(RepairStep::Done(text))
                } else {
                    Ok(RepairStep::Repair(index))
                }
            },
        },
        None => {
            let mut i: usize = 0;
            while i < nb.cells.len()
                invariant
                    i <= nb.cells.len(),
                    first_invalid(nb@, 0) == first_invalid(nb@, i as int),
                    *cell_id is None,
                decreases nb.cells.len() - i,
            {
                assert(nb@.cells[i as int] == nb.cells@[i as int]@);
                if nb.cells[i].is_code() && !compute_cell_diagnostics(nb, i).valid {
                    return Ok(RepairStep::Repair(i));
                }
                i += 1;
            }
            let mut text: String = "All cells in `".to_owned();
            text.append(notebook_path);
            text.append("` are valid. Nothing to repair.");
            Ok(RepairStep::Done(text))
        },
    }
}

/// Nothing is left to repair if and only if every code cell is valid.
pub proof fn repaired_means_valid(nb: NotebookModel, from: int)
    requires
        0 <= from,
    ensures
        first_invalid(nb, from) >= nb.cells.len() <==> forall|i: int|
            from <= i < nb.cells.len() && (#[trigger] nb.cells[i]).is_code() ==> cell_diagnostics(
                nb,
                i,
            ).len() == 0,
    decreases nb.cells.len() - from,
{
    if from < nb.cells.len() {
        repaired_means_valid(nb, from + 1);
        assert(nb.cells[from].is_code() || !nb.cells[from].is_code());
    }
}

// ---------------------------------------------------------------------------
// Test results
// ---------------------------------------------------------------------------

/// The number of parts that did not pass.
pub open spec fn failed_count(subtests: Seq<SubtestModel>) -> nat
    decreases subtests.len(),
{
    if subtests.len() == 0 {
        0
    } else {
        failed_count(subtests.drop_last()) + if subtests.last().passed {
            0nat
        } else {
            1nat
        }
    }
}

/// What is said of a part of a test.
pub open spec fn subtest_line(subtest: SubtestModel) -> Seq<char> {
    if subtest.passed {
        "\n  - "@ + subtest.name + " ✓"@
    } else {
        "\n  - "@ + subtest.name + " ✗ — "@ + match subtest.error {
            Some(error) => error,
            None => "(no detail)"@,
        }
    }
}

/// What is said of the result of a test.
pub open spec fn result_text(result: TestResultModel) -> Seq<char> {
    match result {
        TestResultModel::Completed { subtests, .. } => {
            let failed = failed_count(subtests);
            let first = if failed == 0 {
                "All "@ + decimal(subtests.len()) + " subtests passed:"@
            } else {
                "FAILED — "@ + decimal(failed) + " of "@ + decimal(subtests.len())
                    + " subtests failed:"@
            };
            first + concatenated(
                subtests.map_values(|subtest: SubtestModel| subtest_line(subtest)),
            )
        },
        TestResultModel::Error { error, .. } => {
            let first = "ERROR in phase `"@ + error.phase + "`: "@ + error.detail;
            match error.traceback {
                Some(traceback) => first + "\n\nTraceback:\n```\n"@ + traceback + "\n```"@,
                None => first,
            }
        },
    }
}

/// What is said of a part of a test.
fn describe_subtest(subtest: &SubtestResult) -> (line: String)
    ensures
        line@ == subtest_line(subtest@),
{
    let mut line: String = "\n  - ".to_owned();
    line.append(subtest.name.as_str());
    if subtest.passed {
        line.append(" ✓");
    } else {
        line.append(" ✗ — ");
        match &subtest.error {
            Some(error) => line.append(error.as_str()),
            None => line.append("(no detail)"),
        }
    }
    line
}

/// Says what the result of a test is.
pub fn format_test_result(result: &CellTestResult) -> (text: String)
    ensures
        text@ == result_text(result@),
{
    match result {
        CellTestResult::Completed { subtests, .. } => {
            let ghost models = subtest_models(subtests@);
            let ghost wanted = models.map_values(|subtest: SubtestModel| subtest_line(subtest));
            let mut failed: usize = 0;
            let mut lines: Vec<String> = Vec::new();
            let mut i: usize = 0;
            assert(models.take(0) =~= Seq::<SubtestModel>::empty());
            while i < subtests.len()
                invariant
                    i <= subtests.len(),
                    failed <= i,
                    lines.len() == i,
                    models == subtest_models(subtests@),
                    failed == failed_count(models.take(i as int)),
                    forall|k: int| 0 <= k < i ==> (#[trigger] lines@[k])@ == subtest_line(models[k]),
                decreases subtests.len() - i,
            {
                assert(models.take(i + 1).drop_last() =~= models.take(i as int));
                assert(models.take(i + 1).last() == subtests@[i as int]@);
                if !subtests[i].passed {
                    failed += 1;
                }
                lines.push(describe_subtest(&subtests[i]));
                i += 1;
            }
            assert(models.take(i as int) =~= models);
            assert(texts(lines@) =~= wanted);
            assert(models.len() == subtests@.len());
            let mut text: String = String::new();
            if failed == 0 {
                text = "All ".to_owned();
                text.append(decimal_text(subtests.len()).as_str());
                text.append(" subtests passed:");
            } else {
                text = "FAILED — ".to_owned();
                text.append(decimal_text(failed).as_str());
                text.append(" of ");
                text.append(decimal_text(subtests.len()).as_str());
                text.append(" subtests failed:");
            }
            text.append(concatenate(&lines).as_str());
            text
        },
        CellTestResult::Error { error, .. } => {
            let mut text: String = "ERROR in phase `".to_owned();
            text.append(error.phase.as_str());
            text.append("`: ");
            text.append(error.detail.as_str());
            if let Some(traceback) = &error.traceback {
                text.append("\n\nTraceback:\n```\n");
                text.append(traceback.as_str());
                text.append("\n```");
            }
            text
        },
    }
}

/// Whether the text of a test result counts as passed: it begins with `All ` or
/// holds the word `passed`.
pub open spec fn says_passed(result: Seq<char>) -> bool {
    begins_with(result, "All "@) || occurs_in(result, "passed"@)
}

/// Whether the text of a test result counts as passed.
fn reads_as_passed(result: &str) -> (passed: bool)
    ensures
        passed == says_passed(result@),
{
    text_begins_with(result, "All ") || text_contains(result, "passed")
}

// ---------------------------------------------------------------------------
// Commands
// ---------------------------------------------------------------------------

/// The command that updates a cell without metadata.
pub open spec fn update_template(path: Seq<char>, cell_id: Seq<char>) -> Seq<char> {
    "```bash\nnota-bene update "@ + path + " --data '{\n  \"cell_id\": \""@ + cell_id
        + "\",\n  \"fixtures\": {\n    \"<fixture_name>\": {\n      \"description\": \"<what this fixture sets up>\",\n      \"priority\": 0,\n      \"source\": \"<python code>\"\n    }\n  },\n  \"diff\": \"<unified diff string, or omit entirely if not needed>\",\n  \"test\": {\n    \"name\": \"<descriptive_test_name>\",\n    \"source\": \"<python test code using nota_bene.subtest()>\"\n  }\n}'\n```\n"@
}

/// The command that updates a cell with metadata.
pub open spec fn update_existing(path: Seq<char>, cell_id: Seq<char>) -> Seq<char> {
    "```bash\nnota-bene update "@ + path + " --data '{\n  \"cell_id\": \""@ + cell_id
        + "\",\n  <only include fields that need changing>\n}'\n```\n\n"@
}

/// The command that updates the diff of a cell.
pub open spec fn update_diff(path: Seq<char>, cell_id: Seq<char>) -> Seq<char> {
    "```bash\nnota-bene update "@ + path + " --data '{\n  \"cell_id\": \""@ + cell_id
        + "\",\n  \"diff\": \"<output of generate_diff, or null to remove>\"\n}'\n```\n\n"@
}

/// The command that runs the test of a cell.
pub open spec fn test_command(path: Seq<char>, cell_id: Seq<char>) -> Seq<char> {
    "```bash\nnota-bene test "@ + path + " --filter cell:"@ + cell_id + "\n```\n\n"@
}

/// The command that accepts a cell.
pub open spec fn accept_command(path: Seq<char>, cell_id: Seq<char>) -> Seq<char> {
    "```bash\nnota-bene accept "@ + path + " --filter cell:"@ + cell_id + "\n```\n\n"@
}

/// A command with the path of a notebook and the id of a cell in it.
fn fill_in(start: &str, path: &str, middle: &str, cell_id: &str, end: &str) -> (text: String)
    ensures
        text@ == start@ + path@ + middle@ + cell_id@ + end@,
{
    let mut text: String = start.to_owned();
    text.append(path);
    text.append(middle);
    text.append(cell_id);
    text.append(end);
    text
}

/// The command that updates a cell without metadata.
fn write_update_template(path: &str, cell_id: &str) -> (text: String)
    ensures
        text@ == update_template(path@, cell_id@),
{
    fill_in(
        "```bash\nnota-bene update ",
        path,
        " --data '{\n  \"cell_id\": \"",
        cell_id,
        "\",\n  \"fixtures\": {\n    \"<fixture_name>\": {\n      \"description\": \"<what this fixture sets up>\",\n      \"priority\": 0,\n      \"source\": \"<python code>\"\n    }\n  },\n  \"diff\": \"<unified diff string, or omit entirely if not needed>\",\n  \"test\": {\n    \"name\": \"<descriptive_test_name>\",\n    \"source\": \"<python test code using nota_bene.subtest()>\"\n  }\n}'\n```\n",
    )
}

/// The command that updates a cell with metadata.
fn write_update_existing(path: &str, cell_id: &str) -> (text: String)
    ensures
        text@ == update_existing(path@, cell_id@),
{
    fill_in(
        "```bash\nnota-bene update ",
        path,
        " --data '{\n  \"cell_id\": \"",
        cell_id,
        "\",\n  <only include fields that need changing>\n}'\n```\n\n",
    )
}

/// The command that updates the diff of a cell.
fn write_update_diff(path: &str, cell_id: &str) -> (text: String)
    ensures
        text@ == update_diff(path@, cell_id@),
{
    fill_in(
        "```bash\nnota-bene update ",
        path,
        " --data '{\n  \"cell_id\": \"",
        cell_id,
        "\",\n  \"diff\": \"<output of generate_diff, or null to remove>\"\n}'\n```\n\n",
    )
}

/// The command that runs the test of a cell.
fn write_test_command(path: &str, cell_id: &str) -> (text: String)
    ensures
        text@ == test_command(path@, cell_id@),
{
    fill_in("```bash\nnota-bene test ", path, " --filter cell:", cell_id, "\n```\n\n")
}

/// The command that accepts a cell.
fn write_accept_command(path: &str, cell_id: &str) -> (text: String)
    ensures
        text@ == accept_command(path@, cell_id@),
{
    fill_in("```bash\nnota-bene accept ", path, " --filter cell:", cell_id, "\n```\n\n")
}

/// The commands that update, test and accept a cell.
pub open spec fn update_test_accept(path: Seq<char>, cell_id: Seq<char>) -> Seq<Seq<char>> {
    seq![
        update_existing(path, cell_id),
        test_command(path, cell_id),
        accept_command(path, cell_id),
    ]
}

/// Adds a text to the parts.
fn add_text(parts: &mut Vec<String>, text: &str)
    ensures
        texts(final(parts)@) == texts(old(parts)@).push(text@),
{
    let ghost before = texts(parts@);
    parts.push(text.to_owned());
    assert(texts(parts@) =~= before.push(text@));
}

/// Adds a text to the parts.
fn add_owned(parts: &mut Vec<String>, text: String)
    ensures
        texts(final(parts)@) == texts(old(parts)@).push(text@),
{
    let ghost before = texts(parts@);
    parts.push(text);
    assert(texts(parts@) =~= before.push(text@));
}

/// Adds the commands that update, test and accept a cell to the parts.
fn add_update_test_accept(parts: &mut Vec<String>, path: &str, cell_id: &str)
    ensures
        texts(final(parts)@) == texts(old(parts)@) + update_test_accept(path@, cell_id@),
{
    let ghost before = texts(parts@);
    add_owned(parts, write_update_existing(path, cell_id));
    add_owned(parts, write_test_command(path, cell_id));
    add_owned(parts, write_accept_command(path, cell_id));
    assert(texts(parts@) =~= before + update_test_accept(path@, cell_id@));
}

// ---------------------------------------------------------------------------
// Existing metadata
// ---------------------------------------------------------------------------

/// The fixtures as members of an object, in their order.
pub open spec fn ordered_fixtures(entries: Seq<(Seq<char>, FixtureModel)>) -> Seq<
    (Seq<char>, JsonModel),
> {
    entries.map_values(|entry: (Seq<char>, FixtureModel)| (entry.0, fixture_json(entry.1)))
}

/// A printed text, or another where the printer fails.
pub open spec fn printed_or(text: Option<Seq<char>>, other: Seq<char>) -> Seq<char> {
    match text {
        Some(t) => t,
        None => other,
    }
}

/// What is said of the fixtures of a cell.
pub open spec fn existing_fixtures_text(data: DataModel) -> Seq<char> {
    match data.fixtures {
        Some(entries) => if entries.len() == 0 {
            "None\n\n"@
        } else {
            "```json\n"@ + printed_or(ordered_text(ordered_fixtures(entries)), "{}"@)
                + "\n```\n\n"@
        },
        None => "None\n\n"@,
    }
}

/// What is said of the diff of a cell.
pub open spec fn existing_diff_text(data: DataModel) -> Seq<char> {
    match data.diff {
        Some(diff) => "```diff\n"@ + diff + "\n```\n\n"@,
        None => "None\n\n"@,
    }
}

/// What is said of the test of a cell.
pub open spec fn existing_test_text(data: DataModel) -> Seq<char> {
    match data.test {
        Some(test) => "Name: "@ + test.name + "\n```python\n"@ + test.source + "\n```\n\n"@,
        None => "None\n\n"@,
    }
}

/// What is said of the metadata of a cell.
pub open spec fn existing_metadata(data: DataModel) -> Seq<Seq<char>> {
    seq![
        "## Existing fixtures\n\n"@,
        existing_fixtures_text(data),
        "## Existing diff\n\n"@,
        existing_diff_text(data),
        "## Existing test\n\n"@,
        existing_test_text(data),
    ]
}

/// The fixtures as members of an object, in their order.
fn write_ordered_fixtures(map: &FixtureMap) -> (members: JsonMap)
    ensures
        members@ == ordered_fixtures(fixture_entries(*map)),
{
    let ghost entries = fixture_entries(*map);
    let count: usize = fixture_count(map);
    let mut list: Vec<(String, Json)> = Vec::new();
    let mut i: usize = 0;
    while i < count
        invariant
            i <= count,
            count == entries.len(),
            entries == fixture_entries(*map),
            list.len() == i,
            forall|k: int|
                0 <= k < i ==> (#[trigger] list@[k]).0@ == entries[k].0 && list@[k].1@
                    == fixture_json(entries[k].1),
        decreases count - i,
    {
        if let Some((name, fixture)) = fixture_at(map, i) {
            list.push((name.clone(), write_fixture(fixture)));
        }
        i += 1;
    }
    assert(members_model(list@) =~= ordered_fixtures(entries));
    JsonMap { entries: list }
}

/// Adds what is said of the metadata of a cell to the parts.
fn add_existing_metadata(parts: &mut Vec<String>, data: &NotaBeneData)
    ensures
        texts(final(parts)@) == texts(old(parts)@) + existing_metadata(data@),
{
    let ghost before = texts(parts@);
    add_text(parts, "## Existing fixtures\n\n");
    match &data.fixtures {
        Some(map) => {
            if fixture_count(map) == 0 {
                add_text(parts, "None\n\n");
            } else {
                let mut text: String = "```json\n".to_owned();
                match print_members(&write_ordered_fixtures(map)) {
                    Some(json) => text.append(json.as_str()),
                    None => text.append("{}"),
                }
                text.append("\n```\n\n");
                add_owned(parts, text);
            }
        },
        None => add_text(parts, "None\n\n"),
    }
    add_text(parts, "## Existing diff\n\n");
    match &data.diff {
        Some(diff) => {
            let mut text: String = "```diff\n".to_owned();
            text.append(diff.as_str());
            text.append("\n```\n\n");
            add_owned(parts, text);
        },
        None => add_text(parts, "None\n\n"),
    }
    add_text(parts, "## Existing test\n\n");
    match &data.test {
        Some(test) => {
            let mut text: String = "Name: ".to_owned();
            text.append(test.name.as_str());
            text.append("\n```python\n");
            text.append(test.source.as_str());
            text.append("\n```\n\n");
            add_owned(parts, text);
        },
        None => add_text(parts, "None\n\n"),
    }
    assert(texts(parts@) =~= before + existing_metadata(data@));
}

// ---------------------------------------------------------------------------
// What to do about each kind of diagnostic
// ---------------------------------------------------------------------------

/// Whether there are fixtures.
pub open spec fn has_some_fixtures(data: Option<DataModel>) -> bool {
    data is Some && data->0.fixtures is Some && data->0.fixtures->0.len() > 0
}

/// Whether there is a diff.
pub open spec fn has_some_diff(data: Option<DataModel>) -> bool {
    data is Some && data->0.diff is Some
}

/// Whether there is a test.
pub open spec fn has_some_test(data: Option<DataModel>) -> bool {
    data is Some && data->0.test is Some
}

/// Some texts, or none.
pub open spec fn texts_if(condition: bool, list: Seq<Seq<char>>) -> Seq<Seq<char>> {
    if condition {
        list
    } else {
        Seq::empty()
    }
}

/// What to do about a cell with a test that was never accepted.
pub open spec fn never_accepted_section(
    path: Seq<char>,
    cell_id: Seq<char>,
    test_result: Seq<char>,
) -> Seq<Seq<char>> {
    seq!["## Not yet accepted\n\n"@, NEVER_ACCEPTED@] + if says_passed(test_result) {
        seq![ACCEPT_NOW@, accept_command(path, cell_id)]
    } else {
        seq![FIX_AND_ACCEPT@] + update_test_accept(path, cell_id)
    }
}

/// What a cell lacks.
pub open spec fn lacking_section(data: Option<DataModel>) -> Seq<Seq<char>> {
    if data is Some {
        seq!["## Incomplete metadata\n\n"@, SOME_METADATA@] + texts_if(
            !has_some_fixtures(data),
            seq![LACKS_FIXTURES@],
        ) + texts_if(!has_some_diff(data), seq![LACKS_DIFF@]) + texts_if(
            !has_some_test(data),
            seq![LACKS_TEST@],
        ) + seq!["\n"@]
    } else {
        seq!["## Missing metadata\n\n"@, NO_METADATA@]
    }
}

/// How to create what a cell lacks, in short.
pub open spec fn creating_brief(path: Seq<char>, cell_id: Seq<char>) -> Seq<Seq<char>> {
    seq![
        CREATE_BRIEF@,
        update_template(path, cell_id),
        "\nThen run the test to confirm it passes:\n\n"@,
        test_command(path, cell_id),
        "Once passing, accept:\n\n"@,
        accept_command(path, cell_id),
        MISSING_HELP@,
    ]
}

/// How to create what a cell lacks.
pub open spec fn creating_detailed(
    data: Option<DataModel>,
    path: Seq<char>,
    cell_id: Seq<char>,
) -> Seq<Seq<char>> {
    seq![ABOUT_METADATA@] + texts_if(
        !has_some_fixtures(data),
        seq!["### Fixtures\n\n"@, ABOUT_FIXTURES@],
    ) + texts_if(!has_some_diff(data), seq!["### Diff\n\n"@, ABOUT_DIFF@]) + texts_if(
        !has_some_test(data),
        seq!["### Test\n\n"@, ABOUT_TEST@],
    ) + seq![
        "### Commands\n\n"@,
        update_template(path, cell_id),
        OMIT_FIELDS@,
        test_command(path, cell_id),
        "Once the test passes, accept the cell:\n\n"@,
        accept_command(path, cell_id),
    ]
}

/// What to do about missing metadata.
pub open spec fn missing_section(
    brief: bool,
    path: Seq<char>,
    cell_id: Seq<char>,
    data: Option<DataModel>,
    test_result: Seq<char>,
) -> Seq<Seq<char>> {
    if has_some_test(data) {
        never_accepted_section(path, cell_id, test_result)
    } else {
        lacking_section(data) + if brief {
            creating_brief(path, cell_id)
        } else {
            creating_detailed(data, path, cell_id)
        }
    }
}

/// What to do about a cell that needs review.
pub open spec fn review_section(
    brief: bool,
    path: Seq<char>,
    cell_id: Seq<char>,
    test_result: Seq<char>,
) -> Seq<Seq<char>> {
    let all = update_test_accept(path, cell_id);
    let accept = accept_command(path, cell_id);
    if brief {
        seq!["## Needs review\n\n"@] + (if says_passed(test_result) {
            seq![REVIEW_PASSING_BRIEF@, test_command(path, cell_id), accept]
        } else {
            seq![REVIEW_FAILING_BRIEF@] + all
        }) + seq![REVIEW_HELP@]
    } else {
        seq!["## Needs review — instructions\n\n"@, ABOUT_REVIEW@] + if says_passed(test_result) {
            seq![REVIEW_PASSING@, accept, REVIEW_UPDATE@] + all
        } else {
            seq![REVIEW_FAILING@] + all
        }
    }
}

/// The changed ancestors, one on each line.
pub open spec fn ancestor_lines(messages: Seq<Seq<char>>) -> Seq<Seq<char>> {
    messages.map_values(|message: Seq<char>| "- "@ + message + "\n"@)
}

/// What to do about changed ancestors.
pub open spec fn ancestor_section(
    brief: bool,
    path: Seq<char>,
    cell_id: Seq<char>,
    test_result: Seq<char>,
    messages: Seq<Seq<char>>,
) -> Seq<Seq<char>> {
    let all = update_test_accept(path, cell_id);
    let accept = accept_command(path, cell_id);
    seq!["## Ancestor modified\n\n"@, "Changed ancestors:\n"@] + ancestor_lines(messages) + seq![
        "\n"@,
    ] + if brief {
        (if says_passed(test_result) {
            seq![ANCESTOR_PASSING_BRIEF@, test_command(path, cell_id), accept]
        } else {
            seq![ANCESTOR_FAILING_BRIEF@] + all
        }) + seq![ANCESTOR_HELP@]
    } else {
        seq![ABOUT_ANCESTORS@] + if says_passed(test_result) {
            seq![ANCESTOR_PASSING@, accept, ANCESTOR_UPDATE@] + all
        } else {
            seq![ANCESTOR_FAILING@] + all
        }
    }
}

/// What to do about a diff that does not apply.
pub open spec fn conflict_section(
    brief: bool,
    path: Seq<char>,
    cell_id: Seq<char>,
    diff: Seq<char>,
) -> Seq<Seq<char>> {
    seq![
        "## Diff conflict\n\n"@,
        "Stored diff (broken):\n```diff\n"@ + diff + "\n```\n\n"@,
        if brief {
            CONFLICT_BRIEF@
        } else {
            ABOUT_CONFLICT@
        },
        update_diff(path, cell_id),
        "Then run the test to confirm it passes:\n\n"@,
        test_command(path, cell_id),
        "Once passing, accept:\n\n"@,
        accept_command(path, cell_id),
    ] + texts_if(brief, seq![CONFLICT_HELP@])
}

/// What to do about invalid fields.
pub open spec fn field_section(
    brief: bool,
    path: Seq<char>,
    cell_id: Seq<char>,
    raw: Seq<char>,
) -> Seq<Seq<char>> {
    seq![
        "## Invalid field\n\n"@,
        "Current metadata (raw):\n```json\n"@ + raw + "\n```\n\n"@,
        if brief {
            "Fix the invalid fields.\n\n"@
        } else {
            ABOUT_FIELDS@
        },
        update_existing(path, cell_id),
        "Then run the test to confirm it passes:\n\n"@,
        test_command(path, cell_id),
        "Once passing, accept:\n\n"@,
        accept_command(path, cell_id),
    ] + texts_if(brief, seq![FIELD_HELP@])
}

/// The messages about changed ancestors.
pub open spec fn ancestor_messages(diagnostics: Seq<DiagnosticModel>) -> Seq<Seq<char>>
    decreases diagnostics.len(),
{
    if diagnostics.len() == 0 {
        Seq::empty()
    } else {
        let front = ancestor_messages(diagnostics.drop_last());
        if diagnostics.last().kind == DiagnosticType::AncestorModified {
            front.push(diagnostics.last().message)
        } else {
            front
        }
    }
}

/// A member, if there is a value for it.
pub open spec fn member_if(key: Seq<char>, value: Option<JsonModel>) -> Seq<
    (Seq<char>, JsonModel),
> {
    match value {
        Some(json) => seq![(key, json)],
        None => Seq::empty(),
    }
}

/// The metadata of a cell as members of an object.
pub open spec fn data_members(data: DataModel) -> Seq<(Seq<char>, JsonModel)> {
    member_if(
        "fixtures"@,
        crate::metadata::optional_fixtures_json(data.fixtures),
    ) + member_if("diff"@, crate::metadata::optional_text_json(data.diff)) + member_if(
        "test"@,
        crate::metadata::optional_test_json(data.test),
    ) + member_if(
        "shas"@,
        match data.shas {
            Some(shas) => Some(shas_json(shas)),
            None => None,
        },
    ) + data.extra
}

/// The metadata of a cell as text; empty without any.
pub open spec fn raw_metadata(data: Option<DataModel>) -> Seq<char> {
    match data {
        Some(d) => printed_or(ordered_text(data_members(d)), Seq::empty()),
        None => Seq::empty(),
    }
}

/// What to do about one kind of diagnostic.
pub open spec fn kind_section(
    kind: DiagnosticType,
    brief: bool,
    path: Seq<char>,
    cell_id: Seq<char>,
    data: Option<DataModel>,
    test_result: Seq<char>,
    diagnostics: Seq<DiagnosticModel>,
) -> Seq<Seq<char>> {
    match kind {
        DiagnosticType::Missing => missing_section(brief, path, cell_id, data, test_result),
        DiagnosticType::NeedsReview => review_section(brief, path, cell_id, test_result),
        DiagnosticType::AncestorModified => ancestor_section(
            brief,
            path,
            cell_id,
            test_result,
            ancestor_messages(diagnostics),
        ),
        DiagnosticType::DiffConflict => conflict_section(
            brief,
            path,
            cell_id,
            if has_some_diff(data) {
                data->0.diff->0
            } else {
                "(no diff stored)"@
            },
        ),
        DiagnosticType::InvalidField => field_section(brief, path, cell_id, raw_metadata(data)),
    }
}

/// Whether there are fixtures.
fn fixtures_given(data: &Option<NotaBeneData>) -> (given: bool)
    ensures
        given == has_some_fixtures(data_view(*data)),
{
    match data {
        Some(d) => match &d.fixtures {
            Some(map) => fixture_count(map) > 0,
            None => false,
        },
        None => false,
    }
}

/// Whether there is a diff.
fn diff_given(data: &Option<NotaBeneData>) -> (given: bool)
    ensures
        given == has_some_diff(data_view(*data)),
{
    match data {
        Some(d) => d.diff.is_some(),
        None => false,
    }
}

/// Whether there is a test.
fn test_given(data: &Option<NotaBeneData>) -> (given: bool)
    ensures
        given == has_some_test(data_view(*data)),
{
    match data {
        Some(d) => d.test.is_some(),
        None => false,
    }
}

/// Adds what to do about a cell with a test that was never accepted to the
/// parts.
fn add_never_accepted(parts: &mut Vec<String>, path: &str, cell_id: &str, test_result: &str)
    ensures
        texts(final(parts)@) == texts(old(parts)@) + never_accepted_section(
            path@,
            cell_id@,
            test_result@,
        ),
{
    let ghost before = texts(parts@);
    add_text(parts, "## Not yet accepted\n\n");
    add_text(parts, NEVER_ACCEPTED);
    if reads_as_passed(test_result) {
        add_text(parts, ACCEPT_NOW);
        add_owned(parts, write_accept_command(path, cell_id));
    } else {
        add_text(parts, FIX_AND_ACCEPT);
        add_update_test_accept(parts, path, cell_id);
    }
    assert(texts(parts@) =~= before + never_accepted_section(path@, cell_id@, test_result@));
}

/// Adds what a cell lacks to the parts.
fn add_lacking(parts: &mut Vec<String>, data: &Option<NotaBeneData>)
    ensures
        texts(final(parts)@) == texts(old(parts)@) + lacking_section(data_view(*data)),
{
    let ghost before = texts(parts@);
    if data.is_some() {
        add_text(parts, "## Incomplete metadata\n\n");
        add_text(parts, SOME_METADATA);
        if !fixtures_given(data) {
            add_text(parts, LACKS_FIXTURES);
        }
        if !diff_given(data) {
            add_text(parts, LACKS_DIFF);
        }
        if !test_given(data) {
            add_text(parts, LACKS_TEST);
        }
        add_text(parts, "\n");
    } else {
        add_text(parts, "## Missing metadata\n\n");
        add_text(parts, NO_METADATA);
    }
    assert(texts(parts@) =~= before + lacking_section(data_view(*data)));
}

/// Adds how to create what a cell lacks, in short, to the parts.
fn add_creating_brief(parts: &mut Vec<String>, path: &str, cell_id: &str)
    ensures
        texts(final(parts)@) == texts(old(parts)@) + creating_brief(path@, cell_id@),
{
    let ghost before = texts(parts@);
    add_text(parts, CREATE_BRIEF);
    add_owned(parts, write_update_template(path, cell_id));
    add_text(parts, "\nThen run the test to confirm it passes:\n\n");
    add_owned(parts, write_test_command(path, cell_id));
    add_text(parts, "Once passing, accept:\n\n");
    add_owned(parts, write_accept_command(path, cell_id));
    add_text(parts, MISSING_HELP);
    assert(texts(parts@) =~= before + creating_brief(path@, cell_id@));
}

/// Adds how to create what a cell lacks to the parts.
fn add_creating_detailed(
    parts: &mut Vec<String>,
    data: &Option<NotaBeneData>,
    path: &str,
    cell_id: &str,
)
    ensures
        texts(final(parts)@) == texts(old(parts)@) + creating_detailed(
            data_view(*data),
            path@,
            cell_id@,
        ),
{
    let ghost before = texts(parts@);
    add_text(parts, ABOUT_METADATA);
    if !fixtures_given(data) {
        add_text(parts, "### Fixtures\n\n");
        add_text(parts, ABOUT_FIXTURES);
    }
    if !diff_given(data) {
        add_text(parts, "### Diff\n\n");
        add_text(parts, ABOUT_DIFF);
    }
    if !test_given(data) {
        add_text(parts, "### Test\n\n");
        add_text(parts, ABOUT_TEST);
    }
    let ghost middle = texts(parts@);
    assert(middle =~= before + (seq![ABOUT_METADATA@] + texts_if(
        !has_some_fixtures(data_view(*data)),
        seq!["### Fixtures\n\n"@, ABOUT_FIXTURES@],
    ) + texts_if(
        !has_some_diff(data_view(*data)),
        seq!["### Diff\n\n"@, ABOUT_DIFF@],
    ) + texts_if(!has_some_test(data_view(*data)), seq!["### Test\n\n"@, ABOUT_TEST@])));
    add_text(parts, "### Commands\n\n");
    add_owned(parts, write_update_template(path, cell_id));
    add_text(parts, OMIT_FIELDS);
    add_owned(parts, write_test_command(path, cell_id));
    add_text(parts, "Once the test passes, accept the cell:\n\n");
    add_owned(parts, write_accept_command(path, cell_id));
    assert(texts(parts@) =~= middle + seq![
        "### Commands\n\n"@,
        update_template(path@, cell_id@),
        OMIT_FIELDS@,
        test_command(path@, cell_id@),
        "Once the test passes, accept the cell:\n\n"@,
        accept_command(path@, cell_id@),
    ]);
    assert(texts(parts@) =~= before + creating_detailed(data_view(*data), path@, cell_id@));
}

/// Adds what to do about missing metadata to the parts.
fn add_missing(
    parts: &mut Vec<String>,
    brief: bool,
    path: &str,
    cell_id: &str,
    data: &Option<NotaBeneData>,
    test_result: &str,
)
    ensures
        texts(final(parts)@) == texts(old(parts)@) + missing_section(
            brief,
            path@,
            cell_id@,
            data_view(*data),
            test_result@,
        ),
{
    let ghost before = texts(parts@);
    if test_given(data) {
        add_never_accepted(parts, path, cell_id, test_result);
    } else {
        add_lacking(parts, data);
        if brief {
            add_creating_brief(parts, path, cell_id);
        } else {
            add_creating_detailed(parts, data, path, cell_id);
        }
        assert(texts(parts@) =~= before + missing_section(
            brief,
            path@,
            cell_id@,
            data_view(*data),
            test_result@,
        ));
    }
}

/// Adds what to do about a cell that needs review to the parts.
fn add_review(parts: &mut Vec<String>, brief: bool, path: &str, cell_id: &str, test_result: &str)
    ensures
        texts(final(parts)@) == texts(old(parts)@) + review_section(
            brief,
            path@,
            cell_id@,
            test_result@,
        ),
{
    let ghost before = texts(parts@);
    let passed: bool = reads_as_passed(test_result);
    if brief {
        add_text(parts, "## Needs review\n\n");
        if passed {
            add_text(parts, REVIEW_PASSING_BRIEF);
            add_owned(parts, write_test_command(path, cell_id));
            add_owned(parts, write_accept_command(path, cell_id));
        } else {
            add_text(parts, REVIEW_FAILING_BRIEF);
            add_update_test_accept(parts, path, cell_id);
        }
        add_text(parts, REVIEW_HELP);
    } else {
        add_text(parts, "## Needs review — instructions\n\n");
        add_text(parts, ABOUT_REVIEW);
        if passed {
            add_text(parts, REVIEW_PASSING);
            add_owned(parts, write_accept_command(path, cell_id));
            add_text(parts, REVIEW_UPDATE);
            add_update_test_accept(parts, path, cell_id);
        } else {
            add_text(parts, REVIEW_FAILING);
            add_update_test_accept(parts, path, cell_id);
        }
    }
    assert(texts(parts@) =~= before + review_section(brief, path@, cell_id@, test_result@));
}

/// Adds the changed ancestors to the parts, one on each line.
fn add_ancestors(parts: &mut Vec<String>, diagnostics: &Vec<Diagnostic>)
    ensures
        texts(final(parts)@) == texts(old(parts)@) + ancestor_lines(
            ancestor_messages(diagnostic_models(diagnostics@)),
        ),
{
    let ghost before = texts(parts@);
    let ghost all = diagnostic_models(diagnostics@);
    let mut i: usize = 0;
    assert(all.take(0) =~= Seq::<DiagnosticModel>::empty());
    assert(texts(parts@) =~= before + ancestor_lines(ancestor_messages(all.take(0))));
    while i < diagnostics.len()
        invariant
            i <= diagnostics.len(),
            all == diagnostic_models(diagnostics@),
            texts(parts@) == before + ancestor_lines(ancestor_messages(all.take(i as int))),
        decreases diagnostics.len() - i,
    {
        let diagnostic: &Diagnostic = &diagnostics[i];
        assert(all.take(i + 1).drop_last() =~= all.take(i as int));
        assert(all.take(i + 1).last() == diagnostic@);
        if diagnostic.kind == DiagnosticType::AncestorModified {
            let mut line: String = "- ".to_owned();
            line.append(diagnostic.message.as_str());
            line.append("\n");
            add_owned(parts, line);
            assert(texts(parts@) =~= before + ancestor_lines(ancestor_messages(all.take(i + 1))));
        }
        i += 1;
    }
    assert(all.take(i as int) =~= all);
}

/// Adds what to do about changed ancestors to the parts.
fn add_ancestor_section(
    parts: &mut Vec<String>,
    brief: bool,
    path: &str,
    cell_id: &str,
    test_result: &str,
    diagnostics: &Vec<Diagnostic>,
)
    ensures
        texts(final(parts)@) == texts(old(parts)@) + ancestor_section(
            brief,
            path@,
            cell_id@,
            test_result@,
            ancestor_messages(diagnostic_models(diagnostics@)),
        ),
{
    let ghost before = texts(parts@);
    let passed: bool = reads_as_passed(test_result);
    add_text(parts, "## Ancestor modified\n\n");
    add_text(parts, "Changed ancestors:\n");
    add_ancestors(parts, diagnostics);
    add_text(parts, "\n");
    if brief {
        if passed {
            add_text(parts, ANCESTOR_PASSING_BRIEF);
            add_owned(parts, write_test_command(path, cell_id));
            add_owned(parts, write_accept_command(path, cell_id));
        } else {
            add_text(parts, ANCESTOR_FAILING_BRIEF);
            add_update_test_accept(parts, path, cell_id);
        }
        add_text(parts, ANCESTOR_HELP);
    } else {
        add_text(parts, ABOUT_ANCESTORS);
        if passed {
            add_text(parts, ANCESTOR_PASSING);
            add_owned(parts, write_accept_command(path, cell_id));
            add_text(parts, ANCESTOR_UPDATE);
            add_update_test_accept(parts, path, cell_id);
        } else {
            add_text(parts, ANCESTOR_FAILING);
            add_update_test_accept(parts, path, cell_id);
        }
    }
    assert(texts(parts@) =~= before + ancestor_section(
        brief,
        path@,
        cell_id@,
        test_result@,
        ancestor_messages(diagnostic_models(diagnostics@)),
    ));
}

/// Adds what to do about a diff that does not apply to the parts.
fn add_conflict(parts: &mut Vec<String>, brief: bool, path: &str, cell_id: &str, diff: &str)
    ensures
        texts(final(parts)@) == texts(old(parts)@) + conflict_section(
            brief,
            path@,
            cell_id@,
            diff@,
        ),
{
    let ghost before = texts(parts@);
    add_text(parts, "## Diff conflict\n\n");
    let mut stored: String = "Stored diff (broken):\n```diff\n".to_owned();
    stored.append(diff);
    stored.append("\n```\n\n");
    add_owned(parts, stored);
    if brief {
        add_text(parts, CONFLICT_BRIEF);
    } else {
        add_text(parts, ABOUT_CONFLICT);
    }
    add_owned(parts, write_update_diff(path, cell_id));
    add_text(parts, "Then run the test to confirm it passes:\n\n");
    add_owned(parts, write_test_command(path, cell_id));
    add_text(parts, "Once passing, accept:\n\n");
    add_owned(parts, write_accept_command(path, cell_id));
    if brief {
        add_text(parts, CONFLICT_HELP);
    }
    assert(texts(parts@) =~= before + conflict_section(brief, path@, cell_id@, diff@));
}

/// Adds what to do about invalid fields to the parts.
fn add_field(parts: &mut Vec<String>, brief: bool, path: &str, cell_id: &str, raw: &str)
    ensures
        texts(final(parts)@) == texts(old(parts)@) + field_section(brief, path@, cell_id@, raw@),
{
    let ghost before = texts(parts@);
    add_text(parts, "## Invalid field\n\n");
    let mut current: String = "Current metadata (raw):\n```json\n".to_owned();
    current.append(raw);
    current.append("\n```\n\n");
    add_owned(parts, current);
    if brief {
        add_text(parts, "Fix the invalid fields.\n\n");
    } else {
        add_text(parts, ABOUT_FIELDS);
    }
    add_owned(parts, write_update_existing(path, cell_id));
    add_text(parts, "Then run the test to confirm it passes:\n\n");
    add_owned(parts, write_test_command(path, cell_id));
    add_text(parts, "Once passing, accept:\n\n");
    add_owned(parts, write_accept_command(path, cell_id));
    if brief {
        add_text(parts, FIELD_HELP);
    }
    assert(texts(parts@) =~= before + field_section(brief, path@, cell_id@, raw@));
}

/// The metadata of a cell as text.
fn write_raw_metadata(data: &Option<NotaBeneData>) -> (text: String)
    ensures
        text@ == raw_metadata(data_view(*data)),
{
    match data {
        Some(d) => {
            let mut entries: Vec<(String, Json)> = Vec::new();
            if let Some(map) = &d.fixtures {
                entries.push(("fixtures".to_owned(), write_fixtures(map)));
            }
            if let Some(diff) = &d.diff {
                entries.push(("diff".to_owned(), Json::Text(diff.clone())));
            }
            if let Some(test) = &d.test {
                entries.push(("test".to_owned(), write_test(test)));
            }
            if let Some(shas) = &d.shas {
                entries.push(("shas".to_owned(), write_shas(shas)));
            }
            let ghost first = members_model(entries@);
            let mut extra: JsonMap = d.extra.clone();
            let ghost rest = extra@;
            entries.append(&mut extra.entries);
            assert(members_model(entries@) =~= first + rest);
            let members = JsonMap { entries };
            assert(members@ =~= data_members(d@));
            match print_members(&members) {
                Some(text) => text,
                None => String::new(),
            }
        },
        None => String::new(),
    }
}

/// Adds what to do about one kind of diagnostic to the parts.
fn add_kind(
    parts: &mut Vec<String>,
    kind: DiagnosticType,
    brief: bool,
    path: &str,
    cell_id: &str,
    data: &Option<NotaBeneData>,
    test_result: &str,
    diagnostics: &Vec<Diagnostic>,
)
    ensures
        texts(final(parts)@) == texts(old(parts)@) + kind_section(
            kind,
            brief,
            path@,
            cell_id@,
            data_view(*data),
            test_result@,
            diagnostic_models(diagnostics@),
        ),
{
    match kind {
        DiagnosticType::Missing => add_missing(parts, brief, path, cell_id, data, test_result),
        DiagnosticType::NeedsReview => add_review(parts, brief, path, cell_id, test_result),
        DiagnosticType::AncestorModified => add_ancestor_section(
            parts,
            brief,
            path,
            cell_id,
            test_result,
            diagnostics,
        ),
        DiagnosticType::DiffConflict => {
            let diff: String = match data {
                Some(d) => match &d.diff {
                    Some(diff) => diff.clone(),
                    None => "(no diff stored)".to_owned(),
                },
                None => "(no diff stored)".to_owned(),
            };
            add_conflict(parts, brief, path, cell_id, diff.as_str())
        },
        DiagnosticType::InvalidField => {
            let raw: String = write_raw_metadata(data);
            add_field(parts, brief, path, cell_id, raw.as_str())
        },
    }
}

// ---------------------------------------------------------------------------
// The whole report
// ---------------------------------------------------------------------------

/// The kinds among diagnostics, each once, in the order in which they first
/// occur.
pub open spec fn kinds_among(diagnostics: Seq<DiagnosticModel>) -> Seq<DiagnosticType>
    decreases diagnostics.len(),
{
    if diagnostics.len() == 0 {
        Seq::empty()
    } else {
        let front = kinds_among(diagnostics.drop_last());
        if front.contains(diagnostics.last().kind) {
            front
        } else {
            front.push(diagnostics.last().kind)
        }
    }
}

/// The names of kinds.
pub open spec fn kind_names(kinds: Seq<DiagnosticType>) -> Seq<Seq<char>> {
    kinds.map_values(|kind: DiagnosticType| kind_name(kind))
}

/// What a list of wishes about details holds: names of kinds and how detailed
/// they are to be.
pub open spec fn detail_models(details: Seq<(String, String)>) -> Seq<(Seq<char>, Seq<char>)> {
    details.map_values(|detail: (String, String)| (detail.0@, detail.1@))
}

/// Whether a kind is to be brief.
pub open spec fn wants_brief(details: Seq<(Seq<char>, Seq<char>)>, name: Seq<char>) -> bool
    decreases details.len(),
{
    if details.len() == 0 {
        false
    } else if details[0].0 == name {
        details[0].1 == "brief"@
    } else {
        wants_brief(details.drop_first(), name)
    }
}

/// Whether anything is to be brief.
pub open spec fn wants_any_brief(details: Seq<(Seq<char>, Seq<char>)>) -> bool {
    exists|i: int| 0 <= i < details.len() && (#[trigger] details[i]).1 == "brief"@
}

/// What to do about several kinds of diagnostics.
pub open spec fn kind_sections(
    kinds: Seq<DiagnosticType>,
    details: Seq<(Seq<char>, Seq<char>)>,
    path: Seq<char>,
    cell_id: Seq<char>,
    data: Option<DataModel>,
    test_result: Seq<char>,
    diagnostics: Seq<DiagnosticModel>,
) -> Seq<Seq<char>>
    decreases kinds.len(),
{
    if kinds.len() == 0 {
        Seq::empty()
    } else {
        kind_sections(
            kinds.drop_last(),
            details,
            path,
            cell_id,
            data,
            test_result,
            diagnostics,
        ) + kind_section(
            kinds.last(),
            wants_brief(details, kind_name(kinds.last())),
            path,
            cell_id,
            data,
            test_result,
            diagnostics,
        )
    }
}

/// What is said about the cell itself: what is wrong with it, the rule about
/// testing and accepting, and its source.
pub open spec fn report_start(
    index: nat,
    path: Seq<char>,
    cell_id: Seq<char>,
    source: Seq<char>,
    names: Seq<Seq<char>>,
) -> Seq<Seq<char>> {
    seq![
        "Cell `"@ + cell_id + "` at index "@ + decimal(index) + " in `"@ + path
            + "` has diagnostics: "@ + joined(names, ", "@) + "\n\n"@,
        WORKFLOW_TEST@,
        "> nota-bene test "@ + path + " --filter cell:"@ + cell_id + "\n"@,
        "> ```\n"@,
        WORKFLOW_ACCEPT@,
        "> nota-bene accept "@ + path + " --filter cell:"@ + cell_id + "\n"@,
        "> ```\n\n"@,
        "## Cell source\n\n```python\n"@,
        source,
    ] + texts_if(!(source.len() > 0 && source.last() == '\n'), seq!["\n"@]) + seq!["```\n\n"@]
}

/// How to ask for less.
pub open spec fn brief_hint(names: Seq<Seq<char>>) -> Seq<char> {
    "\nOn subsequent calls, you may pass `detail_level` with `\"brief\"` for diagnostic types you've already seen, to reduce context. For example: `detail_level: {\""@
        + (if names.len() > 0 {
        names[0]
    } else {
        "missing"@
    }) + "\": \"brief\"}`\n"@
}

/// The report on a cell to be repaired.
pub open spec fn repair_report(
    nb: NotebookModel,
    index: int,
    path: Seq<char>,
    details: Seq<(Seq<char>, Seq<char>)>,
    test_result: Seq<char>,
) -> Seq<char> {
    let cell = nb.cells[index];
    let data = cell.data();
    let diagnostics = cell_diagnostics(nb, index);
    let kinds = kinds_among(diagnostics);
    let names = kind_names(kinds);
    concatenated(
        report_start(index as nat, path, cell.id, cell.text(), names) + texts_if(
            data is Some,
            existing_metadata(data->0),
        ) + texts_if(
            has_some_test(data),
            seq!["## Test result\n\n"@, test_result, "\n\n"@],
        ) + kind_sections(kinds, details, path, cell.id, data, test_result, diagnostics) + seq![
            NEXT_CELL@,
        ] + texts_if(!wants_any_brief(details), seq![brief_hint(names)]) + seq![FILTER_HELP@],
    )
}

/// Finds the kinds among diagnostics.
fn find_kinds(diagnostics: &Vec<Diagnostic>) -> (kinds: Vec<DiagnosticType>)
    ensures
        kinds@ == kinds_among(diagnostic_models(diagnostics@)),
{
    let ghost all = diagnostic_models(diagnostics@);
    let mut kinds: Vec<DiagnosticType> = Vec::new();
    let mut i: usize = 0;
    assert(all.take(0) =~= Seq::<DiagnosticModel>::empty());
    while i < diagnostics.len()
        invariant
            i <= diagnostics.len(),
            all == diagnostic_models(diagnostics@),
            kinds@ == kinds_among(all.take(i as int)),
        decreases diagnostics.len() - i,
    {
        let kind: DiagnosticType = diagnostics[i].kind;
        assert(all.take(i + 1).drop_last() =~= all.take(i as int));
        assert(all.take(i + 1).last() == diagnostics@[i as int]@);
        let mut known: bool = false;
        let mut k: usize = 0;
        while k < kinds.len()
            invariant
                k <= kinds.len(),
                known == exists|j: int| 0 <= j < k && #[trigger] kinds@[j] == kind,
            decreases kinds.len() - k,
        {
            if kinds[k] == kind {
                known = true;
            }
            k += 1;
        }
        assert(known == kinds@.contains(kind));
        if !known {
            kinds.push(kind);
        }
        i += 1;
    }
    assert(all.take(i as int) =~= all);
    kinds
}

/// The names of kinds.
fn name_kinds(kinds: &Vec<DiagnosticType>) -> (names: Vec<String>)
    ensures
        texts(names@) == kind_names(kinds@),
{
    let mut names: Vec<String> = Vec::new();
    let mut i: usize = 0;
    while i < kinds.len()
        invariant
            i <= kinds.len(),
            names.len() == i,
            forall|k: int| 0 <= k < i ==> (#[trigger] names@[k])@ == kind_name(kinds@[k]),
        decreases kinds.len() - i,
    {
        names.push(kinds[i].to_string());
        i += 1;
    }
    assert(texts(names@) =~= kind_names(kinds@));
    names
}

/// Whether a kind is to be brief.
fn is_brief(details: &Vec<(String, String)>, name: &str) -> (brief: bool)
    ensures
        brief == wants_brief(detail_models(details@), name@),
{
    let ghost models = detail_models(details@);
    let mut i: usize = 0;
    assert(models.skip(0) =~= models);
    while i < details.len()
        invariant
            i <= details.len(),
            models == detail_models(details@),
            wants_brief(models, name@) == wants_brief(models.skip(i as int), name@),
        decreases details.len() - i,
    {
        let detail: &(String, String) = &details[i];
        assert(models.skip(i as int)[0] == (detail.0@, detail.1@));
        assert(models.skip(i as int).drop_first() =~= models.skip(i + 1));
        if same_text(detail.0.as_str(), name) {
            return same_text(detail.1.as_str(), "brief");
        }
        i += 1;
    }
    false
}

/// Whether anything is to be brief.
fn is_any_brief(details: &Vec<(String, String)>) -> (brief: bool)
    ensures
        brief == wants_any_brief(detail_models(details@)),
{
    let ghost models = detail_models(details@);
    let mut i: usize = 0;
    while i < details.len()
        invariant
            i <= details.len(),
            models == detail_models(details@),
            forall|k: int| 0 <= k < i ==> (#[trigger] models[k]).1 != "brief"@,
        decreases details.len() - i,
    {
        assert(models[i as int] == (details@[i as int].0@, details@[i as int].1@));
        if same_text(details[i].1.as_str(), "brief") {
            return true;
        }
        i += 1;
    }
    false
}

/// Adds what is said about the cell itself to the parts.
fn add_start(
    parts: &mut Vec<String>,
    index: usize,
    path: &str,
    cell_id: &str,
    source: &str,
    names: &Vec<String>,
)
    ensures
        texts(final(parts)@) == texts(old(parts)@) + report_start(
            index as nat,
            path@,
            cell_id@,
            source@,
            texts(names@),
        ),
{
    let ghost before = texts(parts@);
    let mut header: String = "Cell `".to_owned();
    header.append(cell_id);
    header.append("` at index ");
    header.append(decimal_text(index).as_str());
    header.append(" in `");
    header.append(path);
    header.append("` has diagnostics: ");
    header.append(join(names, ", ").as_str());
    header.append("\n\n");
    add_owned(parts, header);
    add_text(parts, WORKFLOW_TEST);
    add_owned(parts, fill_in("> nota-bene test ", path, " --filter cell:", cell_id, "\n"));
    add_text(parts, "> ```\n");
    add_text(parts, WORKFLOW_ACCEPT);
    add_owned(parts, fill_in("> nota-bene accept ", path, " --filter cell:", cell_id, "\n"));
    add_text(parts, "> ```\n\n");
    add_text(parts, "## Cell source\n\n```python\n");
    add_text(parts, source);
    if !text_ends_with_char(source, '\n') {
        add_text(parts, "\n");
    }
    add_text(parts, "```\n\n");
    assert(texts(parts@) =~= before + report_start(
        index as nat,
        path@,
        cell_id@,
        source@,
        texts(names@),
    ));
}

/// Adds what to do about several kinds of diagnostics to the parts.
fn add_kinds(
    parts: &mut Vec<String>,
    kinds: &Vec<DiagnosticType>,
    details: &Vec<(String, String)>,
    path: &str,
    cell_id: &str,
    data: &Option<NotaBeneData>,
    test_result: &str,
    diagnostics: &Vec<Diagnostic>,
)
    ensures
        texts(final(parts)@) == texts(old(parts)@) + kind_sections(
            kinds@,
            detail_models(details@),
            path@,
            cell_id@,
            data_view(*data),
            test_result@,
            diagnostic_models(diagnostics@),
        ),
{
    let ghost before = texts(parts@);
    let ghost wishes = detail_models(details@);
    let ghost model = data_view(*data);
    let ghost found = diagnostic_models(diagnostics@);
    let mut i: usize = 0;
    assert(texts(parts@) =~= before + kind_sections(
        kinds@.take(0),
        wishes,
        path@,
        cell_id@,
        model,
        test_result@,
        found,
    ));
    while i < kinds.len()
        invariant
            i <= kinds.len(),
            wishes == detail_models(details@),
            model == data_view(*data),
            found == diagnostic_models(diagnostics@),
            texts(parts@) == before + kind_sections(
                kinds@.take(i as int),
                wishes,
                path@,
                cell_id@,
                model,
                test_result@,
                found,
            ),
        decreases kinds.len() - i,
    {
        let kind: DiagnosticType = kinds[i];
        assert(kinds@.take(i + 1).drop_last() =~= kinds@.take(i as int));
        assert(kinds@.take(i + 1).last() == kind);
        let brief: bool = is_brief(details, kind.to_string().as_str());
        add_kind(parts, kind, brief, path, cell_id, data, test_result, diagnostics);
        assert(texts(parts@) =~= before + kind_sections(
            kinds@.take(i + 1),
            wishes,
            path@,
            cell_id@,
            model,
            test_result@,
            found,
        ));
        i += 1;
    }
    assert(kinds@.take(i as int) =~= kinds@);
}

/// The name of the test of a cell, if it has one.
pub fn test_to_run(nb: &Notebook, index: usize) -> (name: Option<String>)
    requires
        index < nb.cells.len(),
    ensures
        text_view(name) == match nb@.cells[index as int].data() {
            Some(data) => match data.test {
                Some(test) => Some(test.name),
                None => None,
            },
            None => None,
        },
{
    assert(nb@.cells[index as int] == nb.cells@[index as int]@);
    match nb.cells[index].nota_bene() {
        Some(data) => match data.test {
            Some(test) => Some(test.name),
            None => None,
        },
        None => None,
    }
}

/// Writes the report on a cell to be repaired. `details` says how detailed it is
/// to be, by the names of the kinds of diagnostics; `test_result` is what is said
/// of the test of the cell.
pub fn write_repair_report(
    nb: &Notebook,
    index: usize,
    notebook_path: &str,
    details: &Vec<(String, String)>,
    test_result: &str,
) -> (report: String)
    requires
        index < nb.cells.len(),
    ensures
        report@ == repair_report(
            nb@,
            index as int,
            notebook_path@,
            detail_models(details@),
            test_result@,
        ),
{
    let cell: &Cell = &nb.cells[index];
    assert(nb@.cells[index as int] == cell@);
    let cell_id: &str = cell.cell_id_str();
    let source: String = cell.source_str();
    let data: Option<NotaBeneData> = cell.nota_bene();
    let status: CellStatus = compute_cell_diagnostics(nb, index);
    let kinds: Vec<DiagnosticType> = find_kinds(&status.diagnostics);
    let names: Vec<String> = name_kinds(&kinds);
    let ghost model = data_view(data);
    let ghost found = diagnostic_models(status.diagnostics@);
    let ghost wishes = detail_models(details@);
    let mut parts: Vec<String> = Vec::new();
    assert(texts(parts@) =~= Seq::<Seq<char>>::empty());
    add_start(&mut parts, index, notebook_path, cell_id, source.as_str(), &names);
    let mut has_test: bool = false;
    if let Some(d) = &data {
        add_existing_metadata(&mut parts, d);
        has_test = d.test.is_some();
    }
    if has_test {
        add_text(&mut parts, "## Test result\n\n");
        add_text(&mut parts, test_result);
        add_text(&mut parts, "\n\n");
    }
    let ghost first = texts(parts@);
    assert(first =~= report_start(
        index as nat,
        notebook_path@,
        cell_id@,
        source@,
        texts(names@),
    ) + texts_if(model is Some, existing_metadata(model->0)) + texts_if(
        has_some_test(model),
        seq!["## Test result\n\n"@, test_result@, "\n\n"@],
    ));
    add_kinds(
        &mut parts,
        &kinds,
        details,
        notebook_path,
        cell_id,
        &data,
        test_result,
        &status.diagnostics,
    );
    let ghost second = texts(parts@);
    add_text(&mut parts, NEXT_CELL);
    if !is_any_brief(details) {
        let mut hint: String =
            "\nOn subsequent calls, you may pass `detail_level` with `\"brief\"` for diagnostic types you've already seen, to reduce context. For example: `detail_level: {\"".to_owned();
        assert(texts(names@).len() == names@.len());
        if names.len() > 0 {
            hint.append(names[0].as_str());
        } else {
            hint.append("missing");
        }
        hint.append("\": \"brief\"}`\n");
        add_owned(&mut parts, hint);
    }
    add_text(&mut parts, FILTER_HELP);
    assert(texts(parts@) =~= second + seq![NEXT_CELL@] + texts_if(
        !wants_any_brief(wishes),
        seq![brief_hint(texts(names@))],
    ) + seq![FILTER_HELP@]);
    concatenate(&parts)
}

} // verus!
