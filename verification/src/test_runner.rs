//! Running the test of a cell: the notebook that runs it, and what its outputs
//! say about the test.
use vstd::prelude::*;

use crate::cells::{
    all_fit, code_template, fit_together, fits, make_new_code_cell, role_fields, role_only,
    CellTemplate,
};
use crate::edit::{apply_stored_diff, source_after_diff};
use crate::fixtures::{by_priority, fixtures_by_priority, named_fixtures, Fixture, FixtureModel};
use crate::json::{
    parse_json, parsed_json, print_string_literal, string_literal, without_member, Json, JsonMap,
    JsonModel,
};
use crate::metadata::{field_of, read_field, write_pair, METADATA_KEY};
use crate::notebook::{
    cell_models, nested_text, output_models, read_nested_text, BodyModel, Cell, CellBody, CellExt,
    CellModel, ErrorModel, ErrorOutput, Metadata, Notebook, NotebookModel, Output, OutputModel,
};
use crate::text::{
    bare_lines, chars_of, find_text, first_occurrence, join, joined, same_text, split_lines,
    text_between, text_is, text_view, texts, trim, trimmed,
};

verus! {

broadcast use {crate::json::array_view, crate::json::object_view};

// ---------------------------------------------------------------------------
// Results
// ---------------------------------------------------------------------------

/// The result of one part of a test.
#[derive(Debug)]
pub struct SubtestResult {
    pub name: String,
    pub passed: bool,
    pub error: Option<String>,
    pub traceback: Option<String>,
}

/// Why a test could not run.
#[derive(Debug)]
pub struct TestError {
    pub phase: String,
    pub source_cell_id: Option<String>,
    pub fixture_name: Option<String>,
    pub detail: String,
    pub traceback: Option<String>,
}

/// The result of the test of a cell.
#[derive(Debug)]
pub enum CellTestResult {
    /// The test ran.
    Completed { cell_id: String, test_name: String, subtests: Vec<SubtestResult> },
    /// The test could not run.
    Error { cell_id: String, test_name: String, error: TestError },
}

/// What the result of a part of a test holds.
pub struct SubtestModel {
    pub name: Seq<char>,
    pub passed: bool,
    pub error: Option<Seq<char>>,
    pub traceback: Option<Seq<char>>,
}

/// What a failure to run holds.
pub struct TestErrorModel {
    pub phase: Seq<char>,
    pub source_cell_id: Option<Seq<char>>,
    pub fixture_name: Option<Seq<char>>,
    pub detail: Seq<char>,
    pub traceback: Option<Seq<char>>,
}

/// What the result of a test holds.
pub enum TestResultModel {
    Completed { cell_id: Seq<char>, test_name: Seq<char>, subtests: Seq<SubtestModel> },
    Error { cell_id: Seq<char>, test_name: Seq<char>, error: TestErrorModel },
}

impl View for SubtestResult {
    type V = SubtestModel;

    open spec fn view(&self) -> SubtestModel {
        SubtestModel {
            name: self.name@,
            passed: self.passed,
            error: text_view(self.error),
            traceback: text_view(self.traceback),
        }
    }
}

impl View for TestError {
    type V = TestErrorModel;

    open spec fn view(&self) -> TestErrorModel {
        TestErrorModel {
            phase: self.phase@,
            source_cell_id: text_view(self.source_cell_id),
            fixture_name: text_view(self.fixture_name),
            detail: self.detail@,
            traceback: text_view(self.traceback),
        }
    }
}

/// What a list of results holds.
pub open spec fn subtest_models(subtests: Seq<SubtestResult>) -> Seq<SubtestModel> {
    subtests.map_values(|subtest: SubtestResult| subtest@)
}

impl View for CellTestResult {
    type V = TestResultModel;

    open spec fn view(&self) -> TestResultModel {
        match self {
            CellTestResult::Completed {
                cell_id,
                test_name,
                subtests,
            } => TestResultModel::Completed {
                cell_id: cell_id@,
                test_name: test_name@,
                subtests: subtest_models(subtests@),
            },
            CellTestResult::Error { cell_id, test_name, error } => TestResultModel::Error {
                cell_id: cell_id@,
                test_name: test_name@,
                error: error@,
            },
        }
    }
}

impl TestResultModel {
    /// Whether the test ran and every part of it passed.
    pub open spec fn passed(self) -> bool {
        match self {
            TestResultModel::Completed { subtests, .. } => forall|i: int|
                0 <= i < subtests.len() ==> (#[trigger] subtests[i]).passed,
            TestResultModel::Error { .. } => false,
        }
    }
}

impl CellTestResult {
    /// Whether the test ran and every part of it passed.
    pub fn all_passed(&self) -> (passed: bool)
        ensures
            passed == self@.passed(),
    {
        match self {
            CellTestResult::Completed { subtests, .. } => {
                let ghost models = subtest_models(subtests@);
                let mut i: usize = 0;
                while i < subtests.len()
                    invariant
                        i <= subtests.len(),
                        models == subtest_models(subtests@),
                        models == self@->Completed_subtests,
                        self@ is Completed,
                        forall|j: int| 0 <= j < i ==> (#[trigger] models[j]).passed,
                    decreases subtests.len() - i,
                {
                    if !subtests[i].passed {
                        assert(!models[i as int].passed);
                        return false;
                    }
                    i += 1;
                }
                true
            },
            CellTestResult::Error { .. } => false,
        }
    }

    /// Whether the test could not run.
    pub fn is_error(&self) -> (error: bool)
        ensures
            error == (self@ is Error),
    {
        match self {
            CellTestResult::Completed { .. } => false,
            CellTestResult::Error { .. } => true,
        }
    }
}

// ---------------------------------------------------------------------------
// The notebook that runs a test
// ---------------------------------------------------------------------------

/// The source of the cell that prints the results.
pub const RESULTS_SOURCE: &'static str =
    "import json as _json\nprint(\"__NB_RESULTS__\" + nota_bene._runner.get_test_results())";

/// What the printed results begin with.
pub const RESULTS_MARKER: &'static str = "__NB_RESULTS__";

/// The fields of the tag of a cell that stands for a cell of the source.
pub open spec fn runner_fields(role: Seq<char>, cell_id: Seq<char>) -> JsonModel {
    JsonModel::Object(
        seq![("role"@, JsonModel::Text(role)), ("source_cell_id"@, JsonModel::Text(cell_id))],
    )
}

/// The fields of the tag of a cell that runs a fixture.
pub open spec fn runner_fixture_fields(cell_id: Seq<char>, name: Seq<char>) -> JsonModel {
    JsonModel::Object(
        seq![
            ("fixture_name"@, JsonModel::Text(name)),
            ("role"@, JsonModel::Text("fixture"@)),
            ("source_cell_id"@, JsonModel::Text(cell_id)),
        ],
    )
}

/// The lines, each one level further in.
pub open spec fn indented(lines: Seq<Seq<char>>) -> Seq<Seq<char>> {
    lines.map_values(|line: Seq<char>| "    "@ + line)
}

/// A fixture as a function that is called.
pub open spec fn fixture_function(name: Seq<char>, source: Seq<char>) -> Seq<char> {
    "def _nb_fixture_"@ + name + "():\n"@ + joined(indented(bare_lines(source)), "\n"@)
        + "\n\n_nb_fixture_"@ + name + "()"@
}

/// The source of the cell that runs a cell of the source.
pub open spec fn load_text(source: Seq<char>) -> Seq<char> {
    "nota_bene._runner.load_cell("@ + string_literal(source) + ")\nnota_bene.execute_cell()"@
}

/// The cell that runs a fixture.
pub open spec fn runner_fixture_template(
    cell_id: Seq<char>,
    name: Seq<char>,
    fixture: FixtureModel,
) -> CellTemplate {
    code_template(
        None,
        "runner"@,
        runner_fixture_fields(cell_id, name),
        fixture_function(name, fixture.source),
    )
}

/// The cells that run the fixtures of a cell, in the order in which they run.
pub open spec fn runner_fixture_templates(cell: CellModel) -> Seq<CellTemplate> {
    match cell.data() {
        Some(data) => match data.fixtures {
            Some(entries) => by_priority(entries).map_values(
                |entry: (Seq<char>, FixtureModel)|
                    runner_fixture_template(cell.id, entry.0, entry.1),
            ),
            None => Seq::empty(),
        },
        None => Seq::empty(),
    }
}

/// The diff of a cell, if it has one.
pub open spec fn diff_of(cell: CellModel) -> Option<Seq<char>> {
    match cell.data() {
        Some(data) => data.diff,
        None => None,
    }
}

/// The cell that runs a cell of the source, with its diff applied.
pub open spec fn runner_source_template(cell: CellModel) -> CellTemplate {
    code_template(
        None,
        "runner"@,
        runner_fields("cell_source"@, cell.id),
        load_text(source_after_diff(cell.text(), diff_of(cell))),
    )
}

/// The cell that runs the test of a cell, if it has one.
pub open spec fn runner_test_templates(cell: CellModel) -> Seq<CellTemplate> {
    match cell.data() {
        Some(data) => match data.test {
            Some(test) => seq![
                code_template(None, "runner"@, runner_fields("test"@, cell.id), test.source),
            ],
            None => Seq::empty(),
        },
        None => Seq::empty(),
    }
}

/// The cells for one cell of the source: none if it is no code; else its
/// fixtures and its source, and its test if it is the target.
pub open spec fn runner_section(nb: NotebookModel, index: int, target: int) -> Seq<CellTemplate> {
    let cell = nb.cells[index];
    if !cell.is_code() {
        Seq::empty()
    } else {
        runner_fixture_templates(cell) + seq![runner_source_template(cell)] + if index == target {
            runner_test_templates(cell)
        } else {
            Seq::empty()
        }
    }
}

/// The setup cell, and the cells for the first `count` cells of the source.
pub open spec fn runner_sections(nb: NotebookModel, count: int, target: int) -> Seq<CellTemplate>
    decreases count,
{
    if count <= 0 {
        seq![code_template(None, "runner"@, role_fields("setup"@), "import nota_bene"@)]
    } else {
        runner_sections(nb, count - 1, target) + runner_section(nb, count - 1, target)
    }
}

/// The cells that print the results and clean up.
pub open spec fn closing_templates() -> Seq<CellTemplate> {
    seq![
        code_template(None, "runner"@, role_fields("results"@), RESULTS_SOURCE@),
        code_template(
            None,
            "runner"@,
            role_fields("teardown"@),
            "nota_bene._runner.run_teardowns()"@,
        ),
    ]
}

/// How many cells of the source run for a target.
pub open spec fn run_count(nb: NotebookModel, target: int) -> int {
    if target < nb.cells.len() {
        target + 1
    } else {
        nb.cells.len() as int
    }
}

/// The cells of the notebook that runs the test of the cell at `target`.
pub open spec fn runner_templates(nb: NotebookModel, target: int) -> Seq<CellTemplate> {
    runner_sections(nb, run_count(nb, target), target) + closing_templates()
}

/// Whether `made` is the notebook that runs the test of the cell at `target`.
pub open spec fn is_test_notebook(made: NotebookModel, source: NotebookModel, target: int) -> bool {
    &&& all_fit(made.cells, runner_templates(source, target))
    &&& made.standard == source.standard
    &&& made.additional == without_member(source.additional, METADATA_KEY@)
    &&& made.nbformat == 4
    &&& made.nbformat_minor == 5
}

/// The fields of the tag of a cell that stands for a cell of the source.
fn runner_tag(role: &str, cell_id: &str) -> (fields: Json)
    ensures
        fields@ == runner_fields(role@, cell_id@),
{
    write_pair(
        "role",
        Json::Text(role.to_owned()),
        "source_cell_id",
        Json::Text(cell_id.to_owned()),
    )
}

/// The lines, each one level further in.
fn indent_lines(lines: &Vec<String>) -> (result: Vec<String>)
    ensures
        texts(result@) == indented(texts(lines@)),
{
    let mut result: Vec<String> = Vec::new();
    let mut i: usize = 0;
    while i < lines.len()
        invariant
            i <= lines.len(),
            result.len() == i,
            forall|j: int| 0 <= j < i ==> (#[trigger] result@[j])@ == "    "@ + lines@[j]@,
        decreases lines.len() - i,
    {
        let mut line: String = "    ".to_owned();
        line.append(lines[i].as_str());
        result.push(line);
        i += 1;
    }
    assert(texts(result@) =~= indented(texts(lines@)));
    result
}

/// The cell that runs a fixture: the source as a function that is called.
pub fn make_fixture_cell(source_cell_id: &str, fixture_name: &str, fixture: &Fixture) -> (cell:
    Cell)
    ensures
        fits(cell@, runner_fixture_template(source_cell_id@, fixture_name@, fixture@)),
{
    let lines: Vec<String> = indent_lines(&split_lines(fixture.source.as_str()));
    let mut text: String = "def _nb_fixture_".to_owned();
    text.append(fixture_name);
    text.append("():\n");
    text.append(join(&lines, "\n").as_str());
    text.append("\n\n_nb_fixture_");
    text.append(fixture_name);
    text.append("()");
    let map = JsonMap {
        entries: vec![
            ("fixture_name".to_owned(), Json::Text(fixture_name.to_owned())),
            ("role".to_owned(), Json::Text("fixture".to_owned())),
            ("source_cell_id".to_owned(), Json::Text(source_cell_id.to_owned())),
        ],
    };
    assert(map@ =~= runner_fixture_fields(source_cell_id@, fixture_name@)->Object_0);
    make_new_code_cell("runner", Json::Object(map), text.as_str())
}

/// The cell that runs a cell of the source. The source stands in it as a string
/// literal.
pub fn make_cell_source_cell(source_cell_id: &str, patched_source: &str) -> (cell: Cell)
    ensures
        fits(
            cell@,
            code_template(
                None,
                "runner"@,
                runner_fields("cell_source"@, source_cell_id@),
                load_text(patched_source@),
            ),
        ),
{
    let mut text: String = "nota_bene._runner.load_cell(".to_owned();
    text.append(print_string_literal(patched_source).as_str());
    text.append(")\nnota_bene.execute_cell()");
    make_new_code_cell("runner", runner_tag("cell_source", source_cell_id), text.as_str())
}

/// The cell that runs a test.
pub fn make_test_cell(source_cell_id: &str, test_source: &str) -> (cell: Cell)
    ensures
        fits(
            cell@,
            code_template(None, "runner"@, runner_fields("test"@, source_cell_id@), test_source@),
        ),
{
    make_new_code_cell("runner", runner_tag("test", source_cell_id), test_source)
}

/// The cells that run the fixtures of a cell.
fn make_fixture_cells(cell: &Cell) -> (cells: Vec<Cell>)
    ensures
        all_fit(cell_models(cells@), runner_fixture_templates(cell@)),
{
    let mut cells: Vec<Cell> = Vec::new();
    if let Some(data) = cell.nota_bene() {
        if let Some(map) = &data.fixtures {
            let sorted: Vec<(String, Fixture)> = fixtures_by_priority(map);
            let ghost entries = named_fixtures(sorted@);
            let mut k: usize = 0;
            while k < sorted.len()
                invariant
                    k <= sorted.len(),
                    cells.len() == k,
                    entries == named_fixtures(sorted@),
                    forall|j: int|
                        0 <= j < k ==> fits(
                            #[trigger] cells@[j]@,
                            runner_fixture_template(cell@.id, entries[j].0, entries[j].1),
                        ),
                decreases sorted.len() - k,
            {
                assert(entries[k as int] == (sorted@[k as int].0@, sorted@[k as int].1@));
                cells.push(
                    make_fixture_cell(cell.cell_id_str(), sorted[k].0.as_str(), &sorted[k].1),
                );
                k += 1;
            }
            let ghost wanted = runner_fixture_templates(cell@);
            assert forall|j: int| 0 <= j < cells@.len() implies fits(
                #[trigger] cell_models(cells@)[j],
                wanted[j],
            ) by {
                assert(fits(
                    cells@[j]@,
                    runner_fixture_template(cell@.id, entries[j].0, entries[j].1),
                ));
            }
        }
    }
    cells
}

/// The cells for one cell of the source.
fn make_runner_section(source: &Notebook, index: usize, target: usize) -> (cells: Vec<Cell>)
    requires
        index < source.cells.len(),
    ensures
        all_fit(cell_models(cells@), runner_section(source@, index as int, target as int)),
{
    let cell: &Cell = &source.cells[index];
    assert(source@.cells[index as int] == cell@);
    if !cell.is_code() {
        return Vec::new();
    }
    let mut cells: Vec<Cell> = make_fixture_cells(cell);
    let ghost head = cell_models(cells@);
    let mut test: Option<String> = None;
    let mut diff: Option<String> = None;
    if let Some(data) = cell.nota_bene() {
        if let Some(t) = data.test {
            test = Some(t.source);
        }
        diff = data.diff;
    }
    let patched: String = apply_stored_diff(cell.source_str(), &diff);
    let mut tail: Vec<Cell> = Vec::new();
    tail.push(make_cell_source_cell(cell.cell_id_str(), patched.as_str()));
    let ghost first = cell_models(tail@);
    proof {
        assert(all_fit(first, seq![runner_source_template(cell@)]));
        fit_together(
            head,
            runner_fixture_templates(cell@),
            first,
            seq![runner_source_template(cell@)],
        );
    }
    cells.append(&mut tail);
    assert(cell_models(cells@) =~= head + first);
    let ghost most = cell_models(cells@);
    let mut last: Vec<Cell> = Vec::new();
    let ghost wanted = if index == target {
        runner_test_templates(cell@)
    } else {
        Seq::empty()
    };
    if index == target {
        if let Some(t) = test {
            last.push(make_test_cell(cell.cell_id_str(), t.as_str()));
        }
    }
    let ghost end = cell_models(last@);
    proof {
        assert(all_fit(end, wanted));
        fit_together(
            most,
            runner_fixture_templates(cell@) + seq![runner_source_template(cell@)],
            end,
            wanted,
        );
    }
    cells.append(&mut last);
    assert(cell_models(cells@) =~= most + end);
    cells
}

/// Makes the notebook that runs the test of the cell at `target_idx`. Every code
/// cell up to it runs, each after its fixtures, in the order of their
/// priorities; then the test of the target, if it has one. At the end the
/// results are printed and everything is cleaned up. It never fails.
pub fn build_test_notebook(source: &Notebook, target_idx: usize) -> (made: Result<
    Notebook,
    String,
>)
    ensures
        made matches Ok(nb) && is_test_notebook(nb@, source@, target_idx as int),
{
    let mut cells: Vec<Cell> = Vec::new();
    cells.push(make_new_code_cell("runner", role_only("setup"), "import nota_bene"));
    let count: usize = if target_idx < source.cells.len() {
        target_idx + 1
    } else {
        source.cells.len()
    };
    let mut index: usize = 0;
    while index < count
        invariant
            index <= count <= source.cells.len(),
            all_fit(
                cell_models(cells@),
                runner_sections(source@, index as int, target_idx as int),
            ),
        decreases count - index,
    {
        let mut section: Vec<Cell> = make_runner_section(source, index, target_idx);
        let ghost done = cell_models(cells@);
        let ghost added = cell_models(section@);
        cells.append(&mut section);
        assert(cell_models(cells@) =~= done + added);
        proof {
            fit_together(
                done,
                runner_sections(source@, index as int, target_idx as int),
                added,
                runner_section(source@, index as int, target_idx as int),
            );
        }
        index += 1;
    }
    let ghost done = cell_models(cells@);
    let mut closing: Vec<Cell> = Vec::new();
    closing.push(make_new_code_cell("runner", role_only("results"), RESULTS_SOURCE));
    closing.push(
        make_new_code_cell("runner", role_only("teardown"), "nota_bene._runner.run_teardowns()"),
    );
    let ghost end = cell_models(closing@);
    assert(all_fit(end, closing_templates()));
    cells.append(&mut closing);
    assert(cell_models(cells@) =~= done + end);
    proof {
        fit_together(
            done,
            runner_sections(source@, count as int, target_idx as int),
            end,
            closing_templates(),
        );
    }
    let mut metadata: Metadata = source.metadata.clone();
    metadata.additional.remove(METADATA_KEY);
    Ok(Notebook { metadata, nbformat: 4, nbformat_minor: 5, cells })
}

// ---------------------------------------------------------------------------
// What the outputs say
// ---------------------------------------------------------------------------

/// The role of a cell in the notebook that runs a test.
pub open spec fn runner_role_of(cell: CellModel) -> Option<Seq<char>> {
    nested_text(cell.additional, "runner"@, "role"@)
}

/// The role of a cell in the notebook that runs a test.
pub fn runner_role(cell: &Cell) -> (role: Option<String>)
    ensures
        text_view(role) == runner_role_of(cell@),
{
    read_nested_text(cell.additional(), "runner", "role")
}

/// The id of the cell of the source that a cell stands for.
pub fn runner_source_cell_id(cell: &Cell) -> (id: Option<String>)
    ensures
        text_view(id) == nested_text(cell@.additional, "runner"@, "source_cell_id"@),
{
    read_nested_text(cell.additional(), "runner", "source_cell_id")
}

/// The name of the fixture that a cell runs.
pub fn runner_fixture_name(cell: &Cell) -> (name: Option<String>)
    ensures
        text_view(name) == nested_text(cell@.additional, "runner"@, "fixture_name"@),
{
    read_nested_text(cell.additional(), "runner", "fixture_name")
}

/// The name and the message of an error.
pub open spec fn error_detail(error: ErrorModel) -> Seq<char> {
    error.ename + ": "@ + error.evalue
}

/// The traceback of an error as one text.
pub open spec fn error_traceback(error: ErrorModel) -> Seq<char> {
    joined(error.traceback, "\n"@)
}

/// The name and the message of an error, and its traceback.
pub fn format_error(err: &ErrorOutput) -> (parts: (String, String))
    ensures
        parts.0@ == error_detail(err@),
        parts.1@ == error_traceback(err@),
{
    let mut detail: String = err.ename.clone();
    detail.append(": ");
    detail.append(err.evalue.as_str());
    (detail, join(&err.traceback, "\n"))
}

/// The first error among outputs.
pub open spec fn first_error_in(outputs: Seq<OutputModel>) -> Option<ErrorModel>
    decreases outputs.len(),
{
    if outputs.len() == 0 {
        None
    } else {
        match outputs[0] {
            OutputModel::Error(error) => Some(error),
            _ => first_error_in(outputs.drop_first()),
        }
    }
}

/// The first error that a cell raised.
pub open spec fn cell_error(cell: CellModel) -> Option<ErrorModel> {
    match cell.body {
        BodyModel::Code { outputs, .. } => first_error_in(outputs),
        _ => None,
    }
}

/// A failure of a cell in the given phase.
pub open spec fn error_of(cell: CellModel, phase: Seq<char>, error: ErrorModel) -> TestErrorModel {
    TestErrorModel {
        phase,
        source_cell_id: nested_text(cell.additional, "runner"@, "source_cell_id"@),
        fixture_name: nested_text(cell.additional, "runner"@, "fixture_name"@),
        detail: error_detail(error),
        traceback: Some(error_traceback(error)),
    }
}

/// Whether a cell prepares the test: a fixture or a cell of the source.
pub open spec fn prepares(cell: CellModel) -> bool {
    runner_role_of(cell) == Some("fixture"@) || runner_role_of(cell) == Some("cell_source"@)
}

/// The first error in a cell that prepares the test.
pub open spec fn setup_error_in(cells: Seq<CellModel>) -> Option<TestErrorModel>
    decreases cells.len(),
{
    if cells.len() == 0 {
        None
    } else if prepares(cells[0]) && cell_error(cells[0]) is Some {
        Some(error_of(cells[0], runner_role_of(cells[0])->0, cell_error(cells[0])->0))
    } else {
        setup_error_in(cells.drop_first())
    }
}

/// The phase that an error of a cell is reported under.
pub open spec fn phase_of(cell: CellModel) -> Seq<char> {
    match runner_role_of(cell) {
        Some(role) => role,
        None => "unknown"@,
    }
}

/// The first error in any cell.
pub open spec fn first_cell_error_in(cells: Seq<CellModel>) -> Option<TestErrorModel>
    decreases cells.len(),
{
    if cells.len() == 0 {
        None
    } else {
        match cell_error(cells[0]) {
            Some(error) => Some(error_of(cells[0], phase_of(cells[0]), error)),
            None => first_cell_error_in(cells.drop_first()),
        }
    }
}

/// The results that were printed: what follows the first marker in the first
/// output on stdout that holds it.
pub open spec fn printed_results(outputs: Seq<OutputModel>) -> Option<Seq<char>>
    decreases outputs.len(),
{
    if outputs.len() == 0 {
        None
    } else {
        let rest = printed_results(outputs.drop_first());
        match outputs[0] {
            OutputModel::Stream { name, text } => if name == "stdout"@ {
                match first_occurrence(text, RESULTS_MARKER@) {
                    Some(at) => Some(trimmed(text.skip(at + RESULTS_MARKER@.len()))),
                    None => rest,
                }
            } else {
                rest
            },
            _ => rest,
        }
    }
}

/// The position of the first cell with the given role, or the number of cells.
pub open spec fn role_index(cells: Seq<CellModel>, role: Seq<char>) -> int
    decreases cells.len(),
{
    if cells.len() == 0 || runner_role_of(cells[0]) == Some(role) {
        0
    } else {
        1 + role_index(cells.drop_first(), role)
    }
}

/// The printed results of a run.
pub open spec fn results_in(cells: Seq<CellModel>) -> Option<Seq<char>> {
    let at = role_index(cells, "results"@);
    if at < cells.len() {
        match cells[at].body {
            BodyModel::Code { outputs, .. } => printed_results(outputs),
            _ => None,
        }
    } else {
        None
    }
}

/// The first error in a test cell.
pub open spec fn test_error_in(cells: Seq<CellModel>) -> Option<ErrorModel>
    decreases cells.len(),
{
    if cells.len() == 0 {
        None
    } else if runner_role_of(cells[0]) == Some("test"@) && cell_error(cells[0]) is Some {
        cell_error(cells[0])
    } else {
        test_error_in(cells.drop_first())
    }
}

/// The result of a test without parts: it passes if its cell raised no error.
pub open spec fn whole_test(cells: Seq<CellModel>, test_name: Seq<char>) -> SubtestModel {
    match test_error_in(cells) {
        None => SubtestModel { name: test_name, passed: true, error: None, traceback: None },
        Some(error) => SubtestModel {
            name: test_name,
            passed: false,
            error: Some(error_detail(error)),
            traceback: Some(error_traceback(error)),
        },
    }
}

/// A string that may be absent or null; `None` if it is anything else.
pub open spec fn optional_text_of(json: Option<JsonModel>) -> Option<Option<Seq<char>>> {
    match json {
        None => Some(None),
        Some(JsonModel::Null) => Some(None),
        Some(JsonModel::Text(t)) => Some(Some(t)),
        Some(_) => None,
    }
}

/// The result of a part of a test: an object with its fields, or a list of them
/// in order.
pub open spec fn subtest_of(json: JsonModel) -> Option<SubtestModel> {
    match (
        field_of(json, "name"@, 0, 4),
        field_of(json, "passed"@, 1, 4),
        optional_text_of(field_of(json, "error"@, 2, 4)),
        optional_text_of(field_of(json, "traceback"@, 3, 4)),
    ) {
        (
            Some(JsonModel::Text(name)),
            Some(JsonModel::Bool(passed)),
            Some(error),
            Some(traceback),
        ) => Some(SubtestModel { name, passed, error, traceback }),
        _ => None,
    }
}

/// The results of the parts of a test, one for each item; `None` if any of them
/// is none.
pub open spec fn subtest_list(items: Seq<JsonModel>) -> Option<Seq<SubtestModel>>
    decreases items.len(),
{
    if items.len() == 0 {
        Some(Seq::empty())
    } else {
        match (subtest_list(items.drop_last()), subtest_of(items.last())) {
            (Some(front), Some(last)) => Some(front.push(last)),
            _ => None,
        }
    }
}

/// The results of the parts of a test: a list of them.
pub open spec fn subtests_of(json: JsonModel) -> Option<Seq<SubtestModel>> {
    match json {
        JsonModel::Array(items) => subtest_list(items),
        _ => None,
    }
}

/// What is said of results that have another form.
pub const RESULTS_FORM: &'static str = "expected a list of subtests with `name` and `passed`";

/// A failure that belongs to no cell.
pub open spec fn plain_error(phase: Seq<char>, detail: Seq<char>) -> TestErrorModel {
    TestErrorModel {
        phase,
        source_cell_id: None,
        fixture_name: None,
        detail,
        traceback: None,
    }
}

/// Why a run printed no results: the first error of any cell; without one, the
/// results cell printed nothing or is not there.
pub open spec fn missing_results_error(cells: Seq<CellModel>) -> TestErrorModel {
    match first_cell_error_in(cells) {
        Some(error) => error,
        None => if role_index(cells, "results"@) < cells.len() {
            plain_error("results"@, "Results cell produced no output"@)
        } else {
            plain_error("executor"@, "Results cell missing from executed notebook"@)
        },
    }
}

/// What printed results stand for: the parts of the test, or why they cannot be
/// read.
pub open spec fn read_results_text(text: Seq<char>) -> Result<Seq<SubtestModel>, TestErrorModel> {
    match parsed_json(text) {
        Ok(json) => match subtests_of(json) {
            Some(subtests) => Ok(subtests),
            None => Err(
                plain_error("results"@, "Failed to parse results JSON: "@ + RESULTS_FORM@),
            ),
        },
        Err(message) => Err(
            plain_error("results"@, "Failed to parse results JSON: "@ + message),
        ),
    }
}

/// The parts of a test, or the whole test as its only part if it has none.
pub open spec fn parts_or_whole(
    subtests: Seq<SubtestModel>,
    cells: Seq<CellModel>,
    test_name: Seq<char>,
) -> Seq<SubtestModel> {
    if subtests.len() == 0 {
        seq![whole_test(cells, test_name)]
    } else {
        subtests
    }
}

/// What a run says about the test. An error in a cell that prepares it comes
/// before everything else.
pub open spec fn test_outcome(
    executed: NotebookModel,
    cell_id: Seq<char>,
    test_name: Seq<char>,
) -> TestResultModel {
    let cells = executed.cells;
    match setup_error_in(cells) {
        Some(error) => TestResultModel::Error { cell_id, test_name, error },
        None => match results_in(cells) {
            None => TestResultModel::Error {
                cell_id,
                test_name,
                error: missing_results_error(cells),
            },
            Some(text) => match read_results_text(text) {
                Err(error) => TestResultModel::Error { cell_id, test_name, error },
                Ok(subtests) => TestResultModel::Completed {
                    cell_id,
                    test_name,
                    subtests: parts_or_whole(subtests, cells, test_name),
                },
            },
        },
    }
}

/// What an optional error holds.
pub open spec fn error_view(error: Option<TestError>) -> Option<TestErrorModel> {
    match error {
        Some(e) => Some(e@),
        None => None,
    }
}

/// The first error that a cell raised.
fn find_cell_error(cell: &Cell) -> (found: Option<&ErrorOutput>)
    ensures
        match found {
            Some(e) => cell_error(cell@) == Some(e@),
            None => cell_error(cell@) is None,
        },
{
    match &cell.body {
        CellBody::Code { outputs, .. } => {
            let ghost models = output_models(outputs@);
            let mut i: usize = 0;
            assert(models.skip(0) =~= models);
            while i < outputs.len()
                invariant
                    i <= outputs.len(),
                    models == output_models(outputs@),
                    cell_error(cell@) == first_error_in(models.skip(i as int)),
                decreases outputs.len() - i,
            {
                assert(models.skip(i as int)[0] == outputs@[i as int]@);
                assert(models.skip(i as int).drop_first() =~= models.skip(i + 1));
                if let Output::Error(error) = &outputs[i] {
                    return Some(error);
                }
                i += 1;
            }
            None
        },
        _ => None,
    }
}

/// A failure of a cell in the given phase.
fn make_error(cell: &Cell, phase: String, error: &ErrorOutput) -> (made: TestError)
    ensures
        made@ == error_of(cell@, phase@, error@),
{
    let (detail, traceback): (String, String) = format_error(error);
    TestError {
        phase,
        source_cell_id: runner_source_cell_id(cell),
        fixture_name: runner_fixture_name(cell),
        detail,
        traceback: Some(traceback),
    }
}

/// Finds the first error in a cell that prepares the test.
pub fn find_setup_error(executed: &Notebook) -> (found: Option<TestError>)
    ensures
        error_view(found) == setup_error_in(executed@.cells),
{
    let ghost models = executed@.cells;
    let mut i: usize = 0;
    assert(models.skip(0) =~= models);
    while i < executed.cells.len()
        invariant
            i <= executed.cells.len(),
            models == executed@.cells,
            setup_error_in(models) == setup_error_in(models.skip(i as int)),
        decreases executed.cells.len() - i,
    {
        let cell: &Cell = &executed.cells[i];
        assert(models.skip(i as int)[0] == cell@);
        assert(models.skip(i as int).drop_first() =~= models.skip(i + 1));
        let role: Option<String> = runner_role(cell);
        if text_is(&role, "fixture") || text_is(&role, "cell_source") {
            if let Some(error) = find_cell_error(cell) {
                if let Some(phase) = role {
                    return Some(make_error(cell, phase, error));
                }
            }
        }
        i += 1;
    }
    None
}

/// Finds the first error in any cell.
pub fn find_first_cell_error(executed: &Notebook) -> (found: Option<TestError>)
    ensures
        error_view(found) == first_cell_error_in(executed@.cells),
{
    let ghost models = executed@.cells;
    let mut i: usize = 0;
    assert(models.skip(0) =~= models);
    while i < executed.cells.len()
        invariant
            i <= executed.cells.len(),
            models == executed@.cells,
            first_cell_error_in(models) == first_cell_error_in(models.skip(i as int)),
        decreases executed.cells.len() - i,
    {
        let cell: &Cell = &executed.cells[i];
        assert(models.skip(i as int)[0] == cell@);
        assert(models.skip(i as int).drop_first() =~= models.skip(i + 1));
        if let Some(error) = find_cell_error(cell) {
            let phase: String = match runner_role(cell) {
                Some(role) => role,
                None => "unknown".to_owned(),
            };
            return Some(make_error(cell, phase, error));
        }
        i += 1;
    }
    None
}

/// Finds the results among the outputs of the results cell.
fn find_printed_results(outputs: &Vec<Output>) -> (found: Option<String>)
    ensures
        text_view(found) == printed_results(output_models(outputs@)),
{
    let ghost models = output_models(outputs@);
    let mut i: usize = 0;
    assert(models.skip(0) =~= models);
    while i < outputs.len()
        invariant
            i <= outputs.len(),
            models == output_models(outputs@),
            printed_results(models) == printed_results(models.skip(i as int)),
        decreases outputs.len() - i,
    {
        assert(models.skip(i as int)[0] == outputs@[i as int]@);
        assert(models.skip(i as int).drop_first() =~= models.skip(i + 1));
        if let Output::Stream { name, text } = &outputs[i] {
            if same_text(name.as_str(), "stdout") {
                if let Some(at) = find_text(text.as_str(), RESULTS_MARKER) {
                    let chars: Vec<char> = chars_of(text.as_str());
                    let marker: usize = chars_of(RESULTS_MARKER).len();
                    let count: usize = chars.len();
                    assert(at + marker <= count);
                    let json: String = text_between(&chars, at + marker, count);
                    assert(json@ =~= text@.skip(at + marker));
                    return Some(trim(json.as_str()));
                }
            }
        }
        i += 1;
    }
    None
}

/// Finds the first cell with the given role.
fn find_role(cells: &Vec<Cell>, role: &str) -> (at: usize)
    ensures
        at == role_index(cell_models(cells@), role@),
        at <= cells.len(),
{
    let ghost models = cell_models(cells@);
    let mut i: usize = 0;
    assert(models.skip(0) =~= models);
    while i < cells.len()
        invariant
            i <= cells.len(),
            models == cell_models(cells@),
            role_index(models, role@) == i + role_index(models.skip(i as int), role@),
        decreases cells.len() - i,
    {
        assert(models.skip(i as int)[0] == cells@[i as int]@);
        assert(models.skip(i as int).drop_first() =~= models.skip(i + 1));
        if text_is(&runner_role(&cells[i]), role) {
            return i;
        }
        i += 1;
    }
    i
}

/// Finds the results that the results cell printed.
pub fn find_results_json(executed: &Notebook) -> (found: Option<String>)
    ensures
        text_view(found) == results_in(executed@.cells),
{
    let at: usize = find_role(&executed.cells, "results");
    if at < executed.cells.len() {
        assert(executed@.cells[at as int] == executed.cells@[at as int]@);
        match &executed.cells[at].body {
            CellBody::Code { outputs, .. } => find_printed_results(outputs),
            _ => None,
        }
    } else {
        None
    }
}

/// The result of a test without parts.
pub fn implicit_subtest(executed: &Notebook, test_name: &str) -> (subtests: Vec<SubtestResult>)
    ensures
        subtest_models(subtests@) == seq![whole_test(executed@.cells, test_name@)],
{
    let ghost models = executed@.cells;
    let mut subtests: Vec<SubtestResult> = Vec::new();
    let mut i: usize = 0;
    assert(models.skip(0) =~= models);
    while i < executed.cells.len()
        invariant
            i <= executed.cells.len(),
            subtests@.len() == 0,
            models == executed@.cells,
            test_error_in(models) == test_error_in(models.skip(i as int)),
        decreases executed.cells.len() - i,
    {
        let cell: &Cell = &executed.cells[i];
        assert(models.skip(i as int)[0] == cell@);
        assert(models.skip(i as int).drop_first() =~= models.skip(i + 1));
        if text_is(&runner_role(cell), "test") {
            if let Some(error) = find_cell_error(cell) {
                let (detail, traceback): (String, String) = format_error(error);
                subtests.push(
                    SubtestResult {
                        name: test_name.to_owned(),
                        passed: false,
                        error: Some(detail),
                        traceback: Some(traceback),
                    },
                );
                assert(subtest_models(subtests@) =~= seq![whole_test(models, test_name@)]);
                return subtests;
            }
        }
        i += 1;
    }
    subtests.push(
        SubtestResult {
            name: test_name.to_owned(),
            passed: true,
            error: None,
            traceback: None,
        },
    );
    assert(subtest_models(subtests@) =~= seq![whole_test(models, test_name@)]);
    subtests
}

/// Reads a string that may be absent or null.
fn read_optional_text(json: Option<&Json>) -> (text: Option<Option<String>>)
    ensures
        match text {
            Some(t) => optional_text_of(crate::json::option_model(json)) == Some(text_view(t)),
            None => optional_text_of(crate::json::option_model(json)) is None,
        },
{
    match json {
        None => Some(None),
        Some(Json::Null) => Some(None),
        Some(Json::Text(t)) => Some(Some(t.clone())),
        Some(_) => None,
    }
}

/// Reads the result of a part of a test.
fn read_subtest(json: &Json) -> (subtest: Option<SubtestResult>)
    ensures
        match subtest {
            Some(s) => subtest_of(json@) == Some(s@),
            None => subtest_of(json@) is None,
        },
{
    let name: Option<&Json> = read_field(json, "name", 0, 4);
    let passed: Option<&Json> = read_field(json, "passed", 1, 4);
    let error: Option<Option<String>> = read_optional_text(read_field(json, "error", 2, 4));
    let traceback: Option<Option<String>> = read_optional_text(
        read_field(json, "traceback", 3, 4),
    );
    match (name, passed, error, traceback) {
        (Some(Json::Text(n)), Some(Json::Bool(p)), Some(e), Some(t)) => Some(
            SubtestResult { name: n.clone(), passed: *p, error: e, traceback: t },
        ),
        _ => None,
    }
}

/// Reads the results of the parts of a test.
fn read_subtests(json: &Json) -> (subtests: Option<Vec<SubtestResult>>)
    ensures
        match subtests {
            Some(s) => subtests_of(json@) == Some(subtest_models(s@)),
            None => subtests_of(json@) is None,
        },
{
    match json {
        Json::Array(items) => {
            let ghost models = crate::json::array_model(items@);
            let mut subtests: Vec<SubtestResult> = Vec::new();
            let mut i: usize = 0;
            assert(models.take(0) =~= Seq::<JsonModel>::empty());
            assert(subtest_models(subtests@) =~= Seq::<SubtestModel>::empty());
            while i < items.len()
                invariant
                    i <= items.len(),
                    models == crate::json::array_model(items@),
                    json@ == JsonModel::Array(models),
                    subtest_list(models.take(i as int)) == Some(subtest_models(subtests@)),
                decreases items.len() - i,
            {
                let ghost done = subtest_models(subtests@);
                assert(models.take(i + 1).drop_last() =~= models.take(i as int));
                assert(models.take(i + 1).last() == items@[i as int]@);
                match read_subtest(&items[i]) {
                    Some(subtest) => {
                        subtests.push(subtest);
                        assert(subtest_models(subtests@) =~= done.push(subtest@));
                    },
                    None => {
                        proof {
                            subtest_list_fails(models, i + 1);
                        }
                        return None;
                    },
                }
                i += 1;
            }
            assert(models.take(i as int) =~= models);
            Some(subtests)
        },
        _ => None,
    }
}

/// A list whose beginning cannot be read cannot be read.
proof fn subtest_list_fails(items: Seq<JsonModel>, count: int)
    requires
        0 <= count <= items.len(),
        subtest_list(items.take(count)) is None,
    ensures
        subtest_list(items) is None,
    decreases items.len() - count,
{
    if count < items.len() {
        assert(items.take(count + 1).drop_last() =~= items.take(count));
        subtest_list_fails(items, count + 1);
    } else {
        assert(items.take(count) =~= items);
    }
}

/// A failure that belongs to no cell.
fn make_plain_error(phase: &str, detail: String) -> (error: TestError)
    ensures
        error@ == plain_error(phase@, detail@),
{
    TestError {
        phase: phase.to_owned(),
        source_cell_id: None,
        fixture_name: None,
        detail,
        traceback: None,
    }
}

/// Reads printed results.
pub fn read_results(text: &str) -> (outcome: Result<Vec<SubtestResult>, TestError>)
    ensures
        match outcome {
            Ok(subtests) => read_results_text(text@) == Ok::<Seq<SubtestModel>, TestErrorModel>(
                subtest_models(subtests@),
            ),
            Err(error) => read_results_text(text@) == Err::<Seq<SubtestModel>, TestErrorModel>(
                error@,
            ),
        },
{
    let mut detail: String = "Failed to parse results JSON: ".to_owned();
    match parse_json(text) {
        Ok(json) => match read_subtests(&json) {
            Some(subtests) => Ok(subtests),
            None => {
                detail.append(RESULTS_FORM);
                Err(make_plain_error("results", detail))
            },
        },
        Err(message) => {
            detail.append(message.as_str());
            Err(make_plain_error("results", detail))
        },
    }
}

/// Why a run printed no results.
fn explain_missing_results(executed: &Notebook) -> (error: TestError)
    ensures
        error@ == missing_results_error(executed@.cells),
{
    match find_first_cell_error(executed) {
        Some(error) => error,
        None => {
            let at: usize = find_role(&executed.cells, "results");
            if at < executed.cells.len() {
                make_plain_error("results", "Results cell produced no output".to_owned())
            } else {
                make_plain_error(
                    "executor",
                    "Results cell missing from executed notebook".to_owned(),
                )
            }
        },
    }
}

/// Reads off an executed notebook what it says about the test. A run that could
/// not reach the test gives an error result.
pub fn extract_results(executed: &Notebook, cell_id: &str, test_name: &str) -> (result:
    CellTestResult)
    ensures
        result@ == test_outcome(executed@, cell_id@, test_name@),
{
    if let Some(error) = find_setup_error(executed) {
        return CellTestResult::Error {
            cell_id: cell_id.to_owned(),
            test_name: test_name.to_owned(),
            error,
        };
    }
    match find_results_json(executed) {
        None => CellTestResult::Error {
            cell_id: cell_id.to_owned(),
            test_name: test_name.to_owned(),
            error: explain_missing_results(executed),
        },
        Some(text) => match read_results(text.as_str()) {
            Err(error) => CellTestResult::Error {
                cell_id: cell_id.to_owned(),
                test_name: test_name.to_owned(),
                error,
            },
            Ok(found) => {
                assert(subtest_models(found@).len() == found@.len());
                let subtests: Vec<SubtestResult> = if found.len() == 0 {
                    implicit_subtest(executed, test_name)
                } else {
                    found
                };
                CellTestResult::Completed {
                    cell_id: cell_id.to_owned(),
                    test_name: test_name.to_owned(),
                    subtests,
                }
            },
        },
    }
}

/// The result of a test whose run failed as a whole.
pub fn executor_error_result(cell_id: &str, test_name: &str, detail: &str) -> (result:
    CellTestResult)
    ensures
        result@ == (TestResultModel::Error {
            cell_id: cell_id@,
            test_name: test_name@,
            error: plain_error("executor"@, detail@),
        }),
{
    CellTestResult::Error {
        cell_id: cell_id.to_owned(),
        test_name: test_name.to_owned(),
        error: make_plain_error("executor", detail.to_owned()),
    }
}

} // verus!
