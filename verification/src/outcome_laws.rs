//! What a run says about a test.
use vstd::prelude::*;

use crate::commands::{executed_outcome, exit_code_of, failure_detail};
use crate::format::ExecutedErrorModel;
use crate::json::{member, parsed_json, JsonModel};
use crate::notebook::{nested_text, BodyModel, CellModel, ErrorModel, NotebookModel, OutputModel};
use crate::test_runner::{
    cell_error, first_error_in, prepares, printed_results, results_in, role_index, setup_error_in,
    subtest_list, test_error_in, test_outcome, SubtestModel, TestErrorModel, TestResultModel,
    RESULTS_MARKER,
};
use crate::text::{begins_with, first_occurrence, joined, occurs_in, stands_at, trimmed};

verus! {

// ---------------------------------------------------------------------------
// Errors of cells
// ---------------------------------------------------------------------------

/// What a tag of the runner says under a key.
pub open spec fn tagged(cell: CellModel, key: Seq<char>) -> Option<Seq<char>> {
    nested_text(cell.additional, "runner"@, key)
}

/// The outputs of a cell; none if it is no code.
pub open spec fn outputs_of(cell: CellModel) -> Seq<OutputModel> {
    match cell.body {
        BodyModel::Code { outputs, .. } => outputs,
        _ => Seq::empty(),
    }
}

/// Whether a cell raised an error.
pub open spec fn raised(cell: CellModel) -> bool {
    exists|i: int| 0 <= i < outputs_of(cell).len() && (#[trigger] outputs_of(cell)[i]) is Error
}

/// Whether an error is the first that a cell raised.
pub open spec fn raised_first(cell: CellModel, error: ErrorModel) -> bool {
    exists|i: int|
        0 <= i < outputs_of(cell).len() && (#[trigger] outputs_of(cell)[i]) == OutputModel::Error(
            error,
        ) && forall|j: int| 0 <= j < i ==> !((#[trigger] outputs_of(cell)[j]) is Error)
}

/// Whether a cell prepares a test: it runs a fixture or a cell of the source.
pub open spec fn is_preparation(cell: CellModel) -> bool {
    tagged(cell, "role"@) == Some("fixture"@) || tagged(cell, "role"@) == Some("cell_source"@)
}

/// The first error among outputs is the first that there is.
proof fn first_error_is_first(outputs: Seq<OutputModel>)
    ensures
        match first_error_in(outputs) {
            Some(error) => exists|i: int|
                0 <= i < outputs.len() && (#[trigger] outputs[i]) == OutputModel::Error(error)
                    && forall|j: int| 0 <= j < i ==> !((#[trigger] outputs[j]) is Error),
            None => forall|i: int| 0 <= i < outputs.len() ==> !((#[trigger] outputs[i]) is Error),
        },
    decreases outputs.len(),
{
    if outputs.len() > 0 {
        let rest = outputs.drop_first();
        first_error_is_first(rest);
        if let OutputModel::Error(error) = outputs[0] {
            assert(outputs[0] == OutputModel::Error(error));
        } else {
            match first_error_in(rest) {
                Some(error) => {
                    let i = choose|i: int|
                        0 <= i < rest.len() && (#[trigger] rest[i]) == OutputModel::Error(error)
                            && forall|j: int| 0 <= j < i ==> !((#[trigger] rest[j]) is Error);
                    assert(outputs[i + 1] == OutputModel::Error(error));
                    assert forall|j: int| 0 <= j < i + 1 implies !((
                    #[trigger] outputs[j]) is Error) by {
                        if j > 0 {
                            assert(rest[j - 1] == outputs[j]);
                        }
                    }
                },
                None => {
                    assert forall|i: int| 0 <= i < outputs.len() implies !((
                    #[trigger] outputs[i]) is Error) by {
                        if i > 0 {
                            assert(rest[i - 1] == outputs[i]);
                        }
                    }
                },
            }
        }
    }
}

/// The error of a cell is the first that it raised.
proof fn cell_error_is_first(cell: CellModel)
    ensures
        cell_error(cell) is Some <==> raised(cell),
        cell_error(cell) matches Some(error) ==> raised_first(cell, error),
        forall|error: ErrorModel| #[trigger]
            raised_first(cell, error) ==> cell_error(cell) == Some(error),
{
    let outputs = outputs_of(cell);
    first_error_is_first(outputs);
    assert(cell_error(cell) == first_error_in(outputs));
    if let Some(found) = cell_error(cell) {
        let i = choose|i: int|
            0 <= i < outputs.len() && (#[trigger] outputs[i]) == OutputModel::Error(found)
                && forall|j: int| 0 <= j < i ==> !((#[trigger] outputs[j]) is Error);
        assert(outputs_of(cell)[i] is Error);
        assert forall|error: ErrorModel| #[trigger] raised_first(cell, error) implies error
            == found by {
            let k = choose|k: int|
                0 <= k < outputs_of(cell).len() && (#[trigger] outputs_of(cell)[k])
                    == OutputModel::Error(error) && forall|j: int|
                    0 <= j < k ==> !((#[trigger] outputs_of(cell)[j]) is Error);
            if k < i {
                assert(!(outputs[k] is Error));
            }
            if i < k {
                assert(!(outputs_of(cell)[i] is Error));
            }
        }
    }
}

/// What is reported of an error that a cell raised.
pub open spec fn reported(cell: CellModel, phase: Seq<char>, error: ErrorModel) -> TestErrorModel {
    TestErrorModel {
        phase,
        source_cell_id: tagged(cell, "source_cell_id"@),
        fixture_name: tagged(cell, "fixture_name"@),
        detail: error.ename + ": "@ + error.evalue,
        traceback: Some(joined(error.traceback, "\n"@)),
    }
}

/// The first error in preparation is that of the first cell that raised one.
proof fn setup_error_is_first(cells: Seq<CellModel>, at: int, error: ErrorModel)
    requires
        0 <= at < cells.len(),
        is_preparation(cells[at]),
        raised_first(cells[at], error),
        forall|i: int|
            0 <= i < at && is_preparation(#[trigger] cells[i]) ==> !raised(cells[i]),
    ensures
        setup_error_in(cells) == Some(reported(cells[at], tagged(cells[at], "role"@)->0, error)),
    decreases cells.len(),
{
    cell_error_is_first(cells[0]);
    cell_error_is_first(cells[at]);
    if at > 0 {
        let rest = cells.drop_first();
        assert(rest[at - 1] == cells[at]);
        assert forall|i: int| 0 <= i < at - 1 && is_preparation(#[trigger] rest[i]) implies !raised(
            rest[i],
        ) by {
            assert(rest[i] == cells[i + 1]);
        }
        setup_error_is_first(rest, at - 1, error);
        assert(is_preparation(cells[0]) ==> !raised(cells[0]));
    }
}

/// Without an error in preparation none is found.
proof fn no_setup_error_found(cells: Seq<CellModel>)
    requires
        forall|i: int|
            0 <= i < cells.len() && is_preparation(#[trigger] cells[i]) ==> !raised(cells[i]),
    ensures
        setup_error_in(cells) is None,
    decreases cells.len(),
{
    if cells.len() > 0 {
        let rest = cells.drop_first();
        assert forall|i: int|
            0 <= i < rest.len() && is_preparation(#[trigger] rest[i]) implies !raised(rest[i]) by {
            assert(rest[i] == cells[i + 1]);
        }
        no_setup_error_found(rest);
        cell_error_is_first(cells[0]);
        assert(is_preparation(cells[0]) ==> !raised(cells[0]));
    }
}

/// If a fixture or a cell of the source raises an error, the test did not run:
/// the first such error is reported, with the phase, the cell and the fixture
/// that it comes from, whatever was printed.
pub proof fn preparation_error_is_reported(
    executed: NotebookModel,
    cell_id: Seq<char>,
    test_name: Seq<char>,
    at: int,
    error: ErrorModel,
)
    requires
        0 <= at < executed.cells.len(),
        is_preparation(executed.cells[at]),
        raised_first(executed.cells[at], error),
        forall|i: int|
            0 <= i < at && is_preparation(#[trigger] executed.cells[i]) ==> !raised(
                executed.cells[i],
            ),
    ensures
        test_outcome(executed, cell_id, test_name) == (TestResultModel::Error {
            cell_id,
            test_name,
            error: reported(
                executed.cells[at],
                tagged(executed.cells[at], "role"@)->0,
                error,
            ),
        }),
{
    setup_error_is_first(executed.cells, at, error);
}

// ---------------------------------------------------------------------------
// Printed results
// ---------------------------------------------------------------------------

/// Whether an output is text on the standard output with the marker in it.
pub open spec fn holds_marker(output: OutputModel) -> bool {
    output matches OutputModel::Stream { name, text } && name == "stdout"@ && occurs_in(
        text,
        "__NB_RESULTS__"@,
    )
}

/// Whether a text is printed behind the first marker of the first output that
/// holds one.
pub open spec fn is_printed(cell: CellModel, before: Seq<char>, results: Seq<char>) -> bool {
    exists|i: int|
        0 <= i < outputs_of(cell).len() && (#[trigger] outputs_of(cell)[i])
            == (OutputModel::Stream {
            name: "stdout"@,
            text: before + "__NB_RESULTS__"@ + results,
        }) && forall|j: int| 0 <= j < i ==> !holds_marker(#[trigger] outputs_of(cell)[j])
}

/// The first marker in a text.
proof fn marker_found(before: Seq<char>, results: Seq<char>)
    requires
        forall|i: int|
            0 <= i < before.len() ==> !(#[trigger] stands_at(
                before + "__NB_RESULTS__"@ + results,
                "__NB_RESULTS__"@,
                i,
            )),
    ensures
        ({
            let text = before + "__NB_RESULTS__"@ + results;
            &&& first_occurrence(text, RESULTS_MARKER@) == Some(before.len() as int)
            &&& text.skip(before.len() as int + RESULTS_MARKER@.len()) == results
            &&& occurs_in(text, RESULTS_MARKER@)
        }),
{
    reveal(first_occurrence);
    let marker = "__NB_RESULTS__"@;
    let text = before + marker + results;
    let n = before.len() as int;
    assert(text.subrange(n, n + marker.len()) =~= marker);
    assert(stands_at(text, marker, n));
    let at = first_occurrence(text, marker)->0;
    assert(stands_at(text, marker, at) && forall|i: int|
        0 <= i < at ==> !stands_at(text, marker, i));
    assert(at == n);
    assert(text.skip(n + marker.len()) =~= results);
}

/// What is printed is found.
proof fn printed_is_found(outputs: Seq<OutputModel>, at: int, before: Seq<char>, results: Seq<char>)
    requires
        0 <= at < outputs.len(),
        outputs[at] == (OutputModel::Stream {
            name: "stdout"@,
            text: before + "__NB_RESULTS__"@ + results,
        }),
        forall|j: int| 0 <= j < at ==> !holds_marker(#[trigger] outputs[j]),
        forall|i: int|
            0 <= i < before.len() ==> !(#[trigger] stands_at(
                before + "__NB_RESULTS__"@ + results,
                "__NB_RESULTS__"@,
                i,
            )),
    ensures
        printed_results(outputs) == Some(trimmed(results)),
    decreases outputs.len(),
{
    marker_found(before, results);
    if at > 0 {
        let rest = outputs.drop_first();
        assert(rest[at - 1] == outputs[at]);
        assert forall|j: int| 0 <= j < at - 1 implies !holds_marker(#[trigger] rest[j]) by {
            assert(rest[j] == outputs[j + 1]);
        }
        printed_is_found(rest, at - 1, before, results);
        assert(!holds_marker(outputs[0]));
        reveal(first_occurrence);
    }
}

/// Nothing is found where nothing is printed.
proof fn nothing_printed(outputs: Seq<OutputModel>)
    requires
        forall|j: int| 0 <= j < outputs.len() ==> !holds_marker(#[trigger] outputs[j]),
    ensures
        printed_results(outputs) is None,
    decreases outputs.len(),
{
    if outputs.len() > 0 {
        let rest = outputs.drop_first();
        assert forall|j: int| 0 <= j < rest.len() implies !holds_marker(#[trigger] rest[j]) by {
            assert(rest[j] == outputs[j + 1]);
        }
        nothing_printed(rest);
        assert(!holds_marker(outputs[0]));
        reveal(first_occurrence);
    }
}

/// Whether a cell is the first with the role of the results.
pub open spec fn is_results_cell(cells: Seq<CellModel>, at: int) -> bool {
    &&& 0 <= at < cells.len()
    &&& tagged(cells[at], "role"@) == Some("results"@)
    &&& forall|i: int|
        0 <= i < at ==> tagged(#[trigger] cells[i], "role"@) != Some("results"@)
}

/// The first cell of a role.
proof fn role_index_is(cells: Seq<CellModel>, at: int)
    requires
        is_results_cell(cells, at),
    ensures
        role_index(cells, "results"@) == at,
    decreases cells.len(),
{
    if at > 0 {
        let rest = cells.drop_first();
        assert(tagged(cells[0], "role"@) != Some("results"@));
        assert(rest[at - 1] == cells[at]);
        assert forall|i: int| 0 <= i < at - 1 implies tagged(#[trigger] rest[i], "role"@) != Some(
            "results"@,
        ) by {
            assert(rest[i] == cells[i + 1]);
        }
        role_index_is(rest, at - 1);
    }
}

// ---------------------------------------------------------------------------
// Parts of a test
// ---------------------------------------------------------------------------

/// Whether an optional field of a result is a text, or null, or absent.
pub open spec fn says_text(value: Option<JsonModel>, text: Option<Seq<char>>) -> bool {
    match text {
        Some(t) => value == Some(JsonModel::Text(t)),
        None => value is None || value == Some(JsonModel::Null),
    }
}

/// Whether a JSON object is the result of a part of a test.
pub open spec fn is_result(json: JsonModel, subtest: SubtestModel) -> bool {
    json matches JsonModel::Object(members) && member(members, "name"@) == Some(
        JsonModel::Text(subtest.name),
    ) && member(members, "passed"@) == Some(JsonModel::Bool(subtest.passed)) && says_text(
        member(members, "error"@),
        subtest.error,
    ) && says_text(member(members, "traceback"@), subtest.traceback)
}

/// A list of results is read as it is.
proof fn results_are_read(items: Seq<JsonModel>, subtests: Seq<SubtestModel>)
    requires
        items.len() == subtests.len(),
        forall|k: int| 0 <= k < items.len() ==> is_result(#[trigger] items[k], subtests[k]),
    ensures
        subtest_list(items) == Some(subtests),
    decreases items.len(),
{
    if items.len() == 0 {
        assert(subtests =~= Seq::empty());
    } else {
        let front = items.drop_last();
        let before = subtests.drop_last();
        assert forall|k: int| 0 <= k < front.len() implies is_result(
            #[trigger] front[k],
            before[k],
        ) by {
            assert(front[k] == items[k]);
        }
        results_are_read(front, before);
        assert(is_result(items[items.len() - 1], subtests[items.len() - 1]));
        assert(before.push(subtests.last()) =~= subtests);
    }
}

/// A test whose preparation went well has the parts that were printed: names,
/// whether they passed, errors and tracebacks are those in the printed list.
pub proof fn printed_parts_are_the_result(
    executed: NotebookModel,
    cell_id: Seq<char>,
    test_name: Seq<char>,
    at: int,
    before: Seq<char>,
    results: Seq<char>,
    items: Seq<JsonModel>,
    subtests: Seq<SubtestModel>,
)
    requires
        forall|i: int|
            0 <= i < executed.cells.len() && is_preparation(#[trigger] executed.cells[i])
                ==> !raised(executed.cells[i]),
        is_results_cell(executed.cells, at),
        is_printed(executed.cells[at], before, results),
        forall|i: int|
            0 <= i < before.len() ==> !(#[trigger] stands_at(
                before + "__NB_RESULTS__"@ + results,
                "__NB_RESULTS__"@,
                i,
            )),
        parsed_json(trimmed(results)) == Ok::<JsonModel, Seq<char>>(JsonModel::Array(items)),
        items.len() == subtests.len(),
        items.len() > 0,
        forall|k: int| 0 <= k < items.len() ==> is_result(#[trigger] items[k], subtests[k]),
    ensures
        test_outcome(executed, cell_id, test_name) == (TestResultModel::Completed {
            cell_id,
            test_name,
            subtests,
        }),
{
    results_text_is_read(executed, at, before, results);
    results_are_read(items, subtests);
}

/// The text of the results.
proof fn results_text_is_read(
    executed: NotebookModel,
    at: int,
    before: Seq<char>,
    results: Seq<char>,
)
    requires
        forall|i: int|
            0 <= i < executed.cells.len() && is_preparation(#[trigger] executed.cells[i])
                ==> !raised(executed.cells[i]),
        is_results_cell(executed.cells, at),
        is_printed(executed.cells[at], before, results),
        forall|i: int|
            0 <= i < before.len() ==> !(#[trigger] stands_at(
                before + "__NB_RESULTS__"@ + results,
                "__NB_RESULTS__"@,
                i,
            )),
    ensures
        setup_error_in(executed.cells) is None,
        results_in(executed.cells) == Some(trimmed(results)),
{
    let cell = executed.cells[at];
    let outputs = outputs_of(cell);
    no_setup_error_found(executed.cells);
    role_index_is(executed.cells, at);
    let i = choose|i: int|
        0 <= i < outputs_of(cell).len() && (#[trigger] outputs_of(cell)[i])
            == (OutputModel::Stream {
            name: "stdout"@,
            text: before + "__NB_RESULTS__"@ + results,
        }) && forall|j: int| 0 <= j < i ==> !holds_marker(#[trigger] outputs_of(cell)[j]);
    printed_is_found(outputs, i, before, results);
}

/// The first error in a test cell is that of the first one that raised one.
proof fn test_error_is_first(cells: Seq<CellModel>)
    ensures
        match test_error_in(cells) {
            Some(error) => exists|at: int|
                0 <= at < cells.len() && tagged(#[trigger] cells[at], "role"@) == Some("test"@)
                    && raised_first(cells[at], error) && forall|i: int|
                    0 <= i < at && tagged(#[trigger] cells[i], "role"@) == Some("test"@)
                        ==> !raised(cells[i]),
            None => forall|i: int|
                0 <= i < cells.len() && tagged(#[trigger] cells[i], "role"@) == Some("test"@)
                    ==> !raised(cells[i]),
        },
    decreases cells.len(),
{
    if cells.len() > 0 {
        let rest = cells.drop_first();
        test_error_is_first(rest);
        cell_error_is_first(cells[0]);
        if tagged(cells[0], "role"@) == Some("test"@) && raised(cells[0]) {
            assert(raised_first(cells[0], test_error_in(cells)->0));
        } else {
            match test_error_in(rest) {
                Some(error) => {
                    let at = choose|at: int|
                        0 <= at < rest.len() && tagged(#[trigger] rest[at], "role"@) == Some(
                            "test"@,
                        ) && raised_first(rest[at], error) && forall|i: int|
                            0 <= i < at && tagged(#[trigger] rest[i], "role"@) == Some("test"@)
                                ==> !raised(rest[i]);
                    assert(cells[at + 1] == rest[at]);
                    assert forall|i: int|
                        0 <= i < at + 1 && tagged(#[trigger] cells[i], "role"@) == Some(
                            "test"@,
                        ) implies !raised(cells[i]) by {
                        if i > 0 {
                            assert(rest[i - 1] == cells[i]);
                        }
                    }
                },
                None => {
                    assert forall|i: int|
                        0 <= i < cells.len() && tagged(#[trigger] cells[i], "role"@) == Some(
                            "test"@,
                        ) implies !raised(cells[i]) by {
                        if i > 0 {
                            assert(rest[i - 1] == cells[i]);
                        }
                    }
                },
            }
        }
    }
}

/// A test that prints an empty list counts as a single part under its own name.
/// It passed if and only if no test cell raised an error; else the first one is
/// its error.
pub proof fn test_without_parts_is_one(
    executed: NotebookModel,
    cell_id: Seq<char>,
    test_name: Seq<char>,
    at: int,
    before: Seq<char>,
    results: Seq<char>,
)
    requires
        forall|i: int|
            0 <= i < executed.cells.len() && is_preparation(#[trigger] executed.cells[i])
                ==> !raised(executed.cells[i]),
        is_results_cell(executed.cells, at),
        is_printed(executed.cells[at], before, results),
        forall|i: int|
            0 <= i < before.len() ==> !(#[trigger] stands_at(
                before + "__NB_RESULTS__"@ + results,
                "__NB_RESULTS__"@,
                i,
            )),
        parsed_json(trimmed(results)) == Ok::<JsonModel, Seq<char>>(
            JsonModel::Array(Seq::empty()),
        ),
    ensures
        ({
            let cells = executed.cells;
            &&& test_outcome(executed, cell_id, test_name) matches TestResultModel::Completed {
                cell_id: id,
                test_name: name,
                subtests,
            }
            &&& id == cell_id
            &&& name == test_name
            &&& subtests.len() == 1
            &&& subtests[0].name == test_name
            &&& subtests[0].passed <==> forall|i: int|
                0 <= i < cells.len() && tagged(#[trigger] cells[i], "role"@) == Some("test"@)
                    ==> !raised(cells[i])
            &&& !subtests[0].passed ==> exists|k: int, error: ErrorModel|
                0 <= k < cells.len() && tagged(cells[k], "role"@) == Some("test"@)
                    && #[trigger] raised_first(cells[k], error) && subtests[0].error == Some(
                    error.ename + ": "@ + error.evalue,
                ) && subtests[0].traceback == Some(joined(error.traceback, "\n"@))
        }),
{
    let cells = executed.cells;
    results_text_is_read(executed, at, before, results);
    results_are_read(Seq::empty(), Seq::empty());
    test_error_is_first(cells);
    if let Some(error) = test_error_in(cells) {
        let k = choose|k: int|
            0 <= k < cells.len() && tagged(#[trigger] cells[k], "role"@) == Some("test"@)
                && raised_first(cells[k], error) && forall|i: int|
                0 <= i < k && tagged(#[trigger] cells[i], "role"@) == Some("test"@) ==> !raised(
                    cells[i],
                );
        cell_error_is_first(cells[k]);
        assert(raised(cells[k]));
    }
}

/// A test whose results cell printed no results did not run: the first error of
/// any cell is reported, or that nothing was printed.
pub proof fn missing_results_are_reported(
    executed: NotebookModel,
    cell_id: Seq<char>,
    test_name: Seq<char>,
    at: int,
)
    requires
        is_results_cell(executed.cells, at),
        forall|j: int|
            0 <= j < outputs_of(executed.cells[at]).len() ==> !holds_marker(
                #[trigger] outputs_of(executed.cells[at])[j],
            ),
        forall|i: int| 0 <= i < executed.cells.len() ==> !raised(#[trigger] executed.cells[i]),
    ensures
        test_outcome(executed, cell_id, test_name) == (TestResultModel::Error {
            cell_id,
            test_name,
            error: TestErrorModel {
                phase: "results"@,
                source_cell_id: None,
                fixture_name: None,
                detail: "Results cell produced no output"@,
                traceback: None,
            },
        }),
{
    let cells = executed.cells;
    no_setup_error_found(cells);
    role_index_is(cells, at);
    nothing_printed(outputs_of(cells[at]));
    no_error_at_all(cells);
}

/// Cells that raised nothing have no first error.
proof fn no_error_at_all(cells: Seq<CellModel>)
    requires
        forall|i: int| 0 <= i < cells.len() ==> !raised(#[trigger] cells[i]),
    ensures
        crate::test_runner::first_cell_error_in(cells) is None,
    decreases cells.len(),
{
    if cells.len() > 0 {
        let rest = cells.drop_first();
        assert forall|i: int| 0 <= i < rest.len() implies !raised(#[trigger] rest[i]) by {
            assert(rest[i] == cells[i + 1]);
        }
        assert(!raised(cells[0]));
        cell_error_is_first(cells[0]);
        no_error_at_all(rest);
    }
}

/// A test of which no results can be read is reported with the first error of
/// any cell, under the role of the cell.
pub proof fn first_error_explains_missing_results(
    executed: NotebookModel,
    cell_id: Seq<char>,
    test_name: Seq<char>,
    results: int,
    at: int,
    error: ErrorModel,
)
    requires
        is_results_cell(executed.cells, results),
        forall|j: int|
            0 <= j < outputs_of(executed.cells[results]).len() ==> !holds_marker(
                #[trigger] outputs_of(executed.cells[results])[j],
            ),
        forall|i: int|
            0 <= i < executed.cells.len() && is_preparation(#[trigger] executed.cells[i])
                ==> !raised(executed.cells[i]),
        0 <= at < executed.cells.len(),
        raised_first(executed.cells[at], error),
        forall|i: int| 0 <= i < at ==> !raised(#[trigger] executed.cells[i]),
    ensures
        test_outcome(executed, cell_id, test_name) == (TestResultModel::Error {
            cell_id,
            test_name,
            error: reported(
                executed.cells[at],
                match tagged(executed.cells[at], "role"@) {
                    Some(role) => role,
                    None => "unknown"@,
                },
                error,
            ),
        }),
{
    let cells = executed.cells;
    no_setup_error_found(cells);
    role_index_is(cells, results);
    nothing_printed(outputs_of(cells[results]));
    first_error_found(cells, at, error);
}

/// The first error of any cell.
proof fn first_error_found(cells: Seq<CellModel>, at: int, error: ErrorModel)
    requires
        0 <= at < cells.len(),
        raised_first(cells[at], error),
        forall|i: int| 0 <= i < at ==> !raised(#[trigger] cells[i]),
    ensures
        crate::test_runner::first_cell_error_in(cells) == Some(
            reported(
                cells[at],
                match tagged(cells[at], "role"@) {
                    Some(role) => role,
                    None => "unknown"@,
                },
                error,
            ),
        ),
    decreases cells.len(),
{
    cell_error_is_first(cells[0]);
    if at > 0 {
        let rest = cells.drop_first();
        assert(rest[at - 1] == cells[at]);
        assert forall|i: int| 0 <= i < at - 1 implies !raised(#[trigger] rest[i]) by {
            assert(rest[i] == cells[i + 1]);
        }
        assert(!raised(cells[0]));
        first_error_found(rest, at - 1, error);
    }
}

// ---------------------------------------------------------------------------
// Exit codes
// ---------------------------------------------------------------------------

/// Whether a test ran and all its parts passed.
pub open spec fn succeeded(result: TestResultModel) -> bool {
    result matches TestResultModel::Completed { subtests, .. } && forall|i: int|
        0 <= i < subtests.len() ==> (#[trigger] subtests[i]).passed
}

/// The test command succeeds if and only if every test ran and passed; it fails
/// with 2 if and only if one did not run, and else with 1.
pub proof fn exit_code_tells_the_results_apart(results: Seq<TestResultModel>)
    ensures
        exit_code_of(results) == 0 <==> forall|i: int|
            0 <= i < results.len() ==> succeeded(#[trigger] results[i]),
        exit_code_of(results) == 2 <==> exists|i: int|
            0 <= i < results.len() && (#[trigger] results[i]) is Error,
        exit_code_of(results) == 0 || exit_code_of(results) == 1 || exit_code_of(results) == 2,
{
    if forall|i: int| 0 <= i < results.len() ==> succeeded(#[trigger] results[i]) {
        assert forall|i: int| 0 <= i < results.len() implies (#[trigger] results[i]).passed()
            && !(results[i] is Error) by {
            assert(succeeded(results[i]));
        }
    } else {
        let i = choose|i: int| 0 <= i < results.len() && !succeeded(#[trigger] results[i]);
        assert(!results[i].passed());
    }
}

/// What an executor that failed says is not lost: its own error stands in the
/// detail if it printed one, else its status and what it printed.
pub proof fn failure_is_told(status: Seq<char>, message: Seq<char>, stderr: Seq<char>)
    requires
        stderr.len() > 0,
        !begins_with(stderr, "__NB_EXEC_ERROR__"@),
    ensures
        failure_detail(status, "__NB_EXEC_ERROR__"@ + message) == "Executor error: "@ + trimmed(
            message,
        ),
        failure_detail(status, stderr) == "Executor failed ("@ + status + "). stderr: "@
            + trimmed(stderr),
        failure_detail(status, Seq::empty()) == "Executor failed ("@ + status + ")"@,
{
    reveal_strlit("__NB_EXEC_ERROR__");
    let marker = "__NB_EXEC_ERROR__"@;
    let whole = marker + message;
    assert(whole.take(marker.len() as int) =~= marker);
    assert(whole.skip(marker.len() as int) =~= message);
}

/// Results are read only from a list of well-formed ones: what is read is what
/// they say.
pub proof fn only_well_formed_results_are_read(
    items: Seq<JsonModel>,
    subtests: Seq<SubtestModel>,
)
    requires
        subtest_list(items) == Some(subtests),
        forall|k: int| 0 <= k < items.len() ==> (#[trigger] items[k]) is Object,
    ensures
        items.len() == subtests.len(),
        forall|k: int| 0 <= k < items.len() ==> is_result(#[trigger] items[k], subtests[k]),
    decreases items.len(),
{
    if items.len() > 0 {
        let front = items.drop_last();
        let before = subtest_list(front)->0;
        assert forall|k: int| 0 <= k < front.len() implies (#[trigger] front[k]) is Object by {
            assert(front[k] == items[k]);
        }
        only_well_formed_results_are_read(front, before);
        assert(items[items.len() - 1] is Object);
        assert forall|k: int| 0 <= k < items.len() implies is_result(
            #[trigger] items[k],
            subtests[k],
        ) by {
            if k < front.len() {
                assert(front[k] == items[k]);
                assert(before[k] == subtests[k]);
            }
        }
    }
}

/// A run whose notebook cannot be read is an error of the executor that tells
/// why; otherwise the outcome is that of the notebook.
pub proof fn unreadable_run_is_an_error(
    executed: Result<NotebookModel, ExecutedErrorModel>,
    cell_id: Seq<char>,
    test_name: Seq<char>,
)
    ensures
        executed matches Ok(nb) ==> executed_outcome(executed, cell_id, test_name) == test_outcome(
            nb,
            cell_id,
            test_name,
        ),
        executed matches Err(cause) ==> executed_outcome(executed, cell_id, test_name) matches
            TestResultModel::Error { cell_id: id, test_name: name, error } && id == cell_id && name
            == test_name && error.phase == "executor"@ && error.source_cell_id is None
            && occurs_in(error.detail, cause.text()),
{
    if let Err(cause) = executed {
        let detail = "Failed to parse executed notebook: "@ + cause.text();
        assert(stands_at(detail, cause.text(), "Failed to parse executed notebook: "@.len() as int))
            by {
            let at = "Failed to parse executed notebook: "@.len() as int;
            assert(detail.subrange(at, at + cause.text().len()) =~= cause.text());
        }
    }
}

} // verus!
