//! What holds of the notebooks that run tests and of what they say.
use vstd::prelude::*;

use crate::cells::{fits, fresh_code, role_fields, tag, CellTemplate};
use crate::json::{member_index_unique, JsonModel};
use crate::metadata::METADATA_KEY;
use crate::notebook::{CellModel, NotebookModel, OutputModel};
use crate::test_runner::{
    cell_error, closing_templates, first_cell_error_in, is_test_notebook, plain_error, prepares,
    printed_results, results_in, role_index, run_count, runner_fields, runner_fixture_fields,
    runner_fixture_templates, runner_role_of, runner_section, runner_sections, runner_templates,
    runner_test_templates, setup_error_in, test_outcome, TestResultModel,
};

verus! {

/// The role that a tag carries.
pub open spec fn tagged_role(fields: JsonModel) -> Option<Seq<char>> {
    crate::notebook::nested_text(tag("runner"@, fields), "runner"@, "role"@)
}

/// The roles that cells are tagged with are read back.
pub proof fn runner_roles_read_back(role: Seq<char>, cell_id: Seq<char>, name: Seq<char>)
    ensures
        tagged_role(role_fields(role)) == Some(role),
        tagged_role(runner_fields(role, cell_id)) == Some(role),
        tagged_role(runner_fixture_fields(cell_id, name)) == Some("fixture"@),
{
    role_of_tag(role_fields(role), 0);
    role_of_tag(runner_fields(role, cell_id), 0);
    reveal_strlit("fixture_name");
    reveal_strlit("role");
    assert("fixture_name"@.len() != "role"@.len());
    role_of_tag(runner_fixture_fields(cell_id, name), 1);
}

/// The role of a tag whose fields hold it at the given position.
proof fn role_of_tag(fields: JsonModel, at: int)
    requires
        fields matches JsonModel::Object(entries) && 0 <= at < entries.len() && entries[at].0
            == "role"@ && entries[at].1 is Text && forall|i: int|
            0 <= i < at ==> (#[trigger] entries[i]).0 != "role"@,
    ensures
        tagged_role(fields) == Some(fields->Object_0[at].1->Text_0),
{
    let members = seq![("runner"@, fields)];
    let all = tag("runner"@, fields);
    member_index_unique(all, METADATA_KEY@, 0);
    member_index_unique(members, "runner"@, 0);
    member_index_unique(fields->Object_0, "role"@, at);
}

/// No cell prepares the test with an error if and only if no such error is
/// found.
proof fn no_setup_error(cells: Seq<CellModel>)
    ensures
        setup_error_in(cells) is None <==> forall|i: int|
            0 <= i < cells.len() && prepares(#[trigger] cells[i]) ==> cell_error(cells[i]) is None,
    decreases cells.len(),
{
    if cells.len() > 0 {
        let rest = cells.drop_first();
        no_setup_error(rest);
        if setup_error_in(cells) is None {
            assert forall|i: int| 0 <= i < cells.len() && prepares(#[trigger] cells[i]) implies
                cell_error(cells[i]) is None by {
                if i > 0 {
                    assert(rest[i - 1] == cells[i]);
                }
            }
        } else if forall|i: int|
            0 <= i < cells.len() && prepares(#[trigger] cells[i]) ==> cell_error(
                cells[i],
            ) is None {
            assert forall|i: int| 0 <= i < rest.len() && prepares(#[trigger] rest[i]) implies
                cell_error(rest[i]) is None by {
                assert(rest[i] == cells[i + 1]);
            }
        }
    }
}

/// Cells that raised nothing give no first error.
proof fn no_first_error(cells: Seq<CellModel>)
    requires
        forall|i: int| 0 <= i < cells.len() ==> cell_error(#[trigger] cells[i]) is None,
    ensures
        first_cell_error_in(cells) is None,
    decreases cells.len(),
{
    if cells.len() > 0 {
        let rest = cells.drop_first();
        assert forall|i: int| 0 <= i < rest.len() implies cell_error(#[trigger] rest[i]) is None by {
            assert(rest[i] == cells[i + 1]);
        }
        assert(cell_error(cells[0]) is None);
        no_first_error(rest);
    }
}

/// A role that some cell has is found.
proof fn role_is_found(cells: Seq<CellModel>, role: Seq<char>, at: int)
    requires
        0 <= at < cells.len(),
        runner_role_of(cells[at]) == Some(role),
    ensures
        0 <= role_index(cells, role) <= at,
    decreases cells.len(),
{
    if runner_role_of(cells[0]) != Some(role) {
        assert(cells.drop_first()[at - 1] == cells[at]);
        role_is_found(cells.drop_first(), role, at - 1);
    }
}

/// A passed test was prepared without an error: no fixture and no cell of the
/// source raised one.
pub proof fn passing_needs_clean_preparation(
    executed: NotebookModel,
    cell_id: Seq<char>,
    test_name: Seq<char>,
    index: int,
)
    requires
        test_outcome(executed, cell_id, test_name).passed(),
        0 <= index < executed.cells.len(),
        prepares(executed.cells[index]),
    ensures
        cell_error(executed.cells[index]) is None,
{
    no_setup_error(executed.cells);
}

/// Whether a template asks for code that was never run.
spec fn asks_for_fresh_code(templates: Seq<CellTemplate>) -> bool {
    forall|i: int| 0 <= i < templates.len() ==> (#[trigger] templates[i]).body == fresh_code()
}

/// Every cell of the notebook that runs a test is code that was never run.
proof fn sections_are_fresh(nb: NotebookModel, count: int, target: int)
    ensures
        asks_for_fresh_code(runner_sections(nb, count, target)),
    decreases count,
{
    if count > 0 {
        sections_are_fresh(nb, count - 1, target);
        let cell = nb.cells[count - 1];
        assert(asks_for_fresh_code(runner_fixture_templates(cell)));
        assert(asks_for_fresh_code(runner_test_templates(cell)));
        assert(asks_for_fresh_code(runner_section(nb, count - 1, target)));
        let before = runner_sections(nb, count - 1, target);
        let added = runner_section(nb, count - 1, target);
        assert forall|i: int| 0 <= i < (before + added).len() implies (#[trigger] (before
            + added)[i]).body == fresh_code() by {
            if i >= before.len() {
                assert((before + added)[i] == added[i - before.len()]);
            }
        }
    }
}

/// A notebook that was made to run a test and was never run says that its
/// results cell printed nothing.
pub proof fn unrun_test_has_no_results(
    made: NotebookModel,
    source: NotebookModel,
    target: int,
    cell_id: Seq<char>,
    test_name: Seq<char>,
)
    requires
        is_test_notebook(made, source, target),
        target >= 0,
    ensures
        test_outcome(made, cell_id, test_name) == (TestResultModel::Error {
            cell_id,
            test_name,
            error: plain_error("results"@, "Results cell produced no output"@),
        }),
{
    let cells = made.cells;
    let sections = runner_sections(source, run_count(source, target), target);
    let templates = runner_templates(source, target);
    sections_are_fresh(source, run_count(source, target), target);
    assert forall|i: int| 0 <= i < cells.len() implies (#[trigger] cells[i]).body
        == fresh_code() by {
        assert(fits(cells[i], templates[i]));
        if i >= sections.len() {
            assert(templates[i] == closing_templates()[i - sections.len()]);
        } else {
            assert(templates[i] == sections[i]);
        }
    }
    assert forall|i: int| 0 <= i < cells.len() implies cell_error(#[trigger] cells[i]) is None by {
        assert(cells[i].body == fresh_code());
    }
    no_setup_error(cells);
    no_first_error(cells);
    let at = sections.len() as int;
    assert(fits(cells[at], templates[at]));
    assert(templates[at] == closing_templates()[0]);
    runner_roles_read_back("results"@, Seq::empty(), Seq::empty());
    role_is_found(cells, "results"@, at);
    let found = role_index(cells, "results"@);
    assert(cells[found].body == fresh_code());
    assert(printed_results(Seq::<OutputModel>::empty()) is None);
    assert(results_in(cells) is None);
}

} // verus!
