//! What the notebook that runs a test is made of.
use vstd::prelude::*;

use crate::cells::{code_template, fits, fresh_code, role_fields, tag};
use crate::diff_utils::patched_text;
use crate::fixtures::{
    by_priority, by_priority_sorts, priorities_ascend, priority_index, priority_index_splits,
    FixtureModel,
};
use crate::json::{member_index_unique, string_literal, JsonModel};
use crate::metadata::METADATA_KEY;
use crate::notebook::{nested_text, CellModel, NotebookModel};
use crate::test_runner::{
    closing_templates, is_test_notebook, run_count, runner_fields, runner_fixture_fields,
    runner_fixture_template, runner_fixture_templates, runner_section, runner_sections,
    runner_source_template, runner_templates, runner_test_templates,
};
use crate::text::{bare_lines, joined, lines_give_text_back};

verus! {

// ---------------------------------------------------------------------------
// Counting
// ---------------------------------------------------------------------------

/// The fixtures that are stored in a cell.
pub open spec fn stored_fixtures(cell: CellModel) -> Seq<(Seq<char>, FixtureModel)> {
    match cell.data() {
        Some(data) => match data.fixtures {
            Some(entries) => entries,
            None => Seq::empty(),
        },
        None => Seq::empty(),
    }
}

/// The number of code cells.
pub open spec fn code_total(cells: Seq<CellModel>) -> nat
    decreases cells.len(),
{
    if cells.len() == 0 {
        0
    } else {
        code_total(cells.drop_last()) + if cells.last().is_code() {
            1nat
        } else {
            0nat
        }
    }
}

/// The number of fixtures of all code cells.
pub open spec fn fixture_total(cells: Seq<CellModel>) -> nat
    decreases cells.len(),
{
    if cells.len() == 0 {
        0
    } else {
        fixture_total(cells.drop_last()) + if cells.last().is_code() {
            stored_fixtures(cells.last()).len()
        } else {
            0nat
        }
    }
}

/// The number of tests that run: one, if the target is code with a test.
pub open spec fn test_total(source: NotebookModel, target: int) -> nat {
    if 0 <= target < source.cells.len() && source.cells[target].is_code() && (
    source.cells[target].data() matches Some(data) && data.test is Some) {
        1
    } else {
        0
    }
}

/// The number of cells that stand before those of the cell at a position: the
/// setup cell, and the fixtures and the sources of all code cells before it.
pub open spec fn cells_before(source: NotebookModel, index: int) -> int {
    1int + fixture_total(source.cells.take(index)) + code_total(source.cells.take(index))
}

// ---------------------------------------------------------------------------
// Tags
// ---------------------------------------------------------------------------

/// What a tag of the runner says under a key.
pub open spec fn runner_says(cell: CellModel, key: Seq<char>) -> Option<Seq<char>> {
    nested_text(cell.additional, "runner"@, key)
}

/// Whether a cell is code that was never run, with the given text and a tag with
/// the given role, for the cell of the given id.
pub open spec fn runs_for(
    cell: CellModel,
    role: Seq<char>,
    cell_id: Seq<char>,
    text: Seq<char>,
) -> bool {
    &&& cell.body == fresh_code()
    &&& cell.text() == text
    &&& runner_says(cell, "role"@) == Some(role)
    &&& runner_says(cell, "source_cell_id"@) == Some(cell_id)
}

/// A text in the fields of a tag is read back.
proof fn tag_text_reads_back(fields: JsonModel, key: Seq<char>, at: int)
    requires
        fields matches JsonModel::Object(entries) && 0 <= at < entries.len() && entries[at].0
            == key && entries[at].1 is Text && forall|i: int|
            0 <= i < at ==> (#[trigger] entries[i]).0 != key,
    ensures
        nested_text(tag("runner"@, fields), "runner"@, key) == Some(
            fields->Object_0[at].1->Text_0,
        ),
{
    let members = seq![("runner"@, fields)];
    member_index_unique(tag("runner"@, fields), METADATA_KEY@, 0);
    member_index_unique(members, "runner"@, 0);
    member_index_unique(fields->Object_0, key, at);
}

/// What the tags of the runner say.
proof fn tags_read_back(role: Seq<char>, cell_id: Seq<char>, name: Seq<char>)
    ensures
        nested_text(tag("runner"@, role_fields(role)), "runner"@, "role"@) == Some(role),
        nested_text(tag("runner"@, runner_fields(role, cell_id)), "runner"@, "role"@) == Some(role),
        nested_text(tag("runner"@, runner_fields(role, cell_id)), "runner"@, "source_cell_id"@)
            == Some(cell_id),
        nested_text(tag("runner"@, runner_fixture_fields(cell_id, name)), "runner"@, "role"@)
            == Some("fixture"@),
        nested_text(
            tag("runner"@, runner_fixture_fields(cell_id, name)),
            "runner"@,
            "source_cell_id"@,
        ) == Some(cell_id),
        nested_text(
            tag("runner"@, runner_fixture_fields(cell_id, name)),
            "runner"@,
            "fixture_name"@,
        ) == Some(name),
{
    reveal_strlit("role");
    reveal_strlit("source_cell_id");
    reveal_strlit("fixture_name");
    assert("role"@.len() == 4);
    assert("source_cell_id"@.len() == 14);
    assert("fixture_name"@.len() == 12);
    tag_text_reads_back(role_fields(role), "role"@, 0);
    tag_text_reads_back(runner_fields(role, cell_id), "role"@, 0);
    tag_text_reads_back(runner_fields(role, cell_id), "source_cell_id"@, 1);
    let fields = runner_fixture_fields(cell_id, name);
    tag_text_reads_back(fields, "fixture_name"@, 0);
    tag_text_reads_back(fields, "role"@, 1);
    tag_text_reads_back(fields, "source_cell_id"@, 2);
}

/// A cell that fits a code template has its text.
proof fn fitting_text(
    cell: CellModel,
    id: Option<Seq<char>>,
    section: Seq<char>,
    fields: JsonModel,
    text: Seq<char>,
)
    requires
        fits(cell, code_template(id, section, fields, text)),
    ensures
        cell.text() == text,
        cell.additional == tag(section, fields),
        cell.body == fresh_code(),
{
    lines_give_text_back(text);
}

// ---------------------------------------------------------------------------
// Layout
// ---------------------------------------------------------------------------

/// The cells that run the fixtures of a cell, one for each of them.
proof fn fixture_cells(cell: CellModel)
    ensures
        runner_fixture_templates(cell).len() == stored_fixtures(cell).len(),
        by_priority(stored_fixtures(cell)).len() == stored_fixtures(cell).len(),
        forall|k: int|
            0 <= k < stored_fixtures(cell).len() ==> #[trigger] runner_fixture_templates(cell)[k]
                == runner_fixture_template(
                cell.id,
                by_priority(stored_fixtures(cell))[k].0,
                by_priority(stored_fixtures(cell))[k].1,
            ),
{
    by_priority_sorts(stored_fixtures(cell));
}

/// The number of cells for the first cells of the source.
proof fn sections_length(nb: NotebookModel, count: int, target: int)
    requires
        0 <= count <= nb.cells.len(),
        count <= target + 1,
    ensures
        runner_sections(nb, count, target).len() == cells_before(nb, count) + if count == target
            + 1 {
            test_total(nb, target)
        } else {
            0
        },
    decreases count,
{
    let cells = nb.cells;
    if count > 0 {
        sections_length(nb, count - 1, target);
        assert(cells.take(count).drop_last() =~= cells.take(count - 1));
        assert(cells.take(count).last() == cells[count - 1]);
        fixture_cells(cells[count - 1]);
    }
}

/// Where the cells for one cell of the source stand.
proof fn section_in_place(nb: NotebookModel, count: int, target: int, index: int)
    requires
        0 <= index < count <= nb.cells.len(),
        count <= target + 1,
    ensures
        ({
            let all = runner_sections(nb, count, target);
            let own = runner_section(nb, index, target);
            let start = cells_before(nb, index);
            &&& start + own.len() <= all.len()
            &&& forall|k: int| 0 <= k < own.len() ==> #[trigger] all[start + k] == own[k]
        }),
    decreases count,
{
    sections_length(nb, count - 1, target);
    if index < count - 1 {
        section_in_place(nb, count - 1, target, index);
        let before = runner_sections(nb, count - 1, target);
        let all = runner_sections(nb, count, target);
        let own = runner_section(nb, index, target);
        let start = cells_before(nb, index);
        assert forall|k: int| 0 <= k < own.len() implies #[trigger] all[start + k] == own[k] by {
            assert(all[start + k] == before[start + k]);
        }
    }
}

/// Every code cell up to the target runs, each behind its fixtures, whether it
/// is the target or not. The fixtures of a cell stand directly before it, all of
/// them, by ascending priority, each as a function that is called; behind them
/// the source of the cell is loaded, with its diff applied if it applies.
pub proof fn every_cell_runs_after_its_fixtures(
    made: NotebookModel,
    source: NotebookModel,
    target: int,
    index: int,
)
    requires
        is_test_notebook(made, source, target),
        0 <= index <= target,
        index < source.cells.len(),
        source.cells[index].is_code(),
    ensures
        ({
            let cell = source.cells[index];
            let fixtures = stored_fixtures(cell);
            let order = by_priority(fixtures);
            let start = cells_before(source, index);
            &&& order.to_multiset() == fixtures.to_multiset()
            &&& priorities_ascend(order)
            &&& 1 <= start
            &&& start + fixtures.len() < made.cells.len() - 2
            &&& forall|k: int|
                0 <= k < fixtures.len() ==> runner_says(
                    #[trigger] made.cells[start + k],
                    "fixture_name"@,
                ) == Some(order[k].0) && runs_for(
                    made.cells[start + k],
                    "fixture"@,
                    cell.id,
                    "def _nb_fixture_"@ + order[k].0 + "():\n"@ + joined(
                        bare_lines(order[k].1.source).map_values(
                            |line: Seq<char>| "    "@ + line,
                        ),
                        "\n"@,
                    ) + "\n\n_nb_fixture_"@ + order[k].0 + "()"@,
                )
            &&& ({
                let loaded = match cell.data() {
                    Some(data) => match data.diff {
                        Some(diff) => match patched_text(cell.text(), diff) {
                            Ok(text) => text,
                            Err(_) => cell.text(),
                        },
                        None => cell.text(),
                    },
                    None => cell.text(),
                };
                runs_for(
                    made.cells[start + fixtures.len()],
                    "cell_source"@,
                    cell.id,
                    "nota_bene._runner.load_cell("@ + string_literal(loaded)
                        + ")\nnota_bene.execute_cell()"@,
                )
            })
        }),
{
    let cell = source.cells[index];
    let fixtures = stored_fixtures(cell);
    let order = by_priority(fixtures);
    let start = cells_before(source, index);
    let count = run_count(source, target);
    let own = runner_section(source, index, target);
    let templates = runner_templates(source, target);
    let sections = runner_sections(source, count, target);
    by_priority_sorts(fixtures);
    fixture_cells(cell);
    section_in_place(source, count, target, index);
    assert(own.len() >= fixtures.len() + 1);
    assert forall|k: int| 0 <= k < fixtures.len() implies runner_says(
        #[trigger] made.cells[start + k],
        "fixture_name"@,
    ) == Some(order[k].0) && runs_for(
        made.cells[start + k],
        "fixture"@,
        cell.id,
        "def _nb_fixture_"@ + order[k].0 + "():\n"@ + joined(
            bare_lines(order[k].1.source).map_values(|line: Seq<char>| "    "@ + line),
            "\n"@,
        ) + "\n\n_nb_fixture_"@ + order[k].0 + "()"@,
    ) by {
        assert(fits(made.cells[start + k], templates[start + k]));
        assert(templates[start + k] == sections[start + k]);
        assert(sections[start + k] == own[k]);
        assert(own[k] == runner_fixture_templates(cell)[k]);
        let template = runner_fixture_template(cell.id, order[k].0, order[k].1);
        assert(own[k] == template);
        fitting_text(
            made.cells[start + k],
            None,
            "runner"@,
            runner_fixture_fields(cell.id, order[k].0),
            crate::test_runner::fixture_function(order[k].0, order[k].1.source),
        );
        tags_read_back("fixture"@, cell.id, order[k].0);
    }
    let at = start + fixtures.len();
    assert(fits(made.cells[at], templates[at]));
    assert(templates[at] == sections[at]);
    assert(sections[start + fixtures.len()] == own[fixtures.len() as int]);
    assert(own[fixtures.len() as int] == runner_source_template(cell));
    fitting_text(
        made.cells[at],
        None,
        "runner"@,
        runner_fields("cell_source"@, cell.id),
        crate::test_runner::load_text(
            crate::edit::source_after_diff(cell.text(), crate::test_runner::diff_of(cell)),
        ),
    );
    tags_read_back("cell_source"@, cell.id, Seq::empty());
}

/// The notebook that runs a test holds nothing but the setup cell, the fixtures
/// and the sources of the code cells up to the target, the test of the target,
/// and the cells that print the results and clean up. The test stands directly
/// behind the source of the target.
pub proof fn test_notebook_holds_nothing_else(
    made: NotebookModel,
    source: NotebookModel,
    target: int,
)
    requires
        is_test_notebook(made, source, target),
        target >= 0,
    ensures
        ({
            let ran = source.cells.take(
                if target < source.cells.len() {
                    target + 1
                } else {
                    source.cells.len() as int
                },
            );
            let count = made.cells.len();
            &&& count == 3 + fixture_total(ran) + code_total(ran) + test_total(source, target)
            &&& runner_says(made.cells[0], "role"@) == Some("setup"@)
            &&& runner_says(made.cells[count - 2], "role"@) == Some("results"@)
            &&& runner_says(made.cells[count - 1], "role"@) == Some("teardown"@)
            &&& test_total(source, target) == 1 ==> runs_for(
                made.cells[count - 3],
                "test"@,
                source.cells[target].id,
                source.cells[target].data()->0.test->0.source,
            )
        }),
{
    let count = run_count(source, target);
    let ran = source.cells.take(count);
    let templates = runner_templates(source, target);
    let sections = runner_sections(source, count, target);
    if target < source.cells.len() {
        sections_length(source, count, target);
    } else {
        sections_length(source, count, target);
    }
    let last = made.cells.len() - 1;
    tags_read_back("setup"@, Seq::empty(), Seq::empty());
    tags_read_back("results"@, Seq::empty(), Seq::empty());
    tags_read_back("teardown"@, Seq::empty(), Seq::empty());
    first_is_setup(source, count, target);
    assert(fits(made.cells[0], templates[0]));
    assert(templates[0] == sections[0]);
    assert(fits(made.cells[last - 1], templates[last - 1]));
    assert(templates[last - 1] == closing_templates()[0]);
    assert(fits(made.cells[last], templates[last]));
    assert(templates[last] == closing_templates()[1]);
    if test_total(source, target) == 1 {
        let cell = source.cells[target];
        let own = runner_section(source, target, target);
        let at = last - 2;
        sections_length(source, target, target);
        fixture_cells(cell);
        assert(own.last() == runner_test_templates(cell)[0]);
        assert(sections.last() == own.last());
        assert(templates[at] == sections[at]);
        assert(fits(made.cells[at], templates[at]));
        tags_read_back("test"@, cell.id, Seq::empty());
        fitting_text(
            made.cells[at],
            None,
            "runner"@,
            runner_fields("test"@, cell.id),
            cell.data()->0.test->0.source,
        );
    }
}

/// The first cell of the notebook that runs a test sets up.
proof fn first_is_setup(nb: NotebookModel, count: int, target: int)
    ensures
        runner_sections(nb, count, target).len() > 0,
        runner_sections(nb, count, target)[0] == code_template(
            None,
            "runner"@,
            role_fields("setup"@),
            "import nota_bene"@,
        ),
    decreases count,
{
    if count > 0 {
        first_is_setup(nb, count - 1, target);
    }
}

/// The number of cells that the runner tagged with a role.
pub open spec fn role_total(cells: Seq<CellModel>, role: Seq<char>) -> nat
    decreases cells.len(),
{
    if cells.len() == 0 {
        0
    } else {
        role_total(cells.drop_last(), role) + if runner_says(cells.last(), "role"@) == Some(role) {
            1nat
        } else {
            0nat
        }
    }
}

/// Roles of cells put together.
proof fn role_total_of_sum(first: Seq<CellModel>, second: Seq<CellModel>, role: Seq<char>)
    ensures
        role_total(first + second, role) == role_total(first, role) + role_total(second, role),
    decreases second.len(),
{
    if second.len() == 0 {
        assert(first + second =~= first);
    } else {
        role_total_of_sum(first, second.drop_last(), role);
        assert((first + second).drop_last() =~= first + second.drop_last());
    }
}

/// Cells of one role.
proof fn role_total_of_all(cells: Seq<CellModel>, own: Seq<char>, role: Seq<char>)
    requires
        forall|i: int|
            0 <= i < cells.len() ==> runner_says(#[trigger] cells[i], "role"@) == Some(own),
    ensures
        role_total(cells, role) == if own == role {
            cells.len()
        } else {
            0
        },
    decreases cells.len(),
{
    if cells.len() > 0 {
        assert(runner_says(cells[cells.len() - 1], "role"@) == Some(own));
        let front = cells.drop_last();
        assert forall|i: int| 0 <= i < front.len() implies runner_says(#[trigger] front[i], "role"@)
            == Some(own) by {
            assert(front[i] == cells[i]);
        }
        role_total_of_all(front, own, role);
    }
}

/// The roles of the runner differ.
proof fn roles_differ()
    ensures
        "setup"@ != "fixture"@,
        "setup"@ != "cell_source"@,
        "setup"@ != "test"@,
        "fixture"@ != "cell_source"@,
        "fixture"@ != "test"@,
        "cell_source"@ != "test"@,
        "results"@ != "fixture"@,
        "results"@ != "cell_source"@,
        "results"@ != "test"@,
        "teardown"@ != "fixture"@,
        "teardown"@ != "cell_source"@,
        "teardown"@ != "test"@,
{
    reveal_strlit("setup");
    reveal_strlit("fixture");
    reveal_strlit("cell_source");
    reveal_strlit("test");
    reveal_strlit("results");
    reveal_strlit("teardown");
    assert("setup"@.len() == 5);
    assert("fixture"@.len() == 7);
    assert("cell_source"@.len() == 11);
    assert("test"@.len() == 4);
    assert("results"@.len() == 7);
    assert("teardown"@.len() == 8);
    assert("fixture"@[0] != "results"@[0]);
}

/// The roles of the cells for one cell of the source.
proof fn section_roles(nb: NotebookModel, index: int, target: int, cells: Seq<CellModel>)
    requires
        0 <= index < nb.cells.len(),
        crate::cells::all_fit(cells, runner_section(nb, index, target)),
    ensures
        role_total(cells, "fixture"@) == if nb.cells[index].is_code() {
            stored_fixtures(nb.cells[index]).len()
        } else {
            0
        },
        role_total(cells, "cell_source"@) == if nb.cells[index].is_code() {
            1nat
        } else {
            0
        },
        role_total(cells, "test"@) == if index == target {
            test_total(nb, target)
        } else {
            0
        },
{
    let cell = nb.cells[index];
    roles_differ();
    if cell.is_code() {
        let own = runner_section(nb, index, target);
        let n = stored_fixtures(cell).len() as int;
        fixture_cells(cell);
        let first = cells.take(n);
        let middle = cells.subrange(n, n + 1);
        let rest = cells.skip(n + 1);
        assert forall|i: int| 0 <= i < first.len() implies runner_says(#[trigger] first[i], "role"@)
            == Some("fixture"@) by {
            assert(fits(cells[i], own[i]));
            assert(own[i] == runner_fixture_templates(cell)[i]);
            let entry = by_priority(stored_fixtures(cell))[i];
            tags_read_back("fixture"@, cell.id, entry.0);
        }
        assert(runner_says(middle[0], "role"@) == Some("cell_source"@)) by {
            assert(fits(cells[n], own[n]));
            assert(own[n] == runner_source_template(cell));
            tags_read_back("cell_source"@, cell.id, Seq::empty());
        }
        assert forall|i: int| 0 <= i < rest.len() implies runner_says(#[trigger] rest[i], "role"@)
            == Some("test"@) by {
            assert(fits(cells[n + 1 + i], own[n + 1 + i]));
            assert(own[n + 1 + i] == runner_test_templates(cell)[i]);
            tags_read_back("test"@, cell.id, Seq::empty());
        }
        assert(cells =~= first + middle + rest);
        assert forall|role: Seq<char>| #[trigger] role_total(cells, role) == role_total(first, role)
            + role_total(middle, role) + role_total(rest, role) by {
            role_total_of_sum(first + middle, rest, role);
            role_total_of_sum(first, middle, role);
        }
        assert forall|role: Seq<char>| #[trigger] role_total(first, role) == if role
            == "fixture"@ {
            first.len()
        } else {
            0
        } by {
            role_total_of_all(first, "fixture"@, role);
        }
        assert forall|role: Seq<char>| #[trigger] role_total(middle, role) == if role
            == "cell_source"@ {
            1nat
        } else {
            0
        } by {
            role_total_of_all(middle, "cell_source"@, role);
        }
        assert forall|role: Seq<char>| #[trigger] role_total(rest, role) == if role == "test"@ {
            rest.len()
        } else {
            0
        } by {
            role_total_of_all(rest, "test"@, role);
        }
    }
}

/// The roles of the cells for the first cells of the source.
proof fn sections_roles(nb: NotebookModel, count: int, target: int, cells: Seq<CellModel>)
    requires
        0 <= count <= nb.cells.len(),
        count <= target + 1,
        crate::cells::all_fit(cells, runner_sections(nb, count, target)),
    ensures
        role_total(cells, "fixture"@) == fixture_total(nb.cells.take(count)),
        role_total(cells, "cell_source"@) == code_total(nb.cells.take(count)),
        role_total(cells, "test"@) == if count == target + 1 {
            test_total(nb, target)
        } else {
            0
        },
    decreases count,
{
    roles_differ();
    if count <= 0 {
        let only = runner_sections(nb, count, target);
        assert(fits(cells[0], only[0]));
        tags_read_back("setup"@, Seq::empty(), Seq::empty());
        role_total_of_all(cells, "setup"@, "fixture"@);
        role_total_of_all(cells, "setup"@, "cell_source"@);
        role_total_of_all(cells, "setup"@, "test"@);
    } else {
        let all = runner_sections(nb, count, target);
        let before = runner_sections(nb, count - 1, target);
        let own = runner_section(nb, count - 1, target);
        let front = cells.take(before.len() as int);
        let back = cells.skip(before.len() as int);
        assert forall|i: int| 0 <= i < front.len() implies fits(#[trigger] front[i], before[i]) by {
            assert(fits(cells[i], all[i]));
        }
        assert forall|i: int| 0 <= i < back.len() implies fits(#[trigger] back[i], own[i]) by {
            assert(fits(cells[before.len() + i], all[before.len() + i]));
        }
        sections_roles(nb, count - 1, target, front);
        section_roles(nb, count - 1, target, back);
        assert(cells =~= front + back);
        role_total_of_sum(front, back, "fixture"@);
        role_total_of_sum(front, back, "cell_source"@);
        role_total_of_sum(front, back, "test"@);
        assert(nb.cells.take(count).drop_last() =~= nb.cells.take(count - 1));
        assert(nb.cells.take(count).last() == nb.cells[count - 1]);
    }
}

/// In the notebook that runs a test there is a fixture cell for every fixture of
/// every code cell up to the target, a source cell for each of these, and one
/// test cell if the target is code with a test.
pub proof fn test_notebook_runs_all(made: NotebookModel, source: NotebookModel, target: int)
    requires
        is_test_notebook(made, source, target),
        target >= 0,
    ensures
        ({
            let ran = source.cells.take(
                if target < source.cells.len() {
                    target + 1
                } else {
                    source.cells.len() as int
                },
            );
            &&& role_total(made.cells, "fixture"@) == fixture_total(ran)
            &&& role_total(made.cells, "cell_source"@) == code_total(ran)
            &&& role_total(made.cells, "test"@) == test_total(source, target)
        }),
{
    let count = run_count(source, target);
    let sections = runner_sections(source, count, target);
    let templates = runner_templates(source, target);
    let n = sections.len() as int;
    let front = made.cells.take(n);
    let results = made.cells.subrange(n, n + 1);
    let teardown = made.cells.skip(n + 1);
    roles_differ();
    tags_read_back("results"@, Seq::empty(), Seq::empty());
    tags_read_back("teardown"@, Seq::empty(), Seq::empty());
    assert forall|i: int| 0 <= i < front.len() implies fits(#[trigger] front[i], sections[i]) by {
        assert(fits(made.cells[i], templates[i]));
    }
    sections_roles(source, count, target, front);
    assert(fits(made.cells[n], templates[n]));
    assert(templates[n] == closing_templates()[0]);
    assert(fits(made.cells[n + 1], templates[n + 1]));
    assert(templates[n + 1] == closing_templates()[1]);
    assert(made.cells =~= front + results + teardown);
    assert forall|role: Seq<char>|
        role != "results"@ && role != "teardown"@ implies #[trigger] role_total(made.cells, role)
        == role_total(front, role) by {
        role_total_of_sum(front + results, teardown, role);
        role_total_of_sum(front, results, role);
        role_total_of_all(results, "results"@, role);
        role_total_of_all(teardown, "teardown"@, role);
    }
}

// ---------------------------------------------------------------------------
// Fixtures of equal priority
// ---------------------------------------------------------------------------

/// The fixtures of a priority, in their order.
pub open spec fn of_priority(entries: Seq<(Seq<char>, FixtureModel)>, priority: i64) -> Seq<
    (Seq<char>, FixtureModel),
>
    decreases entries.len(),
{
    if entries.len() == 0 {
        Seq::empty()
    } else {
        let front = of_priority(entries.drop_last(), priority);
        if entries.last().1.priority == priority {
            front.push(entries.last())
        } else {
            front
        }
    }
}

/// The fixtures of a priority among entries put together.
proof fn of_priority_sum(
    first: Seq<(Seq<char>, FixtureModel)>,
    second: Seq<(Seq<char>, FixtureModel)>,
    priority: i64,
)
    ensures
        of_priority(first + second, priority) == of_priority(first, priority) + of_priority(
            second,
            priority,
        ),
    decreases second.len(),
{
    if second.len() == 0 {
        assert(first + second =~= first);
        assert(of_priority(first, priority) + of_priority(second, priority) =~= of_priority(
            first,
            priority,
        ));
    } else {
        of_priority_sum(first, second.drop_last(), priority);
        assert((first + second).drop_last() =~= first + second.drop_last());
        assert(of_priority(first + second, priority) =~= of_priority(first, priority)
            + of_priority(second, priority));
    }
}

/// No fixture of a priority is found among others.
proof fn none_of_priority(entries: Seq<(Seq<char>, FixtureModel)>, priority: i64)
    requires
        forall|i: int| 0 <= i < entries.len() ==> (#[trigger] entries[i]).1.priority != priority,
    ensures
        of_priority(entries, priority).len() == 0,
    decreases entries.len(),
{
    if entries.len() > 0 {
        assert(entries[entries.len() - 1].1.priority != priority);
        none_of_priority(entries.drop_last(), priority);
    }
}

/// Fixtures of equal priority run in the order in which they are stored.
pub proof fn equal_priorities_keep_order(
    entries: Seq<(Seq<char>, FixtureModel)>,
    priority: i64,
)
    ensures
        of_priority(by_priority(entries), priority) == of_priority(entries, priority),
    decreases entries.len(),
{
    if entries.len() > 0 {
        let entry = entries.last();
        let before = by_priority(entries.drop_last());
        equal_priorities_keep_order(entries.drop_last(), priority);
        by_priority_sorts(entries.drop_last());
        let at = priority_index(before, entry.1.priority);
        priority_index_splits(before, entry.1.priority);
        let low = before.take(at);
        let high = before.skip(at);
        let after = by_priority(entries);
        assert(after =~= low.push(entry) + high);
        assert(before =~= low + high);
        of_priority_sum(low.push(entry), high, priority);
        of_priority_sum(low, high, priority);
        assert(low.push(entry).drop_last() =~= low);
        if entry.1.priority == priority {
            assert forall|i: int| 0 <= i < high.len() implies (#[trigger] high[i]).1.priority
                != priority by {
                assert(high[i] == before[at + i]);
            }
            none_of_priority(high, priority);
            assert(of_priority(high, priority) =~= Seq::empty());
            assert(of_priority(after, priority) =~= of_priority(entries, priority));
        }
    }
}

} // verus!
