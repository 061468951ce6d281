//! What the sections of an editor notebook are read as.
use vstd::prelude::*;

use crate::fixtures::FixtureModel;
use crate::notebook::{nested_text, CellModel, NotebookModel};
use crate::save::{
    finished, new_section, parsed_fixture, parsed_test, read_cell, read_cells, reading_warnings,
    sections_of, with_current, BuilderModel, ReadState,
};
use crate::text::trimmed;

verus! {

// ---------------------------------------------------------------------------
// Cells
// ---------------------------------------------------------------------------

/// What the tag of the editor says under a key.
pub open spec fn editor_says(cell: CellModel, key: Seq<char>) -> Option<Seq<char>> {
    nested_text(cell.additional, "editor"@, key)
}

/// Whether a cell begins a section.
pub open spec fn is_header(cell: CellModel) -> bool {
    editor_says(cell, "role"@) == Some("section-header"@)
}

/// Whether a cell holds the source of its section.
pub open spec fn is_source(cell: CellModel) -> bool {
    editor_says(cell, "role"@) == Some("source"@) || editor_says(cell, "role"@) == Some(
        "patched-source"@,
    )
}

/// Whether a cell is tagged as the test of its section.
pub open spec fn is_test(cell: CellModel) -> bool {
    editor_says(cell, "role"@) == Some("test"@)
}

/// Whether a cell is tagged as a fixture of its section.
pub open spec fn is_fixture(cell: CellModel) -> bool {
    editor_says(cell, "role"@) == Some("fixture"@)
}

/// Whether a cell is code without a role: one that was added by hand.
pub open spec fn is_added(cell: CellModel) -> bool {
    &&& cell.is_code()
    &&& editor_says(cell, "role"@) != Some("setup"@)
    &&& !is_header(cell)
    &&& !is_source(cell)
    &&& !is_test(cell)
    &&& !is_fixture(cell)
}

/// Whether the source of a section stands before a position.
pub open spec fn behind_source(body: Seq<CellModel>, at: int) -> bool {
    exists|j: int| 0 <= j < at && is_source(#[trigger] body[j])
}

/// Whether the cell at a position was added behind the source.
pub open spec fn added_behind(body: Seq<CellModel>, at: int) -> bool {
    0 <= at < body.len() && is_added(body[at]) && behind_source(body, at)
}

/// Whether the cell at a position sets something up: it is tagged as a fixture,
/// or was added before the source.
pub open spec fn sets_up(body: Seq<CellModel>, at: int) -> bool {
    0 <= at < body.len() && (is_fixture(body[at]) || (is_added(body[at]) && !behind_source(
        body,
        at,
    )))
}

/// The number of sections that begin in a list of cells.
pub open spec fn header_total(cells: Seq<CellModel>) -> nat
    decreases cells.len(),
{
    if cells.len() == 0 {
        0
    } else {
        header_total(cells.drop_last()) + if is_header(cells.last()) {
            1nat
        } else {
            0nat
        }
    }
}

/// Whether no section begins in a list of cells.
pub open spec fn has_no_header(cells: Seq<CellModel>) -> bool {
    forall|i: int| 0 <= i < cells.len() ==> !is_header(#[trigger] cells[i])
}

/// The roles of the editor differ.
proof fn editor_roles_differ()
    ensures
        "setup"@ != "section-header"@,
        "setup"@ != "fixture"@,
        "setup"@ != "source"@,
        "setup"@ != "patched-source"@,
        "setup"@ != "test"@,
        "section-header"@ != "fixture"@,
        "section-header"@ != "source"@,
        "section-header"@ != "patched-source"@,
        "section-header"@ != "test"@,
        "fixture"@ != "source"@,
        "fixture"@ != "patched-source"@,
        "fixture"@ != "test"@,
        "source"@ != "test"@,
        "patched-source"@ != "test"@,
{
    reveal_strlit("setup");
    reveal_strlit("section-header");
    reveal_strlit("fixture");
    reveal_strlit("source");
    reveal_strlit("patched-source");
    reveal_strlit("test");
    assert("setup"@.len() == 5);
    assert("section-header"@.len() == 14);
    assert("fixture"@.len() == 7);
    assert("source"@.len() == 6);
    assert("patched-source"@.len() == 14);
    assert("test"@.len() == 4);
    assert("section-header"@[0] != "patched-source"@[0]);
}

// ---------------------------------------------------------------------------
// Fixtures
// ---------------------------------------------------------------------------

/// Whether a cell stands for a fixture that is not blank.
pub open spec fn has_fixture_text(cell: CellModel, cell_id: Seq<char>) -> bool {
    trimmed(parsed_fixture(cell.text(), cell_id, 0).1.source).len() > 0
}

/// The positions of the cells that set something up and are not blank.
pub open spec fn fixture_positions(body: Seq<CellModel>, cell_id: Seq<char>) -> Seq<int>
    decreases body.len(),
{
    if body.len() == 0 {
        Seq::empty()
    } else {
        let front = fixture_positions(body.drop_last(), cell_id);
        let at = body.len() - 1;
        if sets_up(body, at) && has_fixture_text(body[at], cell_id) {
            front.push(at)
        } else {
            front
        }
    }
}

/// What stands before a position does not depend on what stands behind it.
proof fn front_is_same(body: Seq<CellModel>, at: int)
    requires
        body.len() > 0,
        0 <= at <= body.len() - 1,
    ensures
        behind_source(body, at) == behind_source(body.drop_last(), at),
        at < body.len() - 1 ==> added_behind(body, at) == added_behind(body.drop_last(), at),
        at < body.len() - 1 ==> sets_up(body, at) == sets_up(body.drop_last(), at),
{
    let front = body.drop_last();
    if behind_source(body, at) {
        let j = choose|j: int| 0 <= j < at && is_source(#[trigger] body[j]);
        assert(is_source(front[j]));
    }
    if behind_source(front, at) {
        let j = choose|j: int| 0 <= j < at && is_source(#[trigger] front[j]);
        assert(is_source(body[j]));
    }
}

/// The positions of fixtures are all those of cells that set something up and
/// are not blank, in their order.
pub proof fn fixture_positions_are_all(body: Seq<CellModel>, cell_id: Seq<char>)
    ensures
        ({
            let positions = fixture_positions(body, cell_id);
            &&& forall|i: int, j: int|
                0 <= i < j < positions.len() ==> #[trigger] positions[i] < #[trigger] positions[j]
            &&& forall|at: int| #[trigger]
                positions.contains(at) <==> sets_up(body, at) && has_fixture_text(
                    body[at],
                    cell_id,
                )
        }),
    decreases body.len(),
{
    let positions = fixture_positions(body, cell_id);
    if body.len() > 0 {
        let less = body.drop_last();
        let front = fixture_positions(less, cell_id);
        fixture_positions_are_all(less, cell_id);
        assert forall|i: int, j: int| 0 <= i < j < positions.len() implies #[trigger] positions[i]
            < #[trigger] positions[j] by {
            if j < front.len() {
                assert(front[i] < front[j]);
            } else {
                assert(front.contains(front[i]));
            }
        }
        assert forall|at: int| #[trigger] positions.contains(at) <==> sets_up(body, at)
            && has_fixture_text(body[at], cell_id) by {
            assert(front.contains(at) <==> sets_up(less, at) && has_fixture_text(
                less[at],
                cell_id,
            ));
            if 0 <= at < body.len() - 1 {
                front_is_same(body, at);
                assert(less[at] == body[at]);
            }
            if positions.contains(at) {
                let k = choose|k: int| 0 <= k < positions.len() && positions[k] == at;
                if k < front.len() {
                    assert(front[k] == at);
                    assert(front.contains(at));
                }
            }
            if front.contains(at) {
                let k = choose|k: int| 0 <= k < front.len() && front[k] == at;
                assert(positions[k] == at);
            } else if positions.len() > front.len() && at == body.len() - 1 {
                assert(positions[front.len() as int] == at);
            }
        }
    } else {
        assert forall|at: int| #[trigger] positions.contains(at) <==> sets_up(body, at)
            && has_fixture_text(body[at], cell_id) by {}
    }
}

// ---------------------------------------------------------------------------
// One section
// ---------------------------------------------------------------------------

/// Whether a section that is being read holds the source that its cells say: the
/// text of the last cell with the source.
pub open spec fn reads_source(body: Seq<CellModel>, source: Option<Seq<char>>) -> bool {
    &&& source is None <==> forall|k: int| 0 <= k < body.len() ==> !is_source(#[trigger] body[k])
    &&& forall|at: int|
        0 <= at < body.len() && is_source(#[trigger] body[at]) && (forall|k: int|
            at < k < body.len() ==> !is_source(#[trigger] body[k])) ==> source == Some(
            body[at].text(),
        )
}

/// Whether a section that is being read holds the test that its cells say: that
/// of the last cell that is tagged as a test; without one, that of the first
/// cell that was added behind the source; else none.
pub open spec fn reads_test(
    body: Seq<CellModel>,
    name: Option<Seq<char>>,
    source: Option<Seq<char>>,
) -> bool {
    &&& forall|at: int|
        0 <= at < body.len() && is_test(#[trigger] body[at]) && (forall|k: int|
            at < k < body.len() ==> !is_test(#[trigger] body[k])) ==> name == Some(
            parsed_test(body[at].text()).0,
        ) && source == Some(parsed_test(body[at].text()).1)
    &&& (forall|k: int| 0 <= k < body.len() ==> !is_test(#[trigger] body[k])) ==> forall|at: int| #[trigger]
        added_behind(body, at) && (forall|k: int|
            0 <= k < at ==> !(#[trigger] added_behind(body, k))) ==> name == Some(
            parsed_test(body[at].text()).0,
        ) && source == Some(parsed_test(body[at].text()).1)
    &&& source is None <==> name is None
    &&& source is None <==> forall|k: int|
        0 <= k < body.len() ==> !is_test(#[trigger] body[k]) && !added_behind(body, k)
}

/// Whether a section that is being read holds the fixtures that its cells say:
/// one for each cell that sets something up and is not blank, in their order.
pub open spec fn reads_fixtures(
    body: Seq<CellModel>,
    cell_id: Seq<char>,
    fixtures: Seq<(Seq<char>, FixtureModel)>,
) -> bool {
    let positions = fixture_positions(body, cell_id);
    &&& fixtures.len() == positions.len()
    &&& forall|k: int|
        0 <= k < fixtures.len() ==> #[trigger] fixtures[k] == parsed_fixture(
            body[positions[k]].text(),
            cell_id,
            k as nat,
        )
}

/// Whether a section that is being read is what its cells say.
spec fn reads(body: Seq<CellModel>, cell_id: Seq<char>, section: BuilderModel) -> bool {
    &&& section.cell_id == cell_id
    &&& reads_source(body, section.patched_source)
    &&& reads_test(body, section.test_name, section.test_source)
    &&& reads_fixtures(body, cell_id, section.fixtures)
}

/// A section at its beginning.
proof fn reads_nothing(cell_id: Seq<char>)
    ensures
        reads(Seq::empty(), cell_id, new_section(cell_id)),
{
}

/// The source after one more cell.
proof fn reads_more_source(
    front: Seq<CellModel>,
    cell: CellModel,
    before: Option<Seq<char>>,
)
    requires
        reads_source(front, before),
    ensures
        reads_source(
            front.push(cell),
            if is_source(cell) {
                Some(cell.text())
            } else {
                before
            },
        ),
{
    let body = front.push(cell);
    let source = if is_source(cell) {
        Some(cell.text())
    } else {
        before
    };
    assert(body[front.len() as int] == cell);
    if !is_source(cell) && (forall|k: int|
        0 <= k < front.len() ==> !is_source(#[trigger] front[k])) {
        assert forall|k: int| 0 <= k < body.len() implies !is_source(#[trigger] body[k]) by {
            if k < front.len() {
                assert(body[k] == front[k]);
            }
        }
    }
    if forall|k: int| 0 <= k < body.len() ==> !is_source(#[trigger] body[k]) {
        assert forall|k: int| 0 <= k < front.len() implies !is_source(#[trigger] front[k]) by {
            assert(body[k] == front[k]);
        }
    }
    assert forall|at: int|
        0 <= at < body.len() && is_source(#[trigger] body[at]) && (forall|k: int|
            at < k < body.len() ==> !is_source(#[trigger] body[k])) implies source == Some(
        body[at].text(),
    ) by {
        if at < front.len() {
            assert(!is_source(body[front.len() as int]));
            assert(front[at] == body[at]);
            assert forall|k: int| at < k < front.len() implies !is_source(#[trigger] front[k]) by {
                assert(body[k] == front[k]);
            }
        }
    }
}

/// The fixtures after one more cell.
proof fn reads_more_fixtures(
    front: Seq<CellModel>,
    cell: CellModel,
    cell_id: Seq<char>,
    before: Seq<(Seq<char>, FixtureModel)>,
)
    requires
        reads_fixtures(front, cell_id, before),
    ensures
        ({
            let body = front.push(cell);
            reads_fixtures(
                body,
                cell_id,
                if sets_up(body, front.len() as int) && has_fixture_text(cell, cell_id) {
                    before.push(parsed_fixture(cell.text(), cell_id, before.len()))
                } else {
                    before
                },
            )
        }),
{
    let body = front.push(cell);
    assert(body.drop_last() =~= front);
    let old = fixture_positions(front, cell_id);
    let positions = fixture_positions(body, cell_id);
    fixture_positions_are_all(front, cell_id);
    let fixtures = if sets_up(body, front.len() as int) && has_fixture_text(cell, cell_id) {
        before.push(parsed_fixture(cell.text(), cell_id, before.len()))
    } else {
        before
    };
    assert forall|k: int| 0 <= k < fixtures.len() implies #[trigger] fixtures[k] == parsed_fixture(
        body[positions[k]].text(),
        cell_id,
        k as nat,
    ) by {
        if k < old.len() {
            assert(before[k] == fixtures[k]);
            assert(old.contains(old[k]));
            assert(body[old[k]] == front[old[k]]);
        }
    }
}

/// The test after one more cell.
proof fn reads_more_test(
    front: Seq<CellModel>,
    cell: CellModel,
    name: Option<Seq<char>>,
    source: Option<Seq<char>>,
)
    requires
        reads_test(front, name, source),
    ensures
        ({
            let body = front.push(cell);
            let taken = is_test(cell) || (added_behind(body, front.len() as int)
                && source is None);
            reads_test(
                body,
                if taken {
                    Some(parsed_test(cell.text()).0)
                } else {
                    name
                },
                if taken {
                    Some(parsed_test(cell.text()).1)
                } else {
                    source
                },
            )
        }),
{
    let body = front.push(cell);
    let last = front.len() as int;
    let taken = is_test(cell) || (added_behind(body, last) && source is None);
    let new_name = if taken {
        Some(parsed_test(cell.text()).0)
    } else {
        name
    };
    let new_source = if taken {
        Some(parsed_test(cell.text()).1)
    } else {
        source
    };
    assert(body.drop_last() =~= front);
    assert(body[last] == cell);
    assert forall|k: int| 0 <= k < last implies #[trigger] body[k] == front[k] && added_behind(
        body,
        k,
    ) == added_behind(front, k) by {
        front_is_same(body, k);
    }
    assert(is_test(cell) ==> !is_added(cell));
    assert forall|at: int|
        0 <= at < body.len() && is_test(#[trigger] body[at]) && (forall|k: int|
            at < k < body.len() ==> !is_test(#[trigger] body[k])) implies new_name == Some(
        parsed_test(body[at].text()).0,
    ) && new_source == Some(parsed_test(body[at].text()).1) by {
        if at < last {
            assert(!is_test(body[last]));
            assert(is_test(front[at]));
            assert forall|k: int| at < k < last implies !is_test(#[trigger] front[k]) by {
                assert(body[k] == front[k]);
            }
        }
    }
    if forall|k: int| 0 <= k < body.len() ==> !is_test(#[trigger] body[k]) {
        assert(!is_test(body[last]));
        assert forall|k: int| 0 <= k < last implies !is_test(#[trigger] front[k]) by {
            assert(body[k] == front[k]);
        }
        assert forall|at: int| #[trigger]
            added_behind(body, at) && (forall|k: int|
                0 <= k < at ==> !(#[trigger] added_behind(body, k))) implies new_name == Some(
            parsed_test(body[at].text()).0,
        ) && new_source == Some(parsed_test(body[at].text()).1) by {
            if at < last {
                assert(added_behind(front, at));
                assert forall|k: int| 0 <= k < at implies !(#[trigger] added_behind(front, k)) by {
                    assert(!added_behind(body, k));
                    assert(body[k] == front[k]);
                }
            } else {
                assert forall|k: int| 0 <= k < front.len() implies !is_test(#[trigger] front[k])
                    && !added_behind(front, k) by {
                    assert(!added_behind(body, k));
                    assert(body[k] == front[k]);
                }
                assert(source is None);
            }
        }
    }
    if new_source is None {
        assert forall|k: int| 0 <= k < body.len() implies !is_test(#[trigger] body[k])
            && !added_behind(body, k) by {
            if k < last {
                assert(!is_test(front[k]) && !added_behind(front, k));
            }
        }
    }
    if forall|k: int| 0 <= k < body.len() ==> !is_test(#[trigger] body[k]) && !added_behind(
        body,
        k,
    ) {
        assert(!is_test(body[last]) && !added_behind(body, last));
        assert forall|k: int| 0 <= k < front.len() implies !is_test(#[trigger] front[k])
            && !added_behind(front, k) by {
            assert(!is_test(body[k]) && !added_behind(body, k));
        }
    }
}

/// Reading one more cell of a section.
proof fn reads_more(
    state: ReadState,
    front: Seq<CellModel>,
    cell: CellModel,
    cell_id: Seq<char>,
)
    requires
        state.current is Some,
        reads(front, cell_id, state.current->0),
        !is_header(cell),
    ensures
        ({
            let after = read_cell(state, cell);
            &&& after.done == state.done
            &&& after.current is Some
            &&& reads(front.push(cell), cell_id, after.current->0)
        }),
{
    let section = state.current->0;
    let body = front.push(cell);
    let last = front.len() as int;
    let after = read_cell(state, cell);
    editor_roles_differ();
    reads_more_source(front, cell, section.patched_source);
    reads_more_fixtures(front, cell, cell_id, section.fixtures);
    reads_more_test(front, cell, section.test_name, section.test_source);
    assert(body.drop_last() =~= front);
    assert(behind_source(body, last) <==> section.patched_source is Some) by {
        if behind_source(body, last) {
            let j = choose|j: int| 0 <= j < last && is_source(#[trigger] body[j]);
            assert(is_source(front[j]));
        }
        if section.patched_source is Some {
            let k = choose|k: int| 0 <= k < front.len() && is_source(#[trigger] front[k]);
            assert(is_source(body[k]));
        }
    }
    let parsed = parsed_fixture(cell.text(), cell_id, section.fixtures.len());
    assert(parsed.1.source == parsed_fixture(cell.text(), cell_id, 0).1.source);
}

/// Reading the cells of a section.
#[verifier::spinoff_prover]
#[verifier::rlimit(50)]
proof fn reads_all(before: Seq<CellModel>, header: CellModel, body: Seq<CellModel>)
    requires
        is_header(header),
        has_no_header(body),
    ensures
        ({
            let state = read_cells(before + seq![header] + body);
            let id = match editor_says(header, "cell_id"@) {
                Some(id) => id,
                None => header.id,
            };
            &&& state.current is Some
            &&& reads(body, id, state.current->0)
            &&& state.done == with_current(
                read_cells(before).done,
                read_cells(before).current,
            )
        }),
    decreases body.len(),
{
    let id = match editor_says(header, "cell_id"@) {
        Some(id) => id,
        None => header.id,
    };
    editor_roles_differ();
    let cells = before + seq![header] + body;
    if body.len() == 0 {
        assert(cells.drop_last() =~= before);
        assert(cells.last() == header);
        reads_nothing(id);
        assert(body =~= Seq::empty());
    } else {
        let front = body.drop_last();
        let cell = body.last();
        assert forall|i: int| 0 <= i < front.len() implies !is_header(#[trigger] front[i]) by {
            assert(front[i] == body[i]);
        }
        assert(!is_header(body[body.len() - 1]));
        reads_all(before, header, front);
        assert(cells.drop_last() =~= before + seq![header] + front);
        assert(front.push(cell) =~= body);
        reads_more(read_cells(before + seq![header] + front), front, cell, id);
    }
}

// ---------------------------------------------------------------------------
// All sections
// ---------------------------------------------------------------------------

/// A section has been read, or is being read, for every header.
proof fn one_section_for_each_header(cells: Seq<CellModel>)
    ensures
        ({
            let state = read_cells(cells);
            with_current(state.done, state.current).len() == header_total(cells)
        }),
    decreases cells.len(),
{
    if cells.len() > 0 {
        one_section_for_each_header(cells.drop_last());
        editor_roles_differ();
    }
}

/// What has been read stays.
proof fn read_sections_stay(cells: Seq<CellModel>, count: int)
    requires
        0 <= count <= cells.len(),
    ensures
        ({
            let early = read_cells(cells.take(count)).done;
            let late = read_cells(cells).done;
            &&& early.len() <= late.len()
            &&& forall|i: int| 0 <= i < early.len() ==> #[trigger] late[i] == early[i]
        }),
    decreases cells.len(),
{
    if count == cells.len() {
        assert(cells.take(count) =~= cells);
    } else {
        let front = cells.drop_last();
        read_sections_stay(front, count);
        assert(front.take(count) =~= cells.take(count));
        let early = read_cells(cells.take(count)).done;
        let middle = read_cells(front).done;
        let late = read_cells(cells).done;
        assert forall|i: int| 0 <= i < early.len() implies #[trigger] late[i] == early[i] by {
            assert(middle[i] == early[i]);
        }
    }
}

/// Whether the cells of a section are those from a header up to the next one or
/// the end.
pub open spec fn is_section(cells: Seq<CellModel>, start: int, end: int) -> bool {
    &&& 0 <= start < end <= cells.len()
    &&& is_header(cells[start])
    &&& has_no_header(cells.subrange(start + 1, end))
    &&& end == cells.len() || is_header(cells[end])
}

/// For every header of an editor notebook there is a section, in their order. It
/// is about the cell that the header names, and holds what the cells up to the
/// next header say: the source is that of the last cell with the source. The
/// test is that of the last cell that is tagged as one; without any, that of the
/// first code cell that was added behind the source. The fixtures are those of
/// the cells that are tagged as fixtures, and of code cells that were added
/// before the source, in their order; blank ones do not count.
pub proof fn sections_hold_what_their_cells_say(editor: NotebookModel, start: int, end: int)
    requires
        is_section(editor.cells, start, end),
    ensures
        ({
            let header = editor.cells[start];
            let body = editor.cells.subrange(start + 1, end);
            let at = header_total(editor.cells.take(start)) as int;
            let section = sections_of(editor)[at];
            &&& sections_of(editor).len() == header_total(editor.cells)
            &&& at < sections_of(editor).len()
            &&& section.cell_id == match editor_says(header, "cell_id"@) {
                Some(id) => id,
                None => header.id,
            }
            &&& exists|source: Option<Seq<char>>| #[trigger]
                reads_source(body, source) && section.patched_source == match source {
                    Some(text) => text,
                    None => Seq::empty(),
                }
            &&& reads_test(body, section.test_name, section.test_source)
            &&& reads_fixtures(body, section.cell_id, section.fixtures)
        }),
{
    let cells = editor.cells;
    let before = cells.take(start);
    let header = cells[start];
    let body = cells.subrange(start + 1, end);
    let upto = cells.take(end);
    assert(upto =~= before + seq![header] + body);
    reads_all(before, header, body);
    one_section_for_each_header(before);
    one_section_for_each_header(cells);
    let state = read_cells(upto);
    let own = finished(state.current->0);
    let at = header_total(before) as int;
    assert(state.done.len() == at);
    if end == cells.len() {
        assert(upto =~= cells);
        assert(sections_of(editor)[at] == own);
    } else {
        let more = cells.take(end + 1);
        assert(more.drop_last() =~= upto);
        assert(more.last() == cells[end]);
        editor_roles_differ();
        assert(read_cells(more).done == state.done.push(own));
        read_sections_stay(cells, end + 1);
        assert(read_cells(cells).done[at] == read_cells(more).done[at]);
        assert(sections_of(editor)[at] == own);
    }
    assert(reads_source(body, state.current->0.patched_source));
}

/// Where the first cell that was added behind the source stands in its section.
proof fn first_added(cells: Seq<CellModel>, start: int, end: int, source: int, at: int)
    requires
        0 <= start < source < at < end <= cells.len(),
        is_source(cells[source]),
        is_added(cells[at]),
        forall|k: int| start < k < end ==> !is_test(#[trigger] cells[k]),
        forall|k: int| source < k < at ==> !is_added(#[trigger] cells[k]),
        forall|k: int| start < k < source ==> !is_source(#[trigger] cells[k]),
    ensures
        ({
            let body = cells.subrange(start + 1, end);
            let place = at - start - 1;
            &&& body[place] == cells[at]
            &&& added_behind(body, place)
            &&& forall|k: int| 0 <= k < body.len() ==> !is_test(#[trigger] body[k])
            &&& forall|k: int| 0 <= k < place ==> !(#[trigger] added_behind(body, k))
        }),
{
    let body = cells.subrange(start + 1, end);
    let place = at - start - 1;
    assert(body[source - start - 1] == cells[source]);
    assert(is_source(body[source - start - 1]));
    assert(behind_source(body, place));
    assert forall|k: int| 0 <= k < body.len() implies !is_test(#[trigger] body[k]) by {
        assert(body[k] == cells[start + 1 + k]);
    }
    assert forall|k: int| 0 <= k < place implies !(#[trigger] added_behind(body, k)) by {
        assert(body[k] == cells[start + 1 + k]);
        if added_behind(body, k) {
            let j = choose|j: int| 0 <= j < k && is_source(#[trigger] body[j]);
            assert(body[j] == cells[start + 1 + j]);
            assert(is_source(cells[start + 1 + j]));
        }
    }
}

/// The test of a section in which one was added by hand.
proof fn reads_added(
    body: Seq<CellModel>,
    name: Option<Seq<char>>,
    source: Option<Seq<char>>,
    place: int,
)
    requires
        reads_test(body, name, source),
        added_behind(body, place),
        forall|k: int| 0 <= k < body.len() ==> !is_test(#[trigger] body[k]),
        forall|k: int| 0 <= k < place ==> !(#[trigger] added_behind(body, k)),
    ensures
        name == Some(parsed_test(body[place].text()).0),
        source == Some(parsed_test(body[place].text()).1),
{
}

/// A test that was added by hand is read: if the cells of a section hold the
/// source, behind it a code cell without a role, and no cell that is tagged as a
/// test, then the section has the test that this cell stands for.
pub proof fn added_test_is_read(editor: NotebookModel, start: int, end: int, source: int, at: int)
    requires
        is_section(editor.cells, start, end),
        start < source < at < end,
        is_source(editor.cells[source]),
        is_added(editor.cells[at]),
        forall|k: int| start < k < end ==> !is_test(#[trigger] editor.cells[k]),
        forall|k: int| source < k < at ==> !is_added(#[trigger] editor.cells[k]),
        forall|k: int| start < k < source ==> !is_source(#[trigger] editor.cells[k]),
    ensures
        ({
            let section = sections_of(editor)[header_total(editor.cells.take(start)) as int];
            let test = parsed_test(editor.cells[at].text());
            section.test_name == Some(test.0) && section.test_source == Some(test.1)
        }),
{
    let section = sections_of(editor)[header_total(editor.cells.take(start)) as int];
    let body = editor.cells.subrange(start + 1, end);
    first_added(editor.cells, start, end, source, at);
    assert(reads_test(body, section.test_name, section.test_source)) by {
        sections_hold_what_their_cells_say(editor, start, end);
    }
    reads_added(body, section.test_name, section.test_source, at - start - 1);
}

// ---------------------------------------------------------------------------
// Warnings
// ---------------------------------------------------------------------------

/// Whether a cell stands in a section without a part in it: it is no code and
/// has no role.
pub open spec fn is_ignored(cell: CellModel) -> bool {
    &&& !cell.is_code()
    &&& editor_says(cell, "role"@) != Some("setup"@)
    &&& !is_header(cell)
    &&& !is_source(cell)
    &&& !is_test(cell)
    &&& !is_fixture(cell)
}

/// While a section is read its cell stays the same, and a test that was found
/// is not lost.
proof fn section_goes_on(before: Seq<CellModel>, header: CellModel, body: Seq<CellModel>)
    requires
        is_header(header),
        has_no_header(body),
    ensures
        ({
            let state = read_cells(before + seq![header] + body);
            &&& state.current is Some
            &&& state.current->0.cell_id == match editor_says(header, "cell_id"@) {
                Some(id) => id,
                None => header.id,
            }
            &&& (exists|i: int| 0 <= i < body.len() && is_test(#[trigger] body[i]))
                ==> state.current->0.test_source is Some
        }),
    decreases body.len(),
{
    editor_roles_differ();
    let cells = before + seq![header] + body;
    if body.len() == 0 {
        assert(cells.drop_last() =~= before);
        assert(cells.last() == header);
    } else {
        let front = body.drop_last();
        assert forall|i: int| 0 <= i < front.len() implies !is_header(#[trigger] front[i]) by {
            assert(front[i] == body[i]);
        }
        section_goes_on(before, header, front);
        assert(cells.drop_last() =~= before + seq![header] + front);
        assert(cells.last() == body.last());
        assert(!is_header(body[body.len() - 1]));
        if exists|i: int| 0 <= i < body.len() && is_test(#[trigger] body[i]) {
            let i = choose|i: int| 0 <= i < body.len() && is_test(#[trigger] body[i]);
            if i < front.len() {
                assert(front[i] == body[i]);
            }
        }
    }
}

/// Warnings that came up stay.
proof fn warnings_stay(cells: Seq<CellModel>, count: int, text: Seq<char>)
    requires
        0 <= count <= cells.len(),
        read_cells(cells.take(count)).warnings.contains(text),
    ensures
        read_cells(cells).warnings.contains(text),
    decreases cells.len() - count,
{
    if count == cells.len() {
        assert(cells.take(count) =~= cells);
    } else {
        let front = cells.take(count);
        let more = cells.take(count + 1);
        assert(more.drop_last() =~= front);
        let old = read_cells(front).warnings;
        let new = read_cells(more).warnings;
        let i = choose|i: int| 0 <= i < old.len() && old[i] == text;
        assert(new[i] == text);
        warnings_stay(cells, count + 1, text);
    }
}

/// A cell in a section that is no code and has no role is warned of: by its id
/// and by that of the cell that the section is about.
pub proof fn ignored_cells_are_warned_of(editor: NotebookModel, start: int, end: int, at: int)
    requires
        is_section(editor.cells, start, end),
        start < at < end,
        is_ignored(editor.cells[at]),
    ensures
        ({
            let id = match editor_says(editor.cells[start], "cell_id"@) {
                Some(id) => id,
                None => editor.cells[start].id,
            };
            reading_warnings(editor).contains(
                "non-code cell '"@ + editor.cells[at].id + "' inside section '"@ + id
                    + "' will be ignored"@,
            )
        }),
{
    let cells = editor.cells;
    let id = match editor_says(cells[start], "cell_id"@) {
        Some(id) => id,
        None => cells[start].id,
    };
    let body = cells.subrange(start + 1, at);
    let whole = cells.subrange(start + 1, end);
    assert forall|i: int| 0 <= i < body.len() implies !is_header(#[trigger] body[i]) by {
        assert(body[i] == whole[i]);
    }
    section_goes_on(cells.take(start), cells[start], body);
    assert(cells.take(start) + seq![cells[start]] + body =~= cells.take(at));
    let state = read_cells(cells.take(at));
    let next = cells.take(at + 1);
    assert(next.drop_last() =~= cells.take(at));
    let text = "non-code cell '"@ + cells[at].id + "' inside section '"@ + id
        + "' will be ignored"@;
    let warnings = read_cells(next).warnings;
    assert(warnings == state.warnings.push(text));
    assert(warnings[state.warnings.len() as int] == text);
    warnings_stay(cells, at + 1, text);
}

/// A section with a second cell that is tagged as its test is warned of.
pub proof fn second_tests_are_warned_of(
    editor: NotebookModel,
    start: int,
    end: int,
    first: int,
    at: int,
)
    requires
        is_section(editor.cells, start, end),
        start < first < at < end,
        is_test(editor.cells[first]),
        is_test(editor.cells[at]),
    ensures
        ({
            let id = match editor_says(editor.cells[start], "cell_id"@) {
                Some(id) => id,
                None => editor.cells[start].id,
            };
            reading_warnings(editor).contains(
                "section '"@ + id + "' has multiple test cells; only the last one will be used"@,
            )
        }),
{
    let cells = editor.cells;
    editor_roles_differ();
    let id = match editor_says(cells[start], "cell_id"@) {
        Some(id) => id,
        None => cells[start].id,
    };
    let body = cells.subrange(start + 1, at);
    let whole = cells.subrange(start + 1, end);
    assert forall|i: int| 0 <= i < body.len() implies !is_header(#[trigger] body[i]) by {
        assert(body[i] == whole[i]);
    }
    section_goes_on(cells.take(start), cells[start], body);
    assert(cells.take(start) + seq![cells[start]] + body =~= cells.take(at));
    let state = read_cells(cells.take(at));
    assert(is_test(body[first - start - 1]));
    assert(state.current->0.test_source is Some);
    let next = cells.take(at + 1);
    assert(next.drop_last() =~= cells.take(at));
    let text = "section '"@ + id + "' has multiple test cells; only the last one will be used"@;
    let warnings = read_cells(next).warnings;
    assert(warnings == state.warnings.push(text));
    assert(warnings[state.warnings.len() as int] == text);
    warnings_stay(cells, at + 1, text);
}

} // verus!
