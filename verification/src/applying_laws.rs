//! What the cells of a notebook hold after an editor notebook is applied.
use vstd::prelude::*;

use crate::commands::edit_base;
use crate::diff_utils::diff_between;
use crate::fixtures::FixtureModel;
use crate::json::{member, member_of_with_member, JsonModel};
use crate::metadata::{
    addressed, data_of, nb_members, optional_fixtures_json, optional_test_json, optional_text_json,
    shas_json, with_optional_field, without_field, writable, TestModel, METADATA_KEY,
};
use crate::metadata_laws::{
    field_is_set, field_names_differ, fixture_named, fixture_named_after_set, fixtures_read_back,
    recorded_shas_read_back, test_reads_back,
};
use crate::notebook::{CellModel, NotebookModel};
use crate::reading_laws::{
    added_test_is_read, editor_says, header_total, is_added, is_section, is_source, is_test,
    sections_hold_what_their_cells_say,
};
use crate::round_trip_laws::{collected_names_differ, sections_make_well_formed};
use crate::save::{
    cell_index_is_first, cell_index_of, collected_fixtures, conflict_message, edited_cell,
    edited_is_writable, edited_notebook, is_named, parsed_test, reviewed_cell, same_cell_index,
    same_cells_named, section_fixtures, section_test, section_warnings, sections_keep_cells,
    sections_of, sections_writable, with_sections, written_notebook, SectionModel,
};
use crate::shas::snapshot;
use crate::text::{joined, occurs_in, trimmed};

verus! {

// ---------------------------------------------------------------------------
// One section
// ---------------------------------------------------------------------------

/// The last fixture of a name.
pub open spec fn last_named(
    entries: Seq<(Seq<char>, FixtureModel)>,
    name: Seq<char>,
) -> Option<FixtureModel>
    decreases entries.len(),
{
    if entries.len() == 0 {
        None
    } else if entries.last().0 == name {
        Some(entries.last().1)
    } else {
        last_named(entries.drop_last(), name)
    }
}

/// Of fixtures with the same name the last one counts.
pub proof fn last_fixture_counts(entries: Seq<(Seq<char>, FixtureModel)>, name: Seq<char>)
    ensures
        fixture_named(collected_fixtures(entries), name) == last_named(entries, name),
    decreases entries.len(),
{
    if entries.len() > 0 {
        let front = entries.drop_last();
        collected_names_differ(front);
        last_fixture_counts(front, name);
        fixture_named_after_set(
            collected_fixtures(front),
            entries.last().0,
            entries.last().1,
            name,
        );
    }
}

/// The members of the metadata of a cell after a section is applied to it.
proof fn edited_members(cell: CellModel, section: SectionModel)
    requires
        writable(cell.additional),
    ensures
        ({
            let members = nb_members(edited_cell(cell, section).additional);
            &&& member(members, "fixtures"@) == optional_fixtures_json(section_fixtures(section))
            &&& member(members, "diff"@) == optional_text_json(
                diff_between(cell.text(), section.patched_source),
            )
            &&& member(members, "test"@) == optional_test_json(section_test(section))
        }),
{
    edited_is_writable(cell, section);
    field_names_differ();
    let additional = without_field(cell.additional, "editor"@);
    let fixtures = optional_fixtures_json(section_fixtures(section));
    field_is_set(additional, "fixtures"@, fixtures);
    let first = with_optional_field(additional, "fixtures"@, fixtures);
    let diff = optional_text_json(diff_between(cell.text(), section.patched_source));
    field_is_set(first, "diff"@, diff);
    let second = with_optional_field(first, "diff"@, diff);
    let test = optional_test_json(section_test(section));
    field_is_set(second, "test"@, test);
    let third = with_optional_field(second, "test"@, test);
    member_of_with_member(
        third,
        METADATA_KEY@,
        JsonModel::Object(nb_members(third)),
        METADATA_KEY@,
    );
    assert(nb_members(addressed(third)) == nb_members(third));
}

/// Whether a cell holds what a section says: a test if it is not blank, a diff
/// if the source of the section is another one, and the last fixture of each
/// name.
pub open spec fn holds_section(cell: CellModel, before: Seq<char>, section: SectionModel) -> bool {
    let test = match section.test_source {
        Some(source) => if trimmed(source).len() > 0 {
            Some(
                TestModel {
                    name: match section.test_name {
                        Some(name) => name,
                        None => "<unnamed>"@,
                    },
                    source,
                },
            )
        } else {
            None
        },
        None => None,
    };
    match cell.data() {
        Some(data) => {
            &&& data.test == test
            &&& data.diff is Some <==> before != section.patched_source
            &&& data.diff == diff_between(before, section.patched_source)
            &&& data.fixtures is Some <==> section.fixtures.len() > 0
            &&& data.fixtures matches Some(fixtures) ==> forall|name: Seq<char>| #[trigger]
                fixture_named(fixtures, name) == last_named(section.fixtures, name)
        },
        None => test is None && before == section.patched_source && section.fixtures.len() == 0,
    }
}

/// A cell whose metadata has the members that a section sets, and is well
/// formed, holds what the section says.
proof fn members_hold_section(cell: CellModel, before: Seq<char>, section: SectionModel)
    requires
        writable(cell.additional),
        cell.data() is Some ==> data_of(JsonModel::Object(nb_members(cell.additional))) is Some,
        member(nb_members(cell.additional), "fixtures"@) == optional_fixtures_json(
            section_fixtures(section),
        ),
        member(nb_members(cell.additional), "diff"@) == optional_text_json(
            diff_between(before, section.patched_source),
        ),
        member(nb_members(cell.additional), "test"@) == optional_test_json(section_test(section)),
    ensures
        holds_section(cell, before, section),
{
    let fixtures = section_fixtures(section);
    if let Some(entries) = fixtures {
        collected_names_differ(section.fixtures);
        fixtures_read_back(entries);
        assert forall|name: Seq<char>| #[trigger]
            fixture_named(entries, name) == last_named(section.fixtures, name) by {
            last_fixture_counts(section.fixtures, name);
        }
    }
    if let Some(test) = section_test(section) {
        test_reads_back(test);
    }
    if cell.data() is None {
        assert(member(Seq::<(Seq<char>, JsonModel)>::empty(), "test"@) is None);
        assert(member(Seq::<(Seq<char>, JsonModel)>::empty(), "diff"@) is None);
        assert(member(Seq::<(Seq<char>, JsonModel)>::empty(), "fixtures"@) is None);
    }
}

// ---------------------------------------------------------------------------
// All sections
// ---------------------------------------------------------------------------

/// The cell that the last section about it leaves.
proof fn last_section_counts(
    cells: Seq<CellModel>,
    sections: Seq<SectionModel>,
    count: int,
    k: int,
    index: int,
)
    requires
        0 <= k < count <= sections.len(),
        0 <= index < cells.len(),
        sections_writable(cells, sections),
        cell_index_of(cells, sections[k].cell_id) == index,
        forall|j: int|
            k < j < sections.len() ==> (#[trigger] sections[j]).cell_id != sections[k].cell_id,
    ensures
        ({
            let before = with_sections(cells, sections.take(k));
            let after = with_sections(cells, sections.take(count));
            &&& before.len() == cells.len()
            &&& after[index] == edited_cell(before[index], sections[k])
            &&& before[index].text() == cells[index].text()
            &&& writable(before[index].additional)
        }),
    decreases count,
{
    let section = sections[count - 1];
    let front = sections.take(count - 1);
    let upto = sections.take(count);
    assert(upto.drop_last() =~= front);
    assert(upto.last() == section);
    sections_keep_cells(cells, sections, count - 1);
    sections_keep_cells(cells, sections, k);
    let earlier = with_sections(cells, front);
    same_cell_index(earlier, cells, section.cell_id);
    same_cell_index(earlier, cells, sections[k].cell_id);
    cell_index_is_first(cells, section.cell_id);
    cell_index_is_first(cells, sections[k].cell_id);
    assert(writable(cells[index].additional));
    if k < count - 1 {
        last_section_counts(cells, sections, count - 1, k, index);
        assert(section.cell_id != sections[k].cell_id);
        assert(cell_index_of(earlier, section.cell_id) != index);
    } else {
        assert(sections.take(k) =~= front);
    }
}

/// Folding an editor notebook back: the cell that a section is about holds what
/// the section says, the last one if there are several. Its id, its source, its
/// outputs and its standard metadata stay as they were.
pub proof fn edited_cells_hold_their_section(
    source: NotebookModel,
    editor: NotebookModel,
    k: int,
    index: int,
)
    requires
        sections_writable(source.cells, sections_of(editor)),
        0 <= k < sections_of(editor).len(),
        0 <= index < source.cells.len(),
        source.cells[index].id == sections_of(editor)[k].cell_id,
        forall|i: int|
            0 <= i < index ==> (#[trigger] source.cells[i]).id != source.cells[index].id,
        forall|j: int|
            k < j < sections_of(editor).len() ==> (#[trigger] sections_of(editor)[j]).cell_id
                != sections_of(editor)[k].cell_id,
    ensures
        ({
            let before = source.cells[index];
            let after = edited_notebook(source, editor).cells[index];
            &&& after == (CellModel { additional: after.additional, ..before })
            &&& holds_section(after, before.text(), sections_of(editor)[k])
        }),
{
    let cells = source.cells;
    let sections = sections_of(editor);
    let section = sections[k];
    let count = sections.len() as int;
    let written = written_notebook(source, editor);
    let after = edited_notebook(source, editor).cells[index];
    assert(sections.take(count) =~= sections);
    cell_index_is_first(cells, section.cell_id);
    let found = cell_index_of(cells, section.cell_id);
    assert(found == index) by {
        if found < index {
            assert(cells[found].id == cells[index].id);
        }
        if index < found {
            assert(cells[index].id != section.cell_id);
        }
    }
    last_section_counts(cells, sections, count, k, index);
    sections_keep_cells(cells, sections, count);
    applying_keeps_the_rest(cells, sections, count, index);
    let earlier = with_sections(cells, sections.take(k))[index];
    let cell = written.cells[index];
    assert(cell == edited_cell(earlier, section));
    edited_members(earlier, section);
    edited_is_writable(earlier, section);
    same_cells_named(written.cells, cells, sections, index);
    assert(is_named(cells, sections, index)) by {
        assert(cell_index_of(cells, sections[k].cell_id) == index);
    }
    assert(after == reviewed_cell(written, sections, index));
    sections_make_well_formed(cells, sections, count, index);
    if cell.data() is Some {
        let shas = snapshot(written).take(index + 1);
        field_names_differ();
        recorded_shas_read_back(cell.additional, shas);
        field_is_set(cell.additional, "shas"@, Some(shas_json(shas)));
        members_hold_section(after, cells[index].text(), section);
    } else {
        members_hold_section(cell, cells[index].text(), section);
    }
}

/// Applying sections changes nothing of a cell but its free-form metadata, and
/// nothing at all of a cell that none is about.
proof fn applying_keeps_the_rest(
    cells: Seq<CellModel>,
    sections: Seq<SectionModel>,
    count: int,
    index: int,
)
    requires
        0 <= count <= sections.len(),
        0 <= index < cells.len(),
        sections_writable(cells, sections),
    ensures
        ({
            let after = with_sections(cells, sections.take(count));
            &&& after.len() == cells.len()
            &&& after[index] == (CellModel {
                additional: after[index].additional,
                ..cells[index]
            })
            &&& !is_named(cells, sections, index) ==> after[index] == cells[index]
        }),
    decreases count,
{
    if count > 0 {
        let section = sections[count - 1];
        let front = sections.take(count - 1);
        let upto = sections.take(count);
        assert(upto.drop_last() =~= front);
        assert(upto.last() == section);
        applying_keeps_the_rest(cells, sections, count - 1, index);
        sections_keep_cells(cells, sections, count - 1);
        let before = with_sections(cells, front);
        same_cell_index(before, cells, section.cell_id);
        cell_index_is_first(before, section.cell_id);
        if cell_index_of(before, section.cell_id) == index {
            assert(cell_index_of(cells, sections[count - 1].cell_id) == index);
        }
    }
}

/// Folding an editor notebook back leaves the cells that no section is about as
/// they are, and everything in the notebook but the cells.
pub proof fn other_cells_stay(source: NotebookModel, editor: NotebookModel, index: int)
    requires
        sections_writable(source.cells, sections_of(editor)),
        0 <= index < source.cells.len(),
        forall|k: int|
            0 <= k < sections_of(editor).len() ==> (#[trigger] sections_of(editor)[k]).cell_id
                != source.cells[index].id,
    ensures
        ({
            let after = edited_notebook(source, editor);
            &&& after == (NotebookModel { cells: after.cells, ..source })
            &&& after.cells.len() == source.cells.len()
            &&& after.cells[index] == source.cells[index]
        }),
{
    let sections = sections_of(editor);
    let count = sections.len() as int;
    let written = written_notebook(source, editor);
    assert(sections.take(count) =~= sections);
    assert(!is_named(source.cells, sections, index)) by {
        if is_named(source.cells, sections, index) {
            let k = choose|k: int|
                0 <= k < sections.len() && cell_index_of(
                    source.cells,
                    (#[trigger] sections[k]).cell_id,
                ) == index;
            cell_index_is_first(source.cells, sections[k].cell_id);
        }
    }
    applying_keeps_the_rest(source.cells, sections, count, index);
    sections_keep_cells(source.cells, sections, count);
    same_cells_named(written.cells, source.cells, sections, index);
    assert(edited_notebook(source, editor).cells[index] == reviewed_cell(
        written,
        sections,
        index,
    ));
}

/// A test that was added by hand to the section of a cell is stored: if behind
/// the source of the section stands a code cell without a role, and no cell is
/// tagged as a test, the cell has the test that this one stands for, unless it
/// is blank.
pub proof fn added_test_is_stored(
    source: NotebookModel,
    editor: NotebookModel,
    start: int,
    end: int,
    patched: int,
    at: int,
    index: int,
)
    requires
        is_section(editor.cells, start, end),
        start < patched < at < end,
        is_source(editor.cells[patched]),
        is_added(editor.cells[at]),
        forall|k: int| start < k < end ==> !is_test(#[trigger] editor.cells[k]),
        forall|k: int| patched < k < at ==> !is_added(#[trigger] editor.cells[k]),
        forall|k: int| start < k < patched ==> !is_source(#[trigger] editor.cells[k]),
        trimmed(parsed_test(editor.cells[at].text()).1).len() > 0,
        sections_writable(source.cells, sections_of(editor)),
        0 <= index < source.cells.len(),
        editor_says(editor.cells[start], "cell_id"@) == Some(source.cells[index].id),
        forall|i: int|
            0 <= i < index ==> (#[trigger] source.cells[i]).id != source.cells[index].id,
        forall|j: int|
            header_total(editor.cells.take(start)) < j < sections_of(editor).len() ==> (
            #[trigger] sections_of(editor)[j]).cell_id != source.cells[index].id,
    ensures
        ({
            let (name, text) = parsed_test(editor.cells[at].text());
            edited_notebook(source, editor).cells[index].data() matches Some(data) && data.test
                == Some(TestModel { name, source: text })
        }),
{
    let k = header_total(editor.cells.take(start)) as int;
    added_test_is_read(editor, start, end, patched, at);
    sections_hold_what_their_cells_say(editor, start, end);
    edited_cells_hold_their_section(source, editor, k, index);
}

/// What is said of a section whose cell is not in the source.
pub open spec fn unknown_cell_warning(cell_id: Seq<char>) -> Seq<char> {
    "section cell_id '"@ + cell_id + "' not found in source notebook; skipping"@
}

/// Whether a cell with an id is among others.
pub open spec fn has_cell(cells: Seq<CellModel>, cell_id: Seq<char>) -> bool {
    exists|i: int| 0 <= i < cells.len() && (#[trigger] cells[i]).id == cell_id
}

/// The number of sections whose cell is not in the source.
pub open spec fn unknown_total(cells: Seq<CellModel>, sections: Seq<SectionModel>) -> nat
    decreases sections.len(),
{
    if sections.len() == 0 {
        0
    } else {
        unknown_total(cells, sections.drop_last()) + if has_cell(cells, sections.last().cell_id) {
            0nat
        } else {
            1nat
        }
    }
}

/// There is a warning for every section whose cell is not in the source, and for
/// no other.
pub proof fn unknown_cells_are_warned_of(cells: Seq<CellModel>, sections: Seq<SectionModel>)
    ensures
        section_warnings(cells, sections).len() == unknown_total(cells, sections),
        forall|k: int|
            0 <= k < sections.len() && !has_cell(cells, (#[trigger] sections[k]).cell_id)
                ==> section_warnings(cells, sections).contains(
                unknown_cell_warning(sections[k].cell_id),
            ),
    decreases sections.len(),
{
    if sections.len() > 0 {
        let front = sections.drop_last();
        let last = sections.last();
        let before = section_warnings(cells, front);
        let all = section_warnings(cells, sections);
        unknown_cells_are_warned_of(cells, front);
        cell_index_is_first(cells, last.cell_id);
        let at = cell_index_of(cells, last.cell_id);
        if has_cell(cells, last.cell_id) {
            let i = choose|i: int| 0 <= i < cells.len() && (#[trigger] cells[i]).id == last.cell_id;
            assert(at < cells.len());
        } else if at < cells.len() {
            assert(cells[at].id == last.cell_id);
        }
        assert forall|k: int|
            0 <= k < sections.len() && !has_cell(
                cells,
                (#[trigger] sections[k]).cell_id,
            ) implies all.contains(unknown_cell_warning(sections[k].cell_id)) by {
            if k < front.len() {
                assert(front[k] == sections[k]);
                assert(before.contains(unknown_cell_warning(front[k].cell_id)));
                let j = choose|j: int|
                    0 <= j < before.len() && before[j] == unknown_cell_warning(front[k].cell_id);
                assert(all[j] == before[j]);
            } else {
                assert(all[all.len() - 1] == unknown_cell_warning(last.cell_id));
            }
        }
    }
}

/// A forced edit takes the metadata of all cells away before the editor's is
/// brought back: a cell without a section is left with none. Without force it
/// keeps what it had.
pub proof fn forced_edit_forgets_the_rest(
    source: NotebookModel,
    editor: NotebookModel,
    force: bool,
    index: int,
)
    requires
        sections_writable(edit_base(source, force).cells, sections_of(editor)),
        0 <= index < source.cells.len(),
        forall|k: int|
            0 <= k < sections_of(editor).len() ==> (#[trigger] sections_of(editor)[k]).cell_id
                != source.cells[index].id,
    ensures
        ({
            let cell = edited_notebook(edit_base(source, force), editor).cells[index];
            &&& force ==> cell.data() is None && cell == (CellModel {
                additional: cell.additional,
                ..source.cells[index]
            })
            &&& !force ==> cell == source.cells[index]
        }),
{
    let base = edit_base(source, force);
    if force {
        crate::commands_laws::stripping_leaves_the_rest(source, index, Seq::empty());
    }
    assert(base.cells[index].id == source.cells[index].id);
    other_cells_stay(base, editor, index);
}

/// The message about conflicts holds every one of them.
pub proof fn conflicts_are_all_told(errors: Seq<Seq<char>>, at: int)
    requires
        0 <= at < errors.len(),
    ensures
        occurs_in(conflict_message(errors), errors[at]),
{
    let start = "Cannot apply: source notebook has changed since `edit` was run:\n  "@;
    let end =
        "\n\nUse `nota-bene edit --continue --force` to discard source changes and apply anyway."@;
    let list = joined(errors, "\n  "@);
    piece_occurs(errors, "\n  "@, at);
    crate::report_laws::middle_occurs(start, list, end);
    crate::report_laws::occurs_in_whole(conflict_message(errors), list, errors[at]);
}

/// A piece occurs among those that are joined.
proof fn piece_occurs(pieces: Seq<Seq<char>>, separator: Seq<char>, at: int)
    requires
        0 <= at < pieces.len(),
    ensures
        occurs_in(joined(pieces, separator), pieces[at]),
    decreases pieces.len(),
{
    let whole = joined(pieces, separator);
    let last = pieces.last();
    if pieces.len() == 1 {
        crate::report_laws::middle_occurs(Seq::empty(), last, Seq::empty());
        assert(Seq::<char>::empty() + last + Seq::<char>::empty() =~= whole);
    } else {
        let front = pieces.drop_last();
        let before = joined(front, separator);
        assert(whole == before + separator + last);
        if at == pieces.len() - 1 {
            crate::report_laws::middle_occurs(before + separator, last, Seq::empty());
            assert(before + separator + last + Seq::<char>::empty() =~= whole);
        } else {
            piece_occurs(front, separator, at);
            crate::report_laws::middle_occurs(Seq::empty(), before, separator + last);
            assert(Seq::<char>::empty() + before + (separator + last) =~= whole);
            crate::report_laws::occurs_in_whole(whole, before, pieces[at]);
        }
    }
}

} // verus!
