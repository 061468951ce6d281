//! What going through the editor keeps.
use vstd::prelude::*;

use crate::cells::{all_fit, code_template, fits, tag, CellTemplate};
use crate::diff_utils::diff_between;
use crate::edit::{
    editor_fields, editor_templates, fixture_fields, fixture_template, fixture_templates,
    fixture_text, is_editor_notebook, section_templates, source_after_diff, STUB_SOURCE,
};
use crate::fixtures::{by_priority, by_priority_sorts, fixture_index, with_fixture, FixtureModel};
use crate::json::{
    member, member_index_unique, member_of_with_member, same_members, with_member, with_member_same,
    without_member, JsonModel,
};
use crate::metadata::{
    addressed, data_in, fixture_list, fixture_members, fixtures_json, fixtures_of, nb_members,
    optional_fixtures_json, optional_test_json, optional_text_json, shas_json, with_field,
    with_optional_field, without_field, writable, DataModel, ShaModel, TestModel, METADATA_KEY,
};
use crate::metadata_laws::{
    data_or_empty, diff_reads_back, field_is_set, fixture_members_by_name, fixture_named,
    fixture_named_after_set, fixtures_field_reads_back, fixtures_read_back, known_field,
    names_differ, recorded_shas_read_back, shas_field_reads_back, test_field_reads_back,
    test_reads_back, unknown_field_removed, well_formed, well_formed_but_shas,
};
use crate::notebook::{nested_text, CellModel, NotebookModel};
use crate::save::{
    body_is_text, cell_index_is_first, cell_index_of, collected_fixtures, edited_additional,
    edited_cell, edited_is_writable, edited_notebook, finished, first_line, is_header_line,
    is_named, new_section, parsed_fixture, read_cell, read_cells, readable, reading_warnings,
    review_keeps_snapshot, reviewed_cell, same_cells_named, section_fixtures, section_test,
    section_warnings, sections_keep_cells, sections_of, sections_writable, use_of, with_current,
    with_section, with_sections, written_notebook, BuilderModel, ReadState, SectionModel,
};
use crate::save_laws::{fixture_text_reads_back, is_neat, test_text_reads_back};
use crate::sha_laws::{accepting_makes_valid, cell_ids_differ, sha_ignores_recorded_shas};
use crate::shas::{accepted, cell_sha, snapshot, staleness_of, state_of, with_shas};
use crate::text::{
    concatenated, decimal, lines_give_text_back, signed_decimal, trimmed, whole_lines,
};

verus! {

// ---------------------------------------------------------------------------
// The sections of an editor notebook that nobody changed
// ---------------------------------------------------------------------------

/// What the editor notebook says about a cell of the source.
pub open spec fn own_section(cell: CellModel) -> SectionModel {
    match cell.data() {
        None => SectionModel {
            cell_id: cell.id,
            fixtures: Seq::empty(),
            patched_source: cell.text(),
            test_name: None,
            test_source: None,
        },
        Some(data) => SectionModel {
            cell_id: cell.id,
            fixtures: match data.fixtures {
                Some(entries) => by_priority(entries),
                None => Seq::empty(),
            },
            patched_source: source_after_diff(cell.text(), data.diff),
            test_name: Some(
                match data.test {
                    Some(test) => test.name,
                    None => "<unnamed>"@,
                },
            ),
            test_source: Some(
                match data.test {
                    Some(test) => test.source,
                    None => Seq::empty(),
                },
            ),
        },
    }
}

/// What the editor notebook says about the code among the first `count` cells
/// of the source.
pub open spec fn own_sections(cells: Seq<CellModel>, count: int) -> Seq<SectionModel>
    decreases count,
{
    if count <= 0 {
        Seq::empty()
    } else {
        let front = own_sections(cells, count - 1);
        if cells[count - 1].is_code() {
            front.push(own_section(cells[count - 1]))
        } else {
            front
        }
    }
}

/// Whether a fixture can be told from the lines about it: its name and its
/// description are single lines without white space at their ends, and its
/// source is not blank and does not begin like those lines.
pub open spec fn plain_fixture(name: Seq<char>, fixture: FixtureModel) -> bool {
    &&& is_neat(name)
    &&& is_neat(fixture.description)
    &&& !is_header_line(first_line(fixture.source))
    &&& trimmed(fixture.source).len() > 0
}

/// Whether a list holds plain fixtures only.
pub open spec fn plain_fixtures(entries: Seq<(Seq<char>, FixtureModel)>) -> bool {
    forall|i: int| 0 <= i < entries.len() ==> plain_fixture((#[trigger] entries[i]).0, entries[i].1)
}

/// Whether a test can be told from the line about it: its name is a single line
/// without white space at its ends.
pub open spec fn plain_test(test: TestModel) -> bool {
    is_neat(test.name) && test.name.len() > 0
}

/// Whether what the editor shows of a cell can be told apart.
pub open spec fn editable(cell: CellModel) -> bool {
    match cell.data() {
        None => true,
        Some(data) => {
            &&& match data.fixtures {
                Some(entries) => plain_fixtures(entries),
                None => true,
            }
            &&& match data.test {
                Some(test) => plain_test(test),
                None => true,
            }
        },
    }
}

// ---------------------------------------------------------------------------
// Tags
// ---------------------------------------------------------------------------

/// The roles differ.
proof fn roles_differ()
    ensures
        "setup"@ != "section-header"@,
        "fixture"@ != "setup"@,
        "fixture"@ != "section-header"@,
        "patched-source"@ != "setup"@,
        "patched-source"@ != "section-header"@,
        "patched-source"@ != "fixture"@,
        "source"@ != "setup"@,
        "source"@ != "section-header"@,
        "source"@ != "fixture"@,
        "test"@ != "setup"@,
        "test"@ != "section-header"@,
        "test"@ != "fixture"@,
        "test"@ != "patched-source"@,
        "test"@ != "source"@,
{
    reveal_strlit("setup");
    reveal_strlit("section-header");
    reveal_strlit("fixture");
    reveal_strlit("patched-source");
    reveal_strlit("source");
    reveal_strlit("test");
    assert("section-header"@[0] != "patched-source"@[0]);
    assert("setup"@.len() == 5);
    assert("section-header"@.len() == 14);
    assert("fixture"@.len() == 7);
    assert("patched-source"@.len() == 14);
    assert("source"@.len() == 6);
    assert("test"@.len() == 4);
}

/// What a tag says.
proof fn tag_says(fields: Seq<(Seq<char>, JsonModel)>, key: Seq<char>)
    ensures
        nested_text(tag("editor"@, JsonModel::Object(fields)), "editor"@, key) == match member(
            fields,
            key,
        ) {
            Some(value) => crate::metadata::text_of(value),
            None => None,
        },
{
    let all = tag("editor"@, JsonModel::Object(fields));
    member_index_unique(all, METADATA_KEY@, 0);
    member_index_unique(seq![("editor"@, JsonModel::Object(fields))], "editor"@, 0);
}

/// What the tag of an editor cell says.
proof fn editor_tag_says(cell_id: Seq<char>, role: Seq<char>)
    ensures
        nested_text(tag("editor"@, editor_fields(cell_id, role)), "editor"@, "role"@) == Some(role),
        nested_text(tag("editor"@, editor_fields(cell_id, role)), "editor"@, "cell_id"@) == Some(
            cell_id,
        ),
{
    reveal_strlit("cell_id");
    reveal_strlit("role");
    let fields = editor_fields(cell_id, role)->Object_0;
    assert("cell_id"@.len() != "role"@.len());
    assert(fields[0].0 == "cell_id"@);
    assert(fields[1].0 == "role"@);
    member_index_unique(fields, "cell_id"@, 0);
    member_index_unique(fields, "role"@, 1);
    tag_says(fields, "role"@);
    tag_says(fields, "cell_id"@);
}

/// What the tag of a fixture cell says.
proof fn fixture_tag_says(cell_id: Seq<char>, name: Seq<char>)
    ensures
        nested_text(tag("editor"@, fixture_fields(cell_id, name)), "editor"@, "role"@) == Some(
            "fixture"@,
        ),
{
    reveal_strlit("cell_id");
    reveal_strlit("fixture_name");
    reveal_strlit("role");
    let fields = fixture_fields(cell_id, name)->Object_0;
    assert("cell_id"@.len() == 7);
    assert("fixture_name"@.len() == 12);
    assert("role"@.len() == 4);
    assert(fields[0].0 == "cell_id"@);
    assert(fields[1].0 == "fixture_name"@);
    assert(fields[2].0 == "role"@);
    member_index_unique(fields, "role"@, 2);
    tag_says(fields, "role"@);
}

/// What the tag of the setup cell says.
proof fn setup_tag_says()
    ensures
        nested_text(tag("editor"@, crate::cells::role_fields("setup"@)), "editor"@, "role"@)
            == Some("setup"@),
{
    let fields = crate::cells::role_fields("setup"@)->Object_0;
    member_index_unique(fields, "role"@, 0);
    tag_says(fields, "role"@);
}

/// The source of a fixture cell to be filled in is that of a fixture without
/// anything.
proof fn stub_is_empty_fixture()
    ensures
        STUB_SOURCE@ == fixture_text(
            Seq::empty(),
            FixtureModel { description: Seq::empty(), priority: 0, source: Seq::empty() },
        ),
{
    reveal_strlit("# fixture: ");
    reveal_strlit("\n# description: ");
    reveal_strlit("\n# priority: ");
    reveal_strlit("# fixture: \n# description: \n# priority: 0");
    assert(decimal(0) =~= seq!['0']);
    assert(signed_decimal(0) =~= seq!['0']);
    assert(STUB_SOURCE@ =~= fixture_text(
        Seq::empty(),
        FixtureModel { description: Seq::empty(), priority: 0, source: Seq::empty() },
    ));
}

// ---------------------------------------------------------------------------
// Reading
// ---------------------------------------------------------------------------

/// How far an editor notebook has been read after some more cells.
spec fn read_on(state: ReadState, cells: Seq<CellModel>) -> ReadState
    decreases cells.len(),
{
    if cells.len() == 0 {
        state
    } else {
        read_cell(read_on(state, cells.drop_last()), cells.last())
    }
}

/// Reading goes on where it stopped.
proof fn read_together(cells: Seq<CellModel>, more: Seq<CellModel>)
    ensures
        read_cells(cells + more) == read_on(read_cells(cells), more),
    decreases more.len(),
{
    if more.len() == 0 {
        assert(cells + more =~= cells);
    } else {
        read_together(cells, more.drop_last());
        assert((cells + more).drop_last() =~= cells + more.drop_last());
        assert((cells + more).last() == more.last());
    }
}

/// Reading goes on where it stopped.
proof fn read_on_together(state: ReadState, cells: Seq<CellModel>, more: Seq<CellModel>)
    ensures
        read_on(state, cells + more) == read_on(read_on(state, cells), more),
    decreases more.len(),
{
    if more.len() == 0 {
        assert(cells + more =~= cells);
    } else {
        read_on_together(state, cells, more.drop_last());
        assert((cells + more).drop_last() =~= cells + more.drop_last());
        assert((cells + more).last() == more.last());
    }
}

/// Reading one cell.
proof fn read_on_one(state: ReadState, cell: CellModel)
    ensures
        read_on(state, seq![cell]) == read_cell(state, cell),
{
    assert(seq![cell].drop_last() =~= Seq::<CellModel>::empty());
    assert(read_on(state, seq![cell].drop_last()) == state);
}

/// The fixture cells of a section give its fixtures.
proof fn fixtures_read(
    state: ReadState,
    cells: Seq<CellModel>,
    cell_id: Seq<char>,
    entries: Seq<(Seq<char>, FixtureModel)>,
)
    requires
        state.current is Some,
        plain_fixtures(entries),
        all_fit(
            cells,
            entries.map_values(
                |entry: (Seq<char>, FixtureModel)| fixture_template(cell_id, entry.0, entry.1),
            ),
        ),
    ensures
        read_on(state, cells) == (ReadState {
            current: Some(
                BuilderModel {
                    fixtures: state.current->0.fixtures + entries,
                    ..state.current->0
                },
            ),
            ..state
        }),
    decreases cells.len(),
{
    let templates = entries.map_values(
        |entry: (Seq<char>, FixtureModel)| fixture_template(cell_id, entry.0, entry.1),
    );
    let section = state.current->0;
    if cells.len() == 0 {
        assert(section.fixtures + entries =~= section.fixtures);
    } else {
        let front = entries.drop_last();
        let front_templates = front.map_values(
            |entry: (Seq<char>, FixtureModel)| fixture_template(cell_id, entry.0, entry.1),
        );
        assert forall|i: int| 0 <= i < front.len() implies plain_fixture(
            (#[trigger] front[i]).0,
            front[i].1,
        ) by {
            assert(front[i] == entries[i]);
        }
        assert forall|i: int| 0 <= i < cells.drop_last().len() implies fits(
            #[trigger] cells.drop_last()[i],
            front_templates[i],
        ) by {
            assert(fits(cells[i], templates[i]));
        }
        fixtures_read(state, cells.drop_last(), cell_id, front);
        let before = read_on(state, cells.drop_last());
        let cell = cells.last();
        let entry = entries.last();
        assert(fits(cells[cells.len() - 1], templates[cells.len() - 1]));
        assert(plain_fixture(entries[entries.len() - 1].0, entries[entries.len() - 1].1));
        fixture_tag_says(cell_id, entry.0);
        lines_give_text_back(fixture_text(entry.0, entry.1));
        fixture_text_reads_back(
            entry.0,
            entry.1,
            section.cell_id,
            before.current->0.fixtures.len(),
        );
        roles_differ();
        assert(cell.text() == fixture_text(entry.0, entry.1));
        assert(use_of(before.current, cell) is Fixture);
        assert((section.fixtures + front).push(entry) =~= section.fixtures + entries);
    }
}

/// `by_priority` holds plain fixtures if they are plain.
proof fn plain_by_priority(entries: Seq<(Seq<char>, FixtureModel)>)
    requires
        plain_fixtures(entries),
    ensures
        plain_fixtures(by_priority(entries)),
{
    let sorted = by_priority(entries);
    assert forall|i: int| 0 <= i < sorted.len() implies plain_fixture(
        (#[trigger] sorted[i]).0,
        sorted[i].1,
    ) by {
        same_entries(entries, sorted[i]);
        assert(sorted.contains(sorted[i]));
        let j = choose|j: int| 0 <= j < entries.len() && entries[j] == sorted[i];
        assert(plain_fixture(entries[j].0, entries[j].1));
    }
}

/// `by_priority` holds what it sorts.
proof fn same_entries(entries: Seq<(Seq<char>, FixtureModel)>, entry: (Seq<char>, FixtureModel))
    ensures
        by_priority(entries).contains(entry) <==> entries.contains(entry),
{
    broadcast use vstd::seq_lib::group_to_multiset_ensures;

    by_priority_sorts(entries);
    assert(by_priority(entries).to_multiset().count(entry) == entries.to_multiset().count(entry));
}

/// What has been read of the section of a cell at its end.
spec fn own_builder(cell: CellModel) -> BuilderModel {
    let section = own_section(cell);
    BuilderModel {
        cell_id: section.cell_id,
        fixtures: section.fixtures,
        patched_source: Some(section.patched_source),
        test_name: section.test_name,
        test_source: section.test_source,
    }
}

/// The header of a section begins it.
proof fn header_read(state: ReadState, cell: CellModel, cell_id: Seq<char>, text: Seq<char>)
    requires
        fits(cell, crate::edit::header_template(cell_id, text)),
    ensures
        read_cell(state, cell) == (ReadState {
            done: with_current(state.done, state.current),
            current: Some(new_section(cell_id)),
            ..state
        }),
{
    editor_tag_says(cell_id, "section-header"@);
    roles_differ();
}

/// The fixture cells of a section with metadata give its fixtures.
proof fn section_fixtures_read(state: ReadState, cells: Seq<CellModel>, cell: CellModel)
    requires
        cell.data() is Some,
        editable(cell),
        state.current == Some(new_section(cell.id)),
        all_fit(cells, fixture_templates(cell.id, cell.data()->0)),
    ensures
        read_on(state, cells) == (ReadState {
            current: Some(
                BuilderModel { fixtures: own_section(cell).fixtures, ..new_section(cell.id) },
            ),
            ..state
        }),
{
    let data = cell.data()->0;
    let empty = Seq::<(Seq<char>, FixtureModel)>::empty();
    if data.fixtures is Some && data.fixtures->0.len() > 0 {
        let entries = data.fixtures->0;
        plain_by_priority(entries);
        fixtures_read(state, cells, cell.id, by_priority(entries));
        assert(empty + by_priority(entries) =~= by_priority(entries));
    } else {
        let blank = FixtureModel { description: Seq::empty(), priority: 0, source: Seq::empty() };
        let stub = cells[0];
        assert(cells =~= seq![stub]);
        assert(fits(cells[0], fixture_templates(cell.id, data)[0]));
        read_on_one(state, stub);
        fixture_tag_says(cell.id, Seq::empty());
        stub_is_empty_fixture();
        lines_give_text_back(STUB_SOURCE@);
        nothing_is_neat();
        fixture_text_reads_back(Seq::empty(), blank, cell.id, 0);
        roles_differ();
        assert(stub.text() == STUB_SOURCE@);
        assert(use_of(state.current, stub) is Fixture);
        assert(parsed_fixture(STUB_SOURCE@, cell.id, 0).1 == blank);
        assert(trimmed(blank.source).len() == 0);
        assert(own_section(cell).fixtures =~= empty);
    }
}

/// The empty text is a neat line, and begins like none about a fixture.
proof fn nothing_is_neat()
    ensures
        is_neat(Seq::empty()),
        !is_header_line(first_line(Seq::empty())),
        trimmed(Seq::<char>::empty()) == Seq::<char>::empty(),
{
    reveal_strlit("# fixture:");
    reveal_strlit("# description:");
    reveal_strlit("# priority:");
    assert(trimmed(Seq::<char>::empty()) == Seq::<char>::empty());
    assert(whole_lines(Seq::empty()) =~= Seq::<Seq<char>>::empty());
}

/// The patched source and the test of a section with metadata end it.
proof fn section_end_read(
    state: ReadState,
    source: CellModel,
    test: CellModel,
    cell: CellModel,
)
    requires
        cell.data() is Some,
        editable(cell),
        state.current == Some(
            BuilderModel { fixtures: own_section(cell).fixtures, ..new_section(cell.id) },
        ),
        fits(source, crate::edit::patched_template(cell, cell.data()->0)),
        fits(test, crate::edit::test_template(cell.id, cell.data()->0)),
    ensures
        read_on(state, seq![source, test]) == (ReadState {
            current: Some(own_builder(cell)),
            ..state
        }),
{
    let data = cell.data()->0;
    let patched = source_after_diff(cell.text(), data.diff);
    assert(seq![source, test].drop_last() =~= seq![source]);
    read_on_one(state, source);
    roles_differ();
    editor_tag_says(cell.id, "patched-source"@);
    lines_give_text_back(patched);
    assert(source.text() == patched);
    assert(use_of(state.current, source) is Source);
    let between = read_on(state, seq![source]);
    let (name, body) = match data.test {
        Some(t) => (t.name, t.source),
        None => ("<unnamed>"@, Seq::empty()),
    };
    let text = crate::edit::test_text(name, body);
    editor_tag_says(cell.id, "test"@);
    lines_give_text_back(text);
    assert(test.text() == text);
    if data.test is None {
        unnamed_is_neat();
    }
    test_text_reads_back(name, body);
    assert(use_of(between.current, test) is Test);
}

/// The name of a test without one is a neat line.
proof fn unnamed_is_neat()
    ensures
        is_neat("<unnamed>"@),
        "<unnamed>"@.len() > 0,
{
    reveal_strlit("<unnamed>");
    assert("<unnamed>"@.len() == 9);
    assert(trimmed("<unnamed>"@) == "<unnamed>"@);
}

/// The cells of a code cell of the source are read as its section.
proof fn section_read(
    state: ReadState,
    cells: Seq<CellModel>,
    nb: NotebookModel,
    index: int,
)
    requires
        0 <= index < nb.cells.len(),
        nb.cells[index].is_code(),
        editable(nb.cells[index]),
        all_fit(cells, section_templates(nb, index)),
    ensures
        read_on(state, cells) == (ReadState {
            done: with_current(state.done, state.current),
            current: Some(own_builder(nb.cells[index])),
            ..state
        }),
{
    let cell = nb.cells[index];
    let templates = section_templates(nb, index);
    let first = cells[0];
    assert(fits(cells[0], templates[0]));
    read_on_one(state, first);
    let begun = read_cell(state, first);
    match cell.data() {
        None => {
            let second = cells[1];
            assert(fits(cells[1], templates[1]));
            assert(cells =~= seq![first] + seq![second]);
            header_read(
                state,
                first,
                cell.id,
                crate::edit::plain_header(cell.id, (index + 1) as nat),
            );
            read_on_together(state, seq![first], seq![second]);
            read_on_one(begun, second);
            editor_tag_says(cell.id, "source"@);
            roles_differ();
            assert(second.text() == cell.text());
            assert(use_of(begun.current, second) is Source);
        },
        Some(data) => {
            let middle_templates = fixture_templates(cell.id, data);
            let count = middle_templates.len() as int;
            assert(templates == seq![templates[0]] + middle_templates + seq![
                crate::edit::patched_template(cell, data),
                crate::edit::test_template(cell.id, data),
            ]);
            let middle = cells.subrange(1, 1 + count);
            let source = cells[1 + count];
            let test = cells[2 + count];
            header_read(
                state,
                first,
                cell.id,
                crate::edit::full_header(
                    cell,
                    (index + 1) as nat,
                    data,
                    crate::shas::state_of(nb, index),
                ),
            );
            assert(cells =~= seq![first] + (middle + seq![source, test]));
            assert forall|i: int| 0 <= i < middle.len() implies fits(
                #[trigger] middle[i],
                middle_templates[i],
            ) by {
                assert(fits(cells[i + 1], templates[i + 1]));
                assert(templates[i + 1] == middle_templates[i]);
            }
            assert(fits(cells[1 + count], templates[1 + count]));
            assert(fits(cells[2 + count], templates[2 + count]));
            read_on_together(state, seq![first], middle + seq![source, test]);
            read_on_together(begun, middle, seq![source, test]);
            section_fixtures_read(begun, middle, cell);
            section_end_read(read_on(begun, middle), source, test, cell);
        },
    }
}

/// The cells that fit the templates of an editor notebook are read as the
/// sections of its source.
proof fn templates_read(cells: Seq<CellModel>, nb: NotebookModel, count: int)
    requires
        0 <= count <= nb.cells.len(),
        all_fit(cells, editor_templates(nb, count)),
        forall|i: int|
            0 <= i < count && nb.cells[i].is_code() ==> editable(#[trigger] nb.cells[i]),
    ensures
        ({
            let state = read_cells(cells);
            &&& with_current(state.done, state.current) == own_sections(nb.cells, count)
            &&& state.warnings == Seq::<Seq<char>>::empty()
        }),
    decreases count,
{
    let templates = editor_templates(nb, count);
    if count == 0 {
        let setup = cells[0];
        assert(cells =~= seq![setup]);
        assert(fits(cells[0], templates[0]));
        setup_tag_says();
        let none = Seq::<CellModel>::empty();
        assert(none + seq![setup] =~= cells);
        read_together(none, seq![setup]);
        read_on_one(read_cells(none), setup);
        assert(with_current(read_cells(cells).done, read_cells(cells).current) =~= own_sections(
            nb.cells,
            0,
        ));
    } else {
        let before = editor_templates(nb, count - 1);
        let mine = section_templates(nb, count - 1);
        let split = before.len() as int;
        let front = cells.take(split);
        let rest = cells.skip(split);
        assert forall|i: int| 0 <= i < front.len() implies fits(#[trigger] front[i], before[i]) by {
            assert(fits(cells[i], templates[i]));
        }
        assert forall|i: int| 0 <= i < rest.len() implies fits(#[trigger] rest[i], mine[i]) by {
            assert(fits(cells[i + split], templates[i + split]));
        }
        templates_read(front, nb, count - 1);
        assert(front + rest =~= cells);
        read_together(front, rest);
        let state = read_cells(front);
        if nb.cells[count - 1].is_code() {
            assert(editable(nb.cells[count - 1]));
            section_read(state, rest, nb, count - 1);
            let cell = nb.cells[count - 1];
            assert(finished(own_builder(cell)) == own_section(cell));
        } else {
            assert(rest =~= Seq::<CellModel>::empty());
        }
    }
}

/// An editor notebook that nobody changed says of each code cell of its source
/// what the cell says: its fixtures by priority, its source with the diff
/// applied, and its test. There is nothing to remark on while it is read.
pub proof fn editor_sections_are_own(
    source: NotebookModel,
    editor: NotebookModel,
    source_path: Seq<char>,
)
    requires
        is_editor_notebook(editor, source, source_path),
        forall|i: int|
            0 <= i < source.cells.len() && source.cells[i].is_code() ==> editable(
                #[trigger] source.cells[i],
            ),
    ensures
        sections_of(editor) == own_sections(source.cells, source.cells.len() as int),
        reading_warnings(editor) == Seq::<Seq<char>>::empty(),
{
    templates_read(editor.cells, source, source.cells.len() as int);
}

// ---------------------------------------------------------------------------
// Readability
// ---------------------------------------------------------------------------

/// Whether a cell has a role of its own and, if it is a fixture, a body that is
/// text.
spec fn plain_cell(additional: Seq<(Seq<char>, JsonModel)>, text: Seq<char>) -> bool {
    match nested_text(additional, "editor"@, "role"@) {
        Some(role) => {
            ||| role == "setup"@
            ||| role == "section-header"@
            ||| role == "patched-source"@
            ||| role == "source"@
            ||| role == "test"@
            ||| role == "fixture"@ && body_is_text(text)
        },
        None => false,
    }
}

/// Whether a list of templates asks for plain cells only.
spec fn plain_templates(templates: Seq<CellTemplate>) -> bool {
    forall|i: int|
        0 <= i < templates.len() ==> plain_cell(
            (#[trigger] templates[i]).additional,
            concatenated(templates[i].source),
        )
}

proof fn plain_together(templates: Seq<CellTemplate>, more: Seq<CellTemplate>)
    requires
        plain_templates(templates),
        plain_templates(more),
    ensures
        plain_templates(templates + more),
{
    let all = templates + more;
    assert forall|i: int| 0 <= i < all.len() implies plain_cell(
        (#[trigger] all[i]).additional,
        concatenated(all[i].source),
    ) by {
        if i < templates.len() {
            assert(all[i] == templates[i]);
        } else {
            assert(all[i] == more[i - templates.len()]);
        }
    }
}

proof fn fixture_templates_plain(cell: CellModel)
    requires
        cell.data() is Some,
        editable(cell),
    ensures
        plain_templates(fixture_templates(cell.id, cell.data()->0)),
{
    let data = cell.data()->0;
    let templates = fixture_templates(cell.id, data);
    match data.fixtures {
        Some(entries) if entries.len() > 0 => {
            plain_by_priority(entries);
            let sorted = by_priority(entries);
            assert forall|i: int| 0 <= i < templates.len() implies plain_cell(
                (#[trigger] templates[i]).additional,
                concatenated(templates[i].source),
            ) by {
                let entry = sorted[i];
                assert(plain_fixture(entry.0, entry.1));
                assert(templates[i] == fixture_template(cell.id, entry.0, entry.1));
                fixture_tag_says(cell.id, entry.0);
                lines_give_text_back(fixture_text(entry.0, entry.1));
                fixture_text_reads_back(entry.0, entry.1, cell.id, 0);
            }
        },
        _ => {
            let blank = FixtureModel {
                description: Seq::empty(),
                priority: 0,
                source: Seq::empty(),
            };
            fixture_tag_says(cell.id, Seq::empty());
            stub_is_empty_fixture();
            lines_give_text_back(STUB_SOURCE@);
            nothing_is_neat();
            fixture_text_reads_back(Seq::empty(), blank, cell.id, 0);
            assert(templates[0] == code_template(
                None,
                "editor"@,
                fixture_fields(cell.id, Seq::empty()),
                STUB_SOURCE@,
            ));
        },
    }
}

proof fn section_templates_plain(nb: NotebookModel, index: int)
    requires
        0 <= index < nb.cells.len(),
        nb.cells[index].is_code() ==> editable(nb.cells[index]),
    ensures
        plain_templates(section_templates(nb, index)),
{
    let cell = nb.cells[index];
    let templates = section_templates(nb, index);
    editor_tag_says(cell.id, "section-header"@);
    editor_tag_says(cell.id, "source"@);
    editor_tag_says(cell.id, "patched-source"@);
    editor_tag_says(cell.id, "test"@);
    if cell.is_code() {
        if let Some(data) = cell.data() {
            let head = seq![templates[0]];
            let middle = fixture_templates(cell.id, data);
            let end = seq![
                crate::edit::patched_template(cell, data),
                crate::edit::test_template(cell.id, data),
            ];
            assert(plain_templates(head));
            assert(plain_templates(end));
            fixture_templates_plain(cell);
            plain_together(head, middle);
            plain_together(head + middle, end);
            assert(templates =~= head + middle + end);
        }
    }
}

proof fn editor_templates_plain(nb: NotebookModel, count: int)
    requires
        0 <= count <= nb.cells.len(),
        forall|i: int|
            0 <= i < count && nb.cells[i].is_code() ==> editable(#[trigger] nb.cells[i]),
    ensures
        plain_templates(editor_templates(nb, count)),
    decreases count,
{
    if count == 0 {
        setup_tag_says();
    } else {
        editor_templates_plain(nb, count - 1);
        assert(nb.cells[count - 1].is_code() ==> editable(nb.cells[count - 1]));
        section_templates_plain(nb, count - 1);
        plain_together(editor_templates(nb, count - 1), section_templates(nb, count - 1));
    }
}

/// An editor notebook that nobody changed can be read.
pub proof fn editor_is_readable(
    source: NotebookModel,
    editor: NotebookModel,
    source_path: Seq<char>,
)
    requires
        is_editor_notebook(editor, source, source_path),
        forall|i: int|
            0 <= i < source.cells.len() && source.cells[i].is_code() ==> editable(
                #[trigger] source.cells[i],
            ),
    ensures
        readable(editor),
{
    let templates = editor_templates(source, source.cells.len() as int);
    editor_templates_plain(source, source.cells.len() as int);
    roles_differ();
    assert forall|i: int|
        0 <= i < editor.cells.len() && use_of(
            read_cells(editor.cells.take(i)).current,
            #[trigger] editor.cells[i],
        ) is Fixture implies body_is_text(editor.cells[i].text()) by {
        assert(fits(editor.cells[i], templates[i]));
        assert(plain_cell(templates[i].additional, concatenated(templates[i].source)));
    }
}

// ---------------------------------------------------------------------------
// Applying
// ---------------------------------------------------------------------------

/// The cells of a notebook after their own sections are applied to the first
/// `count` of them.
spec fn applied_to_own(cells: Seq<CellModel>, count: int) -> Seq<CellModel> {
    Seq::new(
        cells.len(),
        |i: int|
            if i < count && cells[i].is_code() {
                edited_cell(cells[i], own_section(cells[i]))
            } else {
                cells[i]
            },
    )
}

/// Each section is applied to the cell that it is about.
proof fn sections_meet_cells(nb: NotebookModel, count: int)
    requires
        0 <= count <= nb.cells.len(),
        cell_ids_differ(nb),
    ensures
        with_sections(nb.cells, own_sections(nb.cells, count)) == applied_to_own(nb.cells, count),
        section_warnings(nb.cells, own_sections(nb.cells, count)) == Seq::<Seq<char>>::empty(),
    decreases count,
{
    let cells = nb.cells;
    let sections = own_sections(cells, count);
    let after = applied_to_own(cells, count);
    if count == 0 {
        assert(with_sections(cells, sections) =~= after);
    } else {
        sections_meet_cells(nb, count - 1);
        let before = applied_to_own(cells, count - 1);
        let cell = cells[count - 1];
        if cell.is_code() {
            let front = own_sections(cells, count - 1);
            let section = own_section(cell);
            assert(sections.drop_last() =~= front);
            assert(section.cell_id == cell.id);
            only_cell_with_id(nb, before, count - 1);
            only_cell_with_id(nb, cells, count - 1);
            assert(with_section(before, section) =~= after);
        } else {
            assert(before =~= after);
        }
    }
}

/// The sections of a notebook are about its code cells.
proof fn own_sections_name(nb: NotebookModel, count: int, index: int)
    requires
        0 <= count <= nb.cells.len(),
        0 <= index < nb.cells.len(),
        cell_ids_differ(nb),
    ensures
        is_named(nb.cells, own_sections(nb.cells, count), index) == (index < count
            && nb.cells[index].is_code()),
    decreases count,
{
    if count > 0 {
        own_sections_name(nb, count - 1, index);
        let cell = nb.cells[count - 1];
        if cell.is_code() {
            only_cell_with_id(nb, nb.cells, count - 1);
            one_more_named(
                nb.cells,
                own_sections(nb.cells, count - 1),
                own_section(cell),
                index,
            );
        }
    }
}

/// The cells that sections are about, when there is one more.
proof fn one_more_named(
    cells: Seq<CellModel>,
    sections: Seq<SectionModel>,
    section: SectionModel,
    index: int,
)
    ensures
        is_named(cells, sections.push(section), index) == (is_named(cells, sections, index)
            || cell_index_of(cells, section.cell_id) == index),
{
    let more = sections.push(section);
    if is_named(cells, sections, index) {
        let k = choose|k: int|
            0 <= k < sections.len() && cell_index_of(cells, (#[trigger] sections[k]).cell_id)
                == index;
        assert(more[k] == sections[k]);
    }
    assert(more[sections.len() as int] == section);
    if is_named(cells, more, index) {
        let k = choose|k: int|
            0 <= k < more.len() && cell_index_of(cells, (#[trigger] more[k]).cell_id) == index;
        if k < sections.len() {
            assert(sections[k] == more[k]);
        }
    }
}

/// A cell is the first with its id among cells with the same ids.
proof fn only_cell_with_id(nb: NotebookModel, cells: Seq<CellModel>, index: int)
    requires
        cell_ids_differ(nb),
        0 <= index < nb.cells.len(),
        cells.len() == nb.cells.len(),
        forall|i: int| 0 <= i < cells.len() ==> (#[trigger] cells[i]).id == nb.cells[i].id,
    ensures
        cell_index_of(cells, nb.cells[index].id) == index,
{
    let id = nb.cells[index].id;
    cell_index_is_first(cells, id);
    let at = cell_index_of(cells, id);
    assert(cells[index].id == id);
    if at < index {
        assert(cells[at].id == id);
        assert(nb.cells[at].id != nb.cells[index].id);
    } else if at > index {
        assert(cells[index].id != id);
    }
}

// ---------------------------------------------------------------------------
// What a cell holds afterwards
// ---------------------------------------------------------------------------

/// The names of fixtures that are read from an object differ.
pub proof fn read_names_differ(members: Seq<(Seq<char>, JsonModel)>)
    ensures
        fixture_list(members) is Some ==> names_differ(fixture_list(members)->0),
    decreases members.len(),
{
    if members.len() > 0 && fixture_list(members) is Some {
        read_names_differ(members.drop_last());
        let head = fixture_list(members.drop_last())->0;
        let fixture = crate::metadata::fixture_of(members.last().1)->0;
        fixture_named_after_set(head, members.last().0, fixture, members.last().0);
    }
}

/// Among fixtures with different names one is found by its name.
proof fn named_is_contained(
    entries: Seq<(Seq<char>, FixtureModel)>,
    name: Seq<char>,
    fixture: FixtureModel,
)
    requires
        names_differ(entries),
    ensures
        fixture_named(entries, name) == Some(fixture) <==> entries.contains((name, fixture)),
    decreases entries.len(),
{
    if entries.len() > 0 {
        let rest = entries.drop_first();
        assert(names_differ(rest)) by {
            assert forall|i: int, j: int| 0 <= i < j < rest.len() implies (#[trigger] rest[i]).0
                != (#[trigger] rest[j]).0 by {
                assert(rest[i] == entries[i + 1]);
                assert(rest[j] == entries[j + 1]);
            }
        }
        named_is_contained(rest, name, fixture);
        assert(fixture_index(rest, name) >= 0) by {
            index_not_negative(rest, name);
        }
        if entries[0].0 == name {
            if entries.contains((name, fixture)) {
                let k = choose|k: int| 0 <= k < entries.len() && entries[k] == (name, fixture);
                if k > 0 {
                    assert(entries[0].0 != entries[k].0);
                }
            }
        } else {
            let at = fixture_index(rest, name);
            if at < rest.len() {
                assert(entries[at + 1] == rest[at]);
            }
            if entries.contains((name, fixture)) {
                let k = choose|k: int| 0 <= k < entries.len() && entries[k] == (name, fixture);
                assert(rest[k - 1] == entries[k]);
            }
            if rest.contains((name, fixture)) {
                let k = choose|k: int| 0 <= k < rest.len() && rest[k] == (name, fixture);
                assert(entries[k + 1] == rest[k]);
            }
        }
    }
}

proof fn index_not_negative(entries: Seq<(Seq<char>, FixtureModel)>, name: Seq<char>)
    ensures
        0 <= fixture_index(entries, name) <= entries.len(),
    decreases entries.len(),
{
    if entries.len() > 0 && entries[0].0 != name {
        index_not_negative(entries.drop_first(), name);
    }
}

/// The names differ after sorting if they did before.
proof fn sorted_names_differ(entries: Seq<(Seq<char>, FixtureModel)>)
    requires
        names_differ(entries),
    ensures
        names_differ(by_priority(entries)),
    decreases entries.len(),
{
    if entries.len() > 0 {
        let front = entries.drop_last();
        let entry = entries.last();
        assert(names_differ(front));
        sorted_names_differ(front);
        let sorted = by_priority(front);
        let at = crate::fixtures::priority_index(sorted, entry.1.priority);
        index_within(sorted, entry.1.priority);
        let after = sorted.insert(at, entry);
        assert forall|i: int| 0 <= i < sorted.len() implies (#[trigger] sorted[i]).0
            != entry.0 by {
            same_entries(front, sorted[i]);
            assert(sorted.contains(sorted[i]));
            let j = choose|j: int| 0 <= j < front.len() && front[j] == sorted[i];
            assert(entries[j] == front[j]);
            assert(entries[j].0 != entries[entries.len() - 1].0);
        }
        assert forall|i: int, j: int| 0 <= i < j < after.len() implies (#[trigger] after[i]).0 != (
        #[trigger] after[j]).0 by {
            let a = if i < at {
                i
            } else {
                i - 1
            };
            let b = if j < at {
                j
            } else {
                j - 1
            };
            if i != at {
                assert(after[i] == sorted[a]);
            }
            if j != at {
                assert(after[j] == sorted[b]);
            }
        }
    }
}

proof fn index_within(sorted: Seq<(Seq<char>, FixtureModel)>, priority: i64)
    ensures
        0 <= crate::fixtures::priority_index(sorted, priority) <= sorted.len(),
    decreases sorted.len(),
{
    if sorted.len() > 0 && sorted.last().1.priority > priority {
        index_within(sorted.drop_last(), priority);
    }
}

/// Collecting fixtures with different names keeps them as they are.
proof fn collected_is_same(entries: Seq<(Seq<char>, FixtureModel)>)
    requires
        names_differ(entries),
    ensures
        collected_fixtures(entries) == entries,
    decreases entries.len(),
{
    if entries.len() > 0 {
        let front = entries.drop_last();
        let entry = entries.last();
        assert(names_differ(front));
        collected_is_same(front);
        index_not_negative(front, entry.0);
        let at = fixture_index(front, entry.0);
        if at < front.len() {
            found_at_index(front, entry.0);
            assert(entries[at] == front[at]);
            assert(entries[at].0 != entries[entries.len() - 1].0);
        }
        assert(with_fixture(front, entry.0, entry.1) =~= entries);
    }
}

proof fn found_at_index(entries: Seq<(Seq<char>, FixtureModel)>, name: Seq<char>)
    requires
        fixture_index(entries, name) < entries.len(),
    ensures
        entries[fixture_index(entries, name)].0 == name,
    decreases entries.len(),
{
    if entries.len() > 0 && entries[0].0 != name {
        index_not_negative(entries.drop_first(), name);
        found_at_index(entries.drop_first(), name);
    }
}

/// Removing a member that is not there.
proof fn nothing_to_remove(entries: Seq<(Seq<char>, JsonModel)>, key: Seq<char>)
    requires
        member(entries, key) is None,
    ensures
        without_member(entries, key) == entries,
    decreases entries.len(),
{
    crate::json::member_index_is_first(entries, key);
    if entries.len() > 0 {
        let rest = entries.drop_first();
        crate::json::member_index_is_first(rest, key);
        nothing_to_remove(rest, key);
        assert(seq![entries[0]] + rest =~= entries);
    }
}

/// Whether the metadata of a cell holds no trace of an editor notebook.
pub open spec fn untagged(cell: CellModel) -> bool {
    member(nb_members(cell.additional), "editor"@) is None
}

/// Optional fixtures as a list.
pub open spec fn listed(fixtures: Option<Seq<(Seq<char>, FixtureModel)>>) -> Seq<
    (Seq<char>, FixtureModel),
> {
    match fixtures {
        Some(entries) => entries,
        None => Seq::empty(),
    }
}

/// Whether the same fixtures stand under the same names; none at all and an
/// empty list count as the same.
pub open spec fn same_fixtures(
    one: Option<Seq<(Seq<char>, FixtureModel)>>,
    other: Option<Seq<(Seq<char>, FixtureModel)>>,
) -> bool {
    forall|name: Seq<char>| #[trigger]
        fixture_named(listed(one), name) == fixture_named(listed(other), name)
}

/// Fields that are set or removed leave a metadata object where there was one.
proof fn still_has_object(
    additional: Seq<(Seq<char>, JsonModel)>,
    key: Seq<char>,
    value: Option<JsonModel>,
)
    requires
        member(additional, METADATA_KEY@) is Some,
        member(additional, METADATA_KEY@)->0 is Object,
    ensures
        member(with_optional_field(additional, key, value), METADATA_KEY@) is Some,
        member(with_optional_field(additional, key, value), METADATA_KEY@)->0 is Object,
{
    let members = match value {
        Some(v) => crate::json::with_member(nb_members(additional), key, v),
        None => without_member(nb_members(additional), key),
    };
    member_of_with_member(
        additional,
        METADATA_KEY@,
        JsonModel::Object(members),
        METADATA_KEY@,
    );
}

/// A cell without metadata stays as it is when its own section is applied.
proof fn plain_cell_stays(cell: CellModel)
    requires
        cell.data() is None,
    ensures
        edited_cell(cell, own_section(cell)) == cell,
{
    let section = own_section(cell);
    assert(section_fixtures(section) is None);
    assert(section_test(section) is None);
    assert(diff_between(cell.text(), section.patched_source) is None);
}

/// The fixtures of a section of a cell, against those of the cell.
proof fn own_fixtures_kept(cell: CellModel)
    requires
        cell.data() is Some,
        well_formed(cell.additional),
    ensures
        section_fixtures(own_section(cell)) is Some ==> names_differ(
            section_fixtures(own_section(cell))->0,
        ),
        same_fixtures(section_fixtures(own_section(cell)), cell.data()->0.fixtures),
{
    let data = cell.data()->0;
    let made = section_fixtures(own_section(cell));
    if let Some(entries) = data.fixtures {
        let members = nb_members(cell.additional);
        let json = member(members, "fixtures"@)->0;
        assert(fixtures_of(json) == Some(entries));
        read_names_differ(json->Object_0);
        sorted_names_differ(entries);
        by_priority_sorts(entries);
        let sorted = by_priority(entries);
        collected_is_same(sorted);
        if entries.len() > 0 {
            assert(made == Some(sorted));
            assert forall|name: Seq<char>| #[trigger]
                fixture_named(sorted, name) == fixture_named(entries, name) by {
                match fixture_named(entries, name) {
                    Some(fixture) => {
                        named_is_contained(entries, name, fixture);
                        same_entries(entries, (name, fixture));
                        named_is_contained(sorted, name, fixture);
                    },
                    None => {
                        if let Some(fixture) = fixture_named(sorted, name) {
                            named_is_contained(sorted, name, fixture);
                            same_entries(entries, (name, fixture));
                            named_is_contained(entries, name, fixture);
                        }
                    },
                }
            }
        } else {
            assert(entries =~= Seq::<(Seq<char>, FixtureModel)>::empty());
        }
    }
}

/// The trace of an editor notebook is no known field.
proof fn editor_is_no_field()
    ensures
        !known_field("editor"@),
{
    reveal_strlit("editor");
    reveal_strlit("fixtures");
    reveal_strlit("diff");
    reveal_strlit("test");
    reveal_strlit("shas");
    assert("editor"@.len() == 6);
    assert("fixtures"@.len() == 8);
    assert("diff"@.len() == 4);
    assert("test"@.len() == 4);
    assert("shas"@.len() == 4);
}

/// Setting a known field leaves no trace of an editor notebook.
proof fn stays_untagged(
    additional: Seq<(Seq<char>, JsonModel)>,
    key: Seq<char>,
    value: Option<JsonModel>,
)
    requires
        known_field(key),
        member(nb_members(additional), "editor"@) is None,
    ensures
        member(nb_members(with_optional_field(additional, key, value)), "editor"@) is None,
{
    editor_is_no_field();
    let members = nb_members(additional);
    let changed = match value {
        Some(v) => with_member(members, key, v),
        None => without_member(members, key),
    };
    member_of_with_member(
        additional,
        METADATA_KEY@,
        JsonModel::Object(changed),
        METADATA_KEY@,
    );
    match value {
        Some(v) => {
            member_of_with_member(members, key, v, "editor"@);
        },
        None => {
            crate::json::member_of_without_member(members, key, "editor"@);
        },
    }
}

/// What a cell with metadata holds after its own section is applied and the
/// given fingerprints are recorded: the same fixtures, the diff to the same
/// patched source, the same test unless it is blank, the fingerprints, and what
/// else stood there but for the trace of an editor notebook.
proof fn own_data_kept(cell: CellModel, shas: Seq<ShaModel>)
    requires
        cell.data() is Some,
        well_formed(cell.additional),
    ensures
        edited_cell(cell, own_section(cell)).data() is Some,
        untagged(with_shas(edited_cell(cell, own_section(cell)), shas)),
        ({
            let before = cell.data()->0;
            let after = with_shas(edited_cell(cell, own_section(cell)), shas).data();
            &&& after is Some
            &&& same_fixtures(after->0.fixtures, before.fixtures)
            &&& after->0 == (DataModel {
                fixtures: after->0.fixtures,
                diff: diff_between(cell.text(), source_after_diff(cell.text(), before.diff)),
                test: section_test(own_section(cell)),
                shas: Some(shas),
                extra: without_member(before.extra, "editor"@),
            })
        }),
{
    let section = own_section(cell);
    let additional = without_field(cell.additional, "editor"@);
    editor_is_no_field();
    unknown_field_removed(cell.additional, "editor"@);
    own_fixtures_kept(cell);
    let fixtures = section_fixtures(section);
    let fixtures_value = optional_fixtures_json(fixtures);
    fixtures_field_reads_back(additional, fixtures);
    still_has_object(additional, "fixtures"@, fixtures_value);
    let first = with_optional_field(additional, "fixtures"@, fixtures_value);
    let diff = diff_between(cell.text(), section.patched_source);
    diff_reads_back(first, diff);
    still_has_object(first, "diff"@, optional_text_json(diff));
    let second = with_optional_field(first, "diff"@, optional_text_json(diff));
    let test = section_test(section);
    test_field_reads_back(second, test);
    still_has_object(second, "test"@, optional_test_json(test));
    let third = with_optional_field(second, "test"@, optional_test_json(test));
    with_member_same(third, METADATA_KEY@, JsonModel::Object(nb_members(third)));
    assert(addressed(third) == third);
    assert(edited_additional(cell, section) == third);
    shas_field_reads_back(third, shas);
    still_has_object(third, "shas"@, Some(shas_json(shas)));
    let last = with_field(third, "shas"@, shas_json(shas));
    assert(with_shas(edited_cell(cell, section), shas).additional == last);
    stays_untagged(additional, "fixtures"@, fixtures_value);
    stays_untagged(first, "diff"@, optional_text_json(diff));
    stays_untagged(second, "test"@, optional_test_json(test));
    stays_untagged(third, "shas"@, Some(shas_json(shas)));
    assert(data_in(third) is Some);
    assert(data_or_empty(last) == data_in(last)->0);
    let kept = data_or_empty(first).fixtures;
    assert(data_in(last)->0.fixtures == kept);
    assert forall|name: Seq<char>| #[trigger]
        fixture_named(listed(kept), name) == fixture_named(
            listed(cell.data()->0.fixtures),
            name,
        ) by {
        assert(fixture_named(listed(fixtures), name) == fixture_named(
            listed(cell.data()->0.fixtures),
            name,
        ));
        if fixtures is Some {
            assert(fixture_named(kept->0, name) == fixture_named(fixtures->0, name));
        }
    }
}

/// Whether `after` is the cell `before` once it has gone through the editor and
/// nobody has changed anything: a cell that is no code or has no metadata is as
/// it was; any other keeps its id, its source and its body, its fixtures by
/// name, its patched source, its test and what else stands in its metadata, but
/// for the trace of an editor notebook, and records the fingerprints.
pub open spec fn gone_through_editor(
    before: CellModel,
    after: CellModel,
    shas: Seq<ShaModel>,
) -> bool {
    if !before.is_code() || before.data() is None {
        after == before
    } else {
        &&& after == (CellModel { additional: after.additional, ..before })
        &&& after.data() is Some
        &&& same_fixtures(after.data()->0.fixtures, before.data()->0.fixtures)
        &&& after.data()->0.diff == diff_between(
            before.text(),
            source_after_diff(before.text(), before.data()->0.diff),
        )
        &&& after.data()->0.test == before.data()->0.test
        &&& after.data()->0.extra == without_member(before.data()->0.extra, "editor"@)
        &&& untagged(after)
        &&& after.data()->0.shas == Some(shas)
    }
}

/// Whether a cell with metadata can go through the editor: its metadata is
/// well formed, what the editor shows of it can be told apart, and its test is
/// not blank.
pub open spec fn can_go_through(cell: CellModel) -> bool {
    cell.data() is Some ==> {
        &&& well_formed(cell.additional)
        &&& editable(cell)
        &&& match cell.data()->0.test {
            Some(test) => trimmed(test.source).len() > 0,
            None => true,
        }
    }
}

/// The round trip: a source whose editor notebook nobody changed can be given
/// the changes of it, nothing is remarked on, and the source is as it was but
/// for the recorded fingerprints, which are those of the source as it then is:
/// every cell keeps what `gone_through_editor` says. Diffs are made anew between
/// the source and the patched source, and no trace of an editor notebook stays.
pub proof fn editor_round_trip(source: NotebookModel, editor: NotebookModel, source_path: Seq<char>)
    requires
        is_editor_notebook(editor, source, source_path),
        cell_ids_differ(source),
        forall|i: int|
            0 <= i < source.cells.len() && source.cells[i].is_code() ==> can_go_through(
                #[trigger] source.cells[i],
            ),
    ensures
        readable(editor),
        sections_writable(source.cells, sections_of(editor)),
        reading_warnings(editor) == Seq::<Seq<char>>::empty(),
        section_warnings(source.cells, sections_of(editor)) == Seq::<Seq<char>>::empty(),
        ({
            let after = edited_notebook(source, editor);
            &&& after == (NotebookModel { cells: after.cells, ..source })
            &&& after.cells.len() == source.cells.len()
            &&& forall|i: int|
                0 <= i < source.cells.len() ==> gone_through_editor(
                    source.cells[i],
                    #[trigger] after.cells[i],
                    snapshot(after).take(i + 1),
                )
        }),
{
    let cells = source.cells;
    let count = cells.len() as int;
    assert forall|i: int| 0 <= i < cells.len() && cells[i].is_code() implies editable(
        #[trigger] cells[i],
    ) by {
        assert(can_go_through(cells[i]));
    }
    editor_is_readable(source, editor, source_path);
    editor_sections_are_own(source, editor, source_path);
    sections_meet_cells(source, count);
    let sections = own_sections(cells, count);
    own_sections_are_code(cells, count);
    assert forall|k: int|
        0 <= k < sections.len() && cell_index_of(cells, (#[trigger] sections[k]).cell_id)
            < cells.len() implies crate::metadata::writable(
        cells[cell_index_of(cells, sections[k].cell_id)].additional,
    ) by {
        let i = choose|i: int|
            0 <= i < count && cells[i].is_code() && sections[k].cell_id == #[trigger] cells[i].id;
        only_cell_with_id(source, cells, i);
        assert(can_go_through(cells[i]));
    }
    let after = edited_notebook(source, editor);
    let written = written_notebook(source, editor);
    let shas = snapshot(written);
    review_keeps_snapshot(source, editor);
    assert forall|i: int| 0 <= i < cells.len() implies gone_through_editor(
        cells[i],
        #[trigger] after.cells[i],
        shas.take(i + 1),
    ) by {
        assert(after.cells[i] == reviewed_cell(written, sections, i));
        cell_goes_through(source, i, shas.take(i + 1));
        own_sections_name(source, count, i);
        same_cells_named(written.cells, cells, sections, i);
    }
}

/// What becomes of a cell when its own section is applied and the given
/// fingerprints are recorded.
proof fn cell_goes_through(source: NotebookModel, index: int, shas: Seq<ShaModel>)
    requires
        0 <= index < source.cells.len(),
        source.cells[index].is_code() ==> can_go_through(source.cells[index]),
    ensures
        ({
            let cell = source.cells[index];
            let edited = applied_to_own(source.cells, source.cells.len() as int)[index];
            gone_through_editor(
                cell,
                if cell.is_code() && edited.data() is Some {
                    with_shas(edited, shas)
                } else {
                    edited
                },
                shas,
            )
        }),
{
    let cell = source.cells[index];
    if cell.is_code() {
        if cell.data() is Some {
            own_data_kept(cell, shas);
            if cell.data()->0.test is None {
                nothing_is_neat();
            }
        } else {
            plain_cell_stays(cell);
        }
    }
}

/// Every section is about a code cell.
proof fn own_sections_are_code(cells: Seq<CellModel>, count: int)
    requires
        0 <= count <= cells.len(),
    ensures
        forall|k: int|
            0 <= k < own_sections(cells, count).len() ==> exists|i: int|
                0 <= i < count && cells[i].is_code() && (
                #[trigger] own_sections(cells, count)[k]).cell_id == #[trigger] cells[i].id,
    decreases count,
{
    let sections = own_sections(cells, count);
    if count > 0 {
        own_sections_are_code(cells, count - 1);
        let front = own_sections(cells, count - 1);
        assert forall|k: int| 0 <= k < sections.len() implies exists|i: int|
            0 <= i < count && cells[i].is_code() && (#[trigger] sections[k]).cell_id
                == #[trigger] cells[i].id by {
            if k < front.len() {
                assert(sections[k] == front[k]);
                let i = choose|i: int|
                    0 <= i < count - 1 && cells[i].is_code() && front[k].cell_id
                        == #[trigger] cells[i].id;
                assert(sections[k].cell_id == cells[i].id);
            } else {
                assert(sections[k].cell_id == cells[count - 1].id);
            }
        }
    }
}

// ---------------------------------------------------------------------------
// Going through the editor is the review
// ---------------------------------------------------------------------------

/// Whether the metadata of a cell stands as it is written: its fixtures, if
/// there are any, its test, a diff that comes out the same when it is made anew
/// from the source of the cell, and no trace of an editor notebook.
pub open spec fn as_written(cell: CellModel) -> bool {
    cell.data() matches Some(data) ==> {
        let members = nb_members(cell.additional);
        &&& member(members, "fixtures"@) == optional_fixtures_json(data.fixtures)
        &&& data.fixtures matches Some(entries) ==> entries.len() > 0
        &&& member(members, "diff"@) == optional_text_json(data.diff)
        &&& diff_between(cell.text(), source_after_diff(cell.text(), data.diff)) == data.diff
        &&& member(members, "test"@) == optional_test_json(data.test)
        &&& untagged(cell)
    }
}

/// Setting a field to what it is, or removing it where it is absent, changes
/// nothing.
proof fn field_same(
    additional: Seq<(Seq<char>, JsonModel)>,
    key: Seq<char>,
    value: Option<JsonModel>,
)
    requires
        member(additional, METADATA_KEY@) is Some,
        member(additional, METADATA_KEY@)->0 is Object,
        member(nb_members(additional), key) == value,
    ensures
        with_optional_field(additional, key, value) == additional,
{
    let members = nb_members(additional);
    match value {
        Some(v) => {
            with_member_same(members, key, v);
        },
        None => {
            nothing_to_remove(members, key);
        },
    }
    with_member_same(additional, METADATA_KEY@, JsonModel::Object(members));
}

/// The JSON of fixtures does not depend on their order.
proof fn fixtures_json_same(
    one: Seq<(Seq<char>, FixtureModel)>,
    other: Seq<(Seq<char>, FixtureModel)>,
)
    requires
        names_differ(one),
        names_differ(other),
        forall|name: Seq<char>| #[trigger] fixture_named(one, name) == fixture_named(other, name),
    ensures
        fixtures_json(one) == fixtures_json(other),
{
    let first = fixture_members(one);
    let second = fixture_members(other);
    fixture_members_by_name(one, Seq::empty());
    fixture_members_by_name(other, Seq::empty());
    assert forall|key: Seq<char>| #[trigger] member(first, key) == member(second, key) by {
        fixture_members_by_name(one, key);
        fixture_members_by_name(other, key);
        assert(fixture_named(one, key) == fixture_named(other, key));
    }
    same_members(first, second);
}

/// The fixtures of the section of a cell are written as those of the cell.
proof fn own_fixtures_written(cell: CellModel)
    requires
        cell.data() is Some,
        well_formed(cell.additional),
        as_written(cell),
    ensures
        optional_fixtures_json(section_fixtures(own_section(cell))) == optional_fixtures_json(
            cell.data()->0.fixtures,
        ),
{
    own_fixtures_kept(cell);
    let made = section_fixtures(own_section(cell));
    if let Some(entries) = cell.data()->0.fixtures {
        let json = member(nb_members(cell.additional), "fixtures"@)->0;
        assert(fixtures_of(json) == Some(entries));
        read_names_differ(json->Object_0);
        sorted_names_differ(entries);
        by_priority_sorts(entries);
        collected_is_same(by_priority(entries));
        assert(made is Some);
        assert(listed(made) == made->0);
        assert(listed(cell.data()->0.fixtures) == entries);
        assert forall|name: Seq<char>| #[trigger]
            fixture_named(made->0, name) == fixture_named(entries, name) by {
            assert(fixture_named(listed(made), name) == fixture_named(
                listed(cell.data()->0.fixtures),
                name,
            ));
        }
        fixtures_json_same(made->0, entries);
    }
}

/// A cell whose metadata stands as it is written stays as it is when its own
/// section is applied.
proof fn own_cell_kept(cell: CellModel)
    requires
        cell.data() is Some,
        can_go_through(cell),
        as_written(cell),
    ensures
        edited_cell(cell, own_section(cell)) == cell,
{
    let section = own_section(cell);
    let additional = cell.additional;
    let data = cell.data()->0;
    let members = nb_members(additional);
    nothing_to_remove(members, "editor"@);
    with_member_same(additional, METADATA_KEY@, JsonModel::Object(members));
    assert(without_field(additional, "editor"@) == additional);
    own_fixtures_written(cell);
    field_same(additional, "fixtures"@, optional_fixtures_json(section_fixtures(section)));
    field_same(additional, "diff"@, optional_text_json(data.diff));
    if data.test is None {
        nothing_is_neat();
    }
    assert(section_test(section) == data.test);
    field_same(additional, "test"@, optional_test_json(data.test));
    assert(addressed(additional) == additional);
    assert(edited_additional(cell, section) == additional);
}

/// Going through the editor is the review: where the metadata stands as it is
/// written and nobody changes the editor notebook, the source only has its
/// fingerprints recorded anew, and every cell with metadata is valid.
pub proof fn unchanged_editor_makes_valid(
    source: NotebookModel,
    editor: NotebookModel,
    source_path: Seq<char>,
)
    requires
        is_editor_notebook(editor, source, source_path),
        cell_ids_differ(source),
        forall|i: int|
            0 <= i < source.cells.len() && source.cells[i].is_code() ==> can_go_through(
                #[trigger] source.cells[i],
            ) && as_written(source.cells[i]),
    ensures
        ({
            let after = edited_notebook(source, editor);
            &&& after == (NotebookModel { cells: after.cells, ..source })
            &&& after.cells.len() == source.cells.len()
            &&& snapshot(after) == snapshot(source)
            &&& forall|i: int|
                0 <= i < source.cells.len() ==> (#[trigger] after.cells[i]) == if source.cells[i].is_code()
                    && source.cells[i].data() is Some {
                    with_shas(source.cells[i], snapshot(source).take(i + 1))
                } else {
                    source.cells[i]
                }
            &&& forall|i: int|
                0 <= i < source.cells.len() && source.cells[i].is_code() && source.cells[i].data()
                    is Some ==> state_of(after, i) is Valid && staleness_of(after, i) is Valid
        }),
{
    let cells = source.cells;
    let count = cells.len() as int;
    let shas = snapshot(source);
    assert forall|i: int| 0 <= i < cells.len() && cells[i].is_code() implies editable(
        #[trigger] cells[i],
    ) by {
        assert(can_go_through(cells[i]));
    }
    editor_sections_are_own(source, editor, source_path);
    sections_meet_cells(source, count);
    let sections = own_sections(cells, count);
    let after = edited_notebook(source, editor);
    let written = written_notebook(source, editor);
    assert forall|i: int| 0 <= i < cells.len() implies #[trigger] written.cells[i] == cells[i] by {
        let cell = cells[i];
        if cell.is_code() {
            assert(can_go_through(cell) && as_written(cell));
            if cell.data() is Some {
                own_cell_kept(cell);
            } else {
                plain_cell_stays(cell);
            }
        }
    }
    assert(written.cells =~= cells);
    assert(written == source);
    assert forall|i: int| 0 <= i < cells.len() implies (#[trigger] after.cells[i])
        == if cells[i].is_code() && cells[i].data() is Some {
        with_shas(cells[i], shas.take(i + 1))
    } else {
        cells[i]
    } && cell_sha(after.cells[i]) == cell_sha(cells[i]) && after.cells[i].id == cells[i].id by {
        let cell = cells[i];
        assert(after.cells[i] == reviewed_cell(written, sections, i));
        own_sections_name(source, count, i);
        if cell.is_code() && cell.data() is Some {
            assert(can_go_through(cell));
            sha_ignores_recorded_shas(cell, shas.take(i + 1));
        }
    }
    assert(snapshot(after) =~= shas);
    assert forall|i: int|
        0 <= i < cells.len() && cells[i].is_code() && cells[i].data() is Some implies state_of(
        after,
        i,
    ) is Valid && staleness_of(after, i) is Valid by {
        assert(can_go_through(cells[i]));
        shas_field_reads_back(cells[i].additional, shas.take(i + 1));
        member_of_with_member(
            cells[i].additional,
            METADATA_KEY@,
            JsonModel::Object(
                with_member(nb_members(cells[i].additional), "shas"@, shas_json(shas.take(i + 1))),
            ),
            METADATA_KEY@,
        );
        assert(after.cells[i] == with_shas(cells[i], shas.take(i + 1)));
        reviewed_is_valid(source, after, i);
    }
}

/// Applying a section leaves the known fields well formed, but for the recorded
/// SHAs.
proof fn edited_is_well_formed(cell: CellModel, section: SectionModel)
    requires
        writable(cell.additional),
    ensures
        well_formed_but_shas(edited_cell(cell, section).additional),
{
    edited_is_writable(cell, section);
    let additional = without_field(cell.additional, "editor"@);
    let fixtures = section_fixtures(section);
    if fixtures is Some {
        collected_names_differ(section.fixtures);
        fixtures_read_back(fixtures->0);
    }
    if section_test(section) is Some {
        test_reads_back(section_test(section)->0);
    }
    reveal_strlit("fixtures");
    reveal_strlit("diff");
    reveal_strlit("test");
    assert("fixtures"@.len() == 8);
    assert("diff"@[0] != "test"@[0]);
    field_is_set(additional, "fixtures"@, optional_fixtures_json(fixtures));
    let first = with_optional_field(additional, "fixtures"@, optional_fixtures_json(fixtures));
    let diff = diff_between(cell.text(), section.patched_source);
    field_is_set(first, "diff"@, optional_text_json(diff));
    let second = with_optional_field(first, "diff"@, optional_text_json(diff));
    field_is_set(second, "test"@, optional_test_json(section_test(section)));
    let third = with_optional_field(
        second,
        "test"@,
        optional_test_json(section_test(section)),
    );
    member_of_with_member(
        third,
        METADATA_KEY@,
        JsonModel::Object(nb_members(third)),
        METADATA_KEY@,
    );
    assert(nb_members(addressed(third)) == nb_members(third));
}

/// Fixtures by name have different names.
pub proof fn collected_names_differ(entries: Seq<(Seq<char>, FixtureModel)>)
    ensures
        names_differ(collected_fixtures(entries)),
    decreases entries.len(),
{
    if entries.len() > 0 {
        collected_names_differ(entries.drop_last());
        fixture_named_after_set(
            collected_fixtures(entries.drop_last()),
            entries.last().0,
            entries.last().1,
            entries.last().0,
        );
    }
}

/// Applying sections leaves the known fields of a cell that one of them is about
/// well formed, but for the recorded SHAs.
pub proof fn sections_make_well_formed(
    cells: Seq<CellModel>,
    sections: Seq<SectionModel>,
    count: int,
    index: int,
)
    requires
        0 <= count <= sections.len(),
        0 <= index < cells.len(),
        sections_writable(cells, sections),
        is_named(cells, sections.take(count), index),
    ensures
        well_formed_but_shas(with_sections(cells, sections.take(count))[index].additional),
    decreases count,
{
    let upto = sections.take(count);
    if count > 0 {
        let front = sections.take(count - 1);
        let section = sections[count - 1];
        assert(upto =~= front.push(section));
        assert(upto.drop_last() =~= front);
        sections_keep_cells(cells, sections, count - 1);
        let before = with_sections(cells, front);
        cell_index_is_first(before, section.cell_id);
        one_more_named(cells, front, section, index);
        same_cells_named(before, cells, seq![section], index);
        named_by_one(before, section, index);
        named_by_one(cells, section, index);
        if cell_index_of(cells, section.cell_id) == index {
            assert(writable(cells[cell_index_of(cells, sections[count - 1].cell_id)].additional));
            assert(writable(before[index].additional));
            edited_is_well_formed(before[index], section);
        } else {
            sections_make_well_formed(cells, sections, count - 1, index);
        }
    }
}

/// The cell that a single section is about.
proof fn named_by_one(cells: Seq<CellModel>, section: SectionModel, index: int)
    ensures
        is_named(cells, seq![section], index) == (cell_index_of(cells, section.cell_id) == index),
{
    let one = seq![section];
    assert(one[0] == section);
}

/// Going through the editor is the review, whatever was changed in it: a cell
/// that a section is about, and that has metadata afterwards, records the
/// fingerprints of the notebook as it then is, and is valid. The ids of the
/// cells differ.
pub proof fn edited_cells_are_valid(source: NotebookModel, editor: NotebookModel, index: int)
    requires
        sections_writable(source.cells, sections_of(editor)),
        cell_ids_differ(source),
        0 <= index < source.cells.len(),
        is_named(source.cells, sections_of(editor), index),
    ensures
        ({
            let after = edited_notebook(source, editor);
            after.cells[index].data() is Some ==> {
                &&& after.cells[index].data()->0.shas == Some(snapshot(after).take(index + 1))
                &&& staleness_of(after, index) is Valid
                &&& state_of(after, index) is Valid
            }
        }),
{
    let after = edited_notebook(source, editor);
    let written = written_notebook(source, editor);
    let sections = sections_of(editor);
    let count = sections.len() as int;
    assert(sections.take(count) =~= sections);
    sections_keep_cells(source.cells, sections, count);
    sections_make_well_formed(source.cells, sections, count, index);
    review_keeps_snapshot(source, editor);
    same_cells_named(written.cells, source.cells, sections, index);
    assert(after.cells[index] == reviewed_cell(written, sections, index));
    if after.cells[index].data() is Some {
        assert(written.cells[index].data() is Some);
        let shas = snapshot(written).take(index + 1);
        let cell = written.cells[index];
        recorded_shas_read_back(cell.additional, shas);
        assert forall|i: int, j: int| 0 <= i < j < written.cells.len() implies (
        #[trigger] written.cells[i]).id != (#[trigger] written.cells[j]).id by {
            assert(source.cells[i].id != source.cells[j].id);
        }
        assert forall|i: int| 0 <= i < written.cells.len() implies (#[trigger] after.cells[i]).id
            == written.cells[i].id by {
            assert(after.cells[i] == reviewed_cell(written, sections, i));
        }
        reviewed_is_valid(written, after, index);
    }
}

/// A cell with the fingerprints of its notebook recorded is valid.
proof fn reviewed_is_valid(source: NotebookModel, after: NotebookModel, index: int)
    requires
        0 <= index < source.cells.len(),
        cell_ids_differ(source),
        after.cells[index].data() is Some,
        well_formed(after.cells[index].additional),
        after.cells.len() == source.cells.len(),
        forall|i: int|
            0 <= i < source.cells.len() ==> (#[trigger] after.cells[i]).id == source.cells[i].id,
        snapshot(after) == snapshot(source),
        after.cells[index] == with_shas(
            source.cells[index],
            snapshot(source).take(index + 1),
        ),
    ensures
        state_of(after, index) is Valid,
        staleness_of(after, index) is Valid,
{
    let cell = source.cells[index];
    let shas = snapshot(source).take(index + 1);
    let members = with_member(nb_members(cell.additional), "shas"@, shas_json(shas));
    let additional = after.cells[index].additional;
    member_of_with_member(
        cell.additional,
        METADATA_KEY@,
        JsonModel::Object(members),
        METADATA_KEY@,
    );
    member_of_with_member(nb_members(cell.additional), "shas"@, shas_json(shas), "shas"@);
    assert(nb_members(additional) == members);
    field_same(additional, "shas"@, Some(shas_json(shas)));
    assert(with_shas(after.cells[index], shas) == after.cells[index]);
    assert(accepted(after, index).cells =~= after.cells);
    assert(accepted(after, index) == after);
    assert forall|i: int, j: int| 0 <= i < j < after.cells.len() implies (
    #[trigger] after.cells[i]).id != (#[trigger] after.cells[j]).id by {
        assert(source.cells[i].id != source.cells[j].id);
    }
    accepting_makes_valid(after, index);
}

} // verus!
