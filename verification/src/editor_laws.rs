//! What an editor notebook shows, and when it no longer fits its source.
use vstd::prelude::*;

use crate::cells::{fits, tag};
use crate::diff_utils::patched_text;
use crate::edit::{
    editor_fields, editor_templates, fixture_templates, full_header, header_parts, header_template,
    is_editor_notebook, passthrough_template, patched_template, plain_header, section_templates,
    state_hint, test_template,
};
use crate::json::member_index_unique;
use crate::metadata::{ShaModel, METADATA_KEY};
use crate::notebook::{nested_text, CellModel, NotebookModel};
use crate::reading_laws::editor_says;
use crate::save::{
    changed_conflicts, deleted_conflicts, inserted_conflicts, parsed_fixture, parsed_test,
    sha_conflicts, without_skip_line,
};
use crate::shas::{common_ids, ids_of, recorded_sha, state_of, CellStateModel};
use crate::text::{bare_lines, begins_with, decimal, joined, lines_give_text_back};

verus! {

// ---------------------------------------------------------------------------
// Sections of an editor notebook
// ---------------------------------------------------------------------------

/// What a tag of the editor says is read back.
proof fn editor_tag_reads_back(cell_id: Seq<char>, role: Seq<char>)
    ensures
        nested_text(tag("editor"@, editor_fields(cell_id, role)), "editor"@, "role"@) == Some(role),
        nested_text(tag("editor"@, editor_fields(cell_id, role)), "editor"@, "cell_id"@) == Some(
            cell_id,
        ),
{
    reveal_strlit("role");
    reveal_strlit("cell_id");
    assert("role"@.len() == 4);
    assert("cell_id"@.len() == 7);
    let fields = editor_fields(cell_id, role);
    let members = seq![("editor"@, fields)];
    member_index_unique(tag("editor"@, fields), METADATA_KEY@, 0);
    member_index_unique(members, "editor"@, 0);
    member_index_unique(fields->Object_0, "cell_id"@, 0);
    member_index_unique(fields->Object_0, "role"@, 1);
}

/// Where the cells for one cell of the source stand.
proof fn own_cells_in_place(nb: NotebookModel, count: int, index: int)
    requires
        0 <= index < count,
    ensures
        ({
            let all = editor_templates(nb, count);
            let own = section_templates(nb, index);
            let start = editor_templates(nb, index).len() as int;
            &&& start + own.len() <= all.len()
            &&& forall|k: int| 0 <= k < own.len() ==> #[trigger] all[start + k] == own[k]
        }),
    decreases count,
{
    if index < count - 1 {
        own_cells_in_place(nb, count - 1, index);
        let before = editor_templates(nb, count - 1);
        let all = editor_templates(nb, count);
        let own = section_templates(nb, index);
        let start = editor_templates(nb, index).len() as int;
        assert forall|k: int| 0 <= k < own.len() implies #[trigger] all[start + k] == own[k] by {
            assert(all[start + k] == before[start + k]);
        }
    }
}

/// Whether a cell is tagged by the editor with a role, for a cell.
pub open spec fn edits(cell: CellModel, role: Seq<char>, cell_id: Seq<char>) -> bool {
    editor_says(cell, "role"@) == Some(role) && editor_says(cell, "cell_id"@) == Some(cell_id)
}

/// For a code cell without metadata the editor notebook has a header, which is a
/// note that names it and its position, and behind it the cell itself under its
/// own id, with its outputs.
pub proof fn plain_cells_are_shown(
    editor: NotebookModel,
    source: NotebookModel,
    source_path: Seq<char>,
    index: int,
)
    requires
        is_editor_notebook(editor, source, source_path),
        0 <= index < source.cells.len(),
        source.cells[index].is_code(),
        source.cells[index].data() is None,
    ensures
        ({
            let cell = source.cells[index];
            exists|at: int|
                0 <= at < editor.cells.len() - 1 && #[trigger] edits(
                    editor.cells[at],
                    "section-header"@,
                    cell.id,
                ) && editor.cells[at].body is Markdown && begins_with(
                    editor.cells[at].text(),
                    "---\n## `"@ + cell.id + "` · Cell "@ + decimal((index + 1) as nat),
                ) && edits(editor.cells[at + 1], "source"@, cell.id) && editor.cells[at + 1].id
                    == cell.id && editor.cells[at + 1].source == cell.source && editor.cells[at
                    + 1].body == cell.body
        }),
{
    let cell = source.cells[index];
    let count = source.cells.len() as int;
    let all = editor_templates(source, count);
    let own = section_templates(source, index);
    let at = editor_templates(source, index).len() as int;
    let position = (index + 1) as nat;
    own_cells_in_place(source, count, index);
    assert(own.len() == 2);
    assert(all[at + 0] == own[0]);
    assert(all[at + 1] == own[1]);
    assert(fits(editor.cells[at], all[at]));
    assert(fits(editor.cells[at + 1], all[at + 1]));
    assert(own[0] == header_template(cell.id, plain_header(cell.id, position)));
    assert(own[1] == passthrough_template(cell));
    editor_tag_reads_back(cell.id, "section-header"@);
    editor_tag_reads_back(cell.id, "source"@);
    let text = plain_header(cell.id, position);
    lines_give_text_back(text);
    let start = "---\n## `"@ + cell.id + "` · Cell "@ + decimal(position);
    assert(text.take(start.len() as int) =~= start);
    assert(edits(editor.cells[at], "section-header"@, cell.id));
}

/// What the header of a cell with metadata begins with: the cell, its position,
/// and if it is up to date. A cell that is not valid needs review.
pub open spec fn header_of_state(
    cell_id: Seq<char>,
    position: nat,
    state: CellStateModel,
) -> Seq<char> {
    "---\n## `"@ + cell_id + "` · Cell "@ + decimal(position) + " · "@ + (if state is Valid {
        "Has tests"@
    } else {
        "Needs review"@
    }) + "\n\n"@
}

/// For a code cell with metadata the editor notebook has a header, the fixtures
/// or one to be filled in, the source with its diff applied under the id of the
/// cell, and the test. The header says if the cell is up to date.
pub proof fn cells_with_metadata_are_shown(
    editor: NotebookModel,
    source: NotebookModel,
    source_path: Seq<char>,
    index: int,
)
    requires
        is_editor_notebook(editor, source, source_path),
        0 <= index < source.cells.len(),
        source.cells[index].is_code(),
        source.cells[index].data() is Some,
    ensures
        ({
            let cell = source.cells[index];
            let data = cell.data()->0;
            let fixtures = match data.fixtures {
                Some(entries) => if entries.len() > 0 {
                    entries.len() as int
                } else {
                    1
                },
                None => 1,
            };
            let shown = match data.diff {
                Some(diff) => match patched_text(cell.text(), diff) {
                    Ok(text) => text,
                    Err(_) => cell.text(),
                },
                None => cell.text(),
            };
            exists|at: int|
                0 <= at < editor.cells.len() - fixtures - 2 && #[trigger] edits(
                    editor.cells[at],
                    "section-header"@,
                    cell.id,
                ) && editor.cells[at].body is Markdown && begins_with(
                    editor.cells[at].text(),
                    header_of_state(cell.id, (index + 1) as nat, state_of(source, index)),
                ) && edits(editor.cells[at + fixtures + 1], "patched-source"@, cell.id)
                    && editor.cells[at + fixtures + 1].id == cell.id && editor.cells[at + fixtures
                    + 1].text() == shown && edits(
                    editor.cells[at + fixtures + 2],
                    "test"@,
                    cell.id,
                )
        }),
{
    let cell = source.cells[index];
    let data = cell.data()->0;
    let count = source.cells.len() as int;
    let all = editor_templates(source, count);
    let own = section_templates(source, index);
    let at = editor_templates(source, index).len() as int;
    let position = (index + 1) as nat;
    let state = state_of(source, index);
    let middle = fixture_templates(cell.id, data);
    let fixtures = middle.len() as int;
    if let Some(entries) = data.fixtures {
        crate::fixtures::by_priority_sorts(entries);
    }
    own_cells_in_place(source, count, index);
    assert(own.len() == fixtures + 3);
    assert(all[at + 0] == own[0]);
    assert(all[at + (fixtures + 1)] == own[fixtures + 1]);
    assert(all[at + (fixtures + 2)] == own[fixtures + 2]);
    assert(fits(editor.cells[at], all[at]));
    assert(fits(editor.cells[at + fixtures + 1], all[at + fixtures + 1]));
    assert(fits(editor.cells[at + fixtures + 2], all[at + fixtures + 2]));
    let text = full_header(cell, position, data, state);
    assert(own[0] == header_template(cell.id, text));
    assert(own[fixtures + 1] == patched_template(cell, data));
    assert(own[fixtures + 2] == test_template(cell.id, data));
    editor_tag_reads_back(cell.id, "section-header"@);
    editor_tag_reads_back(cell.id, "patched-source"@);
    editor_tag_reads_back(cell.id, "test"@);
    lines_give_text_back(text);
    lines_give_text_back(crate::edit::source_after_diff(cell.text(), data.diff));
    let parts = header_parts(cell, position, data, state);
    joined_begins_with_first(parts, "\n\n"@);
    let start = header_of_state(cell.id, position, state);
    assert(parts[0] =~= start + state_hint(state));
    assert(text.take(start.len() as int) =~= start) by {
        assert(text.take(parts[0].len() as int) == parts[0]);
        assert(text.take(start.len() as int) =~= parts[0].take(start.len() as int));
    }
    assert(edits(editor.cells[at], "section-header"@, cell.id));
}

/// Joined pieces begin with the first of them.
proof fn joined_begins_with_first(pieces: Seq<Seq<char>>, separator: Seq<char>)
    requires
        pieces.len() > 0,
    ensures
        begins_with(joined(pieces, separator), pieces[0]),
    decreases pieces.len(),
{
    let whole = joined(pieces, separator);
    if pieces.len() == 1 {
        assert(whole.take(pieces[0].len() as int) =~= pieces[0]);
    } else {
        let front = pieces.drop_last();
        joined_begins_with_first(front, separator);
        let before = joined(front, separator);
        assert(whole.take(pieces[0].len() as int) =~= before.take(pieces[0].len() as int));
    }
}

/// The header of a changed cell says why: everything that changed in it and
/// before it.
pub proof fn header_says_why(cell: CellModel, position: nat, data: crate::metadata::DataModel)
    ensures
        forall|needs_review: Seq<Seq<char>>, ancestor_modified: Seq<Seq<char>>|
            #![trigger needs_review + ancestor_modified]
            (needs_review + ancestor_modified).len() > 0 ==> {
                let parts = header_parts(
                    cell,
                    position,
                    data,
                    CellStateModel::Changed { needs_review, ancestor_modified },
                );
                parts.len() > 1 && parts[1] == "**Why:** "@ + joined(
                    needs_review + ancestor_modified,
                    "; "@,
                )
            },
{
}

// ---------------------------------------------------------------------------
// Cells that are written by hand
// ---------------------------------------------------------------------------

/// The line that keeps a test cell from running does not matter.
pub proof fn skip_line_does_not_matter(source: Seq<char>)
    requires
        without_skip_line(source) == source,
    ensures
        parsed_test("%%nb_skip\n"@ + source) == parsed_test(source),
{
    let whole = "%%nb_skip\n"@ + source;
    assert(whole.take("%%nb_skip\n"@.len() as int) =~= "%%nb_skip\n"@);
    assert(whole.skip("%%nb_skip\n"@.len() as int) =~= source);
}

/// A test cell without a line about its name is an unnamed test with all its
/// text.
pub proof fn test_without_a_name_is_unnamed(source: Seq<char>)
    requires
        !begins_with(source, "%%nb_skip"@),
        !begins_with(source, "# test:"@),
    ensures
        parsed_test(source) == ("<unnamed>"@, source),
{
    reveal_strlit("%%nb_skip");
    reveal_strlit("%%nb_skip\n");
    if begins_with(source, "%%nb_skip\n"@) {
        assert(source.take(9) =~= "%%nb_skip\n"@.take(9));
        assert("%%nb_skip\n"@.take(9) =~= "%%nb_skip"@);
    }
    if source == "%%nb_skip"@ {
        assert(source.take(9) =~= source);
    }
}

/// A fixture cell without a head is a fixture with all its text. It is named
/// after its cell and its position, which is its priority too.
pub proof fn fixture_without_a_head_takes_all(
    source: Seq<char>,
    parent: Seq<char>,
    position: nat,
)
    requires
        bare_lines(source).len() > 0 ==> {
            let line = bare_lines(source)[0];
            &&& !begins_with(line, "# fixture:"@)
            &&& !begins_with(line, "# description:"@)
            &&& !begins_with(line, "# priority:"@)
        },
    ensures
        ({
            let (name, fixture) = parsed_fixture(source, parent, position);
            &&& name == "fixture_"@ + parent + "_"@ + decimal(position)
            &&& fixture.source == source
            &&& fixture.description == Seq::<char>::empty()
            &&& fixture.priority == position as i64
        }),
{
    let lines = bare_lines(source);
    assert(lines.take(0) =~= Seq::<Seq<char>>::empty());
    vstd::utf8::encode_utf8_decode_utf8(source);
    let bytes = vstd::utf8::encode_utf8(source);
    assert(bytes.subrange(0, bytes.len() as int) =~= bytes);
    if bytes.len() == 0 {
        vstd::utf8::encode_utf8_decode_utf8(Seq::<char>::empty());
        assert(bytes =~= Seq::<u8>::empty());
        assert(vstd::utf8::encode_utf8(Seq::<char>::empty()) =~= Seq::<u8>::empty());
    }
}

// ---------------------------------------------------------------------------
// Conflicts
// ---------------------------------------------------------------------------

/// What is said of a cell that is gone from the source.
pub open spec fn conflict_deleted(id: Seq<char>) -> Seq<char> {
    "cell '"@ + id + "' was deleted from the source notebook"@
}

/// What is said of a cell that is new in the source.
pub open spec fn conflict_inserted(id: Seq<char>) -> Seq<char> {
    "cell '"@ + id + "' was inserted into the source notebook"@
}

/// What is said of a cell that is not what it was.
pub open spec fn conflict_changed(id: Seq<char>) -> Seq<char> {
    "cell '"@ + id + "' source changed since `edit` was run"@
}

/// Cells that are gone are named, each record of one, and no others.
proof fn deleted_are_named(stored: Seq<ShaModel>, current: Seq<Seq<char>>)
    ensures
        forall|k: int|
            0 <= k < stored.len() && !current.contains((#[trigger] stored[k]).cell_id)
                ==> deleted_conflicts(stored, current).contains(
                conflict_deleted(stored[k].cell_id),
            ),
        forall|i: int|
            0 <= i < deleted_conflicts(stored, current).len() ==> exists|k: int|
                0 <= k < stored.len() && !current.contains(stored[k].cell_id) && (
                #[trigger] deleted_conflicts(stored, current)[i]) == conflict_deleted(
                    (#[trigger] stored[k]).cell_id,
                ),
    decreases stored.len(),
{
    let all = deleted_conflicts(stored, current);
    if stored.len() > 0 {
        let front = stored.drop_last();
        let before = deleted_conflicts(front, current);
        deleted_are_named(front, current);
        assert forall|k: int|
            0 <= k < stored.len() && !current.contains(
                (#[trigger] stored[k]).cell_id,
            ) implies all.contains(conflict_deleted(stored[k].cell_id)) by {
            if k < front.len() {
                assert(front[k] == stored[k]);
                let j = choose|j: int|
                    0 <= j < before.len() && before[j] == conflict_deleted(front[k].cell_id);
                assert(all[j] == before[j]);
            } else {
                assert(all[all.len() - 1] == conflict_deleted(stored[k].cell_id));
            }
        }
        assert forall|i: int| 0 <= i < all.len() implies exists|k: int|
            0 <= k < stored.len() && !current.contains(stored[k].cell_id) && (#[trigger] all[i])
                == conflict_deleted((#[trigger] stored[k]).cell_id) by {
            if i < before.len() {
                assert(before[i] == all[i]);
                let k = choose|k: int|
                    0 <= k < front.len() && !current.contains(front[k].cell_id) && before[i]
                        == conflict_deleted((#[trigger] front[k]).cell_id);
                assert(stored[k] == front[k]);
            } else {
                let k = stored.len() - 1;
                assert(all[i] == conflict_deleted(stored[k].cell_id));
            }
        }
    }
}

/// Cells that are new are named, and no others.
proof fn inserted_are_named(current: Seq<Seq<char>>, stored: Seq<Seq<char>>)
    ensures
        forall|k: int|
            0 <= k < current.len() && !stored.contains(#[trigger] current[k])
                ==> inserted_conflicts(current, stored).contains(conflict_inserted(current[k])),
        forall|i: int|
            0 <= i < inserted_conflicts(current, stored).len() ==> exists|k: int|
                0 <= k < current.len() && !stored.contains(current[k]) && (
                #[trigger] inserted_conflicts(current, stored)[i]) == conflict_inserted(
                    #[trigger] current[k],
                ),
    decreases current.len(),
{
    let all = inserted_conflicts(current, stored);
    if current.len() > 0 {
        let front = current.drop_last();
        let before = inserted_conflicts(front, stored);
        inserted_are_named(front, stored);
        assert forall|k: int|
            0 <= k < current.len() && !stored.contains(
                #[trigger] current[k],
            ) implies all.contains(conflict_inserted(current[k])) by {
            if k < front.len() {
                assert(front[k] == current[k]);
                let j = choose|j: int|
                    0 <= j < before.len() && before[j] == conflict_inserted(front[k]);
                assert(all[j] == before[j]);
            } else {
                assert(all[all.len() - 1] == conflict_inserted(current[k]));
            }
        }
        assert forall|i: int| 0 <= i < all.len() implies exists|k: int|
            0 <= k < current.len() && !stored.contains(current[k]) && (#[trigger] all[i])
                == conflict_inserted(#[trigger] current[k]) by {
            if i < before.len() {
                assert(before[i] == all[i]);
                let k = choose|k: int|
                    0 <= k < front.len() && !stored.contains(front[k]) && before[i]
                        == conflict_inserted(#[trigger] front[k]);
                assert(current[k] == front[k]);
            } else {
                let k = current.len() - 1;
                assert(all[i] == conflict_inserted(current[k]));
            }
        }
    }
}

/// Cells that are not what they were are named, and no others.
proof fn changed_are_named(stored: Seq<ShaModel>, current: Seq<ShaModel>)
    ensures
        forall|k: int|
            0 <= k < stored.len() && (recorded_sha(
                current,
                (#[trigger] stored[k]).cell_id,
            ) matches Some(sha) && sha != stored[k].sha) ==> changed_conflicts(
                stored,
                current,
            ).contains(conflict_changed(stored[k].cell_id)),
        forall|i: int|
            0 <= i < changed_conflicts(stored, current).len() ==> exists|k: int|
                0 <= k < stored.len() && (recorded_sha(
                    current,
                    stored[k].cell_id,
                ) matches Some(sha) && sha != stored[k].sha) && (#[trigger] changed_conflicts(
                    stored,
                    current,
                )[i]) == conflict_changed((#[trigger] stored[k]).cell_id),
    decreases stored.len(),
{
    let all = changed_conflicts(stored, current);
    if stored.len() > 0 {
        let front = stored.drop_last();
        let before = changed_conflicts(front, current);
        changed_are_named(front, current);
        assert forall|k: int|
            0 <= k < stored.len() && (recorded_sha(
                current,
                (#[trigger] stored[k]).cell_id,
            ) matches Some(sha) && sha != stored[k].sha) implies all.contains(
            conflict_changed(stored[k].cell_id),
        ) by {
            if k < front.len() {
                assert(front[k] == stored[k]);
                let j = choose|j: int|
                    0 <= j < before.len() && before[j] == conflict_changed(front[k].cell_id);
                assert(all[j] == before[j]);
            } else {
                assert(all[all.len() - 1] == conflict_changed(stored[k].cell_id));
            }
        }
        assert forall|i: int| 0 <= i < all.len() implies exists|k: int|
            0 <= k < stored.len() && (recorded_sha(
                current,
                stored[k].cell_id,
            ) matches Some(sha) && sha != stored[k].sha) && (#[trigger] all[i])
                == conflict_changed((#[trigger] stored[k]).cell_id) by {
            if i < before.len() {
                assert(before[i] == all[i]);
                let k = choose|k: int|
                    0 <= k < front.len() && (recorded_sha(
                        current,
                        front[k].cell_id,
                    ) matches Some(sha) && sha != front[k].sha) && before[i] == conflict_changed(
                        (#[trigger] front[k]).cell_id,
                    );
                assert(stored[k] == front[k]);
            } else {
                let k = stored.len() - 1;
                assert(all[i] == conflict_changed(stored[k].cell_id));
            }
        }
    }
}

/// Whether a message names a cell that came or went.
pub open spec fn names_a_move(
    stored: Seq<ShaModel>,
    current: Seq<ShaModel>,
    message: Seq<char>,
) -> bool {
    ||| exists|k: int|
        0 <= k < stored.len() && !ids_of(current).contains(stored[k].cell_id) && message
            == conflict_deleted((#[trigger] stored[k]).cell_id)
    ||| exists|k: int|
        0 <= k < current.len() && !ids_of(stored).contains(current[k].cell_id) && message
            == conflict_inserted((#[trigger] current[k]).cell_id)
}

/// Whether a message names a cell that is not what it was.
pub open spec fn names_a_change(
    stored: Seq<ShaModel>,
    current: Seq<ShaModel>,
    message: Seq<char>,
) -> bool {
    exists|k: int|
        0 <= k < stored.len() && (recorded_sha(
            current,
            stored[k].cell_id,
        ) matches Some(sha) && sha != stored[k].sha) && message == conflict_changed(
            (#[trigger] stored[k]).cell_id,
        )
}

/// What keeps an editor notebook from being applied is named: every cell that is
/// gone from the source or new in it; if there is none, that the order changed;
/// if it did not, every cell that is not what it was. Nothing else is.
pub proof fn conflicts_name_what_changed(stored: Seq<ShaModel>, current: Seq<ShaModel>)
    ensures
        forall|k: int|
            0 <= k < stored.len() && !ids_of(current).contains((#[trigger] stored[k]).cell_id)
                ==> sha_conflicts(stored, current).contains(conflict_deleted(stored[k].cell_id)),
        forall|k: int|
            0 <= k < current.len() && !ids_of(stored).contains((#[trigger] current[k]).cell_id)
                ==> sha_conflicts(stored, current).contains(
                conflict_inserted(current[k].cell_id),
            ),
        ({
            let all = sha_conflicts(stored, current);
            let moved = (exists|k: int|
                0 <= k < stored.len() && !ids_of(current).contains(
                    (#[trigger] stored[k]).cell_id,
                )) || (exists|k: int|
                0 <= k < current.len() && !ids_of(stored).contains(
                    (#[trigger] current[k]).cell_id,
                ));
            let turned = common_ids(ids_of(current), ids_of(stored)) != common_ids(
                ids_of(stored),
                ids_of(current),
            );
            &&& moved ==> forall|i: int|
                0 <= i < all.len() ==> names_a_move(stored, current, #[trigger] all[i])
            &&& !moved && turned ==> all == seq!["cell ordering changed in the source notebook"@]
            &&& !moved && !turned ==> (forall|k: int|
                0 <= k < stored.len() && (recorded_sha(
                    current,
                    (#[trigger] stored[k]).cell_id,
                ) matches Some(sha) && sha != stored[k].sha) ==> all.contains(
                    conflict_changed(stored[k].cell_id),
                )) && forall|i: int|
                0 <= i < all.len() ==> names_a_change(stored, current, #[trigger] all[i])
        }),
{
    let deleted = deleted_conflicts(stored, ids_of(current));
    let inserted = inserted_conflicts(ids_of(current), ids_of(stored));
    let moves = deleted + inserted;
    let all = sha_conflicts(stored, current);
    deleted_are_named(stored, ids_of(current));
    inserted_are_named(ids_of(current), ids_of(stored));
    changed_are_named(stored, current);
    assert forall|k: int|
        0 <= k < stored.len() && !ids_of(current).contains(
            (#[trigger] stored[k]).cell_id,
        ) implies all.contains(conflict_deleted(stored[k].cell_id)) && moves.len() > 0 by {
        let j = choose|j: int|
            0 <= j < deleted.len() && deleted[j] == conflict_deleted(stored[k].cell_id);
        assert(moves[j] == deleted[j]);
        assert(all == moves);
    }
    assert forall|k: int|
        0 <= k < current.len() && !ids_of(stored).contains(
            (#[trigger] current[k]).cell_id,
        ) implies all.contains(conflict_inserted(current[k].cell_id)) && moves.len() > 0 by {
        assert(ids_of(current)[k] == current[k].cell_id);
        let j = choose|j: int|
            0 <= j < inserted.len() && inserted[j] == conflict_inserted(ids_of(current)[k]);
        assert(moves[deleted.len() + j] == inserted[j]);
        assert(all == moves);
    }
    assert forall|i: int| 0 <= i < moves.len() implies names_a_move(
        stored,
        current,
        #[trigger] moves[i],
    ) by {
        if i < deleted.len() {
            assert(moves[i] == deleted[i]);
            let k = choose|k: int|
                0 <= k < stored.len() && !ids_of(current).contains(stored[k].cell_id) && deleted[i]
                    == conflict_deleted((#[trigger] stored[k]).cell_id);
            assert(moves[i] == conflict_deleted(stored[k].cell_id));
        } else {
            let j = i - deleted.len();
            assert(moves[i] == inserted[j]);
            let k = choose|k: int|
                0 <= k < ids_of(current).len() && !ids_of(stored).contains(ids_of(current)[k])
                    && inserted[j] == conflict_inserted(#[trigger] ids_of(current)[k]);
            assert(ids_of(current)[k] == current[k].cell_id);
        }
    }
    if moves.len() > 0 {
        assert(names_a_move(stored, current, moves[0]));
    }
}

} // verus!
