//! What reading a notebook gives back of what was written.
use vstd::prelude::*;

use crate::json::{
    in_key_order, member, member_index, member_index_is_first, member_index_unique,
    member_of_with_member, same_members, with_member_keeps_order, JsonModel,
};
use crate::notebook::{valid_id, BodyModel, CellModel, NotebookModel, OutputModel};
use crate::notebook_json::{
    body_of, cell_fields, cell_json, cell_list, cell_of, count_json, count_of, members_named,
    notebook_fields, notebook_json, notebook_of, output_json, output_list, output_of, texts_json,
    texts_of, with_members,
};
use crate::text::{text_less, text_less_irreflexive};

verus! {

// ---------------------------------------------------------------------------
// Members in key order
// ---------------------------------------------------------------------------

/// The value of a member after one is added behind the others.
pub proof fn member_of_push(
    members: Seq<(Seq<char>, JsonModel)>,
    entry: (Seq<char>, JsonModel),
    key: Seq<char>,
)
    ensures
        member(members.push(entry), key) == if member(members, key) is Some {
            member(members, key)
        } else if entry.0 == key {
            Some(entry.1)
        } else {
            None
        },
{
    let all = members.push(entry);
    member_index_is_first(members, key);
    member_index_is_first(all, key);
    let at = member_index(members, key);
    if at < members.len() {
        assert(all[at] == members[at]);
        assert forall|i: int| 0 <= i < at implies (#[trigger] all[i]).0 != key by {
            assert(all[i] == members[i]);
        }
        member_index_unique(all, key, at);
    } else if entry.0 == key {
        assert forall|i: int| 0 <= i < members.len() implies (#[trigger] all[i]).0 != key by {
            assert(all[i] == members[i]);
        }
        member_index_unique(all, key, members.len() as int);
    } else if member_index(all, key) < all.len() {
        let found = member_index(all, key);
        if found < members.len() {
            assert(all[found] == members[found]);
        }
    }
}

/// The beginning of members in key order is in key order; the key of the last
/// stands nowhere else.
proof fn front_in_key_order(members: Seq<(Seq<char>, JsonModel)>)
    requires
        in_key_order(members),
        members.len() > 0,
    ensures
        in_key_order(members.drop_last()),
        member(members.drop_last(), members.last().0) is None,
{
    let front = members.drop_last();
    let key = members.last().0;
    assert forall|i: int, j: int| 0 <= i < j < front.len() implies text_less(
        (#[trigger] front[i]).0,
        (#[trigger] front[j]).0,
    ) by {
        assert(front[i] == members[i]);
        assert(front[j] == members[j]);
    }
    member_index_is_first(front, key);
    let at = member_index(front, key);
    if at < front.len() {
        assert(front[at] == members[at]);
        assert(text_less(members[at].0, members[members.len() - 1].0));
        text_less_irreflexive(key);
    }
}

/// Picking members by name keeps their order and their values.
proof fn members_named_values(
    members: Seq<(Seq<char>, JsonModel)>,
    names: Seq<Seq<char>>,
    among: bool,
    key: Seq<char>,
)
    ensures
        member(members_named(members, names, among), key) == if names.contains(key) == among {
            member(members, key)
        } else {
            None
        },
    decreases members.len(),
{
    if members.len() > 0 {
        let front = members.drop_last();
        members_named_values(front, names, among, key);
        assert(front.push(members.last()) =~= members);
        member_of_push(front, members.last(), key);
        member_of_push(members_named(front, names, among), members.last(), key);
    } else {
        assert(members_named(members, names, among) =~= members);
        assert(member(members, key) is None);
    }
}

/// Picking members by name keeps them in key order.
proof fn members_named_in_order(
    members: Seq<(Seq<char>, JsonModel)>,
    names: Seq<Seq<char>>,
    among: bool,
)
    requires
        in_key_order(members),
    ensures
        in_key_order(members_named(members, names, among)),
        forall|i: int|
            0 <= i < members_named(members, names, among).len() ==> exists|j: int|
                0 <= j < members.len() && (#[trigger] members_named(members, names, among)[i])
                    == members[j],
    decreases members.len(),
{
    if members.len() > 0 {
        let front = members.drop_last();
        front_in_key_order(members);
        members_named_in_order(front, names, among);
        let picked = members_named(front, names, among);
        let all = members_named(members, names, among);
        assert forall|i: int| 0 <= i < picked.len() implies text_less(
            (#[trigger] picked[i]).0,
            members.last().0,
        ) by {
            let j = choose|j: int| 0 <= j < front.len() && picked[i] == front[j];
            assert(front[j] == members[j]);
            assert(text_less(members[j].0, members[members.len() - 1].0));
        }
        assert forall|i: int| 0 <= i < all.len() implies exists|j: int|
            0 <= j < members.len() && (#[trigger] all[i]) == members[j] by {
            if i < picked.len() {
                assert(all[i] == picked[i]);
                let j = choose|j: int| 0 <= j < front.len() && picked[i] == front[j];
                assert(members[j] == front[j]);
            } else {
                assert(members[members.len() - 1] == all[i]);
            }
        }
        assert forall|i: int, j: int| 0 <= i < j < all.len() implies text_less(
            (#[trigger] all[i]).0,
            (#[trigger] all[j]).0,
        ) by {
            assert(all[i] == picked[i]);
            if j < picked.len() {
                assert(all[j] == picked[j]);
            }
        }
    }
}

/// Members set on top of others: their values come first, and the order is
/// kept.
proof fn with_members_values(
    members: Seq<(Seq<char>, JsonModel)>,
    more: Seq<(Seq<char>, JsonModel)>,
)
    requires
        in_key_order(members),
        in_key_order(more),
    ensures
        in_key_order(with_members(members, more)),
        forall|key: Seq<char>|
            #[trigger] member(with_members(members, more), key) == if member(more, key) is Some {
                member(more, key)
            } else {
                member(members, key)
            },
    decreases more.len(),
{
    if more.len() > 0 {
        let front = more.drop_last();
        let last = more.last();
        front_in_key_order(more);
        with_members_values(members, front);
        let before = with_members(members, front);
        with_member_keeps_order(before, last.0, last.1);
        assert(front.push(last) =~= more);
        assert forall|key: Seq<char>| #[trigger] member(with_members(members, more), key)
            == if member(more, key) is Some {
            member(more, key)
        } else {
            member(members, key)
        } by {
            member_of_with_member(before, last.0, last.1, key);
            member_of_push(front, last, key);
            assert(member(before, key) == if member(front, key) is Some {
                member(front, key)
            } else {
                member(members, key)
            });
        }
    } else {
        assert forall|key: Seq<char>| #[trigger] member(more, key) is None by {
            member_index_is_first(more, key);
        }
    }
}

/// Whether metadata is split as it is read: standard fields on one side, all
/// others on the other, both in key order.
pub open spec fn well_split(
    standard: Seq<(Seq<char>, JsonModel)>,
    additional: Seq<(Seq<char>, JsonModel)>,
    names: Seq<Seq<char>>,
) -> bool {
    &&& in_key_order(standard)
    &&& in_key_order(additional)
    &&& forall|i: int| 0 <= i < standard.len() ==> names.contains((#[trigger] standard[i]).0)
    &&& forall|i: int| 0 <= i < additional.len() ==> !names.contains((#[trigger] additional[i]).0)
}

/// Metadata that is put together comes apart again.
proof fn metadata_reads_back(
    standard: Seq<(Seq<char>, JsonModel)>,
    additional: Seq<(Seq<char>, JsonModel)>,
    names: Seq<Seq<char>>,
)
    requires
        well_split(standard, additional, names),
    ensures
        members_named(with_members(additional, standard), names, true) == standard,
        members_named(with_members(additional, standard), names, false) == additional,
{
    let all = with_members(additional, standard);
    with_members_values(additional, standard);
    members_named_in_order(all, names, true);
    members_named_in_order(all, names, false);
    assert forall|key: Seq<char>| member(standard, key) is Some implies names.contains(key) by {
        member_index_is_first(standard, key);
        assert(names.contains(standard[member_index(standard, key)].0));
    }
    assert forall|key: Seq<char>| member(additional, key) is Some implies !names.contains(key) by {
        member_index_is_first(additional, key);
        assert(!names.contains(additional[member_index(additional, key)].0));
    }
    let first = members_named(all, names, true);
    assert forall|key: Seq<char>| #[trigger] member(first, key) == member(standard, key) by {
        members_named_values(all, names, true, key);
        assert(member(all, key) == if member(standard, key) is Some {
            member(standard, key)
        } else {
            member(additional, key)
        });
        if names.contains(key) {
            assert(member(additional, key) is None);
        } else {
            assert(member(standard, key) is None);
        }
    }
    same_members(first, standard);
    let second = members_named(all, names, false);
    assert forall|key: Seq<char>| #[trigger] member(second, key) == member(additional, key) by {
        members_named_values(all, names, false, key);
        assert(member(all, key) == if member(standard, key) is Some {
            member(standard, key)
        } else {
            member(additional, key)
        });
        if names.contains(key) {
            assert(member(additional, key) is None);
        } else {
            assert(member(standard, key) is None);
        }
    }
    same_members(second, additional);
}

// ---------------------------------------------------------------------------
// Notebooks
// ---------------------------------------------------------------------------

/// A list of texts reads back.
proof fn texts_read_back(list: Seq<Seq<char>>)
    ensures
        texts_of(Some(texts_json(list))) == Some(list),
    decreases list.len(),
{
    let items = list.map_values(|text: Seq<char>| JsonModel::Text(text));
    if list.len() == 0 {
        assert(list =~= Seq::<Seq<char>>::empty());
    } else {
        let front = list.drop_last();
        texts_read_back(front);
        assert(items.drop_last() =~= front.map_values(|text: Seq<char>| JsonModel::Text(text)));
        assert(items.last() == JsonModel::Text(list.last()));
        assert(front.push(list.last()) =~= list);
    }
}

/// Whether an output is one that is read as such: rich outputs are objects of
/// another type than streams and errors.
pub open spec fn storable_output(output: OutputModel) -> bool {
    output matches OutputModel::Rich(json) ==> output_of(json) == Some(output)
}

/// An output reads back.
proof fn output_reads_back(output: OutputModel)
    requires
        storable_output(output),
    ensures
        output_of(output_json(output)) == Some(output),
{
    reveal_strlit("name");
    reveal_strlit("text");
    reveal_strlit("output_type");
    reveal_strlit("ename");
    reveal_strlit("evalue");
    reveal_strlit("traceback");
    reveal_strlit("stream");
    reveal_strlit("error");
    match output {
        OutputModel::Stream { name, text } => {
            let members = output_json(output)->Object_0;
            assert("name"@[0] != "text"@[0]);
            assert("output_type"@.len() == 11);
            member_index_unique(members, "name"@, 0);
            member_index_unique(members, "output_type"@, 1);
            member_index_unique(members, "text"@, 2);
        },
        OutputModel::Error(error) => {
            let members = output_json(output)->Object_0;
            assert("ename"@.len() == 5);
            assert("evalue"@.len() == 6);
            assert("output_type"@.len() == 11);
            assert("traceback"@.len() == 9);
            member_index_unique(members, "ename"@, 0);
            member_index_unique(members, "evalue"@, 1);
            member_index_unique(members, "output_type"@, 2);
            member_index_unique(members, "traceback"@, 3);
            assert("error"@.len() != "stream"@.len());
            texts_read_back(error.traceback);
        },
        OutputModel::Rich(_) => {},
    }
}

/// Outputs read back.
proof fn outputs_read_back(outputs: Seq<OutputModel>)
    requires
        forall|i: int| 0 <= i < outputs.len() ==> storable_output(#[trigger] outputs[i]),
    ensures
        output_list(outputs.map_values(|output: OutputModel| output_json(output))) == Some(outputs),
    decreases outputs.len(),
{
    let items = outputs.map_values(|output: OutputModel| output_json(output));
    if outputs.len() == 0 {
        assert(outputs =~= Seq::<OutputModel>::empty());
    } else {
        let front = outputs.drop_last();
        assert forall|i: int| 0 <= i < front.len() implies storable_output(#[trigger] front[i]) by {
            assert(front[i] == outputs[i]);
        }
        outputs_read_back(front);
        assert(outputs[outputs.len() - 1] == outputs.last());
        output_reads_back(outputs.last());
        assert(items.drop_last() =~= front.map_values(|output: OutputModel| output_json(output)));
        assert(items.last() == output_json(outputs.last()));
        assert(front.push(outputs.last()) =~= outputs);
    }
}

/// Whether a cell is one that is read as such.
pub open spec fn storable_cell(cell: CellModel) -> bool {
    &&& valid_id(cell.id)
    &&& well_split(cell.standard, cell.additional, cell_fields())
    &&& cell.body matches BodyModel::Code { outputs, .. } ==> forall|i: int|
        0 <= i < outputs.len() ==> storable_output(#[trigger] outputs[i])
}

/// The members of the JSON of a cell are found.
proof fn cell_members_found(cell: CellModel)
    ensures
        cell_json(cell) is Object,
        ({
            let members = cell_json(cell)->Object_0;
            &&& member(members, "id"@) == Some(JsonModel::Text(cell.id))
            &&& member(members, "metadata"@) == Some(
                JsonModel::Object(with_members(cell.additional, cell.standard)),
            )
            &&& member(members, "source"@) == Some(texts_json(cell.source))
            &&& match cell.body {
                BodyModel::Code { execution_count, outputs } => {
                    &&& member(members, "cell_type"@) == Some(JsonModel::Text("code"@))
                    &&& member(members, "execution_count"@) == Some(count_json(execution_count))
                    &&& member(members, "outputs"@) == Some(
                        JsonModel::Array(
                            outputs.map_values(|output: OutputModel| output_json(output)),
                        ),
                    )
                },
                BodyModel::Markdown { attachments } => {
                    &&& member(members, "cell_type"@) == Some(JsonModel::Text("markdown"@))
                    &&& member(members, "attachments"@) == attachments
                },
                BodyModel::Raw => member(members, "cell_type"@) == Some(JsonModel::Text("raw"@)),
            }
        }),
{
    reveal_strlit("id");
    reveal_strlit("source");
    reveal_strlit("outputs");
    reveal_strlit("metadata");
    reveal_strlit("cell_type");
    reveal_strlit("attachments");
    reveal_strlit("execution_count");
    assert("id"@.len() == 2);
    assert("source"@.len() == 6);
    assert("outputs"@.len() == 7);
    assert("metadata"@.len() == 8);
    assert("cell_type"@.len() == 9);
    assert("attachments"@.len() == 11);
    assert("execution_count"@.len() == 15);
    let members = cell_json(cell)->Object_0;
    match cell.body {
        BodyModel::Code { .. } => {
            member_index_unique(members, "cell_type"@, 0);
            member_index_unique(members, "execution_count"@, 1);
            member_index_unique(members, "id"@, 2);
            member_index_unique(members, "metadata"@, 3);
            member_index_unique(members, "outputs"@, 4);
            member_index_unique(members, "source"@, 5);
        },
        BodyModel::Markdown { attachments } => {
            let skip: int = if attachments is Some {
                1
            } else {
                0
            };
            member_index_unique(members, "cell_type"@, skip);
            member_index_unique(members, "id"@, skip + 1);
            member_index_unique(members, "metadata"@, skip + 2);
            member_index_unique(members, "source"@, skip + 3);
            if attachments is Some {
                member_index_unique(members, "attachments"@, 0);
            } else {
                member_index_is_first(members, "attachments"@);
                let at = member_index(members, "attachments"@);
                if at < members.len() {
                    assert(at == 0 || at == 1 || at == 2 || at == 3);
                }
            }
        },
        BodyModel::Raw => {
            member_index_unique(members, "cell_type"@, 0);
            member_index_unique(members, "id"@, 1);
            member_index_unique(members, "metadata"@, 2);
            member_index_unique(members, "source"@, 3);
        },
    }
}

/// A cell reads back from the JSON that is written for it.
pub proof fn cell_reads_back(cell: CellModel)
    requires
        storable_cell(cell),
    ensures
        cell_of(cell_json(cell)) == Some(cell),
{
    cell_members_found(cell);
    metadata_reads_back(cell.standard, cell.additional, cell_fields());
    texts_read_back(cell.source);
    let members = cell_json(cell)->Object_0;
    reveal_strlit("code");
    reveal_strlit("markdown");
    reveal_strlit("raw");
    assert("code"@.len() == 4);
    assert("markdown"@.len() == 8);
    assert("raw"@.len() == 3);
    if let BodyModel::Code { execution_count, outputs } = cell.body {
        outputs_read_back(outputs);
        assert(count_of(members) == Some(execution_count));
    }
    assert(body_of(members) == Some(cell.body));
}

/// Cells read back.
proof fn cells_read_back(cells: Seq<CellModel>)
    requires
        forall|i: int| 0 <= i < cells.len() ==> storable_cell(#[trigger] cells[i]),
    ensures
        cell_list(cells.map_values(|cell: CellModel| cell_json(cell))) == Some(cells),
    decreases cells.len(),
{
    let items = cells.map_values(|cell: CellModel| cell_json(cell));
    if cells.len() == 0 {
        assert(cells =~= Seq::<CellModel>::empty());
    } else {
        let front = cells.drop_last();
        assert forall|i: int| 0 <= i < front.len() implies storable_cell(#[trigger] front[i]) by {
            assert(front[i] == cells[i]);
        }
        cells_read_back(front);
        assert(cells[cells.len() - 1] == cells.last());
        cell_reads_back(cells.last());
        assert(items.drop_last() =~= front.map_values(|cell: CellModel| cell_json(cell)));
        assert(items.last() == cell_json(cells.last()));
        assert(front.push(cells.last()) =~= cells);
    }
}

/// Whether a notebook is one that is read as such.
pub open spec fn storable(nb: NotebookModel) -> bool {
    &&& well_split(nb.standard, nb.additional, notebook_fields())
    &&& forall|i: int| 0 <= i < nb.cells.len() ==> storable_cell(#[trigger] nb.cells[i])
}

/// A notebook reads back from the JSON that is written for it, if its metadata
/// is split into standard and other fields and its rich outputs are of another
/// type than streams and errors.
pub proof fn notebook_reads_back(nb: NotebookModel)
    requires
        storable(nb),
    ensures
        notebook_of(notebook_json(nb)) == Some(nb),
{
    let members = notebook_json(nb)->Object_0;
    reveal_strlit("cells");
    reveal_strlit("metadata");
    reveal_strlit("nbformat");
    reveal_strlit("nbformat_minor");
    assert("cells"@.len() == 5);
    assert("metadata"@[0] != "nbformat"@[0]);
    assert("metadata"@.len() == 8);
    assert("nbformat"@.len() == 8);
    assert("nbformat_minor"@.len() == 14);
    member_index_unique(members, "cells"@, 0);
    member_index_unique(members, "metadata"@, 1);
    member_index_unique(members, "nbformat"@, 2);
    member_index_unique(members, "nbformat_minor"@, 3);
    metadata_reads_back(nb.standard, nb.additional, notebook_fields());
    cells_read_back(nb.cells);
}

} // verus!
