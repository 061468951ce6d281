//! What the JSON of a notebook says, field by field.
use vstd::prelude::*;

use crate::fixtures::FixtureModel;
use crate::format::{non_null, without_null_language};
use crate::json::{in_key_order, member, member_index_unique, member_of_with_member, JsonModel};
use crate::metadata::{fixture_json, sha_json, source_of, ShaModel};
use crate::notebook::{BodyModel, CellModel, OutputModel};
use crate::notebook_json::{
    cell_fields, cell_of, members_named, notebook_fields, notebook_of, output_of,
};
use crate::notebook_laws::member_of_push;
use crate::view_laws::field_in;

verus! {

/// Whether a JSON value is an array of the given strings.
pub open spec fn is_list_of(json: Option<JsonModel>, texts: Seq<Seq<char>>) -> bool {
    json matches Some(JsonModel::Array(items)) && items.len() == texts.len() && forall|i: int|
        0 <= i < items.len() ==> #[trigger] items[i] == JsonModel::Text(texts[i])
}

/// A list of strings is read as it is.
proof fn texts_are_read(items: Seq<JsonModel>)
    ensures
        crate::notebook_json::text_list(items) matches Some(texts) ==> is_list_of(
            Some(JsonModel::Array(items)),
            texts,
        ),
    decreases items.len(),
{
    if items.len() > 0 {
        let front = items.drop_last();
        texts_are_read(front);
        if let Some(texts) = crate::notebook_json::text_list(items) {
            let before = crate::notebook_json::text_list(front)->0;
            assert forall|i: int| 0 <= i < items.len() implies #[trigger] items[i]
                == JsonModel::Text(texts[i]) by {
                if i < front.len() {
                    assert(front[i] == items[i]);
                    assert(before[i] == texts[i]);
                }
            }
        }
    }
}

/// The members of one kind by their keys.
proof fn named_by_key(
    members: Seq<(Seq<char>, JsonModel)>,
    names: Seq<Seq<char>>,
    among: bool,
    key: Seq<char>,
)
    ensures
        member(members_named(members, names, among), key) == if names.contains(key) == among {
            member(members, key)
        } else {
            None
        },
    decreases members.len(),
{
    if members.len() > 0 {
        let front = members.drop_last();
        named_by_key(front, names, among, key);
        assert(members =~= front.push(members.last()));
        member_of_push(front, members.last(), key);
        member_of_push(members_named(front, names, among), members.last(), key);
    }
}

/// A cell is read from the fields of its JSON: its id, the lines of its source,
/// its kind, and its metadata, of which each member is standard or free-form.
pub proof fn cells_are_read_from_their_fields(json: JsonModel, cell: CellModel, key: Seq<char>)
    requires
        cell_of(json) == Some(cell),
    ensures
        field_in(json, "id"@) == Some(JsonModel::Text(cell.id)),
        is_list_of(field_in(json, "source"@), cell.source),
        field_in(json, "cell_type"@) == Some(
            JsonModel::Text(
                match cell.body {
                    BodyModel::Code { .. } => "code"@,
                    BodyModel::Markdown { .. } => "markdown"@,
                    BodyModel::Raw => "raw"@,
                },
            ),
        ),
        field_in(json, "metadata"@) matches Some(JsonModel::Object(metadata)) && (
        member(cell.standard, key) == if cell_fields().contains(key) {
            member(metadata, key)
        } else {
            None
        }) && (member(cell.additional, key) == if cell_fields().contains(key) {
            None
        } else {
            member(metadata, key)
        }),
{
    let members = json->Object_0;
    let metadata = member(members, "metadata"@)->0->Object_0;
    named_by_key(metadata, cell_fields(), true, key);
    named_by_key(metadata, cell_fields(), false, key);
    if let Some(JsonModel::Array(items)) = member(members, "source"@) {
        texts_are_read(items);
    }
}

/// The outputs of a code cell are read one by one, in their order.
pub proof fn outputs_are_read_in_order(items: Seq<JsonModel>)
    ensures
        crate::notebook_json::output_list(items) is Some <==> forall|i: int|
            0 <= i < items.len() ==> output_of(#[trigger] items[i]) is Some,
        crate::notebook_json::output_list(items) matches Some(outputs) ==> outputs.len()
            == items.len() && forall|i: int|
            0 <= i < items.len() ==> output_of(#[trigger] items[i]) == Some(outputs[i]),
    decreases items.len(),
{
    if items.len() > 0 {
        let front = items.drop_last();
        outputs_are_read_in_order(front);
        if let Some(outputs) = crate::notebook_json::output_list(items) {
            let before = crate::notebook_json::output_list(front)->0;
            assert forall|i: int| 0 <= i < items.len() implies output_of(#[trigger] items[i])
                == Some(outputs[i]) by {
                if i < front.len() {
                    assert(front[i] == items[i]);
                    assert(before[i] == outputs[i]);
                }
            }
        } else if forall|i: int| 0 <= i < items.len() ==> output_of(#[trigger] items[i]) is Some {
            assert forall|i: int| 0 <= i < front.len() implies output_of(
                #[trigger] front[i],
            ) is Some by {
                assert(front[i] == items[i]);
            }
            assert(output_of(items[items.len() - 1]) is Some);
        }
    }
}

/// An output is read from the fields of its JSON: the name and the text of a
/// stream; the name, the value and the traceback of an error; anything else is
/// kept as it is.
pub proof fn outputs_are_read_from_their_fields(json: JsonModel, output: OutputModel)
    requires
        output_of(json) == Some(output),
    ensures
        match output {
            OutputModel::Stream { name, text } => {
                &&& field_in(json, "output_type"@) == Some(JsonModel::Text("stream"@))
                &&& field_in(json, "name"@) == Some(JsonModel::Text(name))
                &&& field_in(json, "text"@) is Some
                &&& source_of(field_in(json, "text"@)->0) == Some(text)
            },
            OutputModel::Error(error) => {
                &&& field_in(json, "output_type"@) == Some(JsonModel::Text("error"@))
                &&& field_in(json, "ename"@) == Some(JsonModel::Text(error.ename))
                &&& field_in(json, "evalue"@) == Some(JsonModel::Text(error.evalue))
                &&& is_list_of(field_in(json, "traceback"@), error.traceback)
            },
            OutputModel::Rich(value) => value == json,
        },
{
    if let OutputModel::Error(_) = output {
        if let Some(JsonModel::Array(items)) = field_in(json, "traceback"@) {
            texts_are_read(items);
        }
    }
}

/// A notebook is read from the fields of its JSON: one cell for each item under
/// `cells`, in their order, and its metadata.
pub proof fn notebooks_are_read_from_their_fields(
    json: JsonModel,
    nb: crate::notebook::NotebookModel,
    key: Seq<char>,
)
    requires
        notebook_of(json) == Some(nb),
    ensures
        field_in(json, "cells"@) matches Some(JsonModel::Array(items)) && items.len()
            == nb.cells.len() && (forall|i: int|
            0 <= i < items.len() ==> cell_of(#[trigger] items[i]) == Some(nb.cells[i])),
        field_in(json, "metadata"@) matches Some(JsonModel::Object(metadata)) && (
        member(nb.standard, key) == if notebook_fields().contains(key) {
            member(metadata, key)
        } else {
            None
        }) && (member(nb.additional, key) == if notebook_fields().contains(key) {
            None
        } else {
            member(metadata, key)
        }),
{
    let members = json->Object_0;
    let metadata = member(members, "metadata"@)->0->Object_0;
    named_by_key(metadata, notebook_fields(), true, key);
    named_by_key(metadata, notebook_fields(), false, key);
    cells_in_order(member(members, "cells"@)->0->Array_0);
}

/// Cells are read one by one.
proof fn cells_in_order(items: Seq<JsonModel>)
    ensures
        crate::notebook_json::cell_list(items) matches Some(cells) ==> cells.len() == items.len()
            && forall|i: int|
            0 <= i < items.len() ==> cell_of(#[trigger] items[i]) == Some(cells[i]),
    decreases items.len(),
{
    if items.len() > 0 {
        let front = items.drop_last();
        cells_in_order(front);
        if let Some(cells) = crate::notebook_json::cell_list(items) {
            let before = crate::notebook_json::cell_list(front)->0;
            assert forall|i: int| 0 <= i < items.len() implies cell_of(#[trigger] items[i])
                == Some(cells[i]) by {
                if i < front.len() {
                    assert(front[i] == items[i]);
                    assert(before[i] == cells[i]);
                }
            }
        }
    }
}

/// Fixtures and recorded SHAs are written under the names of their fields.
pub proof fn fields_are_written_under_their_names(fixture: FixtureModel, entry: ShaModel)
    ensures
        field_in(fixture_json(fixture), "description"@) == Some(
            JsonModel::Text(fixture.description),
        ),
        field_in(fixture_json(fixture), "source"@) == Some(JsonModel::Text(fixture.source)),
        field_in(fixture_json(fixture), "priority"@) matches Some(json)
            && crate::metadata::integer_of(json) == Some(fixture.priority),
        field_in(sha_json(entry), "cell_id"@) == Some(JsonModel::Text(entry.cell_id)),
        field_in(sha_json(entry), "sha"@) == Some(JsonModel::Text(entry.sha)),
{
    reveal_strlit("description");
    reveal_strlit("priority");
    reveal_strlit("source");
    reveal_strlit("cell_id");
    reveal_strlit("sha");
    assert("description"@.len() == 11);
    assert("priority"@.len() == 8);
    assert("source"@.len() == 6);
    assert("cell_id"@.len() == 7);
    assert("sha"@.len() == 3);
    let fields = fixture_json(fixture)->Object_0;
    member_index_unique(fields, "description"@, 0);
    member_index_unique(fields, "priority"@, 1);
    member_index_unique(fields, "source"@, 2);
    let parts = sha_json(entry)->Object_0;
    member_index_unique(parts, "cell_id"@, 0);
    member_index_unique(parts, "sha"@, 1);
}

/// The members that are not null, by their keys.
proof fn non_null_by_key(members: Seq<(Seq<char>, JsonModel)>, key: Seq<char>)
    requires
        in_key_order(members),
    ensures
        member(non_null(members), key) == if member(members, key) == Some(JsonModel::Null) {
            None
        } else {
            member(members, key)
        },
    decreases members.len(),
{
    if members.len() > 0 {
        let front = members.drop_last();
        let last = members.last();
        assert forall|i: int, j: int| 0 <= i < j < front.len() implies crate::text::text_less(
            (#[trigger] front[i]).0,
            (#[trigger] front[j]).0,
        ) by {
            assert(front[i] == members[i]);
            assert(front[j] == members[j]);
        }
        non_null_by_key(front, key);
        assert(members =~= front.push(last));
        member_of_push(front, last, key);
        member_of_push(non_null(front), last, key);
        assert(member(front, last.0) is None) by {
            crate::json::member_index_is_first(front, last.0);
            let at = crate::json::member_index(front, last.0);
            if at < front.len() {
                assert(front[at] == members[at]);
                assert(crate::text::text_less(members[at].0, members[members.len() - 1].0));
                crate::text::text_less_irreflexive(last.0);
            }
        }
    }
}

/// Of the language of a notebook what is null is left out, and everything else
/// in the notebook stays.
pub proof fn null_language_fields_are_left_out(
    json: JsonModel,
    language: Seq<(Seq<char>, JsonModel)>,
    key: Seq<char>,
)
    requires
        field_in(json, "metadata"@) matches Some(metadata) && field_in(metadata, "language_info"@)
            == Some(JsonModel::Object(language)),
        in_key_order(language),
    ensures
        ({
            let after = without_null_language(json);
            let old_metadata = field_in(json, "metadata"@)->0;
            let metadata = field_in(after, "metadata"@);
            &&& metadata is Some
            &&& key != "metadata"@ ==> field_in(after, key) == field_in(json, key)
            &&& key != "language_info"@ ==> field_in(metadata->0, key) == field_in(
                old_metadata,
                key,
            )
            &&& field_in(metadata->0, "language_info"@) is Some
            &&& field_in(field_in(metadata->0, "language_info"@)->0, key) == if member(
                language,
                key,
            ) == Some(JsonModel::Null) {
                None
            } else {
                member(language, key)
            }
        }),
{
    let members = json->Object_0;
    let metadata = member(members, "metadata"@)->0->Object_0;
    let kept = JsonModel::Object(non_null(language));
    non_null_by_key(language, key);
    member_of_with_member(metadata, "language_info"@, kept, "language_info"@);
    member_of_with_member(metadata, "language_info"@, kept, key);
    let changed = JsonModel::Object(
        crate::json::with_member(metadata, "language_info"@, kept),
    );
    member_of_with_member(members, "metadata"@, changed, "metadata"@);
    member_of_with_member(members, "metadata"@, changed, key);
}

} // verus!
