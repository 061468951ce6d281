//! Notebooks as JSON, in the form of version 4.5 of the notebook format.
use vstd::prelude::*;

use crate::json::{
    array_model, member, option_model, with_member, Json, JsonMap, JsonModel, JsonNumber,
};
use crate::metadata::{integer_of, read_integer, read_source, source_of};
use crate::notebook::{
    cell_models, output_models, valid_id, BodyModel, Cell, CellBody, CellExt, CellId, CellMetadata,
    CellModel, ErrorModel, ErrorOutput, Metadata, Notebook, NotebookModel, Output, OutputModel,
};
use crate::text::{list_contains, same_text, text_view, texts};

verus! {

broadcast use {crate::json::array_view, crate::json::object_view};

// ---------------------------------------------------------------------------
// Standard and other fields of metadata
// ---------------------------------------------------------------------------

/// The fields that the format gives a meaning in the metadata of a cell.
pub open spec fn cell_fields() -> Seq<Seq<char>> {
    seq![
        "collapsed"@,
        "deletable"@,
        "editable"@,
        "execution"@,
        "format"@,
        "id"@,
        "jupyter"@,
        "name"@,
        "scrolled"@,
        "tags"@,
    ]
}

/// The fields that the format gives a meaning in the metadata of a notebook.
pub open spec fn notebook_fields() -> Seq<Seq<char>> {
    seq!["authors"@, "kernelspec"@, "language_info"@]
}

/// The members whose keys are among the names, or the others, in their order.
pub open spec fn members_named(
    members: Seq<(Seq<char>, JsonModel)>,
    names: Seq<Seq<char>>,
    among: bool,
) -> Seq<(Seq<char>, JsonModel)>
    decreases members.len(),
{
    if members.len() == 0 {
        Seq::empty()
    } else {
        let front = members_named(members.drop_last(), names, among);
        if names.contains(members.last().0) == among {
            front.push(members.last())
        } else {
            front
        }
    }
}

/// The members with others set on top of them, one after the other.
pub open spec fn with_members(
    members: Seq<(Seq<char>, JsonModel)>,
    more: Seq<(Seq<char>, JsonModel)>,
) -> Seq<(Seq<char>, JsonModel)>
    decreases more.len(),
{
    if more.len() == 0 {
        members
    } else {
        with_member(with_members(members, more.drop_last()), more.last().0, more.last().1)
    }
}

/// The names of the standard fields of the metadata of a cell.
fn cell_field_names() -> (names: Vec<String>)
    ensures
        texts(names@) == cell_fields(),
{
    let names: Vec<String> = vec![
        "collapsed".to_owned(),
        "deletable".to_owned(),
        "editable".to_owned(),
        "execution".to_owned(),
        "format".to_owned(),
        "id".to_owned(),
        "jupyter".to_owned(),
        "name".to_owned(),
        "scrolled".to_owned(),
        "tags".to_owned(),
    ];
    assert(texts(names@) =~= cell_fields());
    names
}

/// The names of the standard fields of the metadata of a notebook.
fn notebook_field_names() -> (names: Vec<String>)
    ensures
        texts(names@) == notebook_fields(),
{
    let names: Vec<String> = vec![
        "authors".to_owned(),
        "kernelspec".to_owned(),
        "language_info".to_owned(),
    ];
    assert(texts(names@) =~= notebook_fields());
    names
}

/// The members whose keys are among the names, or the others.
fn pick_members(members: &JsonMap, names: &Vec<String>, among: bool) -> (picked: JsonMap)
    ensures
        picked@ == members_named(members@, texts(names@), among),
{
    let ghost models = members@;
    let mut picked: Vec<(String, Json)> = Vec::new();
    let mut i: usize = 0;
    assert(models.take(0) =~= Seq::<(Seq<char>, JsonModel)>::empty());
    assert(crate::json::members_model(picked@) =~= Seq::<(Seq<char>, JsonModel)>::empty());
    while i < members.entries.len()
        invariant
            i <= members.entries.len(),
            models == members@,
            crate::json::members_model(picked@) == members_named(
                models.take(i as int),
                texts(names@),
                among,
            ),
        decreases members.entries.len() - i,
    {
        let ghost before = crate::json::members_model(picked@);
        let entry: &(String, Json) = &members.entries[i];
        assert(models.take(i + 1).drop_last() =~= models.take(i as int));
        assert(models.take(i + 1).last() == (entry.0@, entry.1@));
        if list_contains(names, entry.0.as_str()) == among {
            let copy: (String, Json) = (entry.0.clone(), entry.1.clone());
            let ghost added = (copy.0@, copy.1@);
            picked.push(copy);
            assert(crate::json::members_model(picked@) =~= before.push(added));
        }
        i += 1;
    }
    assert(models.take(i as int) =~= models);
    JsonMap { entries: picked }
}

/// The members with others set on top of them.
fn merge_members(members: &JsonMap, more: &JsonMap) -> (merged: JsonMap)
    ensures
        merged@ == with_members(members@, more@),
{
    let ghost models = more@;
    let mut merged: JsonMap = members.clone();
    let mut i: usize = 0;
    assert(models.take(0) =~= Seq::<(Seq<char>, JsonModel)>::empty());
    while i < more.entries.len()
        invariant
            i <= more.entries.len(),
            models == more@,
            merged@ == with_members(members@, models.take(i as int)),
        decreases more.entries.len() - i,
    {
        let entry: &(String, Json) = &more.entries[i];
        assert(models.take(i + 1).drop_last() =~= models.take(i as int));
        assert(models.take(i + 1).last() == (entry.0@, entry.1@));
        merged.insert(entry.0.clone(), entry.1.clone());
        i += 1;
    }
    assert(models.take(i as int) =~= models);
    merged
}

// ---------------------------------------------------------------------------
// From JSON
// ---------------------------------------------------------------------------

/// The texts of a list of JSON strings; `None` if anything else stands in it.
pub open spec fn text_list(items: Seq<JsonModel>) -> Option<Seq<Seq<char>>>
    decreases items.len(),
{
    if items.len() == 0 {
        Some(Seq::empty())
    } else {
        match (text_list(items.drop_last()), items.last()) {
            (Some(front), JsonModel::Text(last)) => Some(front.push(last)),
            _ => None,
        }
    }
}

/// The texts of a JSON array of strings.
pub open spec fn texts_of(json: Option<JsonModel>) -> Option<Seq<Seq<char>>> {
    match json {
        Some(JsonModel::Array(items)) => text_list(items),
        _ => None,
    }
}

/// The text of a member that is a string.
pub open spec fn member_text(members: Seq<(Seq<char>, JsonModel)>, key: Seq<char>) -> Option<
    Seq<char>,
> {
    match member(members, key) {
        Some(JsonModel::Text(t)) => Some(t),
        _ => None,
    }
}

/// The integer of 32 bits that a member is.
pub open spec fn member_i32(members: Seq<(Seq<char>, JsonModel)>, key: Seq<char>) -> Option<i32> {
    match member(members, key) {
        Some(json) => match integer_of(json) {
            Some(n) => if i32::MIN <= n <= i32::MAX {
                Some(n as i32)
            } else {
                None
            },
            None => None,
        },
        None => None,
    }
}

/// An output of a cell: text on a stream, an error, or anything else.
pub open spec fn output_of(json: JsonModel) -> Option<OutputModel> {
    match json {
        JsonModel::Object(members) => match member_text(members, "output_type"@) {
            Some(kind) => if kind == "stream"@ {
                match (member_text(members, "name"@), member(members, "text"@)) {
                    (Some(name), Some(text)) => match source_of(text) {
                        Some(t) => Some(OutputModel::Stream { name, text: t }),
                        None => None,
                    },
                    _ => None,
                }
            } else if kind == "error"@ {
                match (
                    member_text(members, "ename"@),
                    member_text(members, "evalue"@),
                    texts_of(member(members, "traceback"@)),
                ) {
                    (Some(ename), Some(evalue), Some(traceback)) => Some(
                        OutputModel::Error(ErrorModel { ename, evalue, traceback }),
                    ),
                    _ => None,
                }
            } else {
                Some(OutputModel::Rich(json))
            },
            None => None,
        },
        _ => None,
    }
}

/// Outputs, one for each item; `None` if any of them is none.
pub open spec fn output_list(items: Seq<JsonModel>) -> Option<Seq<OutputModel>>
    decreases items.len(),
{
    if items.len() == 0 {
        Some(Seq::empty())
    } else {
        match (output_list(items.drop_last()), output_of(items.last())) {
            (Some(front), Some(last)) => Some(front.push(last)),
            _ => None,
        }
    }
}

/// The execution count of a code cell, which may be null.
pub open spec fn count_of(members: Seq<(Seq<char>, JsonModel)>) -> Option<Option<i32>> {
    match member(members, "execution_count"@) {
        None => Some(None),
        Some(JsonModel::Null) => Some(None),
        Some(_) => match member_i32(members, "execution_count"@) {
            Some(n) => Some(Some(n)),
            None => None,
        },
    }
}

/// The body of a cell, by its type.
pub open spec fn body_of(members: Seq<(Seq<char>, JsonModel)>) -> Option<BodyModel> {
    match member_text(members, "cell_type"@) {
        Some(kind) => if kind == "code"@ {
            match (count_of(members), member(members, "outputs"@)) {
                (Some(execution_count), Some(JsonModel::Array(items))) => match output_list(
                    items,
                ) {
                    Some(outputs) => Some(BodyModel::Code { execution_count, outputs }),
                    None => None,
                },
                _ => None,
            }
        } else if kind == "markdown"@ {
            Some(BodyModel::Markdown { attachments: member(members, "attachments"@) })
        } else if kind == "raw"@ {
            Some(BodyModel::Raw)
        } else {
            None
        },
        None => None,
    }
}

/// A cell.
pub open spec fn cell_of(json: JsonModel) -> Option<CellModel> {
    match json {
        JsonModel::Object(members) => match (
            member_text(members, "id"@),
            member(members, "metadata"@),
            texts_of(member(members, "source"@)),
            body_of(members),
        ) {
            (Some(id), Some(JsonModel::Object(metadata)), Some(source), Some(body)) => if valid_id(
                id,
            ) {
                Some(
                    CellModel {
                        id,
                        standard: members_named(metadata, cell_fields(), true),
                        additional: members_named(metadata, cell_fields(), false),
                        source,
                        body,
                    },
                )
            } else {
                None
            },
            _ => None,
        },
        _ => None,
    }
}

/// Cells, one for each item; `None` if any of them is none.
pub open spec fn cell_list(items: Seq<JsonModel>) -> Option<Seq<CellModel>>
    decreases items.len(),
{
    if items.len() == 0 {
        Some(Seq::empty())
    } else {
        match (cell_list(items.drop_last()), cell_of(items.last())) {
            (Some(front), Some(last)) => Some(front.push(last)),
            _ => None,
        }
    }
}

/// A notebook.
pub open spec fn notebook_of(json: JsonModel) -> Option<NotebookModel> {
    match json {
        JsonModel::Object(members) => match (
            member(members, "metadata"@),
            member_i32(members, "nbformat"@),
            member_i32(members, "nbformat_minor"@),
            member(members, "cells"@),
        ) {
            (
                Some(JsonModel::Object(metadata)),
                Some(nbformat),
                Some(nbformat_minor),
                Some(JsonModel::Array(items)),
            ) => match cell_list(items) {
                Some(cells) => Some(
                    NotebookModel {
                        standard: members_named(metadata, notebook_fields(), true),
                        additional: members_named(metadata, notebook_fields(), false),
                        nbformat,
                        nbformat_minor,
                        cells,
                    },
                ),
                None => None,
            },
            _ => None,
        },
        _ => None,
    }
}

/// A list that cannot be read up to some item cannot be read.
proof fn text_list_fails(items: Seq<JsonModel>, count: int)
    requires
        0 <= count <= items.len(),
        text_list(items.take(count)) is None,
    ensures
        text_list(items) is None,
    decreases items.len() - count,
{
    if count < items.len() {
        assert(items.take(count + 1).drop_last() =~= items.take(count));
        text_list_fails(items, count + 1);
    } else {
        assert(items.take(count) =~= items);
    }
}

proof fn output_list_fails(items: Seq<JsonModel>, count: int)
    requires
        0 <= count <= items.len(),
        output_list(items.take(count)) is None,
    ensures
        output_list(items) is None,
    decreases items.len() - count,
{
    if count < items.len() {
        assert(items.take(count + 1).drop_last() =~= items.take(count));
        output_list_fails(items, count + 1);
    } else {
        assert(items.take(count) =~= items);
    }
}

proof fn cell_list_fails(items: Seq<JsonModel>, count: int)
    requires
        0 <= count <= items.len(),
        cell_list(items.take(count)) is None,
    ensures
        cell_list(items) is None,
    decreases items.len() - count,
{
    if count < items.len() {
        assert(items.take(count + 1).drop_last() =~= items.take(count));
        cell_list_fails(items, count + 1);
    } else {
        assert(items.take(count) =~= items);
    }
}

/// Reads a JSON array of strings.
fn read_texts(json: Option<&Json>) -> (list: Option<Vec<String>>)
    ensures
        match list {
            Some(l) => texts_of(option_model(json)) == Some(texts(l@)),
            None => texts_of(option_model(json)) is None,
        },
{
    match json {
        Some(Json::Array(items)) => {
            let ghost models = array_model(items@);
            let mut list: Vec<String> = Vec::new();
            let mut i: usize = 0;
            assert(models.take(0) =~= Seq::<JsonModel>::empty());
            assert(texts(list@) =~= Seq::<Seq<char>>::empty());
            while i < items.len()
                invariant
                    i <= items.len(),
                    models == array_model(items@),
                    texts_of(option_model(json)) == text_list(models),
                    text_list(models.take(i as int)) == Some(texts(list@)),
                decreases items.len() - i,
            {
                let ghost before = texts(list@);
                assert(models.take(i + 1).drop_last() =~= models.take(i as int));
                assert(models.take(i + 1).last() == items@[i as int]@);
                match &items[i] {
                    Json::Text(t) => {
                        list.push(t.clone());
                        assert(texts(list@) =~= before.push(t@));
                    },
                    _ => {
                        proof {
                            text_list_fails(models, i + 1);
                        }
                        return None;
                    },
                }
                i += 1;
            }
            assert(models.take(i as int) =~= models);
            Some(list)
        },
        _ => None,
    }
}

/// Reads a member that is a string.
fn read_member_text(members: &JsonMap, key: &str) -> (text: Option<String>)
    ensures
        text_view(text) == member_text(members@, key@),
{
    match members.get(key) {
        Some(Json::Text(t)) => Some(t.clone()),
        _ => None,
    }
}

/// Reads a member that is an integer of 32 bits.
fn read_member_i32(members: &JsonMap, key: &str) -> (value: Option<i32>)
    ensures
        value == member_i32(members@, key@),
{
    match members.get(key) {
        Some(json) => match read_integer(json) {
            Some(n) => {
                if i32::MIN as i64 <= n && n <= i32::MAX as i64 {
                    Some(n as i32)
                } else {
                    None
                }
            },
            None => None,
        },
        None => None,
    }
}

/// Reads an output of a cell.
fn read_output(json: &Json) -> (output: Option<Output>)
    ensures
        match output {
            Some(o) => output_of(json@) == Some(o@),
            None => output_of(json@) is None,
        },
{
    match json {
        Json::Object(members) => match read_member_text(members, "output_type") {
            Some(kind) => {
                if same_text(kind.as_str(), "stream") {
                    match (read_member_text(members, "name"), members.get("text")) {
                        (Some(name), Some(text)) => match read_source(text) {
                            Some(t) => Some(Output::Stream { name, text: t }),
                            None => None,
                        },
                        _ => None,
                    }
                } else if same_text(kind.as_str(), "error") {
                    match (
                        read_member_text(members, "ename"),
                        read_member_text(members, "evalue"),
                        read_texts(members.get("traceback")),
                    ) {
                        (Some(ename), Some(evalue), Some(traceback)) => Some(
                            Output::Error(ErrorOutput { ename, evalue, traceback }),
                        ),
                        _ => None,
                    }
                } else {
                    Some(Output::Rich(json.clone()))
                }
            },
            None => None,
        },
        _ => None,
    }
}

/// Reads the outputs of a cell.
fn read_outputs(items: &Vec<Json>) -> (outputs: Option<Vec<Output>>)
    ensures
        match outputs {
            Some(o) => output_list(array_model(items@)) == Some(output_models(o@)),
            None => output_list(array_model(items@)) is None,
        },
{
    let ghost models = array_model(items@);
    let mut outputs: Vec<Output> = Vec::new();
    let mut i: usize = 0;
    assert(models.take(0) =~= Seq::<JsonModel>::empty());
    assert(output_models(outputs@) =~= Seq::<OutputModel>::empty());
    while i < items.len()
        invariant
            i <= items.len(),
            models == array_model(items@),
            output_list(models.take(i as int)) == Some(output_models(outputs@)),
        decreases items.len() - i,
    {
        let ghost before = output_models(outputs@);
        assert(models.take(i + 1).drop_last() =~= models.take(i as int));
        assert(models.take(i + 1).last() == items@[i as int]@);
        match read_output(&items[i]) {
            Some(output) => {
                outputs.push(output);
                assert(output_models(outputs@) =~= before.push(output@));
            },
            None => {
                proof {
                    output_list_fails(models, i + 1);
                }
                return None;
            },
        }
        i += 1;
    }
    assert(models.take(i as int) =~= models);
    Some(outputs)
}

/// Reads the execution count of a code cell.
fn read_count(members: &JsonMap) -> (count: Option<Option<i32>>)
    ensures
        count == count_of(members@),
{
    match members.get("execution_count") {
        None => Some(None),
        Some(Json::Null) => Some(None),
        Some(_) => match read_member_i32(members, "execution_count") {
            Some(n) => Some(Some(n)),
            None => None,
        },
    }
}

/// Reads the body of a cell.
fn read_body(members: &JsonMap) -> (body: Option<CellBody>)
    ensures
        match body {
            Some(b) => body_of(members@) == Some(b@),
            None => body_of(members@) is None,
        },
{
    match read_member_text(members, "cell_type") {
        Some(kind) => {
            if same_text(kind.as_str(), "code") {
                match (read_count(members), members.get("outputs")) {
                    (Some(execution_count), Some(Json::Array(items))) => match read_outputs(
                        items,
                    ) {
                        Some(outputs) => Some(CellBody::Code { execution_count, outputs }),
                        None => None,
                    },
                    _ => None,
                }
            } else if same_text(kind.as_str(), "markdown") {
                Some(
                    CellBody::Markdown {
                        attachments: match members.get("attachments") {
                            Some(json) => Some(json.clone()),
                            None => None,
                        },
                    },
                )
            } else if same_text(kind.as_str(), "raw") {
                Some(CellBody::Raw)
            } else {
                None
            }
        },
        None => None,
    }
}

/// Reads a cell.
fn read_cell_json(json: &Json) -> (cell: Option<Cell>)
    ensures
        match cell {
            Some(c) => cell_of(json@) == Some(c@),
            None => cell_of(json@) is None,
        },
{
    match json {
        Json::Object(members) => match (
            read_member_text(members, "id"),
            members.get("metadata"),
            read_texts(members.get("source")),
            read_body(members),
        ) {
            (Some(text), Some(Json::Object(metadata)), Some(source), Some(body)) => {
                match CellId::new(text.as_str()) {
                    Some(id) => {
                        let names: Vec<String> = cell_field_names();
                        Some(
                            Cell {
                                id,
                                metadata: CellMetadata {
                                    standard: pick_members(metadata, &names, true),
                                    additional: pick_members(metadata, &names, false),
                                },
                                source,
                                body,
                            },
                        )
                    },
                    None => None,
                }
            },
            _ => None,
        },
        _ => None,
    }
}

/// Reads the cells of a notebook.
fn read_cells_json(items: &Vec<Json>) -> (cells: Option<Vec<Cell>>)
    ensures
        match cells {
            Some(c) => cell_list(array_model(items@)) == Some(cell_models(c@)),
            None => cell_list(array_model(items@)) is None,
        },
{
    let ghost models = array_model(items@);
    let mut cells: Vec<Cell> = Vec::new();
    let mut i: usize = 0;
    assert(models.take(0) =~= Seq::<JsonModel>::empty());
    assert(cell_models(cells@) =~= Seq::<CellModel>::empty());
    while i < items.len()
        invariant
            i <= items.len(),
            models == array_model(items@),
            cell_list(models.take(i as int)) == Some(cell_models(cells@)),
        decreases items.len() - i,
    {
        let ghost before = cell_models(cells@);
        assert(models.take(i + 1).drop_last() =~= models.take(i as int));
        assert(models.take(i + 1).last() == items@[i as int]@);
        match read_cell_json(&items[i]) {
            Some(cell) => {
                cells.push(cell);
                assert(cell_models(cells@) =~= before.push(cell@));
            },
            None => {
                proof {
                    cell_list_fails(models, i + 1);
                }
                return None;
            },
        }
        i += 1;
    }
    assert(models.take(i as int) =~= models);
    Some(cells)
}

/// Reads a notebook from JSON; `None` if it has another form.
pub fn notebook_from_json(json: &Json) -> (nb: Option<Notebook>)
    ensures
        match nb {
            Some(n) => notebook_of(json@) == Some(n@),
            None => notebook_of(json@) is None,
        },
{
    match json {
        Json::Object(members) => match (
            members.get("metadata"),
            read_member_i32(members, "nbformat"),
            read_member_i32(members, "nbformat_minor"),
            members.get("cells"),
        ) {
            (
                Some(Json::Object(metadata)),
                Some(nbformat),
                Some(nbformat_minor),
                Some(Json::Array(items)),
            ) => match read_cells_json(items) {
                Some(cells) => {
                    let names: Vec<String> = notebook_field_names();
                    Some(
                        Notebook {
                            metadata: Metadata {
                                standard: pick_members(metadata, &names, true),
                                additional: pick_members(metadata, &names, false),
                            },
                            nbformat,
                            nbformat_minor,
                            cells,
                        },
                    )
                },
                None => None,
            },
            _ => None,
        },
        _ => None,
    }
}

// ---------------------------------------------------------------------------
// To JSON
// ---------------------------------------------------------------------------

/// A list of texts as JSON.
pub open spec fn texts_json(list: Seq<Seq<char>>) -> JsonModel {
    JsonModel::Array(list.map_values(|text: Seq<char>| JsonModel::Text(text)))
}

/// An integer of 32 bits as JSON.
pub open spec fn i32_json(n: i32) -> JsonModel {
    JsonModel::Number(
        if n < 0 {
            JsonNumber::Negative(n as i64)
        } else {
            JsonNumber::Natural(n as u64)
        },
    )
}

/// An output as JSON.
pub open spec fn output_json(output: OutputModel) -> JsonModel {
    match output {
        OutputModel::Stream { name, text } => JsonModel::Object(
            seq![
                ("name"@, JsonModel::Text(name)),
                ("output_type"@, JsonModel::Text("stream"@)),
                ("text"@, JsonModel::Text(text)),
            ],
        ),
        OutputModel::Error(error) => JsonModel::Object(
            seq![
                ("ename"@, JsonModel::Text(error.ename)),
                ("evalue"@, JsonModel::Text(error.evalue)),
                ("output_type"@, JsonModel::Text("error"@)),
                ("traceback"@, texts_json(error.traceback)),
            ],
        ),
        OutputModel::Rich(json) => json,
    }
}

/// The execution count of a code cell as JSON.
pub open spec fn count_json(count: Option<i32>) -> JsonModel {
    match count {
        Some(n) => i32_json(n),
        None => JsonModel::Null,
    }
}

/// A cell as JSON.
pub open spec fn cell_json(cell: CellModel) -> JsonModel {
    let id = ("id"@, JsonModel::Text(cell.id));
    let metadata = (
        "metadata"@,
        JsonModel::Object(with_members(cell.additional, cell.standard)),
    );
    let source = ("source"@, texts_json(cell.source));
    match cell.body {
        BodyModel::Code { execution_count, outputs } => JsonModel::Object(
            seq![
                ("cell_type"@, JsonModel::Text("code"@)),
                ("execution_count"@, count_json(execution_count)),
                id,
                metadata,
                (
                    "outputs"@,
                    JsonModel::Array(
                        outputs.map_values(|output: OutputModel| output_json(output)),
                    ),
                ),
                source,
            ],
        ),
        BodyModel::Markdown { attachments } => {
            let rest = seq![("cell_type"@, JsonModel::Text("markdown"@)), id, metadata, source];
            JsonModel::Object(
                match attachments {
                    Some(json) => seq![("attachments"@, json)] + rest,
                    None => rest,
                },
            )
        },
        BodyModel::Raw => JsonModel::Object(
            seq![("cell_type"@, JsonModel::Text("raw"@)), id, metadata, source],
        ),
    }
}

/// A notebook as JSON.
pub open spec fn notebook_json(nb: NotebookModel) -> JsonModel {
    JsonModel::Object(
        seq![
            (
                "cells"@,
                JsonModel::Array(nb.cells.map_values(|cell: CellModel| cell_json(cell))),
            ),
            ("metadata"@, JsonModel::Object(with_members(nb.additional, nb.standard))),
            ("nbformat"@, i32_json(nb.nbformat)),
            ("nbformat_minor"@, i32_json(nb.nbformat_minor)),
        ],
    )
}

/// A list of texts as JSON.
fn write_texts(list: &Vec<String>) -> (json: Json)
    ensures
        json@ == texts_json(texts(list@)),
{
    let mut items: Vec<Json> = Vec::new();
    let mut i: usize = 0;
    while i < list.len()
        invariant
            i <= list.len(),
            items.len() == i,
            forall|k: int| 0 <= k < i ==> (#[trigger] items@[k])@ == JsonModel::Text(list@[k]@),
        decreases list.len() - i,
    {
        items.push(Json::Text(list[i].clone()));
        i += 1;
    }
    assert(array_model(items@) =~= texts_json(texts(list@))->Array_0);
    Json::Array(items)
}

/// An integer of 32 bits as JSON.
fn write_i32(n: i32) -> (json: Json)
    ensures
        json@ == i32_json(n),
{
    if n < 0 {
        Json::Number(JsonNumber::Negative(n as i64))
    } else {
        Json::Number(JsonNumber::Natural(n as u64))
    }
}

/// An output as JSON.
fn write_output(output: &Output) -> (json: Json)
    ensures
        json@ == output_json(output@),
{
    match output {
        Output::Stream { name, text } => {
            let map = JsonMap {
                entries: vec![
                    ("name".to_owned(), Json::Text(name.clone())),
                    ("output_type".to_owned(), Json::Text("stream".to_owned())),
                    ("text".to_owned(), Json::Text(text.clone())),
                ],
            };
            assert(map@ =~= output_json(output@)->Object_0);
            Json::Object(map)
        },
        Output::Error(error) => {
            let map = JsonMap {
                entries: vec![
                    ("ename".to_owned(), Json::Text(error.ename.clone())),
                    ("evalue".to_owned(), Json::Text(error.evalue.clone())),
                    ("output_type".to_owned(), Json::Text("error".to_owned())),
                    ("traceback".to_owned(), write_texts(&error.traceback)),
                ],
            };
            assert(map@ =~= output_json(output@)->Object_0);
            Json::Object(map)
        },
        Output::Rich(json) => json.clone(),
    }
}

/// The outputs of a cell as JSON.
fn write_outputs(outputs: &Vec<Output>) -> (json: Json)
    ensures
        json@ == JsonModel::Array(
            output_models(outputs@).map_values(|output: OutputModel| output_json(output)),
        ),
{
    let mut items: Vec<Json> = Vec::new();
    let mut i: usize = 0;
    while i < outputs.len()
        invariant
            i <= outputs.len(),
            items.len() == i,
            forall|k: int| 0 <= k < i ==> (#[trigger] items@[k])@ == output_json(outputs@[k]@),
        decreases outputs.len() - i,
    {
        items.push(write_output(&outputs[i]));
        i += 1;
    }
    assert(array_model(items@) =~= output_models(outputs@).map_values(
        |output: OutputModel| output_json(output),
    ));
    Json::Array(items)
}

/// A cell as JSON.
fn write_cell_json(cell: &Cell) -> (json: Json)
    ensures
        json@ == cell_json(cell@),
        has_id(json@),
{
    let id: Json = Json::Text(cell.cell_id_str().to_owned());
    let metadata: Json = Json::Object(
        merge_members(&cell.metadata.additional, &cell.metadata.standard),
    );
    let source: Json = write_texts(&cell.source);
    let mut entries: Vec<(String, Json)> = Vec::new();
    match &cell.body {
        CellBody::Code { execution_count, outputs } => {
            let count: Json = match execution_count {
                Some(n) => write_i32(*n),
                None => Json::Null,
            };
            entries.push(("cell_type".to_owned(), Json::Text("code".to_owned())));
            entries.push(("execution_count".to_owned(), count));
            entries.push(("id".to_owned(), id));
            entries.push(("metadata".to_owned(), metadata));
            entries.push(("outputs".to_owned(), write_outputs(outputs)));
            entries.push(("source".to_owned(), source));
        },
        CellBody::Markdown { attachments } => {
            if let Some(json) = attachments {
                entries.push(("attachments".to_owned(), json.clone()));
            }
            entries.push(("cell_type".to_owned(), Json::Text("markdown".to_owned())));
            entries.push(("id".to_owned(), id));
            entries.push(("metadata".to_owned(), metadata));
            entries.push(("source".to_owned(), source));
        },
        CellBody::Raw => {
            entries.push(("cell_type".to_owned(), Json::Text("raw".to_owned())));
            entries.push(("id".to_owned(), id));
            entries.push(("metadata".to_owned(), metadata));
            entries.push(("source".to_owned(), source));
        },
    }
    let map = JsonMap { entries };
    assert(map@ =~= cell_json(cell@)->Object_0);
    proof {
        written_cell_has_id(cell@);
    }
    Json::Object(map)
}

/// Whether the JSON of a cell has a member for its id.
pub open spec fn has_id(json: JsonModel) -> bool {
    json matches JsonModel::Object(members) && member(members, "id"@) is Some
}

/// Whether the JSON of a notebook has a list of cells, each with an id.
pub open spec fn cells_have_ids(json: JsonModel) -> bool {
    json matches JsonModel::Object(members) && member(
        members,
        "cells"@,
    ) matches Some(JsonModel::Array(items)) && forall|i: int|
        0 <= i < items.len() ==> has_id(#[trigger] items[i])
}

/// The JSON of a cell has its id.
proof fn written_cell_has_id(cell: CellModel)
    ensures
        has_id(cell_json(cell)),
{
    let members = cell_json(cell)->Object_0;
    let at: int = match cell.body {
        BodyModel::Code { .. } => 2,
        BodyModel::Markdown { attachments } => if attachments is Some {
            2
        } else {
            1
        },
        BodyModel::Raw => 1,
    };
    assert(members[at].0 == "id"@);
    crate::json::member_index_is_first(members, "id"@);
    if crate::json::member_index(members, "id"@) >= members.len() {
        assert(members[at].0 != "id"@);
    }
}

/// A notebook as JSON.
pub fn notebook_to_json(nb: &Notebook) -> (json: Json)
    ensures
        json@ == notebook_json(nb@),
        cells_have_ids(json@),
{
    let mut items: Vec<Json> = Vec::new();
    let mut i: usize = 0;
    while i < nb.cells.len()
        invariant
            i <= nb.cells.len(),
            items.len() == i,
            forall|k: int|
                0 <= k < i ==> (#[trigger] items@[k])@ == cell_json(nb.cells@[k]@) && has_id(
                    items@[k]@,
                ),
        decreases nb.cells.len() - i,
    {
        items.push(write_cell_json(&nb.cells[i]));
        i += 1;
    }
    let ghost models = array_model(items@);
    assert forall|k: int| 0 <= k < models.len() implies has_id(#[trigger] models[k]) by {
        assert(models[k] == items@[k]@);
    }
    assert(models =~= nb@.cells.map_values(|cell: CellModel| cell_json(cell)));
    let map = JsonMap {
        entries: vec![
            ("cells".to_owned(), Json::Array(items)),
            (
                "metadata".to_owned(),
                Json::Object(merge_members(&nb.metadata.additional, &nb.metadata.standard)),
            ),
            ("nbformat".to_owned(), write_i32(nb.nbformat)),
            ("nbformat_minor".to_owned(), write_i32(nb.nbformat_minor)),
        ],
    };
    assert(map@ =~= notebook_json(nb@)->Object_0);
    proof {
        crate::json::member_index_unique(map@, "cells"@, 0);
    }
    Json::Object(map)
}

} // verus!
