//! Cells that are made for generated notebooks: tagged with their role, under
//! new ids where they stand for no cell of the source.
use vstd::prelude::*;

use crate::json::{Json, JsonMap, JsonModel};
use crate::metadata::{write_single, METADATA_KEY};
use crate::notebook::{
    blank_cell_metadata, new_cell_id, output_models, uuid_form, BodyModel, Cell,
    CellBody, CellId, CellMetadata, CellModel, Output, OutputModel,
};
use crate::text::{split_lines_whole, texts, whole_lines};

verus! {

broadcast use {crate::json::array_view, crate::json::object_view};

/// What a generated cell is to hold. Without an id it gets a new one.
pub struct CellTemplate {
    pub id: Option<Seq<char>>,
    pub additional: Seq<(Seq<char>, JsonModel)>,
    pub source: Seq<Seq<char>>,
    pub body: BodyModel,
}

/// Whether a cell is what a template asks for. Its standard metadata is blank;
/// a new id has the form of a random UUID.
pub open spec fn fits(cell: CellModel, template: CellTemplate) -> bool {
    &&& match template.id {
        Some(id) => cell.id == id,
        None => uuid_form(cell.id),
    }
    &&& cell.standard == Seq::<(Seq<char>, JsonModel)>::empty()
    &&& cell.additional == template.additional
    &&& cell.source == template.source
    &&& cell.body == template.body
}

/// Whether a list of cells is what a list of templates asks for.
pub open spec fn all_fit(cells: Seq<CellModel>, templates: Seq<CellTemplate>) -> bool {
    &&& cells.len() == templates.len()
    &&& forall|i: int| 0 <= i < cells.len() ==> fits(#[trigger] cells[i], templates[i])
}

/// Adding cells that fit templates.
pub proof fn fit_together(
    cells: Seq<CellModel>,
    templates: Seq<CellTemplate>,
    more: Seq<CellModel>,
    more_templates: Seq<CellTemplate>,
)
    requires
        all_fit(cells, templates),
        all_fit(more, more_templates),
    ensures
        all_fit(cells + more, templates + more_templates),
{
    let all = cells + more;
    let wanted = templates + more_templates;
    assert forall|i: int| 0 <= i < all.len() implies fits(#[trigger] all[i], wanted[i]) by {
        if i < cells.len() {
            assert(fits(cells[i], templates[i]));
        } else {
            assert(fits(more[i - cells.len()], more_templates[i - cells.len()]));
        }
    }
}

/// The free-form metadata of a generated cell.
pub open spec fn tag(section: Seq<char>, fields: JsonModel) -> Seq<(Seq<char>, JsonModel)> {
    seq![(METADATA_KEY@, JsonModel::Object(seq![(section, fields)]))]
}

/// The fields of a tag with a role only.
pub open spec fn role_fields(role: Seq<char>) -> JsonModel {
    JsonModel::Object(seq![("role"@, JsonModel::Text(role))])
}

/// The body of a code cell that was never run.
pub open spec fn fresh_code() -> BodyModel {
    BodyModel::Code { execution_count: None, outputs: Seq::empty() }
}

/// A code cell that was never run.
pub open spec fn code_template(
    id: Option<Seq<char>>,
    section: Seq<char>,
    fields: JsonModel,
    source: Seq<char>,
) -> CellTemplate {
    CellTemplate {
        id,
        additional: tag(section, fields),
        source: whole_lines(source),
        body: fresh_code(),
    }
}

/// A markdown cell under a new id.
pub open spec fn note_template(
    section: Seq<char>,
    fields: JsonModel,
    source: Seq<char>,
) -> CellTemplate {
    CellTemplate {
        id: None,
        additional: tag(section, fields),
        source: whole_lines(source),
        body: BodyModel::Markdown { attachments: None },
    }
}

/// Splits a source into the lines of a cell, each with its line feed.
pub fn split_source(s: &str) -> (lines: Vec<String>)
    ensures
        texts(lines@) == whole_lines(s@),
{
    split_lines_whole(s)
}

/// The fields of a tag with a role only.
pub fn role_only(role: &str) -> (fields: Json)
    ensures
        fields@ == role_fields(role@),
{
    write_single("role", Json::Text(role.to_owned()))
}

/// The metadata of a generated cell.
pub fn tagged_metadata(section: &str, fields: Json) -> (metadata: CellMetadata)
    ensures
        metadata.standard@ == Seq::<(Seq<char>, JsonModel)>::empty(),
        metadata.additional@ == tag(section@, fields@),
{
    let mut metadata: CellMetadata = blank_cell_metadata();
    let ghost expected = tag(section@, fields@);
    metadata.additional = JsonMap {
        entries: vec![(METADATA_KEY.to_owned(), write_single(section, fields))],
    };
    assert(metadata.additional@ =~= expected);
    metadata
}

/// A code cell that was never run.
pub fn make_code_cell(id: CellId, section: &str, fields: Json, source: &str) -> (cell: Cell)
    ensures
        fits(cell@, code_template(Some(id@), section@, fields@, source@)),
{
    let outputs: Vec<Output> = Vec::new();
    assert(output_models(outputs@) =~= Seq::<OutputModel>::empty());
    Cell {
        id,
        metadata: tagged_metadata(section, fields),
        source: split_source(source),
        body: CellBody::Code { execution_count: None, outputs },
    }
}

/// A code cell under a new id.
pub fn make_new_code_cell(section: &str, fields: Json, source: &str) -> (cell: Cell)
    ensures
        fits(cell@, code_template(None, section@, fields@, source@)),
{
    make_code_cell(new_cell_id(), section, fields, source)
}

/// A markdown cell under a new id.
pub fn make_note_cell(section: &str, fields: Json, source: &str) -> (cell: Cell)
    ensures
        fits(cell@, note_template(section@, fields@, source@)),
{
    Cell {
        id: new_cell_id(),
        metadata: tagged_metadata(section, fields),
        source: split_source(source),
        body: CellBody::Markdown { attachments: None },
    }
}

} // verus!
