//! Notebooks as plain data: cells with an identity, source lines, outputs and
//! metadata.
use vstd::prelude::*;

use crate::json::{member, Json, JsonMap, JsonModel};
use crate::metadata::{
    data_in, data_view, read_nota_bene, read_text, text_of, without_field, NotaBeneData,
    NotaBeneView, METADATA_KEY,
};
use crate::text::{
    chars_of, concatenate, concatenated, copy_texts, same_text, text_view, texts,
};

verus! {

broadcast use {crate::json::array_view, crate::json::object_view};

// ---------------------------------------------------------------------------
// Cell identities
// ---------------------------------------------------------------------------

/// Whether `c` may stand in the id of a cell.
pub open spec fn id_char(c: char) -> bool {
    ||| 'a' <= c <= 'z'
    ||| 'A' <= c <= 'Z'
    ||| '0' <= c <= '9'
    ||| c == '-'
    ||| c == '_'
}

/// Whether `s` can be the id of a cell: 1 to 64 letters, digits, hyphens and
/// underscores.
pub open spec fn valid_id(s: Seq<char>) -> bool {
    &&& 0 < s.len() <= 64
    &&& forall|i: int| 0 <= i < s.len() ==> id_char(#[trigger] s[i])
}

/// The id of a cell.
#[derive(Debug, PartialEq)]
pub struct CellId {
    text: String,
}

impl View for CellId {
    type V = Seq<char>;

    closed spec fn view(&self) -> Seq<char> {
        self.text@
    }
}

impl CellId {
    #[verifier::type_invariant]
    spec fn is_valid(self) -> bool {
        valid_id(self.text@)
    }

    /// The id `s`, if it can be one.
    pub fn new(s: &str) -> (id: Option<CellId>)
        ensures
            match id {
                Some(i) => valid_id(s@) && i@ == s@,
                None => !valid_id(s@),
            },
    {
        let chars: Vec<char> = chars_of(s);
        if chars.len() == 0 || chars.len() > 64 {
            return None;
        }
        let mut i: usize = 0;
        while i < chars.len()
            invariant
                i <= chars.len(),
                chars@ == s@,
                forall|k: int| 0 <= k < i ==> id_char(#[trigger] s@[k]),
            decreases chars.len() - i,
        {
            let c: char = chars[i];
            if !(('a' <= c && c <= 'z') || ('A' <= c && c <= 'Z') || ('0' <= c && c <= '9') || c
                == '-' || c == '_') {
                assert(!id_char(s@[i as int]));
                return None;
            }
            i += 1;
        }
        Some(CellId { text: s.to_owned() })
    }

    /// The text of the id.
    pub fn as_str(&self) -> (text: &str)
        ensures
            text@ == self@,
            valid_id(self@),
    {
        proof {
            use_type_invariant(self);
        }
        self.text.as_str()
    }
}

impl Clone for CellId {
    fn clone(&self) -> (copy: Self)
        ensures
            copy@ == self@,
    {
        proof {
            use_type_invariant(self);
        }
        CellId { text: self.text.clone() }
    }
}

/// Whether `c` is a hexadecimal digit in lower case.
pub open spec fn hex_char(c: char) -> bool {
    '0' <= c <= '9' || 'a' <= c <= 'f'
}

/// Whether `s` has the form of a random UUID: groups of 8, 4, 4, 4 and 12
/// hexadecimal digits, with 4 as the version and the usual variant.
pub open spec fn uuid_form(s: Seq<char>) -> bool {
    &&& s.len() == 36
    &&& forall|i: int|
        0 <= i < 36 ==> if i == 8 || i == 13 || i == 18 || i == 23 {
            #[trigger] s[i] == '-'
        } else {
            hex_char(s[i])
        }
    &&& s[14] == '4'
    &&& s[19] == '8' || s[19] == '9' || s[19] == 'a' || s[19] == 'b'
}

/// Calls `uuid::Uuid::new_v4` and `ToString::to_string` on it: the hyphenated
/// form of a random UUID. Which one it is rests on chance.
#[verifier::external_body]
fn random_uuid() -> (text: String)
    ensures
        uuid_form(text@),
{
    uuid::Uuid::new_v4().to_string()
}

/// A new id for a cell, made at random.
pub fn new_cell_id() -> (id: CellId)
    ensures
        uuid_form(id@),
        valid_id(id@),
{
    let text: String = random_uuid();
    assert forall|i: int| 0 <= i < text@.len() implies id_char(#[trigger] text@[i]) by {}
    CellId { text }
}

// ---------------------------------------------------------------------------
// Outputs
// ---------------------------------------------------------------------------

/// An error that a cell raised.
#[derive(Debug, PartialEq)]
pub struct ErrorOutput {
    pub ename: String,
    pub evalue: String,
    pub traceback: Vec<String>,
}

/// What an error holds.
pub struct ErrorModel {
    pub ename: Seq<char>,
    pub evalue: Seq<char>,
    pub traceback: Seq<Seq<char>>,
}

/// An output of a cell.
#[derive(Debug)]
pub enum Output {
    /// Text written to a stream.
    Stream { name: String, text: String },
    /// An error that was raised.
    Error(ErrorOutput),
    /// Displayed data or the result of the cell, as JSON.
    Rich(Json),
}

/// What an output holds.
pub enum OutputModel {
    Stream { name: Seq<char>, text: Seq<char> },
    Error(ErrorModel),
    Rich(JsonModel),
}

impl View for ErrorOutput {
    type V = ErrorModel;

    open spec fn view(&self) -> ErrorModel {
        ErrorModel {
            ename: self.ename@,
            evalue: self.evalue@,
            traceback: texts(self.traceback@),
        }
    }
}

impl View for Output {
    type V = OutputModel;

    open spec fn view(&self) -> OutputModel {
        match self {
            Output::Stream { name, text } => OutputModel::Stream { name: name@, text: text@ },
            Output::Error(error) => OutputModel::Error(error@),
            Output::Rich(json) => OutputModel::Rich(json@),
        }
    }
}

impl Clone for ErrorOutput {
    fn clone(&self) -> (copy: Self)
        ensures
            copy@ == self@,
    {
        ErrorOutput {
            ename: self.ename.clone(),
            evalue: self.evalue.clone(),
            traceback: copy_texts(&self.traceback),
        }
    }
}

impl Clone for Output {
    fn clone(&self) -> (copy: Self)
        ensures
            copy@ == self@,
    {
        match self {
            Output::Stream { name, text } => Output::Stream {
                name: name.clone(),
                text: text.clone(),
            },
            Output::Error(error) => Output::Error(error.clone()),
            Output::Rich(json) => Output::Rich(json.clone()),
        }
    }
}

/// What a list of outputs holds.
pub open spec fn output_models(outputs: Seq<Output>) -> Seq<OutputModel> {
    outputs.map_values(|output: Output| output@)
}

/// A copy of a list of outputs.
pub fn copy_outputs(outputs: &Vec<Output>) -> (copy: Vec<Output>)
    ensures
        output_models(copy@) == output_models(outputs@),
{
    let mut copy: Vec<Output> = Vec::new();
    let mut i: usize = 0;
    while i < outputs.len()
        invariant
            i <= outputs.len(),
            copy.len() == i,
            forall|k: int| 0 <= k < i ==> #[trigger] copy@[k]@ == outputs@[k]@,
        decreases outputs.len() - i,
    {
        copy.push(outputs[i].clone());
        i += 1;
    }
    assert(output_models(copy@) =~= output_models(outputs@));
    copy
}

// ---------------------------------------------------------------------------
// Cells and notebooks
// ---------------------------------------------------------------------------

/// The metadata of a cell: the standard fields, and everything else.
#[derive(Debug)]
pub struct CellMetadata {
    pub standard: JsonMap,
    pub additional: JsonMap,
}

/// What tells the kinds of cells apart.
#[derive(Debug)]
pub enum CellBody {
    Code { execution_count: Option<i32>, outputs: Vec<Output> },
    Markdown { attachments: Option<Json> },
    Raw,
}

/// A cell of a notebook.
#[derive(Debug)]
pub struct Cell {
    pub id: CellId,
    pub metadata: CellMetadata,
    pub source: Vec<String>,
    pub body: CellBody,
}

/// The metadata of a notebook: the standard fields, and everything else.
#[derive(Debug)]
pub struct Metadata {
    pub standard: JsonMap,
    pub additional: JsonMap,
}

/// A notebook.
#[derive(Debug)]
pub struct Notebook {
    pub metadata: Metadata,
    pub nbformat: i32,
    pub nbformat_minor: i32,
    pub cells: Vec<Cell>,
}

/// What the body of a cell holds.
pub enum BodyModel {
    Code { execution_count: Option<i32>, outputs: Seq<OutputModel> },
    Markdown { attachments: Option<JsonModel> },
    Raw,
}

/// What a cell holds.
pub struct CellModel {
    pub id: Seq<char>,
    pub standard: Seq<(Seq<char>, JsonModel)>,
    pub additional: Seq<(Seq<char>, JsonModel)>,
    pub source: Seq<Seq<char>>,
    pub body: BodyModel,
}

/// What a notebook holds.
pub struct NotebookModel {
    pub standard: Seq<(Seq<char>, JsonModel)>,
    pub additional: Seq<(Seq<char>, JsonModel)>,
    pub nbformat: i32,
    pub nbformat_minor: i32,
    pub cells: Seq<CellModel>,
}

impl View for CellBody {
    type V = BodyModel;

    open spec fn view(&self) -> BodyModel {
        match self {
            CellBody::Code { execution_count, outputs } => BodyModel::Code {
                execution_count: *execution_count,
                outputs: output_models(outputs@),
            },
            CellBody::Markdown { attachments } => BodyModel::Markdown {
                attachments: match attachments {
                    Some(json) => Some(json@),
                    None => None,
                },
            },
            CellBody::Raw => BodyModel::Raw,
        }
    }
}

impl View for Cell {
    type V = CellModel;

    open spec fn view(&self) -> CellModel {
        CellModel {
            id: self.id@,
            standard: self.metadata.standard@,
            additional: self.metadata.additional@,
            source: texts(self.source@),
            body: self.body@,
        }
    }
}

/// What a list of cells holds.
pub open spec fn cell_models(cells: Seq<Cell>) -> Seq<CellModel> {
    cells.map_values(|cell: Cell| cell@)
}

impl View for Notebook {
    type V = NotebookModel;

    open spec fn view(&self) -> NotebookModel {
        NotebookModel {
            standard: self.metadata.standard@,
            additional: self.metadata.additional@,
            nbformat: self.nbformat,
            nbformat_minor: self.nbformat_minor,
            cells: cell_models(self.cells@),
        }
    }
}

impl Clone for CellMetadata {
    fn clone(&self) -> (copy: Self)
        ensures
            copy.standard@ == self.standard@,
            copy.additional@ == self.additional@,
    {
        CellMetadata {
            standard: self.standard.clone(),
            additional: self.additional.clone(),
        }
    }
}

impl Clone for Metadata {
    fn clone(&self) -> (copy: Self)
        ensures
            copy.standard@ == self.standard@,
            copy.additional@ == self.additional@,
    {
        Metadata {
            standard: self.standard.clone(),
            additional: self.additional.clone(),
        }
    }
}

impl Clone for CellBody {
    fn clone(&self) -> (copy: Self)
        ensures
            copy@ == self@,
    {
        match self {
            CellBody::Code { execution_count, outputs } => CellBody::Code {
                execution_count: *execution_count,
                outputs: copy_outputs(outputs),
            },
            CellBody::Markdown { attachments } => CellBody::Markdown {
                attachments: match attachments {
                    Some(json) => Some(json.clone()),
                    None => None,
                },
            },
            CellBody::Raw => CellBody::Raw,
        }
    }
}

impl Clone for Cell {
    fn clone(&self) -> (copy: Self)
        ensures
            copy@ == self@,
    {
        Cell {
            id: self.id.clone(),
            metadata: self.metadata.clone(),
            source: copy_texts(&self.source),
            body: self.body.clone(),
        }
    }
}

impl Clone for Notebook {
    fn clone(&self) -> (copy: Self)
        ensures
            copy@ == self@,
    {
        let mut cells: Vec<Cell> = Vec::new();
        let mut i: usize = 0;
        while i < self.cells.len()
            invariant
                i <= self.cells.len(),
                cells.len() == i,
                forall|k: int| 0 <= k < i ==> #[trigger] cells@[k]@ == self.cells@[k]@,
            decreases self.cells.len() - i,
        {
            cells.push(self.cells[i].clone());
            i += 1;
        }
        assert(cell_models(cells@) =~= cell_models(self.cells@));
        Notebook {
            metadata: self.metadata.clone(),
            nbformat: self.nbformat,
            nbformat_minor: self.nbformat_minor,
            cells,
        }
    }
}

// ---------------------------------------------------------------------------
// Reading cells
// ---------------------------------------------------------------------------

impl CellModel {
    /// Whether this is a code cell.
    pub open spec fn is_code(self) -> bool {
        self.body is Code
    }

    /// The whole source.
    pub open spec fn text(self) -> Seq<char> {
        concatenated(self.source)
    }

    /// The metadata, if there is any.
    pub open spec fn data(self) -> Option<crate::metadata::DataModel> {
        data_in(self.additional)
    }
}

/// The string under `section` and `key` in the metadata of a cell.
pub open spec fn nested_text(
    additional: Seq<(Seq<char>, JsonModel)>,
    section: Seq<char>,
    key: Seq<char>,
) -> Option<Seq<char>> {
    match member(additional, METADATA_KEY@) {
        Some(JsonModel::Object(members)) => match member(members, section) {
            Some(JsonModel::Object(fields)) => match member(fields, key) {
                Some(value) => text_of(value),
                None => None,
            },
            _ => None,
        },
        _ => None,
    }
}

/// The string under `section` and `key` in the metadata of a cell.
pub fn read_nested_text(additional: &JsonMap, section: &str, key: &str) -> (text: Option<String>)
    ensures
        text_view(text) == nested_text(additional@, section@, key@),
{
    match additional.get(METADATA_KEY) {
        Some(Json::Object(members)) => match members.get(section) {
            Some(Json::Object(fields)) => match fields.get(key) {
                Some(value) => read_text(value),
                None => None,
            },
            _ => None,
        },
        _ => None,
    }
}

/// What can be asked of a cell, and the way to its metadata.
pub trait CellExt {
    /// The id of the cell.
    fn cell_id(&self) -> &CellId;

    /// The text of the id of the cell.
    fn cell_id_str(&self) -> &str;

    /// The whole source of the cell.
    fn source_str(&self) -> String;

    /// The free-form metadata of the cell.
    fn additional(&self) -> &JsonMap;

    /// The free-form metadata of the cell, to be changed in place.
    fn additional_mut(&mut self) -> &mut JsonMap;

    /// The metadata of the cell, if it has any.
    fn nota_bene(&self) -> Option<NotaBeneData>;

    /// The metadata of the cell, to be changed in place.
    fn nota_bene_mut(&mut self) -> NotaBeneView<'_>;

    /// The role of the cell in an editor notebook.
    fn editor_role(&self) -> Option<String>;

    /// The id of the cell that an editor cell belongs to.
    fn editor_cell_id(&self) -> Option<String>;
}

impl CellExt for Cell {
    fn cell_id(&self) -> (id: &CellId)
        ensures
            *id == self.id,
    {
        &self.id
    }

    fn cell_id_str(&self) -> (text: &str)
        ensures
            text@ == self@.id,
    {
        self.id.as_str()
    }

    fn source_str(&self) -> (text: String)
        ensures
            text@ == self@.text(),
    {
        concatenate(&self.source)
    }

    fn additional(&self) -> (additional: &JsonMap)
        ensures
            *additional == self.metadata.additional,
    {
        &self.metadata.additional
    }

    fn additional_mut(&mut self) -> (additional: &mut JsonMap)
        ensures
            *additional == old(self).metadata.additional,
            *final(self) == (Cell {
                metadata: CellMetadata {
                    additional: *final(additional),
                    ..old(self).metadata
                },
                ..*old(self)
            }),
    {
        &mut self.metadata.additional
    }

    fn nota_bene(&self) -> (data: Option<NotaBeneData>)
        ensures
            data_view(data) == self@.data(),
    {
        read_nota_bene(&self.metadata.additional)
    }

    fn nota_bene_mut(&mut self) -> (view: NotaBeneView<'_>)
        ensures
            *view.additional == old(self).metadata.additional,
            *final(self) == (Cell {
                metadata: CellMetadata {
                    additional: *final(view.additional),
                    ..old(self).metadata
                },
                ..*old(self)
            }),
    {
        NotaBeneView::new(&mut self.metadata.additional)
    }

    fn editor_role(&self) -> (role: Option<String>)
        ensures
            text_view(role) == nested_text(self@.additional, "editor"@, "role"@),
    {
        read_nested_text(&self.metadata.additional, "editor", "role")
    }

    fn editor_cell_id(&self) -> (id: Option<String>)
        ensures
            text_view(id) == nested_text(self@.additional, "editor"@, "cell_id"@),
    {
        read_nested_text(&self.metadata.additional, "editor", "cell_id")
    }
}

impl Cell {
    /// Whether this is a code cell.
    pub fn is_code(&self) -> (code: bool)
        ensures
            code == self@.is_code(),
    {
        match self.body {
            CellBody::Code { .. } => true,
            _ => false,
        }
    }
}

/// The position of the first code cell with the given id, or the number of
/// cells if there is none.
pub open spec fn code_cell_index(cells: Seq<CellModel>, cell_id: Seq<char>) -> int
    decreases cells.len(),
{
    if cells.len() == 0 || (cells[0].is_code() && cells[0].id == cell_id) {
        0
    } else {
        1 + code_cell_index(cells.drop_first(), cell_id)
    }
}

/// `code_cell_index` is the first position of a code cell with its id.
pub proof fn code_cell_index_is_first(cells: Seq<CellModel>, cell_id: Seq<char>)
    ensures
        0 <= code_cell_index(cells, cell_id) <= cells.len(),
        code_cell_index(cells, cell_id) < cells.len() ==> {
            let cell = cells[code_cell_index(cells, cell_id)];
            cell.is_code() && cell.id == cell_id
        },
        forall|i: int|
            0 <= i < code_cell_index(cells, cell_id) ==> !((#[trigger] cells[i]).is_code()
                && cells[i].id == cell_id),
    decreases cells.len(),
{
    if cells.len() > 0 && !(cells[0].is_code() && cells[0].id == cell_id) {
        let rest = cells.drop_first();
        code_cell_index_is_first(rest, cell_id);
        assert forall|i: int| 0 <= i < code_cell_index(cells, cell_id) implies !((
        #[trigger] cells[i]).is_code() && cells[i].id == cell_id) by {
            if i > 0 {
                assert(rest[i - 1] == cells[i]);
            }
        }
    }
}

/// The first code cell with the given id, with its position.
pub fn find_code_cell<'a>(nb: &'a Notebook, cell_id: &str) -> (found: Option<(usize, &'a Cell)>)
    ensures
        match found {
            Some((index, cell)) => {
                &&& index == code_cell_index(nb@.cells, cell_id@)
                &&& index < nb.cells.len()
                &&& *cell == nb.cells@[index as int]
            },
            None => code_cell_index(nb@.cells, cell_id@) == nb@.cells.len(),
        },
{
    let ghost cells = nb@.cells;
    let mut i: usize = 0;
    assert(cells.skip(0) =~= cells);
    while i < nb.cells.len()
        invariant
            i <= nb.cells.len(),
            cells == nb@.cells,
            code_cell_index(cells, cell_id@) == i + code_cell_index(
                cells.skip(i as int),
                cell_id@,
            ),
        decreases nb.cells.len() - i,
    {
        assert(cells.skip(i as int)[0] == nb.cells@[i as int]@);
        assert(cells.skip(i as int).drop_first() =~= cells.skip(i + 1));
        if nb.cells[i].is_code() && same_text(nb.cells[i].cell_id_str(), cell_id) {
            return Some((i, &nb.cells[i]));
        }
        i += 1;
    }
    None
}

/// Cell metadata without any field.
pub fn blank_cell_metadata() -> (metadata: CellMetadata)
    ensures
        metadata.standard@ == Seq::<(Seq<char>, JsonModel)>::empty(),
        metadata.additional@ == Seq::<(Seq<char>, JsonModel)>::empty(),
{
    CellMetadata { standard: JsonMap::new(), additional: JsonMap::new() }
}

/// Removes what the editor notebook keeps in the metadata of a cell.
pub fn clear_editor_meta(cell: &mut Cell)
    ensures
        final(cell)@ == (CellModel {
            additional: without_field(old(cell)@.additional, "editor"@),
            ..old(cell)@
        }),
{
    cell.nota_bene_mut().remove_field("editor");
}

} // verus!
