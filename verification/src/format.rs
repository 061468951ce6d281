//! Reading and printing notebooks with the `nbformat` crate.
use nbformat::legacy::Notebook as LegacyNotebook;
use nbformat::v3::{Cell as OldCell, Notebook as OldNotebook};
use nbformat::v4::Notebook as StandardNotebook;
use vstd::prelude::*;

use crate::json::{
    can_read_back, error_text, json_error_text, json_from_value, member, parse_json, parsed_json,
    print_pretty, printed_json, value_from_json, value_model, with_member, Json, JsonMap, JsonModel,
};
use crate::metadata::integer_of;
use crate::notebook::{BodyModel, CellModel, Notebook, NotebookModel};
use crate::notebook_json::{
    cells_have_ids, notebook_from_json, notebook_json, notebook_of, notebook_to_json, texts_of,
};
use crate::notebook_laws::{notebook_reads_back, storable};
use crate::sha_laws::cell_ids_differ;

verus! {

broadcast use {crate::json::array_view, crate::json::object_view};

/// A notebook of version 4.5 as `nbformat` has it.
#[verifier::external_type_specification]
#[verifier::external_body]
pub struct ExStandardNotebook(StandardNotebook);

/// A notebook of the versions 4.0 to 4.4 as `nbformat` has it.
#[verifier::external_type_specification]
#[verifier::external_body]
pub struct ExLegacyNotebook(LegacyNotebook);

/// A notebook of version 3 as `nbformat` has it.
#[verifier::external_type_specification]
#[verifier::external_body]
pub struct ExOldNotebook(OldNotebook);

/// An error of `nbformat`.
#[verifier::external_type_specification]
#[verifier::external_body]
pub struct ExNotebookError(nbformat::NotebookError);

/// The error of upgrading a notebook.
#[verifier::external_type_specification]
#[verifier::external_body]
pub struct ExUpgradeError(anyhow::Error);

// ---------------------------------------------------------------------------
// Parsing
// ---------------------------------------------------------------------------

/// A parsed notebook, by its version.
pub enum ParsedNotebook {
    Current(StandardNotebook),
    Legacy(LegacyNotebook),
    Old(OldNotebook),
}

/// A member that is an integer of 64 bits, cut to 32 bits; zero if it is
/// anything else.
pub open spec fn version_part(json: JsonModel, key: Seq<char>) -> i32 {
    match json {
        JsonModel::Object(members) => match member(members, key) {
            Some(value) => match integer_of(value) {
                Some(n) => n as i32,
                None => 0,
            },
            None => 0,
        },
        _ => 0,
    }
}

/// What `nbformat::parse_notebook` returns for a text, if the cells without an
/// id get the given ones.
pub uninterp spec fn parsed_notebook(text: Seq<char>, ids: Seq<Seq<char>>) -> Result<
    ParsedNotebook,
    nbformat::NotebookError,
>;

/// What `nbformat::upgrade_legacy_notebook` returns for a notebook, if the cells
/// without an id get the given ones.
pub uninterp spec fn upgraded_legacy(nb: LegacyNotebook, ids: Seq<Seq<char>>) -> Result<
    StandardNotebook,
    anyhow::Error,
>;

/// What `nbformat::upgrade_v3_notebook` returns for a notebook, if the cells get
/// the given ids.
pub uninterp spec fn upgraded_old(nb: OldNotebook, ids: Seq<Seq<char>>) -> Result<
    StandardNotebook,
    anyhow::Error,
>;

/// The levels of the cells of a notebook of version 3, over all worksheets;
/// `None` where a cell is no heading.
pub uninterp spec fn cell_levels(nb: OldNotebook) -> Seq<Option<i32>>;

/// Whether no heading has a negative level.
pub open spec fn levels_fit(levels: Seq<Option<i32>>) -> bool {
    forall|i: int| 0 <= i < levels.len() && (#[trigger] levels[i]) is Some ==> levels[i]->0 >= 0
}

/// What `serde_json::to_value` returns for a notebook.
pub uninterp spec fn standard_value(nb: StandardNotebook) -> Result<
    serde_json::Value,
    serde_json::Error,
>;

/// How an `nbformat::NotebookError` displays.
pub uninterp spec fn notebook_error_text(error: nbformat::NotebookError) -> Seq<char>;

/// How an `anyhow::Error` displays.
pub uninterp spec fn upgrade_error_text(error: anyhow::Error) -> Seq<char>;

/// Whether a text was parsed as a notebook of version 3.
pub open spec fn is_old(outcome: Result<ParsedNotebook, nbformat::NotebookError>) -> bool {
    outcome matches Ok(ParsedNotebook::Old(_))
}

// ---------------------------------------------------------------------------
// Notebooks that are kept
// ---------------------------------------------------------------------------

/// Whether a value is an object with boolean members only.
pub open spec fn holds_bools(value: JsonModel) -> bool {
    value matches JsonModel::Object(members) && forall|i: int|
        0 <= i < members.len() ==> (#[trigger] members[i]).1 is Bool
}

/// Whether a value is an object with members that are strings only.
pub open spec fn holds_texts(value: JsonModel) -> bool {
    value matches JsonModel::Object(members) && forall|i: int|
        0 <= i < members.len() ==> (#[trigger] members[i]).1 is Text
}

/// Whether a member is a string.
pub open spec fn has_text(value: JsonModel, key: Seq<char>) -> bool {
    value matches JsonModel::Object(members) && member(members, key) matches Some(
        JsonModel::Text(_),
    )
}

/// Whether a member is absent or a string.
pub open spec fn has_text_if_any(value: JsonModel, key: Seq<char>) -> bool {
    value matches JsonModel::Object(members) && (member(members, key) is None || member(
        members,
        key,
    )->0 is Text)
}

/// Whether a standard field of the metadata of a cell has the form that it is
/// kept in.
pub open spec fn cell_field_kept(key: Seq<char>, value: JsonModel) -> bool {
    if key == "collapsed"@ || key == "deletable"@ || key == "editable"@ || key == "scrolled"@ {
        value is Bool
    } else if key == "format"@ || key == "id"@ || key == "name"@ {
        value is Text
    } else if key == "tags"@ {
        texts_of(Some(value)) is Some
    } else if key == "jupyter"@ {
        holds_bools(value)
    } else {
        holds_texts(value)
    }
}

/// Whether a standard field of the metadata of a notebook has the form that it
/// is kept in.
pub open spec fn notebook_field_kept(key: Seq<char>, value: JsonModel) -> bool {
    if key == "authors"@ {
        value matches JsonModel::Array(items) && forall|i: int|
            0 <= i < items.len() ==> has_text(#[trigger] items[i], "name"@)
    } else if key == "kernelspec"@ {
        has_text(value, "display_name"@) && has_text(value, "language"@) && has_text(value, "name"@)
    } else {
        has_text(value, "name"@) && has_text_if_any(value, "codemirror_mode"@) && has_text_if_any(
            value,
            "version"@,
        )
    }
}

/// Whether a cell has the form that it is kept in: its standard fields have
/// theirs, and attachments are not null.
pub open spec fn cell_kept(cell: CellModel) -> bool {
    &&& forall|i: int|
        0 <= i < cell.standard.len() ==> cell_field_kept(
            (#[trigger] cell.standard[i]).0,
            cell.standard[i].1,
        )
    &&& cell.body matches BodyModel::Markdown { attachments } ==> attachments != Some(
        JsonModel::Null,
    )
}

/// Whether a notebook has the form that it is kept in: no two cells have the
/// same id, and its standard fields and its cells have theirs.
pub open spec fn notebook_kept(nb: NotebookModel) -> bool {
    &&& cell_ids_differ(nb)
    &&& forall|i: int|
        0 <= i < nb.standard.len() ==> notebook_field_kept(
            (#[trigger] nb.standard[i]).0,
            nb.standard[i].1,
        )
    &&& forall|i: int| 0 <= i < nb.cells.len() ==> cell_kept(#[trigger] nb.cells[i])
}

/// Whether the outputs of a cell are streams and errors only.
pub open spec fn is_plain_cell(cell: CellModel) -> bool {
    cell.body matches BodyModel::Code { outputs, .. } ==> forall|i: int|
        0 <= i < outputs.len() ==> !((#[trigger] outputs[i]) is Rich)
}

/// Whether a cell came through as it was: all of it, but for the outputs of a
/// cell with rich ones.
pub open spec fn cell_carried(before: CellModel, after: CellModel) -> bool {
    ||| after == before
    ||| {
        &&& !is_plain_cell(before)
        &&& before.body matches BodyModel::Code { execution_count, .. }
        &&& after.body matches BodyModel::Code { execution_count: count, .. }
        &&& count == execution_count
        &&& after == (CellModel { body: after.body, ..before })
    }
}

/// Whether a notebook came through as it was: all of it, but for the outputs of
/// cells with rich ones.
pub open spec fn notebook_carried(before: NotebookModel, after: NotebookModel) -> bool {
    &&& after == (NotebookModel { cells: after.cells, ..before })
    &&& after.cells.len() == before.cells.len()
    &&& forall|i: int|
        0 <= i < before.cells.len() ==> cell_carried(before.cells[i], #[trigger] after.cells[i])
}

/// A notebook without rich outputs that came through is what it was.
pub proof fn carried_without_rich_outputs(before: NotebookModel, after: NotebookModel)
    requires
        notebook_carried(before, after),
        forall|i: int| 0 <= i < before.cells.len() ==> is_plain_cell(#[trigger] before.cells[i]),
    ensures
        after == before,
{
    assert forall|i: int| 0 <= i < before.cells.len() implies #[trigger] after.cells[i]
        == before.cells[i] by {
        assert(is_plain_cell(before.cells[i]));
        assert(cell_carried(before.cells[i], after.cells[i]));
    }
    assert(after.cells =~= before.cells);
}

/// What came through twice came through, and keeps the form that it is kept in.
proof fn carried_twice(first: NotebookModel, second: NotebookModel, third: NotebookModel)
    requires
        notebook_carried(first, second),
        notebook_carried(second, third),
    ensures
        notebook_carried(first, third),
        notebook_kept(first) ==> notebook_kept(second),
{
    assert forall|i: int| 0 <= i < first.cells.len() implies cell_carried(
        first.cells[i],
        #[trigger] third.cells[i],
    ) by {
        assert(cell_carried(first.cells[i], second.cells[i]));
        assert(cell_carried(second.cells[i], third.cells[i]));
    }
    if notebook_kept(first) {
        assert forall|i: int, j: int| 0 <= i < j < second.cells.len() implies (
        #[trigger] second.cells[i]).id != (#[trigger] second.cells[j]).id by {
            assert(cell_carried(first.cells[i], second.cells[i]));
            assert(cell_carried(first.cells[j], second.cells[j]));
            assert(first.cells[i].id != first.cells[j].id);
        }
        assert forall|i: int| 0 <= i < second.cells.len() implies cell_kept(
            #[trigger] second.cells[i],
        ) by {
            assert(cell_carried(first.cells[i], second.cells[i]));
            assert(cell_kept(first.cells[i]));
        }
    }
}

/// Whether the JSON of a notebook is kept by `nbformat`.
pub open spec fn json_kept(json: JsonModel) -> bool {
    can_read_back(json) && notebook_of(json) is Some && notebook_kept(notebook_of(json)->0)
}

/// Whether the value of a notebook of version 4.5 holds the notebook that the
/// JSON holds, but for the outputs of cells with rich ones, and reads back when
/// it is printed.
pub open spec fn holds_same(nb: StandardNotebook, json: JsonModel) -> bool {
    match standard_value(nb) {
        Ok(value) => {
            &&& can_read_back(value_model(value))
            &&& notebook_of(value_model(value)) is Some
            &&& notebook_carried(notebook_of(json)->0, notebook_of(value_model(value))->0)
        },
        Err(_) => false,
    }
}

/// Whether a text that declares version 4.5, and holds a notebook that is kept,
/// was parsed to this notebook.
pub open spec fn parsed_as_held(
    text: Seq<char>,
    outcome: Result<ParsedNotebook, nbformat::NotebookError>,
) -> bool {
    match (parsed_json(text), outcome) {
        (Ok(json), Ok(ParsedNotebook::Current(nb))) => json_kept(json) ==> holds_same(nb, json),
        (Ok(json), _) => !(json_kept(json) && version_part(json, "nbformat"@) == 4
            && version_part(json, "nbformat_minor"@) == 5),
        (Err(_), _) => true,
    }
}

/// Whether the JSON of a notebook that is kept was made a notebook that holds
/// the same.
pub open spec fn made_as_held(
    json: JsonModel,
    outcome: Result<StandardNotebook, serde_json::Error>,
) -> bool {
    json_kept(json) ==> match outcome {
        Ok(nb) => holds_same(nb, json),
        Err(_) => false,
    }
}

/// Whether a notebook whose value reads back was printed to a text that reads as
/// this value.
pub open spec fn printed_as_held<E>(nb: StandardNotebook, outcome: Result<String, E>) -> bool {
    match (standard_value(nb), outcome) {
        (Ok(value), Ok(text)) => can_read_back(value_model(value)) ==> parsed_json(text@) == Ok::<
            JsonModel,
            Seq<char>,
        >(value_model(value)),
        (Ok(value), Err(_)) => !can_read_back(value_model(value)),
        (Err(_), _) => true,
    }
}

/// Whether a text holds a notebook, but for the outputs of cells with rich ones,
/// in a form in which it is kept.
pub open spec fn holds_notebook(text: Seq<char>, nb: NotebookModel) -> bool {
    parsed_json(text) matches Ok(json) && json_kept(json) && notebook_carried(
        nb,
        notebook_of(json)->0,
    )
}

/// Calls `nbformat::parse_notebook`. A text that is no JSON is an error; the
/// version that the text declares decides what it is parsed as. A cell without
/// an id gets a random one; the outcome depends on the text and on these alone,
/// and in version 3 on the text alone, as its cells have no ids. A notebook of
/// version 4.5 in a form that is kept is parsed to what it holds. What is left
/// unsaid of version 4.5 is what becomes of the outputs of cells with rich ones,
/// and of standard fields in other forms.
#[verifier::external_body]
fn parse_versioned(text: &str) -> (outcome: Result<ParsedNotebook, nbformat::NotebookError>)
    ensures
        parsed_json(text@) is Err ==> outcome is Err,
        outcome is Ok ==> match (outcome->Ok_0, parsed_json(text@)) {
            (ParsedNotebook::Current(_), Ok(json)) => version_part(json, "nbformat"@) == 4
                && version_part(json, "nbformat_minor"@) == 5,
            (ParsedNotebook::Legacy(_), Ok(json)) => version_part(json, "nbformat"@) == 4 && 0
                <= version_part(json, "nbformat_minor"@) <= 4,
            (ParsedNotebook::Old(_), Ok(json)) => version_part(json, "nbformat"@) == 3,
            (_, Err(_)) => false,
        },
        exists|ids: Seq<Seq<char>>| outcome == parsed_notebook(text@, ids),
        forall|ids: Seq<Seq<char>>|
            is_old(#[trigger] parsed_notebook(text@, ids)) ==> outcome == parsed_notebook(
                text@,
                ids,
            ),
        (parsed_json(text@) is Ok && cells_have_ids(parsed_json(text@)->Ok_0)) ==> outcome
            == parsed_notebook(text@, Seq::empty()),
        parsed_as_held(text@, outcome),
{
    match nbformat::parse_notebook(text) {
        Ok(nbformat::Notebook::V4(nb)) => Ok(ParsedNotebook::Current(nb)),
        Ok(nbformat::Notebook::Legacy(nb)) => Ok(ParsedNotebook::Legacy(nb)),
        Ok(nbformat::Notebook::V3(nb)) => Ok(ParsedNotebook::Old(nb)),
        Err(error) => Err(error),
    }
}

/// Calls `serde_json::to_value` on a notebook.
#[verifier::external_body]
fn value_of_standard(nb: &StandardNotebook) -> (outcome: Result<
    serde_json::Value,
    serde_json::Error,
>)
    ensures
        outcome == standard_value(*nb),
{
    serde_json::to_value(nb)
}

/// Calls `ToString::to_string` on an `nbformat::NotebookError`.
#[verifier::external_body]
fn describe_notebook_error(error: &nbformat::NotebookError) -> (text: String)
    ensures
        text@ == notebook_error_text(*error),
{
    error.to_string()
}

/// Calls `ToString::to_string` on an `anyhow::Error`.
#[verifier::external_body]
fn describe_upgrade_error(error: &anyhow::Error) -> (text: String)
    ensures
        text@ == upgrade_error_text(*error),
{
    error.to_string()
}

/// Calls `nbformat::upgrade_legacy_notebook`. Cells without an id get a random
/// one; the outcome depends on the notebook and on these alone.
#[verifier::external_body]
fn upgrade_legacy(nb: LegacyNotebook) -> (outcome: Result<StandardNotebook, anyhow::Error>)
    ensures
        exists|ids: Seq<Seq<char>>| outcome == upgraded_legacy(nb, ids),
{
    nbformat::upgrade_legacy_notebook(nb)
}

/// Takes the levels of the headings out of a notebook of version 3.
#[verifier::external_body]
fn find_levels(nb: &OldNotebook) -> (levels: Vec<Option<i32>>)
    ensures
        levels@ == cell_levels(*nb),
{
    nb.worksheets.iter().flatten().flat_map(|sheet| sheet.cells.iter()).map(
        |cell| match cell {
            OldCell::Heading { level, .. } => Some(*level),
            OldCell::Markdown { .. } => None,
            OldCell::Code { .. } => None,
            OldCell::Raw { .. } => None,
        },
    ).collect()
}

/// Calls `nbformat::upgrade_v3_notebook`, which always succeeds if no heading
/// has a negative level. All cells get random ids; the outcome depends on the
/// notebook and on these alone.
#[verifier::external_body]
fn upgrade_old(nb: OldNotebook) -> (outcome: Result<StandardNotebook, anyhow::Error>)
    requires
        levels_fit(cell_levels(nb)),
    ensures
        outcome is Ok,
        exists|ids: Seq<Seq<char>>| outcome == upgraded_old(nb, ids),
{
    nbformat::upgrade_v3_notebook(nb)
}

/// What is said of a notebook whose JSON has another form than that of a
/// notebook.
pub const NOTEBOOK_FORM: &'static str = "the notebook has an unexpected form";

/// The notebook that a parsed one stands for, or why there is none.
pub open spec fn plain_notebook(nb: StandardNotebook) -> Result<NotebookModel, Seq<char>> {
    match standard_value(nb) {
        Ok(value) => match notebook_of(value_model(value)) {
            Some(model) => Ok(model),
            None => Err(NOTEBOOK_FORM@),
        },
        Err(error) => Err(error_text(error)),
    }
}

/// Takes a parsed notebook apart.
pub fn read_standard(nb: &StandardNotebook) -> (outcome: Result<Notebook, String>)
    ensures
        match outcome {
            Ok(n) => plain_notebook(*nb) == Ok::<NotebookModel, Seq<char>>(n@),
            Err(message) => plain_notebook(*nb) == Err::<NotebookModel, Seq<char>>(message@),
        },
{
    match value_of_standard(nb) {
        Ok(value) => {
            let json: Json = json_from_value(value);
            match notebook_from_json(&json) {
                Some(n) => Ok(n),
                None => Err(NOTEBOOK_FORM.to_owned()),
            }
        },
        Err(error) => Err(json_error_text(&error)),
    }
}

/// Why a notebook could not be loaded. `hint` says which one it is.
#[derive(Debug)]
pub enum LoadError {
    /// The text could not be parsed; with the message of the parser.
    Parse { hint: String, cause: String },
    /// The notebook has an older version.
    NotCurrent { hint: String },
}

/// What an error about loading holds.
pub enum LoadErrorModel {
    Parse { hint: Seq<char>, cause: Seq<char> },
    NotCurrent { hint: Seq<char> },
}

impl View for LoadError {
    type V = LoadErrorModel;

    open spec fn view(&self) -> LoadErrorModel {
        match self {
            LoadError::Parse { hint, cause } => LoadErrorModel::Parse {
                hint: hint@,
                cause: cause@,
            },
            LoadError::NotCurrent { hint } => LoadErrorModel::NotCurrent { hint: hint@ },
        }
    }
}

impl LoadErrorModel {
    /// What the error says.
    pub open spec fn text(self) -> Seq<char> {
        match self {
            LoadErrorModel::Parse { hint, .. } => "parsing notebook "@ + hint,
            LoadErrorModel::NotCurrent { hint } => "notebook \""@ + hint
                + "\" is not nbformat 4.5.\nRun `nota-bene upgrade "@ + hint
                + "` to add stable cell IDs."@,
        }
    }
}

impl LoadError {
    /// What the error says.
    pub fn message(&self) -> (text: String)
        ensures
            text@ == self@.text(),
    {
        match self {
            LoadError::Parse { hint, .. } => {
                let mut text: String = "parsing notebook ".to_owned();
                text.append(hint.as_str());
                text
            },
            LoadError::NotCurrent { hint } => {
                let mut text: String = "notebook \"".to_owned();
                text.append(hint.as_str());
                text.append("\" is not nbformat 4.5.\nRun `nota-bene upgrade ");
                text.append(hint.as_str());
                text.append("` to add stable cell IDs.");
                text
            },
        }
    }
}

/// What becomes of a parsed notebook: only version 4.5 is accepted.
pub open spec fn accepted_notebook(parsed: ParsedNotebook, hint: Seq<char>) -> Result<
    NotebookModel,
    LoadErrorModel,
> {
    match parsed {
        ParsedNotebook::Current(nb) => match plain_notebook(nb) {
            Ok(model) => Ok(model),
            Err(cause) => Err(LoadErrorModel::Parse { hint, cause }),
        },
        _ => Err(LoadErrorModel::NotCurrent { hint }),
    }
}

/// Whether an outcome is the given one.
pub open spec fn same_load(
    outcome: Result<Notebook, LoadError>,
    expected: Result<NotebookModel, LoadErrorModel>,
) -> bool {
    match outcome {
        Ok(nb) => expected == Ok::<NotebookModel, LoadErrorModel>(nb@),
        Err(error) => expected == Err::<NotebookModel, LoadErrorModel>(error@),
    }
}

/// Accepts a parsed notebook if it is of version 4.5.
pub fn accept_notebook(parsed: ParsedNotebook, path_hint: &str) -> (outcome: Result<
    Notebook,
    LoadError,
>)
    ensures
        same_load(outcome, accepted_notebook(parsed, path_hint@)),
{
    match parsed {
        ParsedNotebook::Current(nb) => match read_standard(&nb) {
            Ok(n) => Ok(n),
            Err(cause) => Err(LoadError::Parse { hint: path_hint.to_owned(), cause }),
        },
        _ => Err(LoadError::NotCurrent { hint: path_hint.to_owned() }),
    }
}

/// What loading a text gives, if the cells without an id get the given ones.
pub open spec fn loaded_notebook(
    content: Seq<char>,
    hint: Seq<char>,
    ids: Seq<Seq<char>>,
) -> Result<NotebookModel, LoadErrorModel> {
    match parsed_notebook(content, ids) {
        Ok(parsed) => accepted_notebook(parsed, hint),
        Err(error) => Err(LoadErrorModel::Parse { hint, cause: notebook_error_text(error) }),
    }
}

/// Loads a notebook from its text. Only version 4.5 is accepted; older ones
/// must be upgraded first. The error of a text that declares version 4.5 is
/// always about parsing. Cells without an id get random ones. A text that holds
/// a notebook of version 4.5 in a form that is kept loads as this notebook, but
/// for the outputs of cells with rich ones.
pub fn load_notebook_from_str(content: &str, path_hint: &str) -> (outcome: Result<
    Notebook,
    LoadError,
>)
    ensures
        parsed_json(content@) is Err ==> (outcome matches Err(error) && error@ is Parse),
        (outcome matches Err(error) ==> match error@ {
            LoadErrorModel::Parse { hint, .. } => hint == path_hint@,
            LoadErrorModel::NotCurrent { hint } => hint == path_hint@,
        }),
        outcome is Ok ==> (parsed_json(content@) matches Ok(json) && version_part(
            json,
            "nbformat"@,
        ) == 4 && version_part(json, "nbformat_minor"@) == 5),
        (outcome matches Err(error) && error@ is NotCurrent) ==> (parsed_json(
            content@,
        ) matches Ok(json) && (version_part(json, "nbformat"@) == 3 || version_part(
            json,
            "nbformat"@,
        ) == 4) && !(version_part(json, "nbformat"@) == 4 && version_part(
            json,
            "nbformat_minor"@,
        ) == 5)),
        exists|ids: Seq<Seq<char>>|
            same_load(outcome, #[trigger] loaded_notebook(content@, path_hint@, ids)),
        (parsed_json(content@) matches Ok(json) && cells_have_ids(json)) ==> same_load(
            outcome,
            loaded_notebook(content@, path_hint@, Seq::empty()),
        ),
        forall|nb: NotebookModel| #[trigger]
            holds_notebook(content@, nb) && nb.nbformat == 4 && nb.nbformat_minor == 5 ==> (
            outcome matches Ok(n) && notebook_carried(nb, n@)),
{
    let parsing: Result<ParsedNotebook, nbformat::NotebookError> = parse_versioned(content);
    let ghost ids = choose|ids: Seq<Seq<char>>| parsing == parsed_notebook(content@, ids);
    let outcome: Result<Notebook, LoadError> = match parsing {
        Ok(parsed) => accept_notebook(parsed, path_hint),
        Err(error) => Err(
            LoadError::Parse {
                hint: path_hint.to_owned(),
                cause: describe_notebook_error(&error),
            },
        ),
    };
    assert(same_load(outcome, loaded_notebook(content@, path_hint@, ids)));
    proof {
        assert forall|nb: NotebookModel| #[trigger]
            holds_notebook(content@, nb) && nb.nbformat == 4 && nb.nbformat_minor == 5 implies (
        outcome matches Ok(n) && notebook_carried(nb, n@)) by {
            let held = notebook_of(parsed_json(content@)->Ok_0)->0;
            carried_twice(nb, held, outcome->Ok_0@);
        }
    }
    outcome
}

/// What `serde_json::from_str::<nbformat::v4::Notebook>` returns for a text, if
/// the cells without an id get the given ones.
pub uninterp spec fn standard_in(text: Seq<char>, ids: Seq<Seq<char>>) -> Result<
    StandardNotebook,
    serde_json::Error,
>;

/// Calls `serde_json::from_str::<nbformat::v4::Notebook>`. A cell without an id
/// gets a random one; the outcome depends on the text and on these alone.
#[verifier::external_body]
fn standard_from_text(text: &str) -> (outcome: Result<StandardNotebook, serde_json::Error>)
    ensures
        exists|ids: Seq<Seq<char>>| outcome == standard_in(text@, ids),
        (parsed_json(text@) is Ok && cells_have_ids(parsed_json(text@)->Ok_0)) ==> outcome
            == standard_in(text@, Seq::empty()),
{
    serde_json::from_str(text)
}

/// The notebook in a text, whatever version it declares; `None` if there is
/// none. The cells without an id get the given ones.
pub open spec fn notebook_in(text: Seq<char>, ids: Seq<Seq<char>>) -> Option<NotebookModel> {
    match standard_in(text, ids) {
        Ok(nb) => match plain_notebook(nb) {
            Ok(model) => Some(model),
            Err(_) => None,
        },
        Err(_) => None,
    }
}

/// Whether a notebook, or none, is the given one.
pub open spec fn same_notebook(nb: Option<Notebook>, expected: Option<NotebookModel>) -> bool {
    match nb {
        Some(n) => expected == Some(n@),
        None => expected is None,
    }
}

/// Reads the notebook in a text, whatever version it declares. Cells without an
/// id get random ones.
pub fn read_notebook(text: &str) -> (nb: Option<Notebook>)
    ensures
        exists|ids: Seq<Seq<char>>| same_notebook(nb, #[trigger] notebook_in(text@, ids)),
        (parsed_json(text@) is Ok && cells_have_ids(parsed_json(text@)->Ok_0)) ==> same_notebook(
            nb,
            notebook_in(text@, Seq::empty()),
        ),
{
    let parsing: Result<StandardNotebook, serde_json::Error> = standard_from_text(text);
    let ghost ids = choose|ids: Seq<Seq<char>>| parsing == standard_in(text@, ids);
    let nb: Option<Notebook> = match parsing {
        Ok(standard) => match read_standard(&standard) {
            Ok(n) => Some(n),
            Err(_) => None,
        },
        Err(_) => None,
    };
    assert(same_notebook(nb, notebook_in(text@, ids)));
    nb
}

// ---------------------------------------------------------------------------
// Executed notebooks
// ---------------------------------------------------------------------------

/// Why an executed notebook could not be read; each with the message below it.
#[derive(Debug)]
pub enum ExecutedError {
    Parse(String),
    UpgradeLegacy(String),
    UpgradeOld(String),
}

/// What an error about an executed notebook holds.
pub enum ExecutedErrorModel {
    Parse(Seq<char>),
    UpgradeLegacy(Seq<char>),
    UpgradeOld(Seq<char>),
}

impl View for ExecutedError {
    type V = ExecutedErrorModel;

    open spec fn view(&self) -> ExecutedErrorModel {
        match self {
            ExecutedError::Parse(cause) => ExecutedErrorModel::Parse(cause@),
            ExecutedError::UpgradeLegacy(cause) => ExecutedErrorModel::UpgradeLegacy(cause@),
            ExecutedError::UpgradeOld(cause) => ExecutedErrorModel::UpgradeOld(cause@),
        }
    }
}

impl ExecutedErrorModel {
    /// What the error says.
    pub open spec fn text(self) -> Seq<char> {
        match self {
            ExecutedErrorModel::Parse(_) => "parsing executed notebook from subprocess stdout"@,
            ExecutedErrorModel::UpgradeLegacy(_) => "upgrading legacy notebook from executor"@,
            ExecutedErrorModel::UpgradeOld(_) => "upgrading v3 notebook from executor"@,
        }
    }
}

impl ExecutedError {
    /// What the error says.
    pub fn message(&self) -> (text: String)
        ensures
            text@ == self@.text(),
    {
        match self {
            ExecutedError::Parse(_) => "parsing executed notebook from subprocess stdout".to_owned(),
            ExecutedError::UpgradeLegacy(_) => "upgrading legacy notebook from executor".to_owned(),
            ExecutedError::UpgradeOld(_) => "upgrading v3 notebook from executor".to_owned(),
        }
    }
}

/// What an executed notebook of version 4.5 stands for.
pub open spec fn executed_notebook(nb: StandardNotebook) -> Result<
    NotebookModel,
    ExecutedErrorModel,
> {
    match plain_notebook(nb) {
        Ok(model) => Ok(model),
        Err(cause) => Err(ExecutedErrorModel::Parse(cause)),
    }
}

/// Whether an outcome is the given one.
pub open spec fn same_executed(
    outcome: Result<Notebook, ExecutedError>,
    expected: Result<NotebookModel, ExecutedErrorModel>,
) -> bool {
    match outcome {
        Ok(nb) => expected == Ok::<NotebookModel, ExecutedErrorModel>(nb@),
        Err(error) => expected == Err::<NotebookModel, ExecutedErrorModel>(error@),
    }
}

/// Takes an executed notebook apart.
pub fn read_executed(nb: &StandardNotebook) -> (outcome: Result<Notebook, ExecutedError>)
    ensures
        same_executed(outcome, executed_notebook(*nb)),
{
    match read_standard(nb) {
        Ok(n) => Ok(n),
        Err(cause) => Err(ExecutedError::Parse(cause)),
    }
}

/// What a parsed notebook of any version stands for; older ones are upgraded,
/// and their cells without an id get the given ones.
pub open spec fn upgraded_notebook(parsed: ParsedNotebook, ids: Seq<Seq<char>>) -> Result<
    NotebookModel,
    ExecutedErrorModel,
> {
    match parsed {
        ParsedNotebook::Current(nb) => executed_notebook(nb),
        ParsedNotebook::Legacy(nb) => match upgraded_legacy(nb, ids) {
            Ok(upgraded) => executed_notebook(upgraded),
            Err(error) => Err(ExecutedErrorModel::UpgradeLegacy(upgrade_error_text(error))),
        },
        ParsedNotebook::Old(nb) => match upgraded_old(nb, ids) {
            Ok(upgraded) => executed_notebook(upgraded),
            Err(error) => Err(ExecutedErrorModel::UpgradeOld(upgrade_error_text(error))),
        },
    }
}

/// Whether a parsed notebook can be upgraded: in version 3 no heading has a
/// negative level.
pub open spec fn upgradable(parsed: ParsedNotebook) -> bool {
    parsed matches ParsedNotebook::Old(nb) ==> levels_fit(cell_levels(nb))
}

/// Whether the notebook in a text can be upgraded.
pub open spec fn text_upgradable(text: Seq<char>) -> bool {
    forall|ids: Seq<Seq<char>>|
        (#[trigger] parsed_notebook(text, ids)) matches Ok(parsed) ==> upgradable(parsed)
}

/// Finds out whether no heading has a negative level.
fn check_levels(levels: &Vec<Option<i32>>) -> (fit: bool)
    ensures
        fit == levels_fit(levels@),
{
    let mut i: usize = 0;
    while i < levels.len()
        invariant
            i <= levels.len(),
            forall|k: int| 0 <= k < i && (#[trigger] levels@[k]) is Some ==> levels@[k]->0 >= 0,
        decreases levels.len() - i,
    {
        if let Some(level) = levels[i] {
            if level < 0 {
                assert(levels@[i as int] is Some);
                return false;
            }
        }
        i += 1;
    }
    true
}

/// Finds out whether the notebook in a text can be upgraded. It can, unless the
/// text declares version 3.
pub fn check_upgradable(text: &str) -> (possible: bool)
    ensures
        possible == text_upgradable(text@),
        !possible ==> (parsed_json(text@) matches Ok(json) && version_part(json, "nbformat"@)
            == 3),
{
    let parsing: Result<ParsedNotebook, nbformat::NotebookError> = parse_versioned(text);
    if let Ok(ParsedNotebook::Old(nb)) = &parsing {
        if !check_levels(&find_levels(nb)) {
            assert(is_old(parsing));
            return false;
        }
    }
    proof {
        assert forall|ids: Seq<Seq<char>>|
            (#[trigger] parsed_notebook(text@, ids)) is Ok implies upgradable(
            parsed_notebook(text@, ids)->Ok_0,
        ) by {
            if is_old(parsed_notebook(text@, ids)) {
                assert(parsing == parsed_notebook(text@, ids));
            }
        }
    }
    true
}

/// Reads a parsed notebook of any version; older ones are upgraded, and their
/// cells without an id get random ones. To upgrade version 3 never fails.
pub fn upgrade_executed(parsed: ParsedNotebook) -> (outcome: Result<Notebook, ExecutedError>)
    requires
        upgradable(parsed),
    ensures
        outcome matches Err(error) ==> !(error@ is UpgradeOld),
        exists|ids: Seq<Seq<char>>| same_executed(outcome, #[trigger] upgraded_notebook(parsed, ids)),
{
    let ghost given = parsed;
    match parsed {
        ParsedNotebook::Current(nb) => {
            let outcome: Result<Notebook, ExecutedError> = read_executed(&nb);
            assert(same_executed(outcome, upgraded_notebook(given, Seq::empty())));
            outcome
        },
        ParsedNotebook::Legacy(nb) => {
            let upgrading: Result<StandardNotebook, anyhow::Error> = upgrade_legacy(nb);
            let ghost ids = choose|ids: Seq<Seq<char>>| upgrading == upgraded_legacy(nb, ids);
            let outcome: Result<Notebook, ExecutedError> = match upgrading {
                Ok(upgraded) => read_executed(&upgraded),
                Err(error) => Err(ExecutedError::UpgradeLegacy(describe_upgrade_error(&error))),
            };
            assert(same_executed(outcome, upgraded_notebook(given, ids)));
            outcome
        },
        ParsedNotebook::Old(nb) => {
            let upgrading: Result<StandardNotebook, anyhow::Error> = upgrade_old(nb);
            let ghost ids = choose|ids: Seq<Seq<char>>| upgrading == upgraded_old(nb, ids);
            let outcome: Result<Notebook, ExecutedError> = match upgrading {
                Ok(upgraded) => read_executed(&upgraded),
                Err(error) => Err(ExecutedError::UpgradeOld(describe_upgrade_error(&error))),
            };
            assert(same_executed(outcome, upgraded_notebook(given, ids)));
            outcome
        },
    }
}

/// What a text that the executor prints stands for. `ids` are those that cells
/// get while the text is parsed, `more_ids` those that they get while the
/// notebook is upgraded.
pub open spec fn executed_in(
    text: Seq<char>,
    ids: Seq<Seq<char>>,
    more_ids: Seq<Seq<char>>,
) -> Result<NotebookModel, ExecutedErrorModel> {
    match parsed_notebook(text, ids) {
        Ok(parsed) => upgraded_notebook(parsed, more_ids),
        Err(error) => Err(ExecutedErrorModel::Parse(notebook_error_text(error))),
    }
}

/// Reads the notebook that the executor prints. A text that is no JSON is an
/// error about parsing. Cells without an id get random ones.
pub fn parse_executed_notebook(stdout: &str) -> (outcome: Result<Notebook, ExecutedError>)
    requires
        text_upgradable(stdout@),
    ensures
        parsed_json(stdout@) is Err ==> (outcome matches Err(error) && error@ is Parse),
        outcome matches Err(error) ==> !(error@ is UpgradeOld),
        exists|ids: Seq<Seq<char>>, more_ids: Seq<Seq<char>>|
            same_executed(outcome, #[trigger] executed_in(stdout@, ids, more_ids)),
        (parsed_json(stdout@) matches Ok(json) && cells_have_ids(json)) ==> exists|
            more_ids: Seq<Seq<char>>,
        |
            same_executed(outcome, #[trigger] executed_in(stdout@, Seq::empty(), more_ids)),
{
    let parsing: Result<ParsedNotebook, nbformat::NotebookError> = parse_versioned(stdout);
    let ghost given = parsing;
    let ghost ids = choose|ids: Seq<Seq<char>>| parsing == parsed_notebook(stdout@, ids);
    match parsing {
        Ok(parsed) => {
            let outcome: Result<Notebook, ExecutedError> = upgrade_executed(parsed);
            let ghost more_ids = choose|more: Seq<Seq<char>>|
                same_executed(outcome, #[trigger] upgraded_notebook(parsed, more));
            assert(same_executed(outcome, executed_in(stdout@, ids, more_ids)));
            assert(given == parsed_notebook(stdout@, Seq::empty()) ==> same_executed(
                outcome,
                executed_in(stdout@, Seq::empty(), more_ids),
            ));
            outcome
        },
        Err(error) => {
            let outcome: Result<Notebook, ExecutedError> = Err(
                ExecutedError::Parse(describe_notebook_error(&error)),
            );
            assert(same_executed(outcome, executed_in(stdout@, ids, Seq::empty())));
            assert(given == parsed_notebook(stdout@, Seq::empty()) ==> same_executed(
                outcome,
                executed_in(stdout@, Seq::empty(), Seq::empty()),
            ));
            outcome
        },
    }
}

// ---------------------------------------------------------------------------
// Printing
// ---------------------------------------------------------------------------

/// What `serde_json::from_value::<nbformat::v4::Notebook>` returns for a value
/// in which every cell has an id.
pub uninterp spec fn standard_of(json: JsonModel) -> Result<StandardNotebook, serde_json::Error>;

/// What `nbformat::serialize_notebook` returns for a notebook of version 4.5.
pub uninterp spec fn standard_text(nb: StandardNotebook) -> Result<
    Seq<char>,
    nbformat::NotebookError,
>;

/// Calls `serde_json::from_value::<nbformat::v4::Notebook>`. Where every cell
/// has an id the outcome depends on the value alone. A notebook in a form that is
/// kept is made one that holds the same.
#[verifier::external_body]
fn standard_from_json(json: &Json) -> (outcome: Result<StandardNotebook, serde_json::Error>)
    requires
        cells_have_ids(json@),
    ensures
        outcome == standard_of(json@),
        made_as_held(json@, outcome),
{
    serde_json::from_value(value_from_json(json))
}

/// Calls `nbformat::serialize_notebook` on a notebook of version 4.5, which
/// prints its value. The text reads as this value, if it holds no number but
/// integers of 64 bits and is not too deep for the parser.
#[verifier::external_body]
fn print_standard(nb: StandardNotebook) -> (outcome: Result<String, nbformat::NotebookError>)
    ensures
        match outcome {
            Ok(text) => standard_text(nb) == Ok::<Seq<char>, nbformat::NotebookError>(text@),
            Err(error) => standard_text(nb) == Err::<Seq<char>, nbformat::NotebookError>(error),
        },
        printed_as_held(nb, outcome),
{
    nbformat::serialize_notebook(&nbformat::Notebook::V4(nb))
}

/// The text of a notebook, or why it cannot be printed.
pub open spec fn notebook_text(nb: NotebookModel) -> Result<Seq<char>, Seq<char>> {
    match standard_of(notebook_json(nb)) {
        Ok(standard) => match standard_text(standard) {
            Ok(text) => Ok(text),
            Err(error) => Err(notebook_error_text(error)),
        },
        Err(error) => Err(error_text(error)),
    }
}

/// Prints a notebook. One that reads back from its JSON and has the form that is
/// kept is printed to a text that holds it.
pub fn serialize_notebook(nb: &Notebook) -> (outcome: Result<String, String>)
    ensures
        storable(nb@) && json_kept(notebook_json(nb@)) ==> (outcome matches Ok(text)
            && holds_notebook(text@, nb@)),
        match outcome {
            Ok(text) => notebook_text(nb@) == Ok::<Seq<char>, Seq<char>>(text@),
            Err(message) => notebook_text(nb@) == Err::<Seq<char>, Seq<char>>(message@),
        },
{
    let json: Json = notebook_to_json(nb);
    proof {
        if storable(nb@) {
            notebook_reads_back(nb@);
        }
    }
    match standard_from_json(&json) {
        Ok(standard) => {
            proof {
                if storable(nb@) && json_kept(json@) {
                    let held = notebook_of(value_model(standard_value(standard)->Ok_0))->0;
                    carried_twice(nb@, held, held);
                }
            }
            match print_standard(standard) {
                Ok(text) => Ok(text),
                Err(error) => Err(describe_notebook_error(&error)),
            }
        },
        Err(error) => Err(json_error_text(&error)),
    }
}

/// Calls `serde_json::to_string` on a notebook of version 4.5. The text reads as
/// the value of the notebook, if this holds no number but integers of 64 bits and
/// is not too deep for the parser. In which order the free-form metadata stands
/// in the text is left unsaid: it is kept in a map without an order.
#[verifier::external_body]
fn print_standard_line(nb: &StandardNotebook) -> (outcome: Result<String, serde_json::Error>)
    ensures
        printed_as_held(*nb, outcome),
{
    serde_json::to_string(nb)
}

/// Prints a notebook on a single line. One that reads back from its JSON and has
/// the form that is kept is printed to a text that holds it.
pub fn serialize_line(nb: &Notebook) -> (outcome: Result<String, String>)
    ensures
        storable(nb@) && json_kept(notebook_json(nb@)) ==> (outcome matches Ok(text)
            && holds_notebook(text@, nb@)),
        match standard_of(notebook_json(nb@)) {
            Ok(standard) => printed_as_held(standard, outcome),
            Err(error) => outcome matches Err(message) && message@ == error_text(error),
        },
{
    let json: Json = notebook_to_json(nb);
    proof {
        if storable(nb@) {
            notebook_reads_back(nb@);
        }
    }
    match standard_from_json(&json) {
        Ok(standard) => {
            proof {
                if storable(nb@) && json_kept(json@) {
                    let held = notebook_of(value_model(standard_value(standard)->Ok_0))->0;
                    carried_twice(nb@, held, held);
                }
            }
            match print_standard_line(&standard) {
                Ok(text) => Ok(text),
                Err(error) => Err(json_error_text(&error)),
            }
        },
        Err(error) => Err(json_error_text(&error)),
    }
}

// ---------------------------------------------------------------------------
// Null fields of the language
// ---------------------------------------------------------------------------

/// The members that are not null.
pub open spec fn non_null(members: Seq<(Seq<char>, JsonModel)>) -> Seq<(Seq<char>, JsonModel)>
    decreases members.len(),
{
    if members.len() == 0 {
        Seq::empty()
    } else {
        let front = non_null(members.drop_last());
        if members.last().1 is Null {
            front
        } else {
            front.push(members.last())
        }
    }
}

/// JSON without the null members of `metadata.language_info`.
pub open spec fn without_null_language(json: JsonModel) -> JsonModel {
    match json {
        JsonModel::Object(members) => match member(members, "metadata"@) {
            Some(JsonModel::Object(metadata)) => match member(metadata, "language_info"@) {
                Some(JsonModel::Object(language)) => JsonModel::Object(
                    with_member(
                        members,
                        "metadata"@,
                        JsonModel::Object(
                            with_member(
                                metadata,
                                "language_info"@,
                                JsonModel::Object(non_null(language)),
                            ),
                        ),
                    ),
                ),
                _ => json,
            },
            _ => json,
        },
        _ => json,
    }
}

/// Why the null fields could not be removed.
#[derive(Debug)]
pub enum StripError {
    /// The text is no JSON; with the message of the parser.
    Parse(String),
    /// The result could not be printed.
    Print,
}

impl StripError {
    /// What the error says.
    pub open spec fn text(self) -> Seq<char> {
        match self {
            StripError::Parse(_) => "parsing serialized notebook JSON"@,
            StripError::Print => "re-serializing notebook JSON"@,
        }
    }

    /// What the error says.
    pub fn message(&self) -> (text: String)
        ensures
            text@ == self.text(),
    {
        match self {
            StripError::Parse(_) => "parsing serialized notebook JSON".to_owned(),
            StripError::Print => "re-serializing notebook JSON".to_owned(),
        }
    }
}

/// The members that are not null.
fn drop_nulls(members: &JsonMap) -> (kept: JsonMap)
    ensures
        kept@ == non_null(members@),
{
    let ghost models = members@;
    let mut kept: Vec<(String, Json)> = Vec::new();
    let mut i: usize = 0;
    assert(models.take(0) =~= Seq::<(Seq<char>, JsonModel)>::empty());
    assert(crate::json::members_model(kept@) =~= Seq::<(Seq<char>, JsonModel)>::empty());
    while i < members.entries.len()
        invariant
            i <= members.entries.len(),
            models == members@,
            crate::json::members_model(kept@) == non_null(models.take(i as int)),
        decreases members.entries.len() - i,
    {
        let ghost before = crate::json::members_model(kept@);
        let entry: &(String, Json) = &members.entries[i];
        assert(models.take(i + 1).drop_last() =~= models.take(i as int));
        assert(models.take(i + 1).last() == (entry.0@, entry.1@));
        let is_null: bool = match &entry.1 {
            Json::Null => true,
            _ => false,
        };
        if !is_null {
            let copy: (String, Json) = (entry.0.clone(), entry.1.clone());
            let ghost added = (copy.0@, copy.1@);
            kept.push(copy);
            assert(crate::json::members_model(kept@) =~= before.push(added));
        }
        i += 1;
    }
    assert(models.take(i as int) =~= models);
    JsonMap { entries: kept }
}

/// Removes the null members of `metadata.language_info`.
pub fn drop_null_language(json: &Json) -> (stripped: Json)
    ensures
        stripped@ == without_null_language(json@),
{
    if let Json::Object(members) = json {
        if let Some(Json::Object(metadata)) = members.get("metadata") {
            if let Some(Json::Object(language)) = metadata.get("language_info") {
                let mut new_metadata: JsonMap = metadata.clone();
                new_metadata.insert(
                    "language_info".to_owned(),
                    Json::Object(drop_nulls(language)),
                );
                let mut new_members: JsonMap = members.clone();
                new_members.insert("metadata".to_owned(), Json::Object(new_metadata));
                return Json::Object(new_members);
            }
        }
    }
    json.clone()
}

/// Removes the null fields of `metadata.language_info` from the text of a
/// notebook.
pub fn strip_null_language_info_fields(json: &str) -> (outcome: Result<String, StripError>)
    ensures
        match parsed_json(json@) {
            Err(message) => outcome matches Err(StripError::Parse(m)) && m@ == message,
            Ok(model) => match printed_json(without_null_language(model)) {
                Some(text) => outcome matches Ok(t) && t@ == text,
                None => outcome matches Err(StripError::Print),
            },
        },
{
    match parse_json(json) {
        Err(message) => Err(StripError::Parse(message)),
        Ok(value) => match print_pretty(&drop_null_language(&value)) {
            Some(text) => Ok(text),
            None => Err(StripError::Print),
        },
    }
}

} // verus!
