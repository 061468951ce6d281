//! Updates of the metadata of cells: parsing, checking and applying them.
use vstd::prelude::*;

use crate::diagnostics::{
    diagnostic_models, Diagnostic, DiagnosticModel, DiagnosticType, Severity,
};
use crate::fixtures::{
    fixture_count, fixture_entries, insert_fixture, new_fixtures, remove_fixture, with_fixture,
    without_fixture, Fixture, FixtureMap, FixtureModel,
};
use crate::json::{array_model, member, parse_json, parsed_json, Json, JsonMap, JsonModel};
use crate::metadata::{
    addressed, data_in, fixture_of, integer_of, is_writable, optional_fixtures_json,
    optional_test_json, optional_text_json, read_fixture, read_integer, read_source, read_test,
    source_of, test_of, text_of, with_optional_field, writable, TestModel,
};
use crate::notebook::{
    code_cell_index, find_code_cell, Cell, CellExt, CellModel, Notebook, NotebookModel,
};

verus! {

broadcast use {crate::json::array_view, crate::json::object_view};

// ---------------------------------------------------------------------------
// Updates
// ---------------------------------------------------------------------------

/// A field of an update: absent, null or a value.
#[derive(Debug)]
pub enum UpdateField {
    Absent,
    Null,
    Value(Json),
}

/// What a field of an update holds.
pub enum UpdateFieldModel {
    Absent,
    Null,
    Value(JsonModel),
}

impl View for UpdateField {
    type V = UpdateFieldModel;

    open spec fn view(&self) -> UpdateFieldModel {
        match self {
            UpdateField::Absent => UpdateFieldModel::Absent,
            UpdateField::Null => UpdateFieldModel::Null,
            UpdateField::Value(json) => UpdateFieldModel::Value(json@),
        }
    }
}

/// An update of the metadata of one cell.
#[derive(Debug)]
pub struct CellUpdate {
    pub cell_id: String,
    pub fixtures: UpdateField,
    pub diff: UpdateField,
    pub test: UpdateField,
}

/// What an update holds.
pub struct UpdateModel {
    pub cell_id: Seq<char>,
    pub fixtures: UpdateFieldModel,
    pub diff: UpdateFieldModel,
    pub test: UpdateFieldModel,
}

impl View for CellUpdate {
    type V = UpdateModel;

    open spec fn view(&self) -> UpdateModel {
        UpdateModel {
            cell_id: self.cell_id@,
            fixtures: self.fixtures@,
            diff: self.diff@,
            test: self.test@,
        }
    }
}

/// What a list of updates holds.
pub open spec fn update_models(updates: Seq<CellUpdate>) -> Seq<UpdateModel> {
    updates.map_values(|update: CellUpdate| update@)
}

/// Why updates could not be read or applied.
#[derive(Debug)]
pub enum UpdateError {
    /// The text is no JSON; with the message of the parser.
    Syntax(String),
    /// The text is neither an object nor an array.
    NotObjectOrArray,
    /// An update is no object.
    NotObject,
    /// An update names no cell.
    NoCellId,
    /// A fixture is malformed; with its name.
    Fixture(String),
    /// The test is malformed.
    Test,
}

/// What an error about updates holds.
pub enum UpdateErrorModel {
    Syntax(Seq<char>),
    NotObjectOrArray,
    NotObject,
    NoCellId,
    Fixture(Seq<char>),
    Test,
}

impl View for UpdateError {
    type V = UpdateErrorModel;

    open spec fn view(&self) -> UpdateErrorModel {
        match self {
            UpdateError::Syntax(message) => UpdateErrorModel::Syntax(message@),
            UpdateError::NotObjectOrArray => UpdateErrorModel::NotObjectOrArray,
            UpdateError::NotObject => UpdateErrorModel::NotObject,
            UpdateError::NoCellId => UpdateErrorModel::NoCellId,
            UpdateError::Fixture(name) => UpdateErrorModel::Fixture(name@),
            UpdateError::Test => UpdateErrorModel::Test,
        }
    }
}

impl UpdateErrorModel {
    /// What the error says.
    pub open spec fn text(self) -> Seq<char> {
        match self {
            UpdateErrorModel::Syntax(_) => "parsing update JSON"@,
            UpdateErrorModel::NotObjectOrArray => "update data must be a JSON object or array"@,
            UpdateErrorModel::NotObject => "update must be a JSON object"@,
            UpdateErrorModel::NoCellId =>
                "update object missing required string field 'cell_id'"@,
            UpdateErrorModel::Fixture(name) => "parsing fixture '"@ + name + "'"@,
            UpdateErrorModel::Test => "parsing test"@,
        }
    }
}

impl UpdateError {
    /// What the error says.
    pub fn message(&self) -> (text: String)
        ensures
            text@ == self@.text(),
    {
        match self {
            UpdateError::Syntax(_) => "parsing update JSON".to_owned(),
            UpdateError::NotObjectOrArray => {
                "update data must be a JSON object or array".to_owned()
            },
            UpdateError::NotObject => "update must be a JSON object".to_owned(),
            UpdateError::NoCellId => {
                "update object missing required string field 'cell_id'".to_owned()
            },
            UpdateError::Fixture(name) => {
                let mut text: String = "parsing fixture '".to_owned();
                text.append(name.as_str());
                text.append("'");
                text
            },
            UpdateError::Test => "parsing test".to_owned(),
        }
    }
}

// ---------------------------------------------------------------------------
// Reading updates
// ---------------------------------------------------------------------------

/// A field of an update.
pub open spec fn update_field(
    members: Seq<(Seq<char>, JsonModel)>,
    key: Seq<char>,
) -> UpdateFieldModel {
    match member(members, key) {
        None => UpdateFieldModel::Absent,
        Some(JsonModel::Null) => UpdateFieldModel::Null,
        Some(json) => UpdateFieldModel::Value(json),
    }
}

/// The update that a JSON value stands for.
pub open spec fn update_of(json: JsonModel) -> Result<UpdateModel, UpdateErrorModel> {
    match json {
        JsonModel::Object(members) => match member(members, "cell_id"@) {
            Some(JsonModel::Text(cell_id)) => Ok(
                UpdateModel {
                    cell_id,
                    fixtures: update_field(members, "fixtures"@),
                    diff: update_field(members, "diff"@),
                    test: update_field(members, "test"@),
                },
            ),
            _ => Err(UpdateErrorModel::NoCellId),
        },
        _ => Err(UpdateErrorModel::NotObject),
    }
}

/// The updates that a list of JSON values stands for; the first error if any of
/// them is none.
pub open spec fn update_list(items: Seq<JsonModel>) -> Result<Seq<UpdateModel>, UpdateErrorModel>
    decreases items.len(),
{
    if items.len() == 0 {
        Ok(Seq::empty())
    } else {
        match update_list(items.drop_last()) {
            Err(error) => Err(error),
            Ok(front) => match update_of(items.last()) {
                Ok(last) => Ok(front.push(last)),
                Err(error) => Err(error),
            },
        }
    }
}

/// The updates that a JSON value stands for: an object is one, an array is a
/// list of them.
pub open spec fn updates_in(json: JsonModel) -> Result<Seq<UpdateModel>, UpdateErrorModel> {
    match json {
        JsonModel::Array(items) => update_list(items),
        JsonModel::Object(_) => match update_of(json) {
            Ok(update) => Ok(seq![update]),
            Err(error) => Err(error),
        },
        _ => Err(UpdateErrorModel::NotObjectOrArray),
    }
}

/// The updates that a text stands for.
pub open spec fn parsed_updates(text: Seq<char>) -> Result<Seq<UpdateModel>, UpdateErrorModel> {
    match parsed_json(text) {
        Ok(json) => updates_in(json),
        Err(message) => Err(UpdateErrorModel::Syntax(message)),
    }
}

/// Whether an outcome is the given one.
pub open spec fn same_updates(
    outcome: Result<Vec<CellUpdate>, UpdateError>,
    expected: Result<Seq<UpdateModel>, UpdateErrorModel>,
) -> bool {
    match outcome {
        Ok(updates) => expected == Ok::<Seq<UpdateModel>, UpdateErrorModel>(
            update_models(updates@),
        ),
        Err(error) => expected == Err::<Seq<UpdateModel>, UpdateErrorModel>(error@),
    }
}

/// Reads a field of an update.
fn read_update_field(members: &JsonMap, key: &str) -> (field: UpdateField)
    ensures
        field@ == update_field(members@, key@),
{
    match members.get(key) {
        None => UpdateField::Absent,
        Some(Json::Null) => UpdateField::Null,
        Some(json) => UpdateField::Value(json.clone()),
    }
}

impl CellUpdate {
    /// Reads an update from JSON.
    pub fn from_value(json: &Json) -> (outcome: Result<Self, UpdateError>)
        ensures
            match outcome {
                Ok(update) => update_of(json@) == Ok::<UpdateModel, UpdateErrorModel>(update@),
                Err(error) => update_of(json@) == Err::<UpdateModel, UpdateErrorModel>(error@),
            },
    {
        match json {
            Json::Object(members) => match members.get("cell_id") {
                Some(Json::Text(cell_id)) => Ok(
                    CellUpdate {
                        cell_id: cell_id.clone(),
                        fixtures: read_update_field(members, "fixtures"),
                        diff: read_update_field(members, "diff"),
                        test: read_update_field(members, "test"),
                    },
                ),
                _ => Err(UpdateError::NoCellId),
            },
            _ => Err(UpdateError::NotObject),
        }
    }
}

/// An error at the beginning of a list is the error of the list.
proof fn update_list_fails(items: Seq<JsonModel>, count: int)
    requires
        0 <= count <= items.len(),
        update_list(items.take(count)) is Err,
    ensures
        update_list(items) == update_list(items.take(count)),
    decreases items.len() - count,
{
    if count < items.len() {
        assert(items.take(count + 1).drop_last() =~= items.take(count));
        update_list_fails(items, count + 1);
    } else {
        assert(items.take(count) =~= items);
    }
}

/// Reads updates from JSON.
pub fn read_updates(json: &Json) -> (outcome: Result<Vec<CellUpdate>, UpdateError>)
    ensures
        same_updates(outcome, updates_in(json@)),
{
    match json {
        Json::Array(items) => {
            let ghost models = array_model(items@);
            let mut updates: Vec<CellUpdate> = Vec::new();
            let mut i: usize = 0;
            assert(models.take(0) =~= Seq::<JsonModel>::empty());
            assert(update_models(updates@) =~= Seq::<UpdateModel>::empty());
            while i < items.len()
                invariant
                    i <= items.len(),
                    models == array_model(items@),
                    json@ == JsonModel::Array(models),
                    update_list(models.take(i as int)) == Ok::<Seq<UpdateModel>, UpdateErrorModel>(
                        update_models(updates@),
                    ),
                decreases items.len() - i,
            {
                let ghost done = update_models(updates@);
                assert(models.take(i + 1).drop_last() =~= models.take(i as int));
                assert(models.take(i + 1).last() == items@[i as int]@);
                match CellUpdate::from_value(&items[i]) {
                    Ok(update) => {
                        updates.push(update);
                        assert(update_models(updates@) =~= done.push(update@));
                    },
                    Err(error) => {
                        proof {
                            update_list_fails(models, i + 1);
                        }
                        return Err(error);
                    },
                }
                i += 1;
            }
            assert(models.take(i as int) =~= models);
            Ok(updates)
        },
        Json::Object(_) => match CellUpdate::from_value(json) {
            Ok(update) => {
                let mut updates: Vec<CellUpdate> = Vec::new();
                updates.push(update);
                assert(update_models(updates@) =~= seq![update@]);
                Ok(updates)
            },
            Err(error) => Err(error),
        },
        _ => Err(UpdateError::NotObjectOrArray),
    }
}

/// Parses updates: a JSON object, or an array of them.
pub fn parse_updates(json_str: &str) -> (outcome: Result<Vec<CellUpdate>, UpdateError>)
    ensures
        same_updates(outcome, parsed_updates(json_str@)),
{
    match parse_json(json_str) {
        Ok(json) => read_updates(&json),
        Err(message) => Err(UpdateError::Syntax(message)),
    }
}

// ---------------------------------------------------------------------------
// Checking updates
// ---------------------------------------------------------------------------

/// What is said of fixtures that are no object.
pub const FIXTURES_FORM: &'static str =
    "fixtures must be null (to clear) or an object mapping fixture names to fixture definitions.";

/// What is said of a test that is no object.
pub const TEST_FORM: &'static str =
    "test must be null (to clear) or an object with 'name' and 'source' fields.";

/// What is said of a test without a name.
pub const TEST_NAME_MISSING: &'static str =
    "test is missing required field 'name'. Provide a test function name as a string.";

/// What is said of a name that is no string.
pub const TEST_NAME_FORM: &'static str =
    "test.name must be a string (the name of the test function).";

/// What is said of a test without a source.
pub const TEST_SOURCE_MISSING: &'static str =
    "test is missing required field 'source'. Provide the test code as a string.";

/// What is said of a source that is no text.
pub const TEST_SOURCE_FORM: &'static str =
    "test.source must be a string or array of strings containing the test code.";

/// What is said of a diff that is no string.
pub const DIFF_FORM: &'static str = "diff must be null (to clear) or a unified diff string.";

/// What is said of a fixture that is no object.
pub const FIXTURE_FORM: &'static str =
    "' must be an object with 'description', 'priority', and 'source' fields, or null to remove it.";

/// What is said of a fixture without a description.
pub const DESCRIPTION_MISSING: &'static str =
    "' is missing required field 'description'. Provide a short description of what this fixture sets up.";

/// What is said of a description that is no string.
pub const DESCRIPTION_FORM: &'static str = "' description must be a string.";

/// What is said of a fixture without a priority.
pub const PRIORITY_MISSING: &'static str =
    "' is missing required field 'priority'. Use an integer to control the order fixtures are applied (lower runs first).";

/// What is said of a priority that is no integer.
pub const PRIORITY_FORM: &'static str = "' priority must be an integer (e.g. 0, 1, 10).";

/// What is said of a fixture without a source.
pub const SOURCE_MISSING: &'static str =
    "' is missing required field 'source'. Provide the setup code as a string.";

/// What is said of a source that is no text.
pub const SOURCE_FORM: &'static str =
    "' source must be a string or array of strings containing the setup code.";

/// A diagnostic about a field of an update.
pub open spec fn invalid_field(message: Seq<char>, field: Seq<char>) -> DiagnosticModel {
    DiagnosticModel {
        kind: DiagnosticType::InvalidField,
        severity: Severity::Error,
        message,
        field,
    }
}

/// Whether a JSON value is a source: a string, or an array of strings.
pub open spec fn is_source_like(json: JsonModel) -> bool {
    source_of(json) is Some
}

/// The diagnostics about a required field: one message if it is absent, another
/// if its value is no good.
pub open spec fn field_diagnostics(
    value: Option<JsonModel>,
    good: bool,
    missing: Seq<char>,
    malformed: Seq<char>,
    field: Seq<char>,
) -> Seq<DiagnosticModel> {
    match value {
        None => seq![invalid_field(missing, field)],
        Some(_) => if good {
            Seq::empty()
        } else {
            seq![invalid_field(malformed, field)]
        },
    }
}

/// The name of a field of a fixture.
pub open spec fn fixture_field(key: Seq<char>, name: Seq<char>) -> Seq<char> {
    "fixtures."@ + key + name
}

/// A message about a fixture.
pub open spec fn fixture_message(key: Seq<char>, rest: Seq<char>) -> Seq<char> {
    "fixture '"@ + key + rest
}

/// The diagnostics about one fixture of an update.
pub open spec fn fixture_diagnostics(key: Seq<char>, json: JsonModel) -> Seq<DiagnosticModel> {
    match json {
        JsonModel::Object(members) => {
            let description = member(members, "description"@);
            let priority = member(members, "priority"@);
            let source = member(members, "source"@);
            field_diagnostics(
                description,
                description is Some && description->0 is Text,
                fixture_message(key, DESCRIPTION_MISSING@),
                fixture_message(key, DESCRIPTION_FORM@),
                fixture_field(key, ".description"@),
            ) + field_diagnostics(
                priority,
                priority is Some && integer_of(priority->0) is Some,
                fixture_message(key, PRIORITY_MISSING@),
                fixture_message(key, PRIORITY_FORM@),
                fixture_field(key, ".priority"@),
            ) + field_diagnostics(
                source,
                source is Some && is_source_like(source->0),
                fixture_message(key, SOURCE_MISSING@),
                fixture_message(key, SOURCE_FORM@),
                fixture_field(key, ".source"@),
            )
        },
        _ => seq![invalid_field(fixture_message(key, FIXTURE_FORM@), fixture_field(key, ""@))],
    }
}

/// The diagnostics about the fixtures of an update, one after the other; null
/// removes a fixture and is always good.
pub open spec fn fixture_list_diagnostics(members: Seq<(Seq<char>, JsonModel)>) -> Seq<
    DiagnosticModel,
>
    decreases members.len(),
{
    if members.len() == 0 {
        Seq::empty()
    } else {
        let front = fixture_list_diagnostics(members.drop_last());
        if members.last().1 is Null {
            front
        } else {
            front + fixture_diagnostics(members.last().0, members.last().1)
        }
    }
}

/// The diagnostics about the fixtures of an update.
pub open spec fn fixtures_diagnostics(field: UpdateFieldModel) -> Seq<DiagnosticModel> {
    match field {
        UpdateFieldModel::Value(JsonModel::Object(members)) => fixture_list_diagnostics(members),
        UpdateFieldModel::Value(_) => seq![invalid_field(FIXTURES_FORM@, "fixtures"@)],
        _ => Seq::empty(),
    }
}

/// The diagnostics about the test of an update.
pub open spec fn test_diagnostics(field: UpdateFieldModel) -> Seq<DiagnosticModel> {
    match field {
        UpdateFieldModel::Value(JsonModel::Object(members)) => {
            let name = member(members, "name"@);
            let source = member(members, "source"@);
            field_diagnostics(
                name,
                name is Some && name->0 is Text,
                TEST_NAME_MISSING@,
                TEST_NAME_FORM@,
                "test.name"@,
            ) + field_diagnostics(
                source,
                source is Some && is_source_like(source->0),
                TEST_SOURCE_MISSING@,
                TEST_SOURCE_FORM@,
                "test.source"@,
            )
        },
        UpdateFieldModel::Value(_) => seq![invalid_field(TEST_FORM@, "test"@)],
        _ => Seq::empty(),
    }
}

/// The diagnostics about the diff of an update.
pub open spec fn diff_diagnostics(field: UpdateFieldModel) -> Seq<DiagnosticModel> {
    match field {
        UpdateFieldModel::Value(JsonModel::Text(_)) => Seq::empty(),
        UpdateFieldModel::Value(_) => seq![invalid_field(DIFF_FORM@, "diff"@)],
        _ => Seq::empty(),
    }
}

/// The diagnostics about one update. If the cell does not exist nothing else is
/// looked at.
pub open spec fn update_diagnostics(update: UpdateModel, cells: Seq<CellModel>) -> Seq<
    DiagnosticModel,
> {
    if code_cell_index(cells, update.cell_id) >= cells.len() {
        seq![
            invalid_field(
                "No code cell with id '"@ + update.cell_id + "' exists in this notebook."@,
                "cell_id"@,
            ),
        ]
    } else {
        fixtures_diagnostics(update.fixtures) + test_diagnostics(update.test) + diff_diagnostics(
            update.diff,
        )
    }
}

/// The diagnostics about updates, one after the other.
pub open spec fn updates_diagnostics(updates: Seq<UpdateModel>, cells: Seq<CellModel>) -> Seq<
    DiagnosticModel,
>
    decreases updates.len(),
{
    if updates.len() == 0 {
        Seq::empty()
    } else {
        updates_diagnostics(updates.drop_last(), cells) + update_diagnostics(updates.last(), cells)
    }
}

/// A diagnostic about a field of an update.
fn make_invalid_field(message: String, field: String) -> (diagnostic: Diagnostic)
    ensures
        diagnostic@ == invalid_field(message@, field@),
{
    Diagnostic {
        kind: DiagnosticType::InvalidField,
        severity: Severity::Error,
        message,
        field,
    }
}

/// Adds the diagnostics about a required field.
fn check_field(
    value: Option<&Json>,
    good: bool,
    missing: String,
    malformed: String,
    field: String,
    diagnostics: &mut Vec<Diagnostic>,
)
    ensures
        diagnostic_models(final(diagnostics)@) == diagnostic_models(old(diagnostics)@)
            + field_diagnostics(
            crate::json::option_model(value),
            good,
            missing@,
            malformed@,
            field@,
        ),
{
    let ghost before = diagnostic_models(diagnostics@);
    match value {
        None => {
            diagnostics.push(make_invalid_field(missing, field));
        },
        Some(_) => {
            if !good {
                diagnostics.push(make_invalid_field(malformed, field));
            }
        },
    }
    assert(diagnostic_models(diagnostics@) =~= before + field_diagnostics(
        crate::json::option_model(value),
        good,
        missing@,
        malformed@,
        field@,
    ));
}

/// Whether a field is there and a string.
fn is_text(value: Option<&Json>) -> (text: bool)
    ensures
        text == (value is Some && value->0@ is Text),
{
    match value {
        Some(Json::Text(_)) => true,
        _ => false,
    }
}

/// Whether a field is there and a string or an array of strings.
fn is_source(value: Option<&Json>) -> (source: bool)
    ensures
        source == (value is Some && is_source_like(value->0@)),
{
    match value {
        Some(json) => read_source(json).is_some(),
        None => false,
    }
}

/// Whether a field is there and an integer of 64 bits.
fn is_integer(value: Option<&Json>) -> (integer: bool)
    ensures
        integer == (value is Some && integer_of(value->0@) is Some),
{
    match value {
        Some(json) => read_integer(json).is_some(),
        None => false,
    }
}

/// The name of a field of a fixture.
fn fixture_field_text(key: &str, name: &str) -> (text: String)
    ensures
        text@ == fixture_field(key@, name@),
{
    let mut text: String = "fixtures.".to_owned();
    text.append(key);
    text.append(name);
    text
}

/// A message about a fixture.
fn fixture_message_text(key: &str, rest: &str) -> (text: String)
    ensures
        text@ == fixture_message(key@, rest@),
{
    let mut text: String = "fixture '".to_owned();
    text.append(key);
    text.append(rest);
    text
}

/// Adds the diagnostics about one fixture of an update.
pub fn validate_fixture(key: &str, val: &Json, diagnostics: &mut Vec<Diagnostic>)
    ensures
        diagnostic_models(final(diagnostics)@) == diagnostic_models(old(diagnostics)@)
            + fixture_diagnostics(key@, val@),
{
    let ghost before = diagnostic_models(diagnostics@);
    match val {
        Json::Object(members) => {
            let description: Option<&Json> = members.get("description");
            let priority: Option<&Json> = members.get("priority");
            let source: Option<&Json> = members.get("source");
            check_field(
                description,
                is_text(description),
                fixture_message_text(key, DESCRIPTION_MISSING),
                fixture_message_text(key, DESCRIPTION_FORM),
                fixture_field_text(key, ".description"),
                diagnostics,
            );
            check_field(
                priority,
                is_integer(priority),
                fixture_message_text(key, PRIORITY_MISSING),
                fixture_message_text(key, PRIORITY_FORM),
                fixture_field_text(key, ".priority"),
                diagnostics,
            );
            check_field(
                source,
                is_source(source),
                fixture_message_text(key, SOURCE_MISSING),
                fixture_message_text(key, SOURCE_FORM),
                fixture_field_text(key, ".source"),
                diagnostics,
            );
        },
        _ => {
            diagnostics.push(
                make_invalid_field(
                    fixture_message_text(key, FIXTURE_FORM),
                    fixture_field_text(key, ""),
                ),
            );
        },
    }
    assert(diagnostic_models(diagnostics@) =~= before + fixture_diagnostics(key@, val@));
}

/// Adds the diagnostics about the fixtures of an update.
fn validate_fixtures(field: &UpdateField, diagnostics: &mut Vec<Diagnostic>)
    ensures
        diagnostic_models(final(diagnostics)@) == diagnostic_models(old(diagnostics)@)
            + fixtures_diagnostics(field@),
{
    let ghost before = diagnostic_models(diagnostics@);
    match field {
        UpdateField::Value(Json::Object(members)) => {
            let ghost models = members@;
            let mut i: usize = 0;
            assert(models.take(0) =~= Seq::<(Seq<char>, JsonModel)>::empty());
            assert(diagnostic_models(diagnostics@) =~= before + fixture_list_diagnostics(
                models.take(0),
            ));
            while i < members.entries.len()
                invariant
                    i <= members.entries.len(),
                    models == members@,
                    diagnostic_models(diagnostics@) == before + fixture_list_diagnostics(
                        models.take(i as int),
                    ),
                decreases members.entries.len() - i,
            {
                assert(models.take(i + 1).drop_last() =~= models.take(i as int));
                assert(models.take(i + 1).last() == (
                    members.entries@[i as int].0@,
                    members.entries@[i as int].1@,
                ));
                let (key, value): (&String, &Json) = (
                    &members.entries[i].0,
                    &members.entries[i].1,
                );
                let is_null: bool = match value {
                    Json::Null => true,
                    _ => false,
                };
                if !is_null {
                    validate_fixture(key.as_str(), value, diagnostics);
                    assert(diagnostic_models(diagnostics@) =~= before + fixture_list_diagnostics(
                        models.take(i + 1),
                    ));
                }
                i += 1;
            }
            assert(models.take(i as int) =~= models);
        },
        UpdateField::Value(_) => {
            diagnostics.push(make_invalid_field(FIXTURES_FORM.to_owned(), "fixtures".to_owned()));
            assert(diagnostic_models(diagnostics@) =~= before + fixtures_diagnostics(field@));
        },
        _ => {
            assert(diagnostic_models(diagnostics@) =~= before + fixtures_diagnostics(field@));
        },
    }
}

/// Adds the diagnostics about the test of an update.
fn validate_test(field: &UpdateField, diagnostics: &mut Vec<Diagnostic>)
    ensures
        diagnostic_models(final(diagnostics)@) == diagnostic_models(old(diagnostics)@)
            + test_diagnostics(field@),
{
    let ghost before = diagnostic_models(diagnostics@);
    match field {
        UpdateField::Value(Json::Object(members)) => {
            let name: Option<&Json> = members.get("name");
            let source: Option<&Json> = members.get("source");
            check_field(
                name,
                is_text(name),
                TEST_NAME_MISSING.to_owned(),
                TEST_NAME_FORM.to_owned(),
                "test.name".to_owned(),
                diagnostics,
            );
            check_field(
                source,
                is_source(source),
                TEST_SOURCE_MISSING.to_owned(),
                TEST_SOURCE_FORM.to_owned(),
                "test.source".to_owned(),
                diagnostics,
            );
        },
        UpdateField::Value(_) => {
            diagnostics.push(make_invalid_field(TEST_FORM.to_owned(), "test".to_owned()));
        },
        _ => {},
    }
    assert(diagnostic_models(diagnostics@) =~= before + test_diagnostics(field@));
}

/// Adds the diagnostics about the diff of an update.
fn validate_diff(field: &UpdateField, diagnostics: &mut Vec<Diagnostic>)
    ensures
        diagnostic_models(final(diagnostics)@) == diagnostic_models(old(diagnostics)@)
            + diff_diagnostics(field@),
{
    let ghost before = diagnostic_models(diagnostics@);
    match field {
        UpdateField::Value(Json::Text(_)) => {},
        UpdateField::Value(_) => {
            diagnostics.push(make_invalid_field(DIFF_FORM.to_owned(), "diff".to_owned()));
        },
        _ => {},
    }
    assert(diagnostic_models(diagnostics@) =~= before + diff_diagnostics(field@));
}

/// Checks updates against a notebook, and says what is wrong with them.
pub fn validate_updates(updates: &[CellUpdate], nb: &Notebook) -> (diagnostics: Vec<Diagnostic>)
    ensures
        diagnostic_models(diagnostics@) == updates_diagnostics(
            update_models(updates@),
            nb@.cells,
        ),
{
    let ghost models = update_models(updates@);
    let mut diagnostics: Vec<Diagnostic> = Vec::new();
    let mut i: usize = 0;
    assert(models.take(0) =~= Seq::<UpdateModel>::empty());
    assert(diagnostic_models(diagnostics@) =~= updates_diagnostics(models.take(0), nb@.cells));
    while i < updates.len()
        invariant
            i <= updates.len(),
            models == update_models(updates@),
            diagnostic_models(diagnostics@) == updates_diagnostics(
                models.take(i as int),
                nb@.cells,
            ),
        decreases updates.len() - i,
    {
        let update: &CellUpdate = &updates[i];
        let ghost before = diagnostic_models(diagnostics@);
        assert(models.take(i + 1).drop_last() =~= models.take(i as int));
        assert(models.take(i + 1).last() == update@);
        if find_code_cell(nb, update.cell_id.as_str()).is_none() {
            let mut message: String = "No code cell with id '".to_owned();
            message.append(update.cell_id.as_str());
            message.append("' exists in this notebook.");
            diagnostics.push(make_invalid_field(message, "cell_id".to_owned()));
        } else {
            validate_fixtures(&update.fixtures, &mut diagnostics);
            validate_test(&update.test, &mut diagnostics);
            validate_diff(&update.diff, &mut diagnostics);
        }
        assert(diagnostic_models(diagnostics@) =~= before + update_diagnostics(
            update@,
            nb@.cells,
        ));
        i += 1;
    }
    assert(models.take(i as int) =~= models);
    diagnostics
}

// ---------------------------------------------------------------------------
// Applying updates
// ---------------------------------------------------------------------------

/// The fixtures after the changes of an update: null removes one, a fixture is
/// added or takes the place of one with its name. The name of the first
/// malformed one, if there is any.
pub open spec fn merged_fixtures(
    existing: Seq<(Seq<char>, FixtureModel)>,
    members: Seq<(Seq<char>, JsonModel)>,
) -> Result<Seq<(Seq<char>, FixtureModel)>, Seq<char>>
    decreases members.len(),
{
    if members.len() == 0 {
        Ok(existing)
    } else {
        match merged_fixtures(existing, members.drop_last()) {
            Err(name) => Err(name),
            Ok(merged) => {
                let (key, json) = members.last();
                if json is Null {
                    Ok(without_fixture(merged, key))
                } else {
                    match fixture_of(json) {
                        Some(fixture) => Ok(with_fixture(merged, key, fixture)),
                        None => Err(key),
                    }
                }
            },
        }
    }
}

/// The fixtures of a cell; none if it has no metadata.
pub open spec fn existing_fixtures(additional: Seq<(Seq<char>, JsonModel)>) -> Seq<
    (Seq<char>, FixtureModel),
> {
    match data_in(additional) {
        Some(data) => match data.fixtures {
            Some(entries) => entries,
            None => Seq::empty(),
        },
        None => Seq::empty(),
    }
}

/// How an update changes the fixtures of a cell: not at all, or to the given
/// ones; or the name of a malformed one.
pub open spec fn fixtures_change(
    additional: Seq<(Seq<char>, JsonModel)>,
    field: UpdateFieldModel,
) -> Result<Option<Option<Seq<(Seq<char>, FixtureModel)>>>, Seq<char>> {
    match field {
        UpdateFieldModel::Absent => Ok(None),
        UpdateFieldModel::Null => Ok(Some(None)),
        UpdateFieldModel::Value(JsonModel::Object(members)) => match merged_fixtures(
            existing_fixtures(additional),
            members,
        ) {
            Ok(merged) => if merged.len() == 0 {
                Ok(Some(None))
            } else {
                Ok(Some(Some(merged)))
            },
            Err(name) => Err(name),
        },
        UpdateFieldModel::Value(_) => Ok(None),
    }
}

/// How an update changes the test of a cell: not at all, or to the given one;
/// an error if it is malformed.
pub open spec fn test_change(field: UpdateFieldModel) -> Result<Option<Option<TestModel>>, ()> {
    match field {
        UpdateFieldModel::Absent => Ok(None),
        UpdateFieldModel::Null => Ok(Some(None)),
        UpdateFieldModel::Value(json) => match test_of(json) {
            Some(test) => Ok(Some(Some(test))),
            None => Err(()),
        },
    }
}

/// How an update changes the diff of a cell: not at all, or to the given one.
pub open spec fn diff_change(field: UpdateFieldModel) -> Option<Option<Seq<char>>> {
    match field {
        UpdateFieldModel::Absent => None,
        UpdateFieldModel::Null => Some(None),
        UpdateFieldModel::Value(json) => Some(text_of(json)),
    }
}

/// The free-form metadata after a change of a field.
pub open spec fn with_change(
    additional: Seq<(Seq<char>, JsonModel)>,
    key: Seq<char>,
    change: Option<Option<JsonModel>>,
) -> Seq<(Seq<char>, JsonModel)> {
    match change {
        Some(value) => with_optional_field(additional, key, value),
        None => additional,
    }
}

/// A change of the fixtures as JSON.
pub open spec fn fixtures_change_json(
    change: Option<Option<Seq<(Seq<char>, FixtureModel)>>>,
) -> Option<Option<JsonModel>> {
    match change {
        Some(fixtures) => Some(optional_fixtures_json(fixtures)),
        None => None,
    }
}

/// A change of the test as JSON.
pub open spec fn test_change_json(change: Option<Option<TestModel>>) -> Option<Option<JsonModel>> {
    match change {
        Some(test) => Some(optional_test_json(test)),
        None => None,
    }
}

/// A change of the diff as JSON.
pub open spec fn diff_change_json(change: Option<Option<Seq<char>>>) -> Option<
    Option<JsonModel>,
> {
    match change {
        Some(diff) => Some(optional_text_json(diff)),
        None => None,
    }
}

/// The free-form metadata of a cell after an update, and what went wrong. A
/// malformed fixture leaves it as it was; a malformed test comes to light after
/// the fixtures are written.
pub open spec fn updated_additional(
    additional: Seq<(Seq<char>, JsonModel)>,
    update: UpdateModel,
) -> (Seq<(Seq<char>, JsonModel)>, Option<UpdateErrorModel>) {
    match fixtures_change(additional, update.fixtures) {
        Err(name) => (additional, Some(UpdateErrorModel::Fixture(name))),
        Ok(fixtures) => {
            let first = with_change(additional, "fixtures"@, fixtures_change_json(fixtures));
            match test_change(update.test) {
                Err(_) => (first, Some(UpdateErrorModel::Test)),
                Ok(test) => {
                    let second = with_change(first, "test"@, test_change_json(test));
                    let third = with_change(
                        second,
                        "diff"@,
                        diff_change_json(diff_change(update.diff)),
                    );
                    (addressed(third), None)
                },
            }
        },
    }
}

/// The cells after an update of one of them, and what went wrong.
pub open spec fn with_update(cells: Seq<CellModel>, update: UpdateModel) -> (
    Seq<CellModel>,
    Option<UpdateErrorModel>,
) {
    let at = code_cell_index(cells, update.cell_id);
    let (additional, error) = updated_additional(cells[at].additional, update);
    (cells.update(at, CellModel { additional, ..cells[at] }), error)
}

/// The cells after updates, one after the other, up to the first that goes
/// wrong.
pub open spec fn with_updates(cells: Seq<CellModel>, updates: Seq<UpdateModel>) -> (
    Seq<CellModel>,
    Option<UpdateErrorModel>,
)
    decreases updates.len(),
{
    if updates.len() == 0 {
        (cells, None)
    } else {
        let front = with_updates(cells, updates.drop_last());
        match front.1 {
            Some(_) => front,
            None => with_update(front.0, updates.last()),
        }
    }
}

/// Whether an update gets as far as writing to the metadata of its cell.
pub open spec fn update_writes(
    additional: Seq<(Seq<char>, JsonModel)>,
    update: UpdateModel,
) -> bool {
    match fixtures_change(additional, update.fixtures) {
        Err(_) => false,
        Ok(Some(Some(_))) => true,
        Ok(_) => test_change(update.test) is Ok,
    }
}

/// Whether an update can be applied: its code cell exists, its fixtures are an
/// object, its diff is a string, and the metadata that it writes to is an
/// object.
pub open spec fn can_apply(cells: Seq<CellModel>, update: UpdateModel) -> bool {
    let at = code_cell_index(cells, update.cell_id);
    &&& at < cells.len()
    &&& update.fixtures is Value ==> update.fixtures->0 is Object
    &&& update_writes(cells[at].additional, update) ==> writable(cells[at].additional)
    &&& updated_additional(cells[at].additional, update).1 is None && update.diff is Value
        ==> update.diff->0 is Text
}

/// Whether updates can be applied one after the other.
pub open spec fn can_apply_all(cells: Seq<CellModel>, updates: Seq<UpdateModel>) -> bool {
    forall|i: int|
        0 <= i < updates.len() && with_updates(cells, updates.take(i)).1 is None ==> can_apply(
            with_updates(cells, updates.take(i)).0,
            #[trigger] updates[i],
        )
}

/// Whether the metadata of every code cell that an update is about can be
/// written to.
pub open spec fn targets_writable(cells: Seq<CellModel>, updates: Seq<UpdateModel>) -> bool {
    forall|i: int|
        0 <= i < updates.len() && code_cell_index(cells, (#[trigger] updates[i]).cell_id)
            < cells.len() ==> writable(
            cells[code_cell_index(cells, updates[i].cell_id)].additional,
        )
}

/// Finds out whether the metadata of every code cell that an update is about
/// can be written to.
pub fn can_write_targets(nb: &Notebook, updates: &[CellUpdate]) -> (writable_all: bool)
    ensures
        writable_all == targets_writable(nb@.cells, update_models(updates@)),
{
    let ghost all = update_models(updates@);
    let ghost cells = nb@.cells;
    let mut i: usize = 0;
    while i < updates.len()
        invariant
            i <= updates.len(),
            all == update_models(updates@),
            cells == nb@.cells,
            targets_writable(cells, all.take(i as int)),
        decreases updates.len() - i,
    {
        assert(all[i as int] == updates@[i as int]@);
        if let Some((at, cell)) = find_code_cell(nb, updates[i].cell_id.as_str()) {
            assert(cells[at as int] == cell@);
            if !is_writable(cell.additional()) {
                assert(!targets_writable(cells, all));
                return false;
            }
        }
        proof {
            let done = all.take(i as int);
            let more = all.take(i + 1);
            assert forall|k: int|
                0 <= k < more.len() && code_cell_index(cells, (#[trigger] more[k]).cell_id)
                    < cells.len() implies writable(
                cells[code_cell_index(cells, more[k].cell_id)].additional,
            ) by {
                if k < i {
                    assert(done[k] == more[k]);
                }
            }
        }
        i += 1;
    }
    assert(all.take(i as int) =~= all);
    true
}

/// Merges the fixtures of an update into those of a cell. Gives the name of the
/// first malformed one.
fn merge_fixtures(merged: &mut FixtureMap, members: &JsonMap) -> (outcome: Result<(), String>)
    ensures
        match outcome {
            Ok(_) => merged_fixtures(fixture_entries(*old(merged)), members@) == Ok::<
                Seq<(Seq<char>, FixtureModel)>,
                Seq<char>,
            >(fixture_entries(*final(merged))),
            Err(name) => merged_fixtures(fixture_entries(*old(merged)), members@) == Err::<
                Seq<(Seq<char>, FixtureModel)>,
                Seq<char>,
            >(name@),
        },
{
    let ghost before = fixture_entries(*merged);
    let ghost models = members@;
    let mut i: usize = 0;
    assert(models.take(0) =~= Seq::<(Seq<char>, JsonModel)>::empty());
    while i < members.entries.len()
        invariant
            i <= members.entries.len(),
            models == members@,
            before == fixture_entries(*old(merged)),
            merged_fixtures(before, models.take(i as int)) == Ok::<
                Seq<(Seq<char>, FixtureModel)>,
                Seq<char>,
            >(fixture_entries(*merged)),
        decreases members.entries.len() - i,
    {
        assert(models.take(i + 1).drop_last() =~= models.take(i as int));
        assert(models.take(i + 1).last() == (
            members.entries@[i as int].0@,
            members.entries@[i as int].1@,
        ));
        let key: &String = &members.entries[i].0;
        match &members.entries[i].1 {
            Json::Null => {
                remove_fixture(merged, key.as_str());
            },
            json => match read_fixture(json) {
                Some(fixture) => {
                    insert_fixture(merged, key.clone(), fixture);
                },
                None => {
                    proof {
                        merge_fails(before, models, i + 1);
                    }
                    return Err(key.clone());
                },
            },
        }
        i += 1;
    }
    assert(models.take(i as int) =~= models);
    Ok(())
}

/// A malformed fixture at the beginning is the one that is named.
proof fn merge_fails(
    existing: Seq<(Seq<char>, FixtureModel)>,
    members: Seq<(Seq<char>, JsonModel)>,
    count: int,
)
    requires
        0 <= count <= members.len(),
        merged_fixtures(existing, members.take(count)) is Err,
    ensures
        merged_fixtures(existing, members) == merged_fixtures(existing, members.take(count)),
    decreases members.len() - count,
{
    if count < members.len() {
        assert(members.take(count + 1).drop_last() =~= members.take(count));
        merge_fails(existing, members, count + 1);
    } else {
        assert(members.take(count) =~= members);
    }
}

/// Applies an update to its cell.
fn apply_update(cell: &mut Cell, update: &CellUpdate) -> (outcome: Result<(), UpdateError>)
    requires
        update@.fixtures is Value ==> update@.fixtures->0 is Object,
        update_writes(old(cell)@.additional, update@) ==> writable(old(cell)@.additional),
        updated_additional(old(cell)@.additional, update@).1 is None && update@.diff is Value
            ==> update@.diff->0 is Text,
    ensures
        final(cell)@ == (CellModel {
            additional: updated_additional(old(cell)@.additional, update@).0,
            ..old(cell)@
        }),
        match outcome {
            Ok(_) => updated_additional(old(cell)@.additional, update@).1 is None,
            Err(error) => updated_additional(old(cell)@.additional, update@).1 == Some(error@),
        },
{
    let ghost before = cell@.additional;
    match &update.fixtures {
        UpdateField::Absent => {},
        UpdateField::Null => {
            cell.nota_bene_mut().set_fixtures(None);
        },
        UpdateField::Value(json) => {
            if let Json::Object(members) = json {
                let mut merged: FixtureMap = match cell.nota_bene() {
                    Some(data) => match data.fixtures {
                        Some(map) => map,
                        None => new_fixtures(),
                    },
                    None => new_fixtures(),
                };
                match merge_fixtures(&mut merged, members) {
                    Ok(_) => {
                        if fixture_count(&merged) == 0 {
                            cell.nota_bene_mut().set_fixtures(None);
                        } else {
                            cell.nota_bene_mut().set_fixtures(Some(merged));
                        }
                    },
                    Err(name) => {
                        return Err(UpdateError::Fixture(name));
                    },
                }
            }
        },
    }
    let ghost fixtures = fixtures_change(before, update@.fixtures)->Ok_0;
    let ghost first = with_change(before, "fixtures"@, fixtures_change_json(fixtures));
    assert(cell@.additional == first);
    proof {
        if writable(before) {
            change_is_writable(before, "fixtures"@, fixtures_change_json(fixtures));
        }
    }
    match &update.test {
        UpdateField::Absent => {},
        UpdateField::Null => {
            cell.nota_bene_mut().set_test(None);
        },
        UpdateField::Value(json) => match read_test(json) {
            Some(test) => {
                cell.nota_bene_mut().set_test(Some(test));
            },
            None => {
                return Err(UpdateError::Test);
            },
        },
    }
    let ghost test = test_change(update@.test)->Ok_0;
    let ghost second = with_change(first, "test"@, test_change_json(test));
    assert(cell@.additional == second);
    proof {
        change_is_writable(first, "test"@, test_change_json(test));
    }
    match &update.diff {
        UpdateField::Absent => {},
        UpdateField::Null => {
            cell.nota_bene_mut().set_diff(None);
        },
        UpdateField::Value(json) => {
            if let Json::Text(diff) = json {
                cell.nota_bene_mut().set_diff(Some(diff.clone()));
            }
        },
    }
    let ghost diff = diff_change_json(diff_change(update@.diff));
    assert(cell@.additional == with_change(second, "diff"@, diff));
    proof {
        change_is_writable(second, "diff"@, diff);
    }
    cell.nota_bene_mut().mark_addressed();
    Ok(())
}

/// A change of a field leaves metadata writable.
pub proof fn change_is_writable(
    additional: Seq<(Seq<char>, JsonModel)>,
    key: Seq<char>,
    change: Option<Option<JsonModel>>,
)
    requires
        writable(additional),
    ensures
        writable(with_change(additional, key, change)),
{
    if let Some(value) = change {
        crate::metadata_laws::optional_field_is_writable(additional, key, value);
    }
}

/// Applies updates to a notebook, one after the other. At the first malformed
/// fixture or test it stops.
pub fn apply_updates(updates: Vec<CellUpdate>, nb: &mut Notebook) -> (outcome: Result<
    (),
    UpdateError,
>)
    requires
        can_apply_all(old(nb)@.cells, update_models(updates@)),
    ensures
        final(nb)@ == (NotebookModel {
            cells: with_updates(old(nb)@.cells, update_models(updates@)).0,
            ..old(nb)@
        }),
        match outcome {
            Ok(_) => with_updates(old(nb)@.cells, update_models(updates@)).1 is None,
            Err(error) => with_updates(old(nb)@.cells, update_models(updates@)).1 == Some(error@),
        },
{
    let ghost before = nb@;
    let ghost models = update_models(updates@);
    let mut i: usize = 0;
    assert(models.take(0) =~= Seq::<UpdateModel>::empty());
    while i < updates.len()
        invariant
            i <= updates.len(),
            models == update_models(updates@),
            can_apply_all(before.cells, models),
            before == old(nb)@,
            nb@ == (NotebookModel {
                cells: with_updates(before.cells, models.take(i as int)).0,
                ..before
            }),
            with_updates(before.cells, models.take(i as int)).1 is None,
        decreases updates.len() - i,
    {
        let update: &CellUpdate = &updates[i];
        let ghost cells = nb@.cells;
        assert(models.take(i + 1).drop_last() =~= models.take(i as int));
        assert(models.take(i + 1).last() == update@);
        assert(models[i as int] == update@);
        assert(can_apply(cells, update@));
        let at: usize = match find_code_cell(nb, update.cell_id.as_str()) {
            Some((index, _)) => index,
            None => {
                assert(false);
                0
            },
        };
        assert(cells[at as int] == nb.cells@[at as int]@);
        let cell: &mut Cell = &mut nb.cells[at];
        let ghost result = updated_additional(cells[at as int].additional, update@);
        let outcome: Result<(), UpdateError> = apply_update(cell, update);
        assert(nb@.cells =~= with_update(cells, update@).0);
        if outcome.is_err() {
            proof {
                updates_fail(before.cells, models, i + 1);
            }
            return outcome;
        }
        i += 1;
    }
    assert(models.take(i as int) =~= models);
    Ok(())
}

/// Nothing happens behind an update that goes wrong.
proof fn updates_fail(cells: Seq<CellModel>, updates: Seq<UpdateModel>, count: int)
    requires
        0 <= count <= updates.len(),
        with_updates(cells, updates.take(count)).1 is Some,
    ensures
        with_updates(cells, updates) == with_updates(cells, updates.take(count)),
    decreases updates.len() - count,
{
    if count < updates.len() {
        assert(updates.take(count + 1).drop_last() =~= updates.take(count));
        updates_fail(cells, updates, count + 1);
    } else {
        assert(updates.take(count) =~= updates);
    }
}

} // verus!
