//! The `nota-bene` metadata of a cell: what it holds and how it is read from
//! and written to the free-form part of the cell's metadata.
use vstd::prelude::*;

use crate::fixtures::{
    fixture_at, fixture_count, fixture_entries, insert_fixture, new_fixtures, with_fixture,
    Fixture, FixtureMap, FixtureModel,
};
use crate::json::{
    array_model, array_view, member, object_view, option_model, with_member, without_member, Json,
    JsonMap, JsonModel, JsonNumber,
};
use crate::text::text_view;

verus! {

broadcast use {crate::json::array_view, crate::json::object_view};

/// The key under which the metadata stands.
pub const METADATA_KEY: &'static str = "nota-bene";

/// The recorded SHA of one cell.
#[derive(Debug, PartialEq)]
pub struct ShaEntry {
    pub cell_id: String,
    pub sha: String,
}

/// What a recorded SHA holds.
pub struct ShaModel {
    pub cell_id: Seq<char>,
    pub sha: Seq<char>,
}

/// The test of a cell.
#[derive(Debug, PartialEq)]
pub struct TestMeta {
    pub name: String,
    pub source: String,
}

/// What a test holds.
pub struct TestModel {
    pub name: Seq<char>,
    pub source: Seq<char>,
}

/// A snapshot of the metadata of a cell. `extra` keeps what else stands beside
/// the known fields.
#[derive(Debug)]
pub struct NotaBeneData {
    pub fixtures: Option<FixtureMap>,
    pub diff: Option<String>,
    pub test: Option<TestMeta>,
    pub shas: Option<Vec<ShaEntry>>,
    pub extra: JsonMap,
}

/// What a snapshot of the metadata holds.
pub struct DataModel {
    pub fixtures: Option<Seq<(Seq<char>, FixtureModel)>>,
    pub diff: Option<Seq<char>>,
    pub test: Option<TestModel>,
    pub shas: Option<Seq<ShaModel>>,
    pub extra: Seq<(Seq<char>, JsonModel)>,
}

impl View for ShaEntry {
    type V = ShaModel;

    open spec fn view(&self) -> ShaModel {
        ShaModel { cell_id: self.cell_id@, sha: self.sha@ }
    }
}

impl Clone for ShaEntry {
    fn clone(&self) -> (copy: Self)
        ensures
            copy == *self,
    {
        ShaEntry { cell_id: self.cell_id.clone(), sha: self.sha.clone() }
    }
}

impl View for TestMeta {
    type V = TestModel;

    open spec fn view(&self) -> TestModel {
        TestModel { name: self.name@, source: self.source@ }
    }
}

impl Clone for TestMeta {
    fn clone(&self) -> (copy: Self)
        ensures
            copy == *self,
    {
        TestMeta { name: self.name.clone(), source: self.source.clone() }
    }
}

/// What a list of recorded SHAs holds.
pub open spec fn sha_models(shas: Seq<ShaEntry>) -> Seq<ShaModel> {
    shas.map_values(|entry: ShaEntry| entry@)
}

/// What an optional map of fixtures holds.
pub open spec fn fixtures_view(fixtures: Option<FixtureMap>) -> Option<
    Seq<(Seq<char>, FixtureModel)>,
> {
    match fixtures {
        Some(map) => Some(fixture_entries(map)),
        None => None,
    }
}

/// What an optional test holds.
pub open spec fn test_view(test: Option<TestMeta>) -> Option<TestModel> {
    match test {
        Some(t) => Some(t@),
        None => None,
    }
}

/// What an optional list of recorded SHAs holds.
pub open spec fn shas_view(shas: Option<Vec<ShaEntry>>) -> Option<Seq<ShaModel>> {
    match shas {
        Some(list) => Some(sha_models(list@)),
        None => None,
    }
}

impl View for NotaBeneData {
    type V = DataModel;

    open spec fn view(&self) -> DataModel {
        DataModel {
            fixtures: fixtures_view(self.fixtures),
            diff: text_view(self.diff),
            test: test_view(self.test),
            shas: shas_view(self.shas),
            extra: self.extra@,
        }
    }
}

/// What an optional snapshot holds.
pub open spec fn data_view(data: Option<NotaBeneData>) -> Option<DataModel> {
    match data {
        Some(d) => Some(d@),
        None => None,
    }
}

/// Metadata without any field.
pub open spec fn empty_data() -> DataModel {
    DataModel { fixtures: None, diff: None, test: None, shas: None, extra: Seq::empty() }
}

impl Default for NotaBeneData {
    fn default() -> (data: Self)
        ensures
            data@ == empty_data(),
    {
        NotaBeneData {
            fixtures: None,
            diff: None,
            test: None,
            shas: None,
            extra: JsonMap::new(),
        }
    }
}

// ---------------------------------------------------------------------------
// Reading JSON
// ---------------------------------------------------------------------------

/// The text of a JSON string.
pub open spec fn text_of(json: JsonModel) -> Option<Seq<char>> {
    match json {
        JsonModel::Text(t) => Some(t),
        _ => None,
    }
}

/// The value of a JSON number that is an integer of 64 bits.
pub open spec fn integer_of(json: JsonModel) -> Option<i64> {
    match json {
        JsonModel::Number(JsonNumber::Natural(n)) => if n <= i64::MAX {
            Some(n as i64)
        } else {
            None
        },
        JsonModel::Number(JsonNumber::Negative(n)) => Some(n),
        _ => None,
    }
}

/// The texts of a list of JSON strings, one after the other; `None` if
/// anything else stands in it.
pub open spec fn joined_texts(items: Seq<JsonModel>) -> Option<Seq<char>>
    decreases items.len(),
{
    if items.len() == 0 {
        Some(Seq::empty())
    } else {
        match (joined_texts(items.drop_last()), text_of(items.last())) {
            (Some(head), Some(tail)) => Some(head + tail),
            _ => None,
        }
    }
}

/// Source code: a string, or a list of strings that are put together.
pub open spec fn source_of(json: JsonModel) -> Option<Seq<char>> {
    match json {
        JsonModel::Text(t) => Some(t),
        JsonModel::Array(items) => joined_texts(items),
        _ => None,
    }
}

/// The value of the field `name` of an object, or the item at `position` of a
/// list of exactly `count` items.
pub open spec fn field_of(
    json: JsonModel,
    name: Seq<char>,
    position: int,
    count: int,
) -> Option<JsonModel> {
    match json {
        JsonModel::Object(members) => member(members, name),
        JsonModel::Array(items) => if items.len() == count {
            Some(items[position])
        } else {
            None
        },
        _ => None,
    }
}

/// A fixture: an object with its fields, or a list of them in order.
pub open spec fn fixture_of(json: JsonModel) -> Option<FixtureModel> {
    match (
        field_of(json, "description"@, 0, 3),
        field_of(json, "priority"@, 1, 3),
        field_of(json, "source"@, 2, 3),
    ) {
        (Some(d), Some(p), Some(s)) => match (text_of(d), integer_of(p), source_of(s)) {
            (Some(description), Some(priority), Some(source)) => Some(
                FixtureModel { description, priority, source },
            ),
            _ => None,
        },
        _ => None,
    }
}

/// A test: an object with its fields, or a list of them in order.
pub open spec fn test_of(json: JsonModel) -> Option<TestModel> {
    match (field_of(json, "name"@, 0, 2), field_of(json, "source"@, 1, 2)) {
        (Some(n), Some(s)) => match (text_of(n), source_of(s)) {
            (Some(name), Some(source)) => Some(TestModel { name, source }),
            _ => None,
        },
        _ => None,
    }
}

/// A recorded SHA: an object with its fields, or a list of them in order.
pub open spec fn sha_of(json: JsonModel) -> Option<ShaModel> {
    match (field_of(json, "cell_id"@, 0, 2), field_of(json, "sha"@, 1, 2)) {
        (Some(c), Some(s)) => match (text_of(c), text_of(s)) {
            (Some(cell_id), Some(sha)) => Some(ShaModel { cell_id, sha }),
            _ => None,
        },
        _ => None,
    }
}

/// Recorded SHAs, one for each item; `None` if any of them is none.
pub open spec fn sha_list(items: Seq<JsonModel>) -> Option<Seq<ShaModel>>
    decreases items.len(),
{
    if items.len() == 0 {
        Some(Seq::empty())
    } else {
        match (sha_list(items.drop_last()), sha_of(items.last())) {
            (Some(head), Some(tail)) => Some(head.push(tail)),
            _ => None,
        }
    }
}

/// Recorded SHAs from a JSON array.
pub open spec fn shas_of(json: JsonModel) -> Option<Seq<ShaModel>> {
    match json {
        JsonModel::Array(items) => sha_list(items),
        _ => None,
    }
}

/// Fixtures by name, one for each member; `None` if any of them is none.
pub open spec fn fixture_list(members: Seq<(Seq<char>, JsonModel)>) -> Option<
    Seq<(Seq<char>, FixtureModel)>,
>
    decreases members.len(),
{
    if members.len() == 0 {
        Some(Seq::empty())
    } else {
        match (fixture_list(members.drop_last()), fixture_of(members.last().1)) {
            (Some(head), Some(fixture)) => Some(with_fixture(head, members.last().0, fixture)),
            _ => None,
        }
    }
}

/// Fixtures from a JSON object.
pub open spec fn fixtures_of(json: JsonModel) -> Option<Seq<(Seq<char>, FixtureModel)>> {
    match json {
        JsonModel::Object(members) => fixture_list(members),
        _ => None,
    }
}

/// Whether a field is absent or `null`.
pub open spec fn unset(json: Option<JsonModel>) -> bool {
    json is None || json->0 is Null
}

/// The metadata that an object holds; `None` if it is no object or a known
/// field has the wrong shape.
pub open spec fn data_of(json: JsonModel) -> Option<DataModel> {
    match json {
        JsonModel::Object(members) => {
            let fixtures = member(members, "fixtures"@);
            let diff = member(members, "diff"@);
            let test = member(members, "test"@);
            let shas = member(members, "shas"@);
            if !unset(fixtures) && fixtures_of(fixtures->0) is None {
                None
            } else if !unset(diff) && text_of(diff->0) is None {
                None
            } else if !unset(test) && test_of(test->0) is None {
                None
            } else if !unset(shas) && shas_of(shas->0) is None {
                None
            } else {
                Some(
                    DataModel {
                        fixtures: if unset(fixtures) {
                            None
                        } else {
                            fixtures_of(fixtures->0)
                        },
                        diff: if unset(diff) {
                            None
                        } else {
                            text_of(diff->0)
                        },
                        test: if unset(test) {
                            None
                        } else {
                            test_of(test->0)
                        },
                        shas: if unset(shas) {
                            None
                        } else {
                            shas_of(shas->0)
                        },
                        extra: unknown_members(members),
                    },
                )
            }
        },
        _ => None,
    }
}

/// The members that are no known field.
pub open spec fn unknown_members(members: Seq<(Seq<char>, JsonModel)>) -> Seq<
    (Seq<char>, JsonModel),
> {
    without_member(
        without_member(without_member(without_member(members, "fixtures"@), "diff"@), "test"@),
        "shas"@,
    )
}

/// The metadata of a cell: `None` if there is none; malformed metadata counts
/// as empty.
pub open spec fn data_in(additional: Seq<(Seq<char>, JsonModel)>) -> Option<DataModel> {
    match member(additional, METADATA_KEY@) {
        None => None,
        Some(json) => match data_of(json) {
            Some(data) => Some(data),
            None => Some(empty_data()),
        },
    }
}

/// The text of a JSON string.
pub fn read_text(json: &Json) -> (text: Option<String>)
    ensures
        text_view(text) == text_of(json@),
{
    match json {
        Json::Text(t) => Some(t.clone()),
        _ => None,
    }
}

/// The value of a JSON number that is an integer of 64 bits.
pub fn read_integer(json: &Json) -> (value: Option<i64>)
    ensures
        value == integer_of(json@),
{
    match json {
        Json::Number(JsonNumber::Natural(n)) => {
            if *n <= i64::MAX as u64 {
                Some(*n as i64)
            } else {
                None
            }
        },
        Json::Number(JsonNumber::Negative(n)) => Some(*n),
        _ => None,
    }
}

/// Source code: a string, or a list of strings that are put together.
pub fn read_source(json: &Json) -> (source: Option<String>)
    ensures
        text_view(source) == source_of(json@),
{
    match json {
        Json::Text(t) => Some(t.clone()),
        Json::Array(items) => {
            let ghost model = array_model(items@);
            let mut source: String = String::new();
            let mut i: usize = 0;
            assert(model.take(0) =~= Seq::<JsonModel>::empty());
            while i < items.len()
                invariant
                    i <= items.len(),
                    model == array_model(items@),
                    json@ == JsonModel::Array(model),
                    joined_texts(model.take(i as int)) == Some(source@),
                decreases items.len() - i,
            {
                assert(model.take(i + 1).drop_last() == model.take(i as int));
                assert(model.take(i + 1).last() == items@[i as int]@);
                match &items[i] {
                    Json::Text(t) => source.append(t.as_str()),
                    _ => {
                        proof {
                            no_joined_texts(model, i as int);
                        }
                        return None;
                    },
                }
                i += 1;
            }
            assert(model.take(i as int) == model);
            Some(source)
        },
        _ => None,
    }
}

/// One item that is no string makes the whole no source.
proof fn no_joined_texts(items: Seq<JsonModel>, at: int)
    requires
        0 <= at < items.len(),
        text_of(items[at]) is None,
    ensures
        joined_texts(items) is None,
    decreases items.len(),
{
    if at < items.len() - 1 {
        no_joined_texts(items.drop_last(), at);
    }
}

/// The value of a field of an object, or the item of a list of exactly `count`
/// items.
pub fn read_field<'a>(json: &'a Json, name: &str, position: usize, count: usize) -> (value: Option<
    &'a Json,
>)
    requires
        position < count,
    ensures
        option_model(value) == field_of(json@, name@, position as int, count as int),
{
    match json {
        Json::Object(map) => map.get(name),
        Json::Array(items) => {
            if items.len() == count {
                assert(array_model(items@)[position as int] == items@[position as int]@);
                Some(&items[position])
            } else {
                None
            }
        },
        _ => None,
    }
}

/// A fixture from JSON.
pub fn read_fixture(json: &Json) -> (fixture: Option<Fixture>)
    ensures
        match fixture {
            Some(f) => fixture_of(json@) == Some(f@),
            None => fixture_of(json@) is None,
        },
{
    let description: Option<&Json> = read_field(json, "description", 0, 3);
    let priority: Option<&Json> = read_field(json, "priority", 1, 3);
    let source: Option<&Json> = read_field(json, "source", 2, 3);
    match (description, priority, source) {
        (Some(d), Some(p), Some(s)) => match (read_text(d), read_integer(p), read_source(s)) {
            (Some(description), Some(priority), Some(source)) => Some(
                Fixture { description, priority, source },
            ),
            _ => None,
        },
        _ => None,
    }
}

/// A test from JSON.
pub fn read_test(json: &Json) -> (test: Option<TestMeta>)
    ensures
        test_view(test) == test_of(json@),
{
    let name: Option<&Json> = read_field(json, "name", 0, 2);
    let source: Option<&Json> = read_field(json, "source", 1, 2);
    match (name, source) {
        (Some(n), Some(s)) => match (read_text(n), read_source(s)) {
            (Some(name), Some(source)) => Some(TestMeta { name, source }),
            _ => None,
        },
        _ => None,
    }
}

/// A recorded SHA from JSON.
pub fn read_sha(json: &Json) -> (entry: Option<ShaEntry>)
    ensures
        match entry {
            Some(e) => sha_of(json@) == Some(e@),
            None => sha_of(json@) is None,
        },
{
    let cell_id: Option<&Json> = read_field(json, "cell_id", 0, 2);
    let sha: Option<&Json> = read_field(json, "sha", 1, 2);
    match (cell_id, sha) {
        (Some(c), Some(s)) => match (read_text(c), read_text(s)) {
            (Some(cell_id), Some(sha)) => Some(ShaEntry { cell_id, sha }),
            _ => None,
        },
        _ => None,
    }
}

/// Recorded SHAs from a JSON array.
pub fn read_shas(json: &Json) -> (shas: Option<Vec<ShaEntry>>)
    ensures
        shas_view(shas) == shas_of(json@),
{
    match json {
        Json::Array(items) => {
            let ghost model = array_model(items@);
            let mut shas: Vec<ShaEntry> = Vec::new();
            let mut i: usize = 0;
            assert(model.take(0) =~= Seq::<JsonModel>::empty());
            assert(sha_models(shas@) =~= Seq::<ShaModel>::empty());
            while i < items.len()
                invariant
                    i <= items.len(),
                    model == array_model(items@),
                    json@ == JsonModel::Array(model),
                    sha_list(model.take(i as int)) == Some(sha_models(shas@)),
                decreases items.len() - i,
            {
                assert(model.take(i + 1).drop_last() == model.take(i as int));
                assert(model.take(i + 1).last() == items@[i as int]@);
                match read_sha(&items[i]) {
                    Some(entry) => {
                        let ghost done = sha_models(shas@);
                        shas.push(entry);
                        assert(sha_models(shas@) =~= done.push(entry@));
                    },
                    None => {
                        proof {
                            no_sha_list(model, i as int);
                        }
                        return None;
                    },
                }
                i += 1;
            }
            assert(model.take(i as int) == model);
            Some(shas)
        },
        _ => None,
    }
}

/// One item that is no recorded SHA makes the whole no list of them.
proof fn no_sha_list(items: Seq<JsonModel>, at: int)
    requires
        0 <= at < items.len(),
        sha_of(items[at]) is None,
    ensures
        sha_list(items) is None,
    decreases items.len(),
{
    if at < items.len() - 1 {
        no_sha_list(items.drop_last(), at);
    }
}

/// Fixtures from a JSON object.
pub fn read_fixtures(json: &Json) -> (fixtures: Option<FixtureMap>)
    ensures
        fixtures_view(fixtures) == fixtures_of(json@),
{
    match json {
        Json::Object(object) => {
            let ghost model = object@;
            let mut map: FixtureMap = new_fixtures();
            let mut i: usize = 0;
            assert(model.take(0) =~= Seq::<(Seq<char>, JsonModel)>::empty());
            while i < object.entries.len()
                invariant
                    i <= object.entries.len(),
                    model == object@,
                    json@ == JsonModel::Object(model),
                    fixture_list(model.take(i as int)) == Some(fixture_entries(map)),
                decreases object.entries.len() - i,
            {
                assert(model.take(i + 1).drop_last() == model.take(i as int));
                assert(model.take(i + 1).last() == model[i as int]);
                match read_fixture(&object.entries[i].1) {
                    Some(fixture) => {
                        insert_fixture(&mut map, object.entries[i].0.clone(), fixture);
                    },
                    None => {
                        proof {
                            no_fixture_list(model, i as int);
                        }
                        return None;
                    },
                }
                i += 1;
            }
            assert(model.take(i as int) == model);
            Some(map)
        },
        _ => None,
    }
}

/// One member that is no fixture makes the whole no map of them.
proof fn no_fixture_list(members: Seq<(Seq<char>, JsonModel)>, at: int)
    requires
        0 <= at < members.len(),
        fixture_of(members[at].1) is None,
    ensures
        fixture_list(members) is None,
    decreases members.len(),
{
    if at < members.len() - 1 {
        no_fixture_list(members.drop_last(), at);
    }
}

/// The value of a member that is neither absent nor `null`.
fn set_member<'a>(map: &'a JsonMap, key: &str) -> (value: Option<&'a Json>)
    ensures
        match value {
            Some(v) => member(map@, key@) == Some(v@) && !unset(member(map@, key@)),
            None => unset(member(map@, key@)),
        },
{
    match map.get(key) {
        Some(Json::Null) => None,
        Some(v) => Some(v),
        None => None,
    }
}

/// The metadata that an object holds.
pub fn read_data(json: &Json) -> (data: Option<NotaBeneData>)
    ensures
        data_view(data) == data_of(json@),
{
    let map: &JsonMap = match json {
        Json::Object(map) => map,
        _ => return None,
    };
    let fixtures: Option<FixtureMap> = match set_member(map, "fixtures") {
        Some(v) => match read_fixtures(v) {
            Some(f) => Some(f),
            None => return None,
        },
        None => None,
    };
    let diff: Option<String> = match set_member(map, "diff") {
        Some(v) => match read_text(v) {
            Some(d) => Some(d),
            None => return None,
        },
        None => None,
    };
    let test: Option<TestMeta> = match set_member(map, "test") {
        Some(v) => match read_test(v) {
            Some(t) => Some(t),
            None => return None,
        },
        None => None,
    };
    let shas: Option<Vec<ShaEntry>> = match set_member(map, "shas") {
        Some(v) => match read_shas(v) {
            Some(s) => Some(s),
            None => return None,
        },
        None => None,
    };
    let mut extra: JsonMap = map.clone();
    extra.remove("fixtures");
    extra.remove("diff");
    extra.remove("test");
    extra.remove("shas");
    Some(NotaBeneData { fixtures, diff, test, shas, extra })
}

/// Reads the metadata of a cell from the free-form part of the cell's
/// metadata.
pub fn read_nota_bene(additional: &JsonMap) -> (data: Option<NotaBeneData>)
    ensures
        data_view(data) == data_in(additional@),
{
    match additional.get(METADATA_KEY) {
        None => None,
        Some(json) => match read_data(json) {
            Some(data) => Some(data),
            None => Some(NotaBeneData::default()),
        },
    }
}

// ---------------------------------------------------------------------------
// Writing JSON
// ---------------------------------------------------------------------------

/// The JSON number of an integer.
pub open spec fn integer_json(n: i64) -> JsonModel {
    if n >= 0 {
        JsonModel::Number(JsonNumber::Natural(n as u64))
    } else {
        JsonModel::Number(JsonNumber::Negative(n))
    }
}

/// The JSON object of a fixture.
pub open spec fn fixture_json(fixture: FixtureModel) -> JsonModel {
    JsonModel::Object(
        seq![
            ("description"@, JsonModel::Text(fixture.description)),
            ("priority"@, integer_json(fixture.priority)),
            ("source"@, JsonModel::Text(fixture.source)),
        ],
    )
}

/// The JSON object of a test.
pub open spec fn test_json(test: TestModel) -> JsonModel {
    JsonModel::Object(
        seq![("name"@, JsonModel::Text(test.name)), ("source"@, JsonModel::Text(test.source))],
    )
}

/// The JSON object of a recorded SHA.
pub open spec fn sha_json(entry: ShaModel) -> JsonModel {
    JsonModel::Object(
        seq![("cell_id"@, JsonModel::Text(entry.cell_id)), ("sha"@, JsonModel::Text(entry.sha))],
    )
}

/// The JSON array of recorded SHAs.
pub open spec fn shas_json(shas: Seq<ShaModel>) -> JsonModel {
    JsonModel::Array(shas.map_values(|entry: ShaModel| sha_json(entry)))
}

/// The members of the JSON object of named fixtures.
pub open spec fn fixture_members(entries: Seq<(Seq<char>, FixtureModel)>) -> Seq<
    (Seq<char>, JsonModel),
>
    decreases entries.len(),
{
    if entries.len() == 0 {
        Seq::empty()
    } else {
        with_member(
            fixture_members(entries.drop_last()),
            entries.last().0,
            fixture_json(entries.last().1),
        )
    }
}

/// The JSON object of named fixtures.
pub open spec fn fixtures_json(entries: Seq<(Seq<char>, FixtureModel)>) -> JsonModel {
    JsonModel::Object(fixture_members(entries))
}

/// The JSON number of an integer.
pub fn write_integer(n: i64) -> (json: Json)
    ensures
        json@ == integer_json(n),
{
    if n >= 0 {
        Json::Number(JsonNumber::Natural(n as u64))
    } else {
        Json::Number(JsonNumber::Negative(n))
    }
}

/// The JSON object with two members, given in the order of their keys.
pub fn write_pair(key: &str, value: Json, other_key: &str, other_value: Json) -> (json: Json)
    ensures
        json@ == JsonModel::Object(seq![(key@, value@), (other_key@, other_value@)]),
{
    let ghost model = seq![(key@, value@), (other_key@, other_value@)];
    let map = JsonMap { entries: vec![(key.to_owned(), value), (other_key.to_owned(), other_value)] };
    assert(map@ =~= model);
    Json::Object(map)
}

/// The JSON object with one member.
pub fn write_single(key: &str, value: Json) -> (json: Json)
    ensures
        json@ == JsonModel::Object(seq![(key@, value@)]),
{
    let ghost model = seq![(key@, value@)];
    let map = JsonMap { entries: vec![(key.to_owned(), value)] };
    assert(map@ =~= model);
    Json::Object(map)
}

/// The JSON object of a fixture.
pub fn write_fixture(fixture: &Fixture) -> (json: Json)
    ensures
        json@ == fixture_json(fixture@),
{
    let map = JsonMap {
        entries: vec![
            ("description".to_owned(), Json::Text(fixture.description.clone())),
            ("priority".to_owned(), write_integer(fixture.priority)),
            ("source".to_owned(), Json::Text(fixture.source.clone())),
        ],
    };
    assert(map@ =~= fixture_json(fixture@)->Object_0);
    Json::Object(map)
}

/// The JSON object of a test.
pub fn write_test(test: &TestMeta) -> (json: Json)
    ensures
        json@ == test_json(test@),
{
    write_pair(
        "name",
        Json::Text(test.name.clone()),
        "source",
        Json::Text(test.source.clone()),
    )
}

/// The JSON array of recorded SHAs.
pub fn write_shas(shas: &Vec<ShaEntry>) -> (json: Json)
    ensures
        json@ == shas_json(sha_models(shas@)),
{
    let mut items: Vec<Json> = Vec::new();
    let mut i: usize = 0;
    while i < shas.len()
        invariant
            i <= shas.len(),
            items.len() == i,
            forall|k: int| 0 <= k < i ==> #[trigger] items@[k]@ == sha_json(shas@[k]@),
        decreases shas.len() - i,
    {
        items.push(
            write_pair(
                "cell_id",
                Json::Text(shas[i].cell_id.clone()),
                "sha",
                Json::Text(shas[i].sha.clone()),
            ),
        );
        i += 1;
    }
    assert(array_model(items@) =~= shas_json(sha_models(shas@))->Array_0);
    Json::Array(items)
}

/// The JSON object of named fixtures.
pub fn write_fixtures(map: &FixtureMap) -> (json: Json)
    ensures
        json@ == fixtures_json(fixture_entries(*map)),
{
    let ghost entries = fixture_entries(*map);
    let mut object: JsonMap = JsonMap::new();
    let count: usize = fixture_count(map);
    let mut i: usize = 0;
    assert(entries.take(0) =~= Seq::<(Seq<char>, FixtureModel)>::empty());
    while i < count
        invariant
            i <= count,
            count == entries.len(),
            entries == fixture_entries(*map),
            object@ == fixture_members(entries.take(i as int)),
        decreases count - i,
    {
        assert(entries.take(i + 1).drop_last() == entries.take(i as int));
        assert(entries.take(i + 1).last() == entries[i as int]);
        match fixture_at(map, i) {
            Some((name, fixture)) => object.insert(name.clone(), write_fixture(fixture)),
            None => {},
        }
        i += 1;
    }
    assert(entries.take(i as int) == entries);
    Json::Object(object)
}

// ---------------------------------------------------------------------------
// NotaBeneView
// ---------------------------------------------------------------------------

/// Whether the metadata can be written to: it is absent or an object.
pub open spec fn writable(additional: Seq<(Seq<char>, JsonModel)>) -> bool {
    match member(additional, METADATA_KEY@) {
        Some(json) => json is Object,
        None => true,
    }
}

/// Finds out whether the metadata can be written to.
pub fn is_writable(additional: &JsonMap) -> (found: bool)
    ensures
        found == writable(additional@),
{
    match additional.get(METADATA_KEY) {
        Some(Json::Object(_)) => true,
        Some(_) => false,
        None => true,
    }
}

/// The members of the metadata object; none where there is no such object.
pub open spec fn nb_members(additional: Seq<(Seq<char>, JsonModel)>) -> Seq<
    (Seq<char>, JsonModel),
> {
    match member(additional, METADATA_KEY@) {
        Some(JsonModel::Object(members)) => members,
        _ => Seq::empty(),
    }
}

/// The free-form metadata with `members` as the metadata object.
pub open spec fn with_nb_members(
    additional: Seq<(Seq<char>, JsonModel)>,
    members: Seq<(Seq<char>, JsonModel)>,
) -> Seq<(Seq<char>, JsonModel)> {
    with_member(additional, METADATA_KEY@, JsonModel::Object(members))
}

/// The free-form metadata after a metadata field is set.
pub open spec fn with_field(
    additional: Seq<(Seq<char>, JsonModel)>,
    key: Seq<char>,
    value: JsonModel,
) -> Seq<(Seq<char>, JsonModel)> {
    with_nb_members(additional, with_member(nb_members(additional), key, value))
}

/// The free-form metadata after a metadata field is removed; unchanged where
/// there is no metadata object.
pub open spec fn without_field(
    additional: Seq<(Seq<char>, JsonModel)>,
    key: Seq<char>,
) -> Seq<(Seq<char>, JsonModel)> {
    match member(additional, METADATA_KEY@) {
        Some(JsonModel::Object(members)) => with_nb_members(
            additional,
            without_member(members, key),
        ),
        _ => additional,
    }
}

/// The free-form metadata after a metadata field is set or, for `None`,
/// removed.
pub open spec fn with_optional_field(
    additional: Seq<(Seq<char>, JsonModel)>,
    key: Seq<char>,
    value: Option<JsonModel>,
) -> Seq<(Seq<char>, JsonModel)> {
    match value {
        Some(v) => with_field(additional, key, v),
        None => without_field(additional, key),
    }
}

/// The free-form metadata with a metadata object, empty if there was none.
pub open spec fn addressed(additional: Seq<(Seq<char>, JsonModel)>) -> Seq<
    (Seq<char>, JsonModel),
> {
    with_nb_members(additional, nb_members(additional))
}

/// The JSON of optional fixtures.
pub open spec fn optional_fixtures_json(
    fixtures: Option<Seq<(Seq<char>, FixtureModel)>>,
) -> Option<JsonModel> {
    match fixtures {
        Some(entries) => Some(fixtures_json(entries)),
        None => None,
    }
}

/// The JSON of an optional text.
pub open spec fn optional_text_json(text: Option<Seq<char>>) -> Option<JsonModel> {
    match text {
        Some(t) => Some(JsonModel::Text(t)),
        None => None,
    }
}

/// The JSON of an optional test.
pub open spec fn optional_test_json(test: Option<TestModel>) -> Option<JsonModel> {
    match test {
        Some(t) => Some(test_json(t)),
        None => None,
    }
}

/// The metadata of a cell, to be changed in place.
pub struct NotaBeneView<'a> {
    pub additional: &'a mut JsonMap,
}

impl<'a> NotaBeneView<'a> {
    /// A view of the metadata in `additional`.
    pub fn new(additional: &'a mut JsonMap) -> (view: Self)
        ensures
            *view.additional == *old(additional),
            *final(view.additional) == *final(additional),
    {
        NotaBeneView { additional }
    }

    /// The metadata object, which is put there if it is absent.
    pub fn ensure_nb_object(&mut self) -> (object: &mut JsonMap)
        requires
            writable(old(self).additional@),
        ensures
            object@ == nb_members(old(self).additional@),
            final(self).additional@ == with_nb_members(old(self).additional@, final(object)@),
            *final(final(self).additional) == *final(old(self).additional),
    {
        let ghost before = self.additional@;
        if !self.additional.contains_key(METADATA_KEY) {
            self.additional.insert(METADATA_KEY.to_owned(), Json::Object(JsonMap::new()));
            proof {
                crate::json::member_of_with_member(
                    before,
                    METADATA_KEY@,
                    JsonModel::Object(Seq::empty()),
                    METADATA_KEY@,
                );
            }
        }
        let ghost ready = self.additional@;
        proof {
            assert forall|value: JsonModel|
                #![trigger with_member(ready, METADATA_KEY@, value)]
                with_member(ready, METADATA_KEY@, value) == with_member(
                    before,
                    METADATA_KEY@,
                    value,
                ) by {
                if ready != before {
                    crate::json::with_member_twice(
                        before,
                        METADATA_KEY@,
                        JsonModel::Object(Seq::empty()),
                        value,
                    );
                }
            }
        }
        match self.additional.get_mut(METADATA_KEY) {
            Some(Json::Object(object)) => object,
            _ => {
                assert(false);
                vstd::pervasive::unreached()
            },
        }
    }

    /// Sets a field of the metadata.
    fn set_field(&mut self, key: &str, value: Json)
        requires
            writable(old(self).additional@),
        ensures
            final(self).additional@ == with_field(old(self).additional@, key@, value@),
            *final(final(self).additional) == *final(old(self).additional),
    {
        self.ensure_nb_object().insert(key.to_owned(), value);
    }

    /// Removes a field of the metadata.
    pub fn remove_field(&mut self, key: &str)
        ensures
            final(self).additional@ == without_field(old(self).additional@, key@),
            *final(final(self).additional) == *final(old(self).additional),
    {
        match self.additional.get_mut(METADATA_KEY) {
            Some(Json::Object(object)) => object.remove(key),
            Some(other) => {
                proof {
                    crate::json::with_member_same(old(self).additional@, METADATA_KEY@, other@);
                }
            },
            None => {},
        }
    }

    /// Puts an empty metadata object there if there is none.
    pub fn mark_addressed(&mut self)
        requires
            writable(old(self).additional@),
        ensures
            final(self).additional@ == addressed(old(self).additional@),
            *final(final(self).additional) == *final(old(self).additional),
    {
        self.ensure_nb_object();
    }

    /// Writes the fixtures; `None` removes them.
    pub fn set_fixtures(&mut self, v: Option<FixtureMap>)
        requires
            v is Some ==> writable(old(self).additional@),
        ensures
            final(self).additional@ == with_optional_field(
                old(self).additional@,
                "fixtures"@,
                optional_fixtures_json(fixtures_view(v)),
            ),
            *final(final(self).additional) == *final(old(self).additional),
    {
        match v {
            Some(map) => self.set_field("fixtures", write_fixtures(&map)),
            None => self.remove_field("fixtures"),
        }
    }

    /// Writes the diff; `None` removes it.
    pub fn set_diff(&mut self, v: Option<String>)
        requires
            v is Some ==> writable(old(self).additional@),
        ensures
            final(self).additional@ == with_optional_field(
                old(self).additional@,
                "diff"@,
                optional_text_json(text_view(v)),
            ),
            *final(final(self).additional) == *final(old(self).additional),
    {
        match v {
            Some(diff) => self.set_field("diff", Json::Text(diff)),
            None => self.remove_field("diff"),
        }
    }

    /// Writes the test; `None` removes it.
    pub fn set_test(&mut self, v: Option<TestMeta>)
        requires
            v is Some ==> writable(old(self).additional@),
        ensures
            final(self).additional@ == with_optional_field(
                old(self).additional@,
                "test"@,
                optional_test_json(test_view(v)),
            ),
            *final(final(self).additional) == *final(old(self).additional),
    {
        match v {
            Some(test) => self.set_field("test", write_test(&test)),
            None => self.remove_field("test"),
        }
    }

    /// Writes the recorded SHAs.
    pub fn set_shas(&mut self, shas: Vec<ShaEntry>)
        requires
            writable(old(self).additional@),
        ensures
            final(self).additional@ == with_field(
                old(self).additional@,
                "shas"@,
                shas_json(sha_models(shas@)),
            ),
            *final(final(self).additional) == *final(old(self).additional),
    {
        self.set_field("shas", write_shas(&shas));
    }

    /// Removes the whole metadata of the cell.
    pub fn clear(&mut self)
        ensures
            final(self).additional@ == without_member(old(self).additional@, METADATA_KEY@),
            *final(final(self).additional) == *final(old(self).additional),
    {
        self.additional.remove(METADATA_KEY);
    }
}

} // verus!
