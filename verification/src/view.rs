//! What is shown of a cell: its content, its metadata and its status. The
//! recorded SHAs are not shown; what they say stands in the status.
use vstd::prelude::*;

use crate::diagnostics::{
    cell_diagnostics, compute_cell_diagnostics, diagnostic_models, kind_name, severity_name,
    CellStatus, Diagnostic, DiagnosticModel,
};
use crate::filter::{comma_values, split_commas};
use crate::fixtures::{FixtureMap, FixtureModel};
use crate::json::{array_model, Json, JsonMap, JsonModel};
use crate::metadata::{
    empty_data, fixtures_json, fixtures_view, test_json, test_view, write_fixtures, write_pair,
    write_test, NotaBeneData, TestMeta, TestModel,
};
use crate::notebook::{Cell, CellExt, Notebook};
use crate::text::{list_contains, same_text, text_view, texts};

verus! {

broadcast use {crate::json::array_view, crate::json::object_view};

/// What is shown of a cell.
#[derive(Debug)]
pub struct CellView {
    pub cell_id: String,
    pub source: String,
    pub fixtures: Option<FixtureMap>,
    pub diff: Option<String>,
    pub test: Option<TestMeta>,
    pub status: CellStatus,
}

/// What a view of a cell holds.
pub struct CellViewModel {
    pub cell_id: Seq<char>,
    pub source: Seq<char>,
    pub fixtures: Option<Seq<(Seq<char>, FixtureModel)>>,
    pub diff: Option<Seq<char>>,
    pub test: Option<TestModel>,
    pub valid: bool,
    pub diagnostics: Seq<DiagnosticModel>,
}

impl View for CellView {
    type V = CellViewModel;

    open spec fn view(&self) -> CellViewModel {
        CellViewModel {
            cell_id: self.cell_id@,
            source: self.source@,
            fixtures: fixtures_view(self.fixtures),
            diff: text_view(self.diff),
            test: test_view(self.test),
            valid: self.status.valid,
            diagnostics: diagnostic_models(self.status.diagnostics@),
        }
    }
}

// ---------------------------------------------------------------------------
// JSON of a view
// ---------------------------------------------------------------------------

/// The JSON object of a diagnostic.
pub open spec fn diagnostic_json(diagnostic: DiagnosticModel) -> JsonModel {
    JsonModel::Object(
        seq![
            ("field"@, JsonModel::Text(diagnostic.field)),
            ("message"@, JsonModel::Text(diagnostic.message)),
            ("severity"@, JsonModel::Text(severity_name(diagnostic.severity))),
            ("type"@, JsonModel::Text(kind_name(diagnostic.kind))),
        ],
    )
}

/// The JSON array of diagnostics.
pub open spec fn diagnostics_json(diagnostics: Seq<DiagnosticModel>) -> JsonModel {
    JsonModel::Array(
        diagnostics.map_values(|diagnostic: DiagnosticModel| diagnostic_json(diagnostic)),
    )
}

/// The JSON object of a status.
pub open spec fn status_json(valid: bool, diagnostics: Seq<DiagnosticModel>) -> JsonModel {
    JsonModel::Object(
        seq![
            ("diagnostics"@, diagnostics_json(diagnostics)),
            ("valid"@, JsonModel::Bool(valid)),
        ],
    )
}

/// The members of the JSON object of a view.
pub open spec fn view_members(view: CellViewModel) -> Seq<(Seq<char>, JsonModel)> {
    seq![
        ("cell_id"@, JsonModel::Text(view.cell_id)),
        (
            "diff"@,
            match view.diff {
                Some(diff) => JsonModel::Text(diff),
                None => JsonModel::Null,
            },
        ),
        (
            "fixtures"@,
            match view.fixtures {
                Some(entries) => fixtures_json(entries),
                None => JsonModel::Null,
            },
        ),
        ("source"@, JsonModel::Text(view.source)),
        ("status"@, status_json(view.valid, view.diagnostics)),
        (
            "test"@,
            match view.test {
                Some(test) => test_json(test),
                None => JsonModel::Null,
            },
        ),
    ]
}

/// The members whose key is wanted; the id of the cell always is.
pub open spec fn wanted_members(
    members: Seq<(Seq<char>, JsonModel)>,
    wanted: Seq<Seq<char>>,
) -> Seq<(Seq<char>, JsonModel)>
    decreases members.len(),
{
    if members.len() == 0 {
        members
    } else {
        let front = wanted_members(members.drop_last(), wanted);
        let last = members.last();
        if last.0 == "cell_id"@ || wanted.contains(last.0) {
            front.push(last)
        } else {
            front
        }
    }
}

/// The JSON object of a view, cut down to the wanted fields if any are given.
pub open spec fn view_json(view: CellViewModel, fields: Option<Seq<Seq<char>>>) -> JsonModel {
    match fields {
        None => JsonModel::Object(view_members(view)),
        Some(wanted) => JsonModel::Object(wanted_members(view_members(view), wanted)),
    }
}

/// The JSON array of diagnostics.
pub fn write_diagnostics(diagnostics: &Vec<Diagnostic>) -> (json: Json)
    ensures
        json@ == diagnostics_json(diagnostic_models(diagnostics@)),
{
    let mut items: Vec<Json> = Vec::new();
    let mut i: usize = 0;
    while i < diagnostics.len()
        invariant
            i <= diagnostics.len(),
            items.len() == i,
            forall|k: int| 0 <= k < i ==> #[trigger] items@[k]@ == diagnostic_json(diagnostics@[k]@),
        decreases diagnostics.len() - i,
    {
        let diagnostic: &Diagnostic = &diagnostics[i];
        let map = JsonMap {
            entries: vec![
                ("field".to_owned(), Json::Text(diagnostic.field.clone())),
                ("message".to_owned(), Json::Text(diagnostic.message.clone())),
                ("severity".to_owned(), Json::Text(diagnostic.severity.to_string())),
                ("type".to_owned(), Json::Text(diagnostic.kind.to_string())),
            ],
        };
        assert(map@ =~= diagnostic_json(diagnostic@)->Object_0);
        items.push(Json::Object(map));
        i += 1;
    }
    assert(array_model(items@) =~= diagnostics_json(diagnostic_models(diagnostics@))->Array_0);
    Json::Array(items)
}

/// The JSON object of a status.
pub fn write_status(valid: bool, diagnostics: &Vec<Diagnostic>) -> (json: Json)
    ensures
        json@ == status_json(valid, diagnostic_models(diagnostics@)),
{
    write_pair("diagnostics", write_diagnostics(diagnostics), "valid", Json::Bool(valid))
}

/// The views of an optional list of strings.
pub open spec fn optional_texts(fields: Option<Vec<String>>) -> Option<Seq<Seq<char>>> {
    match fields {
        Some(list) => Some(texts(list@)),
        None => None,
    }
}

/// What is shown of the cell at a position.
pub open spec fn cell_view(nb: crate::notebook::NotebookModel, index: int) -> CellViewModel {
    let cell = nb.cells[index];
    let data = match cell.data() {
        Some(data) => data,
        None => empty_data(),
    };
    CellViewModel {
        cell_id: cell.id,
        source: cell.text(),
        fixtures: data.fixtures,
        diff: data.diff,
        test: data.test,
        valid: cell_diagnostics(nb, index).len() == 0,
        diagnostics: cell_diagnostics(nb, index),
    }
}

impl CellView {
    /// What is shown of the cell at `index`.
    pub fn from_cell(nb: &Notebook, index: usize) -> (view: Self)
        requires
            index < nb.cells.len(),
        ensures
            view@ == cell_view(nb@, index as int),
    {
        let cell: &Cell = &nb.cells[index];
        assert(nb@.cells[index as int] == cell@);
        let data: NotaBeneData = match cell.nota_bene() {
            Some(data) => data,
            None => NotaBeneData::default(),
        };
        CellView {
            cell_id: cell.cell_id_str().to_owned(),
            source: cell.source_str(),
            fixtures: data.fixtures,
            diff: data.diff,
            test: data.test,
            status: compute_cell_diagnostics(nb, index),
        }
    }

    /// The JSON object of the view. If `fields` are given, only they and the id
    /// of the cell are kept.
    pub fn to_json_value(&self, fields: &Option<Vec<String>>) -> (json: Json)
        ensures
            json@ == view_json(self@, optional_texts(*fields)),
    {
        let ghost model = view_members(self@);
        let mut members: Vec<(String, Json)> = vec![
            ("cell_id".to_owned(), Json::Text(self.cell_id.clone())),
            (
                "diff".to_owned(),
                match &self.diff {
                    Some(diff) => Json::Text(diff.clone()),
                    None => Json::Null,
                },
            ),
            (
                "fixtures".to_owned(),
                match &self.fixtures {
                    Some(map) => write_fixtures(map),
                    None => Json::Null,
                },
            ),
            ("source".to_owned(), Json::Text(self.source.clone())),
            ("status".to_owned(), write_status(self.status.valid, &self.status.diagnostics)),
            (
                "test".to_owned(),
                match &self.test {
                    Some(test) => write_test(test),
                    None => Json::Null,
                },
            ),
        ];
        assert(crate::json::members_model(members@) =~= model);
        match fields {
            None => Json::Object(JsonMap { entries: members }),
            Some(wanted) => {
                let mut kept: JsonMap = JsonMap::new();
                let mut i: usize = 0;
                assert(kept@ =~= wanted_members(model.take(0), texts(wanted@)));
                while i < members.len()
                    invariant
                        i <= members.len(),
                        model == crate::json::members_model(members@),
                        kept@ == wanted_members(model.take(i as int), texts(wanted@)),
                    decreases members.len() - i,
                {
                    let ghost done = kept@;
                    assert(model.take(i + 1).drop_last() =~= model.take(i as int));
                    assert(model.take(i + 1).last() == model[i as int]);
                    if same_text(members[i].0.as_str(), "cell_id") || list_contains(
                        wanted,
                        members[i].0.as_str(),
                    ) {
                        kept.entries.push((members[i].0.clone(), members[i].1.clone()));
                        assert(kept@ =~= done.push(model[i as int]));
                    }
                    i += 1;
                }
                assert(model.take(i as int) =~= model);
                Json::Object(kept)
            },
        }
    }
}

/// Splits a comma-separated list of field names.
pub fn parse_fields(s: &str) -> (fields: Vec<String>)
    ensures
        texts(fields@) == comma_values(s@),
{
    split_commas(s)
}

/// Whatever fields are asked for, the id of the cell is shown.
pub proof fn cell_id_is_always_shown(view: CellViewModel, fields: Option<Seq<Seq<char>>>)
    ensures
        crate::json::member(view_json(view, fields)->Object_0, "cell_id"@) == Some(
            JsonModel::Text(view.cell_id),
        ),
{
    let all = view_members(view);
    crate::json::member_index_unique(all, "cell_id"@, 0);
    match fields {
        None => {},
        Some(wanted) => {
            wanted_keep_first(all, wanted);
            crate::json::member_index_unique(wanted_members(all, wanted), "cell_id"@, 0);
        },
    }
}

/// A first member that is wanted stays the first.
proof fn wanted_keep_first(members: Seq<(Seq<char>, JsonModel)>, wanted: Seq<Seq<char>>)
    requires
        members.len() > 0,
        members[0].0 == "cell_id"@,
    ensures
        wanted_members(members, wanted).len() > 0,
        wanted_members(members, wanted)[0] == members[0],
    decreases members.len(),
{
    if members.len() == 1 {
        assert(wanted_members(members.drop_last(), wanted).len() == 0);
    } else {
        wanted_keep_first(members.drop_last(), wanted);
    }
}

} // verus!
