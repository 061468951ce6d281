//! What is shown of a cell.
use vstd::prelude::*;

use crate::commands::viewed_cells;
use crate::diagnostics::{cell_diagnostics, DiagnosticModel, DiagnosticType, Severity};
use crate::filter::{all_match, FilterModel};
use crate::json::{member, member_index_unique, JsonModel};
use crate::metadata::{fixtures_json, test_json};
use crate::notebook::NotebookModel;
use crate::notebook_laws::member_of_push;
use crate::view::{
    cell_view, diagnostic_json, diagnostics_json, status_json, view_json, view_members,
    wanted_members, CellViewModel,
};

verus! {

// ---------------------------------------------------------------------------
// Fields
// ---------------------------------------------------------------------------

/// A field that is shown of a cell, if all of them are.
pub open spec fn shown_field(nb: NotebookModel, index: int, key: Seq<char>) -> Option<JsonModel> {
    match view_json(cell_view(nb, index), None) {
        JsonModel::Object(members) => member(members, key),
        _ => None,
    }
}

/// The member of an object.
pub open spec fn field_in(json: JsonModel, key: Seq<char>) -> Option<JsonModel> {
    match json {
        JsonModel::Object(members) => member(members, key),
        _ => None,
    }
}

/// The members of a view by their keys.
proof fn view_members_by_key(view: CellViewModel)
    ensures
        member(view_members(view), "cell_id"@) == Some(JsonModel::Text(view.cell_id)),
        member(view_members(view), "diff"@) == Some(view_members(view)[1].1),
        member(view_members(view), "fixtures"@) == Some(view_members(view)[2].1),
        member(view_members(view), "source"@) == Some(JsonModel::Text(view.source)),
        member(view_members(view), "status"@) == Some(status_json(view.valid, view.diagnostics)),
        member(view_members(view), "test"@) == Some(view_members(view)[5].1),
{
    reveal_strlit("cell_id");
    reveal_strlit("diff");
    reveal_strlit("fixtures");
    reveal_strlit("source");
    reveal_strlit("status");
    reveal_strlit("test");
    assert("cell_id"@.len() == 7);
    assert("diff"@.len() == 4);
    assert("fixtures"@.len() == 8);
    assert("source"@.len() == 6);
    assert("status"@.len() == 6);
    assert("test"@.len() == 4);
    assert("diff"@[0] != "test"@[0]);
    assert("source"@[1] != "status"@[1]);
    let members = view_members(view);
    member_index_unique(members, "cell_id"@, 0);
    member_index_unique(members, "diff"@, 1);
    member_index_unique(members, "fixtures"@, 2);
    member_index_unique(members, "source"@, 3);
    member_index_unique(members, "status"@, 4);
    member_index_unique(members, "test"@, 5);
}

/// The members of a status, a diagnostic and a test by their keys.
proof fn small_members_by_key(
    valid: bool,
    diagnostics: Seq<DiagnosticModel>,
    diagnostic: DiagnosticModel,
    test: crate::metadata::TestModel,
)
    ensures
        field_in(status_json(valid, diagnostics), "valid"@) == Some(JsonModel::Bool(valid)),
        field_in(status_json(valid, diagnostics), "diagnostics"@) == Some(
            diagnostics_json(diagnostics),
        ),
        field_in(diagnostic_json(diagnostic), "field"@) == Some(JsonModel::Text(diagnostic.field)),
        field_in(diagnostic_json(diagnostic), "message"@) == Some(
            JsonModel::Text(diagnostic.message),
        ),
        field_in(diagnostic_json(diagnostic), "severity"@) == Some(
            JsonModel::Text(crate::diagnostics::severity_name(diagnostic.severity)),
        ),
        field_in(diagnostic_json(diagnostic), "type"@) == Some(
            JsonModel::Text(crate::diagnostics::kind_name(diagnostic.kind)),
        ),
        field_in(test_json(test), "name"@) == Some(JsonModel::Text(test.name)),
        field_in(test_json(test), "source"@) == Some(JsonModel::Text(test.source)),
{
    reveal_strlit("valid");
    reveal_strlit("diagnostics");
    reveal_strlit("field");
    reveal_strlit("message");
    reveal_strlit("severity");
    reveal_strlit("type");
    reveal_strlit("name");
    reveal_strlit("source");
    assert("valid"@.len() == 5);
    assert("diagnostics"@.len() == 11);
    assert("field"@.len() == 5);
    assert("message"@.len() == 7);
    assert("severity"@.len() == 8);
    assert("type"@.len() == 4);
    assert("name"@.len() == 4);
    assert("source"@.len() == 6);
    let status = status_json(valid, diagnostics)->Object_0;
    member_index_unique(status, "diagnostics"@, 0);
    member_index_unique(status, "valid"@, 1);
    let fields = diagnostic_json(diagnostic)->Object_0;
    member_index_unique(fields, "field"@, 0);
    member_index_unique(fields, "message"@, 1);
    member_index_unique(fields, "severity"@, 2);
    member_index_unique(fields, "type"@, 3);
    let parts = test_json(test)->Object_0;
    member_index_unique(parts, "name"@, 0);
    member_index_unique(parts, "source"@, 1);
}

/// What is shown of a cell is what it holds: its id, its source, and of its
/// metadata the diff, the fixtures and the test, or null for what is not there.
pub proof fn view_shows_the_cell(nb: NotebookModel, index: int)
    requires
        0 <= index < nb.cells.len(),
    ensures
        ({
            let cell = nb.cells[index];
            let data = cell.data();
            &&& shown_field(nb, index, "cell_id"@) == Some(JsonModel::Text(cell.id))
            &&& shown_field(nb, index, "source"@) == Some(JsonModel::Text(cell.text()))
            &&& shown_field(nb, index, "diff"@) == match data {
                Some(d) => match d.diff {
                    Some(diff) => Some(JsonModel::Text(diff)),
                    None => Some(JsonModel::Null),
                },
                None => Some(JsonModel::Null),
            }
            &&& shown_field(nb, index, "fixtures"@) == match data {
                Some(d) => match d.fixtures {
                    Some(entries) => Some(fixtures_json(entries)),
                    None => Some(JsonModel::Null),
                },
                None => Some(JsonModel::Null),
            }
            &&& match data {
                Some(d) => match d.test {
                    Some(test) => {
                        &&& shown_field(nb, index, "test"@) is Some
                        &&& field_in(shown_field(nb, index, "test"@)->0, "name"@) == Some(
                            JsonModel::Text(test.name),
                        )
                        &&& field_in(shown_field(nb, index, "test"@)->0, "source"@) == Some(
                            JsonModel::Text(test.source),
                        )
                    },
                    None => shown_field(nb, index, "test"@) == Some(JsonModel::Null),
                },
                None => shown_field(nb, index, "test"@) == Some(JsonModel::Null),
            }
        }),
{
    let view = cell_view(nb, index);
    view_members_by_key(view);
    if let Some(data) = nb.cells[index].data() {
        if let Some(test) = data.test {
            small_members_by_key(true, Seq::empty(), arbitrary(), test);
        }
    }
}

/// The diagnostics that are shown of a cell.
pub open spec fn shown_diagnostics(nb: NotebookModel, index: int) -> Seq<JsonModel> {
    match shown_field(nb, index, "status"@) {
        Some(status) => match field_in(status, "diagnostics"@) {
            Some(JsonModel::Array(items)) => items,
            _ => Seq::empty(),
        },
        None => Seq::empty(),
    }
}

/// The status of a cell shows all its diagnostics, and that it is valid if there
/// are none.
pub proof fn view_shows_the_status(nb: NotebookModel, index: int)
    requires
        0 <= index < nb.cells.len(),
    ensures
        ({
            let diagnostics = cell_diagnostics(nb, index);
            let shown = shown_diagnostics(nb, index);
            let status = shown_field(nb, index, "status"@);
            &&& status is Some
            &&& field_in(status->0, "valid"@) == Some(JsonModel::Bool(diagnostics.len() == 0))
            &&& shown.len() == diagnostics.len()
            &&& forall|k: int|
                0 <= k < diagnostics.len() ==> {
                    let one = diagnostics[k];
                    &&& field_in(#[trigger] shown[k], "message"@) == Some(
                        JsonModel::Text(one.message),
                    )
                    &&& field_in(shown[k], "field"@) == Some(JsonModel::Text(one.field))
                    &&& field_in(shown[k], "severity"@) == Some(
                        JsonModel::Text(
                            match one.severity {
                                Severity::Error => "error"@,
                                Severity::Warning => "warning"@,
                            },
                        ),
                    )
                    &&& field_in(shown[k], "type"@) == Some(
                        JsonModel::Text(
                            match one.kind {
                                DiagnosticType::Missing => "missing"@,
                                DiagnosticType::NeedsReview => "needs_review"@,
                                DiagnosticType::AncestorModified => "ancestor_modified"@,
                                DiagnosticType::DiffConflict => "diff_conflict"@,
                                DiagnosticType::InvalidField => "invalid_field"@,
                            },
                        ),
                    )
                }
        }),
{
    let view = cell_view(nb, index);
    let diagnostics = cell_diagnostics(nb, index);
    let shown = shown_diagnostics(nb, index);
    view_members_by_key(view);
    small_members_by_key(view.valid, view.diagnostics, arbitrary(), arbitrary());
    assert forall|k: int| 0 <= k < diagnostics.len() implies {
        let one = diagnostics[k];
        &&& field_in(#[trigger] shown[k], "message"@) == Some(JsonModel::Text(one.message))
        &&& field_in(shown[k], "field"@) == Some(JsonModel::Text(one.field))
        &&& field_in(shown[k], "severity"@) == Some(
            JsonModel::Text(
                match one.severity {
                    Severity::Error => "error"@,
                    Severity::Warning => "warning"@,
                },
            ),
        )
        &&& field_in(shown[k], "type"@) == Some(
            JsonModel::Text(
                match one.kind {
                    DiagnosticType::Missing => "missing"@,
                    DiagnosticType::NeedsReview => "needs_review"@,
                    DiagnosticType::AncestorModified => "ancestor_modified"@,
                    DiagnosticType::DiffConflict => "diff_conflict"@,
                    DiagnosticType::InvalidField => "invalid_field"@,
                },
            ),
        )
    } by {
        assert(shown[k] == diagnostic_json(diagnostics[k]));
        small_members_by_key(true, Seq::empty(), diagnostics[k], arbitrary());
    }
}

/// The wanted members by their keys.
proof fn wanted_by_key(
    members: Seq<(Seq<char>, JsonModel)>,
    wanted: Seq<Seq<char>>,
    key: Seq<char>,
)
    ensures
        member(wanted_members(members, wanted), key) == if key == "cell_id"@ || wanted.contains(
            key,
        ) {
            member(members, key)
        } else {
            None
        },
    decreases members.len(),
{
    if members.len() > 0 {
        wanted_by_key(members.drop_last(), wanted, key);
        assert(members =~= members.drop_last().push(members.last()));
        member_of_push(members.drop_last(), members.last(), key);
        member_of_push(wanted_members(members.drop_last(), wanted), members.last(), key);
    }
}

/// A view that is cut down to some fields shows these as before, the id of the
/// cell in any case, and nothing else.
pub proof fn fields_cut_down_the_view(
    view: CellViewModel,
    wanted: Seq<Seq<char>>,
    key: Seq<char>,
)
    ensures
        field_in(view_json(view, Some(wanted)), key) == if key == "cell_id"@ || wanted.contains(
            key,
        ) {
            field_in(view_json(view, None), key)
        } else {
            None
        },
{
    wanted_by_key(view_members(view), wanted, key);
}

// ---------------------------------------------------------------------------
// Cells
// ---------------------------------------------------------------------------

/// The positions of the code cells that match all filters.
pub open spec fn shown_positions(
    nb: NotebookModel,
    filters: Seq<FilterModel>,
    count: int,
) -> Seq<int>
    decreases count,
{
    if count <= 0 {
        Seq::empty()
    } else {
        let front = shown_positions(nb, filters, count - 1);
        if nb.cells[count - 1].is_code() && all_match(
            filters,
            nb,
            nb.cells[count - 1],
            count - 1,
        ) {
            front.push(count - 1)
        } else {
            front
        }
    }
}

/// Whether positions are those of all code cells among the first that match all
/// filters, in their order.
pub open spec fn picks(
    nb: NotebookModel,
    filters: Seq<FilterModel>,
    positions: Seq<int>,
    count: int,
) -> bool {
    &&& forall|i: int, j: int|
        0 <= i < j < positions.len() ==> #[trigger] positions[i] < #[trigger] positions[j]
    &&& forall|at: int| #[trigger]
        positions.contains(at) <==> 0 <= at < count && nb.cells[at].is_code() && all_match(
            filters,
            nb,
            nb.cells[at],
            at,
        )
}

/// The positions of the code cells that match are picked.
proof fn positions_pick(nb: NotebookModel, filters: Seq<FilterModel>, count: int)
    requires
        0 <= count <= nb.cells.len(),
    ensures
        picks(nb, filters, shown_positions(nb, filters, count), count),
    decreases count,
{
    let positions = shown_positions(nb, filters, count);
    if count > 0 {
        let front = shown_positions(nb, filters, count - 1);
        positions_pick(nb, filters, count - 1);
        assert forall|i: int, j: int| 0 <= i < j < positions.len() implies #[trigger] positions[i]
            < #[trigger] positions[j] by {
            if j < front.len() {
                assert(front[i] < front[j]);
            } else {
                assert(front.contains(front[i]));
            }
        }
        assert forall|at: int| #[trigger] positions.contains(at) <==> 0 <= at < count
            && nb.cells[at].is_code() && all_match(filters, nb, nb.cells[at], at) by {
            assert(front.contains(at) <==> 0 <= at < count - 1 && nb.cells[at].is_code()
                && all_match(filters, nb, nb.cells[at], at));
            if positions.contains(at) {
                let k = choose|k: int| 0 <= k < positions.len() && positions[k] == at;
                if k < front.len() {
                    assert(front[k] == at);
                    assert(front.contains(at));
                }
            }
            if front.contains(at) {
                let k = choose|k: int| 0 <= k < front.len() && front[k] == at;
                assert(positions[k] == at);
            } else if positions.len() > front.len() && at == count - 1 {
                assert(positions[front.len() as int] == at);
            }
        }
    } else {
        assert forall|at: int| #[trigger] positions.contains(at) <==> 0 <= at < count
            && nb.cells[at].is_code() && all_match(filters, nb, nb.cells[at], at) by {}
    }
}

/// What is viewed of a notebook are its code cells that match all filters, each
/// once and in their order.
pub proof fn view_shows_matching_cells(
    nb: NotebookModel,
    filters: Seq<FilterModel>,
    fields: Option<Seq<Seq<char>>>,
    count: int,
)
    requires
        0 <= count <= nb.cells.len(),
    ensures
        ({
            let shown = viewed_cells(nb, filters, fields, count);
            let positions = shown_positions(nb, filters, count);
            &&& picks(nb, filters, positions, count)
            &&& shown.len() == positions.len()
            &&& forall|k: int|
                0 <= k < shown.len() ==> #[trigger] shown[k] == view_json(
                    cell_view(nb, positions[k]),
                    fields,
                )
        }),
    decreases count,
{
    positions_pick(nb, filters, count);
    if count > 0 {
        view_shows_matching_cells(nb, filters, fields, count - 1);
        let shown = viewed_cells(nb, filters, fields, count);
        let positions = shown_positions(nb, filters, count);
        let front = viewed_cells(nb, filters, fields, count - 1);
        assert forall|k: int| 0 <= k < shown.len() implies #[trigger] shown[k] == view_json(
            cell_view(nb, positions[k]),
            fields,
        ) by {
            if k < front.len() {
                assert(front[k] == shown[k]);
            }
        }
    }
}

} // verus!
