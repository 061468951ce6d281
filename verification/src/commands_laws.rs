//! What holds of the commands as a whole.
use vstd::prelude::*;

use crate::commands::{
    accepted_all, parsed_filters, positions_to_accept, status_filters, viewed_cells, with_metadata,
    INVALID_FILTER,
};
use crate::diagnostics::{cell_diagnostics, own_diagnostics};
use crate::filter::{
    all_match, comma_values, filter_matches, key_matches, parsed_filter, FilterKey, FilterModel,
};
use crate::fixtures::FixtureModel;
use crate::json::{member, member_index_unique, JsonModel};
use crate::metadata::{fixture_json, integer_of, nb_members, test_json, TestModel, METADATA_KEY};
use crate::metadata_laws::{shas_field_reads_back, well_formed};
use crate::notebook::{CellModel, NotebookModel};
use crate::sha_laws::{
    accepting_keeps_snapshot, accepting_makes_valid, cell_ids_differ, sha_of_plain_cell,
};
use crate::shas::{accepted, snapshot, state_of};
use crate::text::{first_index, first_index_is_first, is_white, split_on, trimmed};
use crate::update::{
    fixture_diagnostics, fixture_list_diagnostics, fixtures_diagnostics, test_diagnostics,
    UpdateFieldModel,
};

verus! {

// ---------------------------------------------------------------------------
// Status
// ---------------------------------------------------------------------------

/// The filter that lets invalid cells through.
spec fn invalid_filter() -> FilterModel {
    FilterModel { key: FilterKey::StatusValid, values: seq!["false"@] }
}

/// The text of that filter stands for it.
proof fn invalid_filter_parses()
    ensures
        parsed_filter(INVALID_FILTER@) == Ok::<FilterModel, crate::filter::FilterErrorModel>(
            invalid_filter(),
        ),
{
    let raw = INVALID_FILTER@;
    reveal_strlit("status.valid:false");
    reveal_strlit("status.valid");
    reveal_strlit("false");
    reveal_strlit("cell");
    reveal_strlit("index");
    reveal_strlit("test");
    reveal_strlit("fixtures");
    reveal_strlit("diff");
    first_index_is_first(raw, ':');
    let colon = first_index(raw, ':');
    assert(raw[12] == ':');
    assert forall|i: int| 0 <= i < 12 implies raw[i] != ':' by {}
    assert(colon == 12);
    assert(raw.take(12) =~= "status.valid"@);
    assert("status.valid"@.len() == 12);
    let expr = raw.skip(13);
    assert(expr =~= "false"@);
    first_index_is_first(expr, ',');
    assert(first_index(expr, ',') == expr.len()) by {
        let at = first_index(expr, ',');
        if at < expr.len() {
            assert(expr[at] == ',');
            assert(at == 0 || at == 1 || at == 2 || at == 3 || at == 4);
        }
    }
    assert(split_on(expr, ',') =~= seq![expr]);
    assert(!is_white(expr[0]));
    assert(!is_white(expr.last()));
    assert(trimmed(expr) == expr);
    assert(comma_values(expr) =~= seq!["false"@]);
}

/// The status filter is the last of the filters of the status command.
proof fn status_filters_end(raw: Seq<Seq<char>>)
    ensures
        status_filters(raw) == match parsed_filters(raw) {
            Ok(given) => Ok(given.push(invalid_filter())),
            Err(error) => Err(error),
        },
{
    invalid_filter_parses();
    assert(raw.push(INVALID_FILTER@).drop_last() =~= raw);
}

/// A cell passes the status filter if and only if it is invalid.
proof fn invalid_filter_means_invalid(nb: NotebookModel, index: int)
    ensures
        filter_matches(invalid_filter(), nb, nb.cells[index], index) <==> cell_diagnostics(
            nb,
            index,
        ).len() > 0,
{
    reveal_strlit("true");
    reveal_strlit("false");
    assert("true"@.len() != "false"@.len());
    let filter = invalid_filter();
    assert(filter.values[0] == "false"@);
    if cell_diagnostics(nb, index).len() > 0 {
        assert(key_matches(filter.key, nb, nb.cells[index], index, filter.values[0]));
    }
}

/// Whether the status command has something to show: an invalid code cell among
/// the first `count` that matches the given filters.
pub open spec fn needs_attention(
    nb: NotebookModel,
    given: Seq<FilterModel>,
    count: int,
) -> bool {
    exists|i: int|
        0 <= i < count && (#[trigger] nb.cells[i]).is_code() && all_match(
            given,
            nb,
            nb.cells[i],
            i,
        ) && cell_diagnostics(nb, i).len() > 0
}

/// The status command shows something if and only if some code cell that matches
/// the given filters is invalid.
pub proof fn status_shows_what_is_invalid(
    nb: NotebookModel,
    raw: Seq<Seq<char>>,
    fields: Option<Seq<Seq<char>>>,
    count: int,
)
    requires
        parsed_filters(raw) is Ok,
        0 <= count <= nb.cells.len(),
    ensures
        status_filters(raw) is Ok,
        viewed_cells(nb, status_filters(raw)->Ok_0, fields, count).len() > 0 <==> needs_attention(
            nb,
            parsed_filters(raw)->Ok_0,
            count,
        ),
    decreases count,
{
    status_filters_end(raw);
    let given = parsed_filters(raw)->Ok_0;
    let filters = status_filters(raw)->Ok_0;
    if count > 0 {
        status_shows_what_is_invalid(nb, raw, fields, count - 1);
        let i = count - 1;
        let cell = nb.cells[i];
        invalid_filter_means_invalid(nb, i);
        assert(all_match(filters, nb, cell, i) <==> all_match(given, nb, cell, i)
            && filter_matches(invalid_filter(), nb, cell, i)) by {
            assert(filters[given.len() as int] == invalid_filter());
            assert forall|k: int| 0 <= k < given.len() implies #[trigger] filters[k]
                == given[k] by {}
            if all_match(filters, nb, cell, i) {
                assert forall|k: int| 0 <= k < given.len() implies filter_matches(
                    #[trigger] given[k],
                    nb,
                    cell,
                    i,
                ) by {
                    assert(filters[k] == given[k]);
                }
            }
        }
        if needs_attention(nb, given, count) && !needs_attention(nb, given, count - 1) {
            let found = choose|k: int|
                0 <= k < count && (#[trigger] nb.cells[k]).is_code() && all_match(
                    given,
                    nb,
                    nb.cells[k],
                    k,
                ) && cell_diagnostics(nb, k).len() > 0;
            assert(found == i);
        }
    }
}

// ---------------------------------------------------------------------------
// Accepting
// ---------------------------------------------------------------------------

/// Whether a list of cells can be accepted and then be valid: they are there,
/// and their metadata, if they have any, is well formed.
pub open spec fn ready_to_accept(nb: NotebookModel, indices: Seq<int>) -> bool {
    forall|k: int|
        0 <= k < indices.len() ==> 0 <= #[trigger] indices[k] < nb.cells.len() && well_formed(
            nb.cells[indices[k]].additional,
        )
}

/// Giving a cell metadata changes no fingerprint of the notebook.
proof fn metadata_keeps_snapshot(nb: NotebookModel, index: int)
    requires
        0 <= index < nb.cells.len(),
        well_formed(nb.cells[index].additional),
    ensures
        snapshot(with_metadata(nb, index)) == snapshot(nb),
        with_metadata(nb, index).cells[index].data() is Some,
        well_formed(with_metadata(nb, index).cells[index].additional),
        own_diagnostics(with_metadata(nb, index).cells[index]) == own_diagnostics(
            nb.cells[index],
        ),
{
    let cell = nb.cells[index];
    let after = with_metadata(nb, index).cells[index];
    let members = nb_members(cell.additional);
    crate::json::member_of_with_member(
        cell.additional,
        METADATA_KEY@,
        JsonModel::Object(members),
        METADATA_KEY@,
    );
    match member(cell.additional, METADATA_KEY@) {
        Some(json) => crate::json::with_member_same(cell.additional, METADATA_KEY@, json),
        None => sha_of_plain_cell(after, cell),
    }
    assert(snapshot(with_metadata(nb, index)) =~= snapshot(nb));
}

/// What accepting cells keeps: their number, their ids and bodies, the
/// fingerprints, metadata that is well formed, and the diagnostics of the
/// contents.
proof fn accepting_keeps(nb: NotebookModel, indices: Seq<int>)
    requires
        ready_to_accept(nb, indices),
    ensures
        accepted_all(nb, indices).cells.len() == nb.cells.len(),
        snapshot(accepted_all(nb, indices)) == snapshot(nb),
        forall|i: int|
            0 <= i < nb.cells.len() ==> (#[trigger] accepted_all(nb, indices).cells[i]).id
                == nb.cells[i].id && accepted_all(nb, indices).cells[i].body == nb.cells[i].body,
        forall|i: int|
            0 <= i < nb.cells.len() && well_formed(nb.cells[i].additional) ==> well_formed(
                (#[trigger] accepted_all(nb, indices).cells[i]).additional,
            ) && own_diagnostics(accepted_all(nb, indices).cells[i]) == own_diagnostics(
                nb.cells[i],
            ),
    decreases indices.len(),
{
    if indices.len() > 0 {
        let front = indices.drop_last();
        let at = indices.last();
        assert(indices[indices.len() - 1] == at);
        assert forall|k: int| 0 <= k < front.len() implies 0 <= #[trigger] front[k]
            < nb.cells.len() && well_formed(nb.cells[front[k]].additional) by {
            assert(front[k] == indices[k]);
        }
        accepting_keeps(nb, front);
        let earlier = accepted_all(nb, front);
        assert(well_formed(earlier.cells[at].additional));
        metadata_keeps_snapshot(earlier, at);
        let before = with_metadata(earlier, at);
        let cell = before.cells[at];
        accepting_keeps_snapshot(before, at);
        let shas = snapshot(before).take(at + 1);
        shas_field_reads_back(cell.additional, shas);
        crate::json::member_of_with_member(
            cell.additional,
            METADATA_KEY@,
            JsonModel::Object(
                crate::json::with_member(
                    crate::metadata::nb_members(cell.additional),
                    "shas"@,
                    crate::metadata::shas_json(shas),
                ),
            ),
            METADATA_KEY@,
        );
        let after = accepted_all(nb, indices);
        assert forall|i: int|
            0 <= i < nb.cells.len() && well_formed(nb.cells[i].additional) implies well_formed(
            (#[trigger] after.cells[i]).additional,
        ) && own_diagnostics(after.cells[i]) == own_diagnostics(nb.cells[i]) by {
            assert(well_formed(earlier.cells[i].additional));
            if i != at {
                assert(after.cells[i] == earlier.cells[i]);
            }
        }
        assert forall|i: int| 0 <= i < nb.cells.len() implies (#[trigger] after.cells[i]).id
            == nb.cells[i].id && after.cells[i].body == nb.cells[i].body by {
            assert(earlier.cells[i].id == nb.cells[i].id);
        }
    }
}

/// Accepting cells makes all of them valid, whatever their order: accepting one
/// does not undo another. The ids of the cells differ, and the metadata of the
/// accepted ones, if they have any, is well formed.
pub proof fn accepting_all_makes_valid(nb: NotebookModel, indices: Seq<int>, k: int)
    requires
        ready_to_accept(nb, indices),
        cell_ids_differ(nb),
        0 <= k < indices.len(),
    ensures
        state_of(accepted_all(nb, indices), indices[k]) is Valid,
    decreases indices.len(),
{
    let front = indices.drop_last();
    let at = indices.last();
    assert(indices[indices.len() - 1] == at);
    assert forall|j: int| 0 <= j < front.len() implies 0 <= #[trigger] front[j] < nb.cells.len()
        && well_formed(nb.cells[front[j]].additional) by {
        assert(front[j] == indices[j]);
    }
    accepting_keeps(nb, front);
    let earlier = accepted_all(nb, front);
    assert(well_formed(earlier.cells[at].additional));
    metadata_keeps_snapshot(earlier, at);
    let before = with_metadata(earlier, at);
    assert(cell_ids_differ(before)) by {
        assert forall|i: int, j: int| 0 <= i < j < before.cells.len() implies (
        #[trigger] before.cells[i]).id != (#[trigger] before.cells[j]).id by {
            assert(before.cells[i].id == earlier.cells[i].id);
            assert(before.cells[j].id == earlier.cells[j].id);
            assert(nb.cells[i].id != nb.cells[j].id);
        }
    }
    if indices[k] == at {
        accepting_makes_valid(before, at);
    } else {
        assert(front[k] == indices[k]);
        accepting_all_makes_valid(nb, front, k);
        accepting_keeps_snapshot(before, at);
        let i = indices[k];
        assert(0 <= i < nb.cells.len());
        assert(accepted(before, at).cells[i] == earlier.cells[i]);
    }
}

/// The positions to accept are those of the code cells.
proof fn positions_are_code(nb: NotebookModel, count: int)
    requires
        0 <= count <= nb.cells.len(),
    ensures
        ({
            let found = positions_to_accept(nb, true, Seq::empty(), count);
            &&& forall|k: int|
                0 <= k < found.len() ==> 0 <= #[trigger] found[k] < count
                    && nb.cells[found[k]].is_code()
            &&& forall|i: int|
                0 <= i < count && (#[trigger] nb.cells[i]).is_code() ==> found.contains(i)
        }),
    decreases count,
{
    if count > 0 {
        positions_are_code(nb, count - 1);
        let front = positions_to_accept(nb, true, Seq::empty(), count - 1);
        let found = positions_to_accept(nb, true, Seq::empty(), count);
        assert forall|k: int| 0 <= k < found.len() implies 0 <= #[trigger] found[k] < count
            && nb.cells[found[k]].is_code() by {
            if k < front.len() {
                assert(found[k] == front[k]);
            }
        }
        assert forall|i: int| 0 <= i < count && (#[trigger] nb.cells[i]).is_code() implies
            found.contains(i) by {
            if i < count - 1 {
                assert(front.contains(i));
                let k = choose|k: int| 0 <= k < front.len() && front[k] == i;
                assert(found[k] == i);
            } else {
                assert(found[front.len() as int] == i);
            }
        }
    }
}

/// Once all cells are accepted the status command has nothing to show, as long
/// as no diff conflicts with its source. The ids of the cells differ, and the
/// metadata of the code cells, if they have any, is well formed.
pub proof fn accepting_everything_clears_status(
    nb: NotebookModel,
    raw: Seq<Seq<char>>,
    fields: Option<Seq<Seq<char>>>,
)
    requires
        cell_ids_differ(nb),
        forall|i: int|
            0 <= i < nb.cells.len() && (#[trigger] nb.cells[i]).is_code() ==> well_formed(
                nb.cells[i].additional,
            ) && own_diagnostics(nb.cells[i]).len() == 0,
        parsed_filters(raw) is Ok,
    ensures
        ({
            let all = positions_to_accept(nb, true, Seq::empty(), nb.cells.len() as int);
            let after = accepted_all(nb, all);
            viewed_cells(
                after,
                status_filters(raw)->Ok_0,
                fields,
                after.cells.len() as int,
            ).len() == 0
        }),
{
    let count = nb.cells.len() as int;
    let all = positions_to_accept(nb, true, Seq::empty(), count);
    positions_are_code(nb, count);
    assert(ready_to_accept(nb, all));
    accepting_keeps(nb, all);
    let after = accepted_all(nb, all);
    status_shows_what_is_invalid(after, raw, fields, count);
    assert forall|i: int| 0 <= i < count && (#[trigger] after.cells[i]).is_code() implies
        cell_diagnostics(after, i).len() == 0 by {
        assert(nb.cells[i].is_code());
        let k = choose|k: int| 0 <= k < all.len() && all[k] == i;
        accepting_all_makes_valid(nb, all, k);
    }
}

// ---------------------------------------------------------------------------
// Scaffolds
// ---------------------------------------------------------------------------

/// What a scaffold holds is valid in an update, and reads back as what it was
/// made of.
pub proof fn scaffolds_are_valid(name: Seq<char>, fixture: FixtureModel, test: TestModel)
    ensures
        fixtures_diagnostics(
            UpdateFieldModel::Value(JsonModel::Object(seq![(name, fixture_json(fixture))])),
        ).len() == 0,
        crate::metadata::fixture_of(fixture_json(fixture)) == Some(fixture),
        test_diagnostics(UpdateFieldModel::Value(test_json(test))).len() == 0,
        crate::metadata::test_of(test_json(test)) == Some(test),
{
    crate::metadata_laws::fixture_reads_back(fixture);
    crate::metadata_laws::test_reads_back(test);
    reveal_strlit("description");
    reveal_strlit("priority");
    reveal_strlit("source");
    reveal_strlit("name");
    assert("description"@.len() == 11);
    assert("priority"@.len() == 8);
    assert("source"@.len() == 6);
    assert("name"@.len() == 4);
    let fields = fixture_json(fixture)->Object_0;
    member_index_unique(fields, "description"@, 0);
    member_index_unique(fields, "priority"@, 1);
    member_index_unique(fields, "source"@, 2);
    assert(integer_of(fields[1].1) == Some(fixture.priority));
    assert(fixture_diagnostics(name, fixture_json(fixture)).len() == 0);
    let members = seq![(name, fixture_json(fixture))];
    assert(members.drop_last() =~= Seq::<(Seq<char>, JsonModel)>::empty());
    assert(fixture_list_diagnostics(members.drop_last()).len() == 0);
    assert(fixture_list_diagnostics(members).len() == 0);
    let parts = test_json(test)->Object_0;
    member_index_unique(parts, "name"@, 0);
    member_index_unique(parts, "source"@, 1);
}

/// Without the metadata of its cells a notebook has none in any cell; everything
/// else in it stays.
pub proof fn stripping_leaves_the_rest(nb: NotebookModel, index: int, key: Seq<char>)
    requires
        0 <= index < nb.cells.len(),
    ensures
        ({
            let after = crate::commands::stripped(nb);
            let cell = after.cells[index];
            &&& after == (NotebookModel { cells: after.cells, ..nb })
            &&& after.cells.len() == nb.cells.len()
            &&& cell == (CellModel { additional: cell.additional, ..nb.cells[index] })
            &&& cell.data() is None
            &&& key != METADATA_KEY@ ==> member(cell.additional, key) == member(
                nb.cells[index].additional,
                key,
            )
        }),
{
    crate::metadata_laws::cleared_has_no_data(nb.cells[index].additional, key);
}

} // verus!
