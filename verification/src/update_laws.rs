//! What holds between checking updates, applying them and reading back what
//! they wrote.
use vstd::prelude::*;

use crate::fixtures::FixtureModel;
use crate::json::{member, JsonModel};
use crate::metadata::{data_in, fixture_of, test_of, writable, DataModel};
use crate::metadata_laws::{
    addressed_has_data, data_or_empty, diff_reads_back, fixture_named, fixtures_field_reads_back,
    names_differ, test_field_reads_back, well_formed, with_field_is_writable,
};
use crate::notebook::{code_cell_index, CellModel};
use crate::update::{
    can_apply, can_apply_all, change_is_writable, diff_change, diff_change_json, diff_diagnostics,
    existing_fixtures, fixture_diagnostics, fixture_list_diagnostics, fixtures_change,
    fixtures_change_json, fixtures_diagnostics, merged_fixtures, targets_writable, test_change,
    test_change_json, test_diagnostics, update_diagnostics, updated_additional, updates_diagnostics,
    with_change, with_updates, UpdateFieldModel, UpdateModel,
};

verus! {

/// Whether updates leave every cell what it is but for its free-form metadata.
spec fn only_metadata_changed(before: Seq<CellModel>, after: Seq<CellModel>) -> bool {
    &&& before.len() == after.len()
    &&& forall|i: int|
        0 <= i < before.len() ==> (#[trigger] after[i]) == (CellModel {
            additional: after[i].additional,
            ..before[i]
        })
}

/// Cells that differ in their metadata only stand at the same positions.
proof fn same_code_cell_index(before: Seq<CellModel>, after: Seq<CellModel>, cell_id: Seq<char>)
    requires
        only_metadata_changed(before, after),
    ensures
        code_cell_index(before, cell_id) == code_cell_index(after, cell_id),
        0 <= code_cell_index(before, cell_id) <= before.len(),
    decreases before.len(),
{
    if before.len() > 0 {
        assert(after[0] == (CellModel { additional: after[0].additional, ..before[0] }));
        let rest = before.drop_first();
        let other = after.drop_first();
        assert forall|i: int| 0 <= i < rest.len() implies (#[trigger] other[i]) == (CellModel {
            additional: other[i].additional,
            ..rest[i]
        }) by {
            assert(other[i] == after[i + 1]);
        }
        same_code_cell_index(rest, other, cell_id);
    }
}

/// An update writes to metadata that stays writable.
proof fn update_keeps_writable(
    additional: Seq<(Seq<char>, JsonModel)>,
    update: UpdateModel,
)
    requires
        writable(additional),
    ensures
        writable(updated_additional(additional, update).0),
{
    if let Ok(fixtures) = fixtures_change(additional, update.fixtures) {
        let change = fixtures_change_json(fixtures);
        change_is_writable(additional, "fixtures"@, change);
        let first = with_change(additional, "fixtures"@, change);
        if let Ok(test) = test_change(update.test) {
            change_is_writable(first, "test"@, test_change_json(test));
            let second = with_change(first, "test"@, test_change_json(test));
            let diff = diff_change_json(diff_change(update.diff));
            change_is_writable(second, "diff"@, diff);
            let third = with_change(second, "diff"@, diff);
            with_field_is_writable(third, crate::metadata::nb_members(third));
        }
    }
}

/// Updates change nothing but the free-form metadata of cells, and what can be
/// written to stays so.
pub proof fn updates_change_metadata_only(cells: Seq<CellModel>, updates: Seq<UpdateModel>)
    requires
        forall|i: int|
            0 <= i < updates.len() ==> code_cell_index(cells, (#[trigger] updates[i]).cell_id)
                < cells.len(),
    ensures
        with_updates(cells, updates).0.len() == cells.len(),
        forall|i: int|
            0 <= i < cells.len() ==> (#[trigger] with_updates(cells, updates).0[i]) == (CellModel {
                additional: with_updates(cells, updates).0[i].additional,
                ..cells[i]
            }),
        forall|i: int|
            0 <= i < cells.len() && writable(cells[i].additional) ==> writable(
                (#[trigger] with_updates(cells, updates).0[i]).additional,
            ),
    decreases updates.len(),
{
    if updates.len() > 0 {
        let front = updates.drop_last();
        assert forall|i: int| 0 <= i < front.len() implies code_cell_index(
            cells,
            (#[trigger] front[i]).cell_id,
        ) < cells.len() by {
            assert(front[i] == updates[i]);
        }
        updates_change_metadata_only(cells, front);
        let before = with_updates(cells, front);
        if before.1 is None {
            let update = updates.last();
            assert(updates[updates.len() - 1] == update);
            assert(only_metadata_changed(cells, before.0));
            same_code_cell_index(cells, before.0, update.cell_id);
            let at = code_cell_index(cells, update.cell_id);
            let after = with_updates(cells, updates).0;
            if writable(before.0[at].additional) {
                update_keeps_writable(before.0[at].additional, update);
            }
            assert forall|i: int| 0 <= i < cells.len() implies (#[trigger] after[i]) == (
            CellModel { additional: after[i].additional, ..cells[i] }) by {
                assert(before.0[i] == (CellModel {
                    additional: before.0[i].additional,
                    ..cells[i]
                }));
            }
            assert forall|i: int|
                0 <= i < cells.len() && writable(cells[i].additional) implies writable(
                (#[trigger] after[i]).additional,
            ) by {
                assert(writable(before.0[i].additional));
            }
        }
    }
}

/// Without diagnostics there are none about any of the updates.
proof fn each_update_is_valid(updates: Seq<UpdateModel>, cells: Seq<CellModel>, at: int)
    requires
        updates_diagnostics(updates, cells).len() == 0,
        0 <= at < updates.len(),
    ensures
        update_diagnostics(updates[at], cells).len() == 0,
    decreases updates.len(),
{
    let front = updates.drop_last();
    let own = update_diagnostics(updates.last(), cells);
    assert((updates_diagnostics(front, cells) + own).len() == updates_diagnostics(front, cells).len()
        + own.len());
    if at < front.len() {
        assert(front[at] == updates[at]);
        each_update_is_valid(front, cells, at);
    }
}

/// Without diagnostics there are none about any of the fields of an update.
proof fn each_field_is_valid(update: UpdateModel, cells: Seq<CellModel>)
    requires
        update_diagnostics(update, cells).len() == 0,
    ensures
        code_cell_index(cells, update.cell_id) < cells.len(),
        fixtures_diagnostics(update.fixtures).len() == 0,
        test_diagnostics(update.test).len() == 0,
        diff_diagnostics(update.diff).len() == 0,
        update.fixtures is Value ==> update.fixtures->0 is Object,
        update.diff is Value ==> update.diff->0 is Text,
{
    let fixtures = fixtures_diagnostics(update.fixtures);
    let test = test_diagnostics(update.test);
    let diff = diff_diagnostics(update.diff);
    assert((fixtures + test + diff).len() == fixtures.len() + test.len() + diff.len());
}

/// Updates that were found valid can be applied, if the metadata of the cells
/// that they are about is an object wherever it is there.
pub proof fn valid_updates_can_be_applied(cells: Seq<CellModel>, updates: Seq<UpdateModel>)
    requires
        updates_diagnostics(updates, cells).len() == 0,
        targets_writable(cells, updates),
    ensures
        can_apply_all(cells, updates),
{
    assert forall|i: int|
        0 <= i < updates.len() && with_updates(cells, updates.take(i)).1 is None implies can_apply(
        with_updates(cells, updates.take(i)).0,
        #[trigger] updates[i],
    ) by {
        let before = updates.take(i);
        assert forall|j: int| 0 <= j < before.len() implies code_cell_index(
            cells,
            (#[trigger] before[j]).cell_id,
        ) < cells.len() by {
            assert(before[j] == updates[j]);
            each_update_is_valid(updates, cells, j);
            each_field_is_valid(updates[j], cells);
        }
        updates_change_metadata_only(cells, before);
        each_update_is_valid(updates, cells, i);
        each_field_is_valid(updates[i], cells);
        let now = with_updates(cells, before).0;
        assert(only_metadata_changed(cells, now));
        same_code_cell_index(cells, now, updates[i].cell_id);
        let at = code_cell_index(cells, updates[i].cell_id);
        assert(writable(cells[at].additional));
        assert(writable(now[at].additional));
    }
}

/// A valid fixture reads as one.
proof fn valid_fixture_reads(key: Seq<char>, json: JsonModel)
    requires
        fixture_diagnostics(key, json).len() == 0,
    ensures
        fixture_of(json) is Some,
{
    if let JsonModel::Object(members) = json {
        let description = member(members, "description"@);
        let priority = member(members, "priority"@);
        let source = member(members, "source"@);
        assert(description is Some && description->0 is Text && priority is Some
            && crate::metadata::integer_of(priority->0) is Some && source is Some);
    }
}

/// Valid fixtures can be merged.
proof fn valid_fixtures_merge(
    existing: Seq<(Seq<char>, FixtureModel)>,
    members: Seq<(Seq<char>, JsonModel)>,
)
    requires
        fixture_list_diagnostics(members).len() == 0,
    ensures
        merged_fixtures(existing, members) is Ok,
    decreases members.len(),
{
    if members.len() > 0 {
        let front = members.drop_last();
        let last = members.last();
        assert(members[members.len() - 1] == last);
        let own = fixture_diagnostics(last.0, last.1);
        assert((fixture_list_diagnostics(front) + own).len() == fixture_list_diagnostics(
            front,
        ).len() + own.len());
        valid_fixtures_merge(existing, front);
        if !(last.1 is Null) {
            valid_fixture_reads(last.0, last.1);
        }
    }
}

/// A valid update goes through.
proof fn valid_update_succeeds(
    additional: Seq<(Seq<char>, JsonModel)>,
    update: UpdateModel,
    cells: Seq<CellModel>,
)
    requires
        update_diagnostics(update, cells).len() == 0,
    ensures
        updated_additional(additional, update).1 is None,
{
    each_field_is_valid(update, cells);
    if let UpdateFieldModel::Value(JsonModel::Object(members)) = update.fixtures {
        valid_fixtures_merge(existing_fixtures(additional), members);
    }
    if let UpdateFieldModel::Value(json) = update.test {
        if let JsonModel::Object(members) = json {
            let name = member(members, "name"@);
            let source = member(members, "source"@);
            assert(name is Some && name->0 is Text && source is Some);
            assert(test_of(json) is Some);
        }
    }
}

/// Updates that were found valid are applied without an error.
pub proof fn valid_updates_succeed(cells: Seq<CellModel>, updates: Seq<UpdateModel>)
    requires
        updates_diagnostics(updates, cells).len() == 0,
    ensures
        with_updates(cells, updates).1 is None,
    decreases updates.len(),
{
    if updates.len() > 0 {
        let front = updates.drop_last();
        let own = update_diagnostics(updates.last(), cells);
        assert((updates_diagnostics(front, cells) + own).len() == updates_diagnostics(
            front,
            cells,
        ).len() + own.len());
        assert(updates[updates.len() - 1] == updates.last());
        valid_updates_succeed(cells, front);
        let before = with_updates(cells, front).0;
        let at = code_cell_index(before, updates.last().cell_id);
        valid_update_succeeds(before[at].additional, updates.last(), cells);
    }
}

/// What an update wrote reads back: the test and the diff are those of the
/// update, or what they were where the update does not speak of them; the
/// fixtures are there under their names. Nothing else changes. The metadata is
/// well formed, and no fixture is named twice.
pub proof fn updated_fields_read_back(
    additional: Seq<(Seq<char>, JsonModel)>,
    update: UpdateModel,
)
    requires
        well_formed(additional),
        updated_additional(additional, update).1 is None,
        fixtures_change(additional, update.fixtures) matches Ok(Some(Some(entries)))
            ==> names_differ(entries),
    ensures
        ({
            let before = data_or_empty(additional);
            let after = data_in(updated_additional(additional, update).0);
            &&& after is Some
            &&& after->0 == (DataModel {
                fixtures: after->0.fixtures,
                diff: match diff_change(update.diff) {
                    Some(diff) => diff,
                    None => before.diff,
                },
                test: match test_change(update.test) {
                    Ok(Some(test)) => test,
                    _ => before.test,
                },
                ..before
            })
            &&& match fixtures_change(additional, update.fixtures)->Ok_0 {
                None => after->0.fixtures == before.fixtures,
                Some(None) => after->0.fixtures is None,
                Some(Some(entries)) => after->0.fixtures is Some && forall|name: Seq<char>|
                    #[trigger] fixture_named(after->0.fixtures->0, name) == fixture_named(
                        entries,
                        name,
                    ),
            }
        }),
{
    let fixtures = fixtures_change(additional, update.fixtures)->Ok_0;
    let first = with_change(additional, "fixtures"@, fixtures_change_json(fixtures));
    if let Some(value) = fixtures {
        fixtures_field_reads_back(additional, value);
    }
    let test = test_change(update.test)->Ok_0;
    let second = with_change(first, "test"@, test_change_json(test));
    if let Some(value) = test {
        test_field_reads_back(first, value);
    }
    let diff = diff_change(update.diff);
    let third = with_change(second, "diff"@, diff_change_json(diff));
    if let Some(value) = diff {
        diff_reads_back(second, value);
    }
    addressed_has_data(third);
}

} // verus!
