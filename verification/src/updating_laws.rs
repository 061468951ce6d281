//! What updates do to the metadata of a cell, and which are refused.
use vstd::prelude::*;

use crate::diagnostics::DiagnosticModel;
use crate::filter::{filter_matches, FilterKey, FilterModel};
use crate::filter_laws::diff_filter_goes_by_the_view;
use crate::fixtures::{fixture_index, without_fixture, FixtureModel};
use crate::json::{member, member_index_is_first, JsonModel};
use crate::metadata::{
    data_in, fixture_of, integer_of, joined_texts, source_of, test_of, METADATA_KEY,
};
use crate::metadata_laws::{
    data_or_empty, fixture_index_is_first, fixture_index_unique, fixture_named,
    fixture_named_after_set, names_differ, well_formed,
};
use crate::notebook::{code_cell_index, code_cell_index_is_first, CellModel, NotebookModel};
use crate::notebook_laws::member_of_push;
use crate::round_trip_laws::read_names_differ;
use crate::update::{
    can_apply, can_apply_all, diff_diagnostics, existing_fixtures, field_diagnostics,
    fixture_diagnostics, fixture_field, fixture_list_diagnostics, fixture_message,
    fixtures_diagnostics, is_source_like, merged_fixtures, test_diagnostics, update_diagnostics,
    update_list, update_of, updated_additional, updates_in, with_update, with_updates,
    UpdateErrorModel, UpdateFieldModel, UpdateModel, DESCRIPTION_FORM, DESCRIPTION_MISSING,
    PRIORITY_FORM, PRIORITY_MISSING, SOURCE_FORM, SOURCE_MISSING, TEST_NAME_FORM, TEST_NAME_MISSING,
    TEST_SOURCE_FORM, TEST_SOURCE_MISSING,
};
use crate::update_laws::updated_fields_read_back;
use crate::view_laws::view_shows_the_cell;

verus! {

// ---------------------------------------------------------------------------
// Fixtures
// ---------------------------------------------------------------------------

/// Whether no key stands twice.
pub open spec fn keys_differ(members: Seq<(Seq<char>, JsonModel)>) -> bool {
    forall|i: int, j: int|
        0 <= i < j < members.len() ==> (#[trigger] members[i]).0 != (#[trigger] members[j]).0
}

/// Removing a fixture leaves the others as they were.
proof fn fixture_named_after_removal(
    entries: Seq<(Seq<char>, FixtureModel)>,
    name: Seq<char>,
    other: Seq<char>,
)
    requires
        names_differ(entries),
    ensures
        fixture_named(without_fixture(entries, name), other) == if other == name {
            None
        } else {
            fixture_named(entries, other)
        },
        names_differ(without_fixture(entries, name)),
{
    let after = without_fixture(entries, name);
    let at = fixture_index(entries, name);
    fixture_index_is_first(entries, name);
    fixture_index_is_first(entries, other);
    let asked = fixture_index(entries, other);
    if at < entries.len() {
        assert forall|i: int| 0 <= i < after.len() implies (#[trigger] after[i]) == entries[
        if i < at {
            i
        } else {
            i + 1
        }] by {}
        assert forall|i: int, j: int| 0 <= i < j < after.len() implies (#[trigger] after[i]).0 != (
        #[trigger] after[j]).0 by {
            let a = if i < at {
                i
            } else {
                i + 1
            };
            let b = if j < at {
                j
            } else {
                j + 1
            };
            assert(entries[a].0 != entries[b].0);
        }
        if other == name {
            assert forall|i: int| 0 <= i < after.len() implies (#[trigger] after[i]).0 != name by {
                let a = if i < at {
                    i
                } else {
                    i + 1
                };
                if a < at {
                    assert(entries[a].0 != entries[at].0);
                } else {
                    assert(entries[at].0 != entries[a].0);
                }
            }
            fixture_index_unique(after, name, after.len() as int);
        } else if asked < entries.len() {
            let place = if asked < at {
                asked
            } else {
                asked - 1
            };
            assert forall|i: int| 0 <= i < place implies (#[trigger] after[i]).0 != other by {
                let a = if i < at {
                    i
                } else {
                    i + 1
                };
                assert(a < asked);
                assert(entries[a].0 != other);
            }
            assert(after[place] == entries[asked]);
            fixture_index_unique(after, other, place);
        } else {
            assert forall|i: int| 0 <= i < after.len() implies (#[trigger] after[i]).0 != other by {
                let a = if i < at {
                    i
                } else {
                    i + 1
                };
                assert(entries[a].0 != other);
            }
            fixture_index_unique(after, other, after.len() as int);
        }
    }
}

/// What an update says of the fixture of a name.
pub open spec fn wanted_fixture(
    members: Seq<(Seq<char>, JsonModel)>,
    before: Option<FixtureModel>,
    name: Seq<char>,
) -> Option<FixtureModel> {
    match member(members, name) {
        None => before,
        Some(JsonModel::Null) => None,
        Some(json) => fixture_of(json),
    }
}

/// Fixtures are merged by their names: null removes one, another value adds it
/// or takes its place, and those that are not mentioned stay.
pub proof fn fixtures_are_merged_by_name(
    existing: Seq<(Seq<char>, FixtureModel)>,
    members: Seq<(Seq<char>, JsonModel)>,
    name: Seq<char>,
)
    requires
        names_differ(existing),
        keys_differ(members),
        merged_fixtures(existing, members) is Ok,
    ensures
        names_differ(merged_fixtures(existing, members)->Ok_0),
        fixture_named(merged_fixtures(existing, members)->Ok_0, name) == wanted_fixture(
            members,
            fixture_named(existing, name),
            name,
        ),
    decreases members.len(),
{
    if members.len() > 0 {
        let front = members.drop_last();
        let (key, json) = members.last();
        assert forall|i: int, j: int| 0 <= i < j < front.len() implies (#[trigger] front[i]).0 != (
        #[trigger] front[j]).0 by {
            assert(members[i].0 != members[j].0);
        }
        fixtures_are_merged_by_name(existing, front, name);
        let before = merged_fixtures(existing, front)->Ok_0;
        assert(members =~= front.push(members.last()));
        member_of_push(front, members.last(), name);
        assert(member(front, key) is None) by {
            member_index_is_first(front, key);
            let at = crate::json::member_index(front, key);
            if at < front.len() {
                assert(members[at].0 != members[members.len() - 1].0);
            }
        }
        if json is Null {
            fixture_named_after_removal(before, key, name);
        } else {
            fixture_named_after_set(before, key, fixture_of(json)->0, name);
        }
    }
}

/// Fixtures can be merged if and only if each is null or a fixture.
pub proof fn fixtures_merge_if_well_formed(
    existing: Seq<(Seq<char>, FixtureModel)>,
    members: Seq<(Seq<char>, JsonModel)>,
)
    ensures
        merged_fixtures(existing, members) is Ok <==> forall|k: int|
            0 <= k < members.len() ==> (#[trigger] members[k]).1 is Null || fixture_of(
                members[k].1,
            ) is Some,
    decreases members.len(),
{
    if members.len() > 0 {
        let front = members.drop_last();
        fixtures_merge_if_well_formed(existing, front);
        if merged_fixtures(existing, members) is Ok {
            assert forall|k: int| 0 <= k < members.len() implies (#[trigger] members[k]).1 is Null
                || fixture_of(members[k].1) is Some by {
                if k < front.len() {
                    assert(front[k] == members[k]);
                }
            }
        } else if forall|k: int|
            0 <= k < members.len() ==> (#[trigger] members[k]).1 is Null || fixture_of(
                members[k].1,
            ) is Some {
            assert forall|k: int| 0 <= k < front.len() implies (#[trigger] front[k]).1 is Null
                || fixture_of(front[k].1) is Some by {
                assert(front[k] == members[k]);
            }
            assert(members[members.len() - 1].1 is Null || fixture_of(
                members[members.len() - 1].1,
            ) is Some);
        }
    }
}

// ---------------------------------------------------------------------------
// One update
// ---------------------------------------------------------------------------

/// The fixture of a name among optional ones.
pub open spec fn optional_named(
    fixtures: Option<Seq<(Seq<char>, FixtureModel)>>,
    name: Seq<char>,
) -> Option<FixtureModel> {
    match fixtures {
        Some(entries) => fixture_named(entries, name),
        None => None,
    }
}

/// What an update does: a field that is absent stays as it was, null removes
/// it, and another value is what it is afterwards. Fixtures are changed by name.
/// The recorded fingerprints, and what is no known field, stay as they were.
pub proof fn update_sets_what_it_says(
    additional: Seq<(Seq<char>, JsonModel)>,
    members: Seq<(Seq<char>, JsonModel)>,
    update: UpdateModel,
)
    requires
        well_formed(additional),
        update_of(JsonModel::Object(members)) == Ok::<UpdateModel, UpdateErrorModel>(update),
        member(members, "fixtures"@) matches Some(JsonModel::Object(changes)) ==> keys_differ(
            changes,
        ),
        updated_additional(additional, update).1 is None,
    ensures
        ({
            let before = data_or_empty(additional);
            let after = data_in(updated_additional(additional, update).0);
            &&& member(members, "cell_id"@) == Some(JsonModel::Text(update.cell_id))
            &&& after is Some
            &&& after->0.shas == before.shas
            &&& after->0.extra == before.extra
            &&& after->0.diff == match member(members, "diff"@) {
                None => before.diff,
                Some(JsonModel::Text(diff)) => Some(diff),
                Some(_) => None,
            }
            &&& after->0.test == match member(members, "test"@) {
                None => before.test,
                Some(JsonModel::Null) => None,
                Some(json) => test_of(json),
            }
            &&& match member(members, "fixtures"@) {
                None => after->0.fixtures == before.fixtures,
                Some(JsonModel::Null) => after->0.fixtures is None,
                Some(JsonModel::Object(changes)) => forall|name: Seq<char>| #[trigger]
                    optional_named(after->0.fixtures, name) == wanted_fixture(
                        changes,
                        optional_named(before.fixtures, name),
                        name,
                    ),
                Some(_) => after->0.fixtures == before.fixtures,
            }
        }),
{
    let before = data_or_empty(additional);
    if let Some(JsonModel::Object(changes)) = member(members, "fixtures"@) {
        let existing = existing_fixtures(additional);
        stored_names_differ(additional);
        assert(merged_fixtures(existing, changes) is Ok);
        let merged = merged_fixtures(existing, changes)->Ok_0;
        fixtures_are_merged_by_name(existing, changes, Seq::empty());
        updated_fields_read_back(additional, update);
        let after = data_in(updated_additional(additional, update).0)->0;
        assert forall|name: Seq<char>| #[trigger]
            optional_named(after.fixtures, name) == wanted_fixture(
                changes,
                optional_named(before.fixtures, name),
                name,
            ) by {
            fixtures_are_merged_by_name(existing, changes, name);
            assert(fixture_named(existing, name) == optional_named(before.fixtures, name));
            if merged.len() == 0 {
                assert(fixture_named(merged, name) is None);
            }
        }
    } else {
        updated_fields_read_back(additional, update);
    }
}

/// The names of the fixtures of a cell differ.
proof fn stored_names_differ(additional: Seq<(Seq<char>, JsonModel)>)
    ensures
        names_differ(existing_fixtures(additional)),
{
    if let Some(JsonModel::Object(members)) = member(additional, METADATA_KEY@) {
        if let Some(JsonModel::Object(changes)) = member(members, "fixtures"@) {
            read_names_differ(changes);
        }
    }
}

/// An update changes the first code cell of its id, and no other.
pub proof fn update_changes_its_cell(cells: Seq<CellModel>, update: UpdateModel, index: int)
    requires
        0 <= index < cells.len(),
        cells[index].is_code(),
        cells[index].id == update.cell_id,
        forall|i: int|
            0 <= i < index ==> !((#[trigger] cells[i]).is_code() && cells[i].id
                == update.cell_id),
    ensures
        ({
            let after = with_update(cells, update).0;
            &&& after.len() == cells.len()
            &&& after[index] == (CellModel {
                additional: updated_additional(cells[index].additional, update).0,
                ..cells[index]
            })
            &&& forall|i: int|
                0 <= i < cells.len() && i != index ==> #[trigger] after[i] == cells[i]
        }),
{
    code_cell_index_is_first(cells, update.cell_id);
    let at = code_cell_index(cells, update.cell_id);
    if at < index {
        assert(cells[at].is_code() && cells[at].id == update.cell_id);
    }
    if index < at {
        assert(!(cells[index].is_code() && cells[index].id == update.cell_id));
    }
}

/// After an update with null for the diff a cell matches `diff:null`, after one
/// with a diff `diff:not null`.
pub proof fn updated_diff_is_filtered(
    nb: NotebookModel,
    members: Seq<(Seq<char>, JsonModel)>,
    update: UpdateModel,
    index: int,
)
    requires
        0 <= index < nb.cells.len(),
        well_formed(nb.cells[index].additional),
        update_of(JsonModel::Object(members)) == Ok::<UpdateModel, UpdateErrorModel>(update),
        member(members, "fixtures"@) matches Some(JsonModel::Object(changes)) ==> keys_differ(
            changes,
        ),
        updated_additional(nb.cells[index].additional, update).1 is None,
    ensures
        ({
            let cell = CellModel {
                additional: updated_additional(nb.cells[index].additional, update).0,
                ..nb.cells[index]
            };
            let after = NotebookModel { cells: nb.cells.update(index, cell), ..nb };
            let null = FilterModel { key: FilterKey::Diff, values: seq!["null"@] };
            let some = FilterModel { key: FilterKey::Diff, values: seq!["not null"@] };
            &&& member(members, "diff"@) == Some(JsonModel::Null) ==> filter_matches(
                null,
                after,
                cell,
                index,
            ) && !filter_matches(some, after, cell, index)
            &&& member(members, "diff"@) matches Some(JsonModel::Text(_)) ==> filter_matches(
                some,
                after,
                cell,
                index,
            ) && !filter_matches(null, after, cell, index)
        }),
{
    let cell = CellModel {
        additional: updated_additional(nb.cells[index].additional, update).0,
        ..nb.cells[index]
    };
    let after = NotebookModel { cells: nb.cells.update(index, cell), ..nb };
    let null = FilterModel { key: FilterKey::Diff, values: seq!["null"@] };
    let some = FilterModel { key: FilterKey::Diff, values: seq!["not null"@] };
    update_sets_what_it_says(nb.cells[index].additional, members, update);
    view_shows_the_cell(after, index);
    diff_filter_goes_by_the_view(null, after, index);
    diff_filter_goes_by_the_view(some, after, index);
    reveal_strlit("null");
    reveal_strlit("not null");
    assert("null"@.len() == 4);
    assert("not null"@.len() == 8);
    assert(null.values[0] == "null"@);
    assert(null.values.contains("null"@));
    assert(!null.values.contains("not null"@));
    assert(some.values[0] == "not null"@);
    assert(some.values.contains("not null"@));
    assert(!some.values.contains("null"@));
}

// ---------------------------------------------------------------------------
// What is refused
// ---------------------------------------------------------------------------

/// Whether a JSON value is source code: a string, or an array of strings.
pub open spec fn is_code_text(json: JsonModel) -> bool {
    match json {
        JsonModel::Text(_) => true,
        JsonModel::Array(items) => forall|i: int|
            0 <= i < items.len() ==> (#[trigger] items[i]) is Text,
        _ => false,
    }
}

/// Source code can be read if and only if it is a string or an array of strings.
pub proof fn code_texts_are_read(json: JsonModel)
    ensures
        source_of(json) is Some <==> is_code_text(json),
{
    if let JsonModel::Array(items) = json {
        texts_are_joined(items);
    }
}

/// A list of strings can be joined.
proof fn texts_are_joined(items: Seq<JsonModel>)
    ensures
        joined_texts(items) is Some <==> forall|i: int|
            0 <= i < items.len() ==> (#[trigger] items[i]) is Text,
    decreases items.len(),
{
    if items.len() > 0 {
        let front = items.drop_last();
        texts_are_joined(front);
        if joined_texts(items) is Some {
            assert forall|i: int| 0 <= i < items.len() implies (#[trigger] items[i]) is Text by {
                if i < front.len() {
                    assert(front[i] == items[i]);
                }
            }
        } else if forall|i: int| 0 <= i < items.len() ==> (#[trigger] items[i]) is Text {
            assert forall|i: int| 0 <= i < front.len() implies (#[trigger] front[i]) is Text by {
                assert(front[i] == items[i]);
            }
            assert(items[items.len() - 1] is Text);
        }
    }
}

/// Whether a JSON value is a fixture with all its fields.
pub open spec fn is_good_fixture(json: JsonModel) -> bool {
    json matches JsonModel::Object(members) && (member(members, "description"@) matches Some(
        JsonModel::Text(_),
    )) && (member(members, "priority"@) matches Some(priority) && integer_of(priority) is Some)
        && (member(members, "source"@) matches Some(source) && is_code_text(source))
}

/// Whether a field of an update is absent, null, or good.
pub open spec fn is_good_update(update: UpdateModel) -> bool {
    &&& match update.fixtures {
        UpdateFieldModel::Value(JsonModel::Object(members)) => forall|k: int|
            0 <= k < members.len() ==> (#[trigger] members[k]).1 is Null || is_good_fixture(
                members[k].1,
            ),
        UpdateFieldModel::Value(_) => false,
        _ => true,
    }
    &&& match update.test {
        UpdateFieldModel::Value(JsonModel::Object(members)) => (member(
            members,
            "name"@,
        ) matches Some(JsonModel::Text(_))) && (member(members, "source"@) matches Some(source)
            && is_code_text(source)),
        UpdateFieldModel::Value(_) => false,
        _ => true,
    }
    &&& match update.diff {
        UpdateFieldModel::Value(json) => json is Text,
        _ => true,
    }
}

/// A fixture is refused if and only if it is not good.
proof fn fixture_is_refused(key: Seq<char>, json: JsonModel)
    ensures
        fixture_diagnostics(key, json).len() == 0 <==> is_good_fixture(json),
{
    if let JsonModel::Object(members) = json {
        if let Some(source) = member(members, "source"@) {
            code_texts_are_read(source);
        }
    }
}

/// Fixtures are refused if and only if one of them is neither null nor good.
proof fn fixtures_are_refused(members: Seq<(Seq<char>, JsonModel)>)
    ensures
        fixture_list_diagnostics(members).len() == 0 <==> forall|k: int|
            0 <= k < members.len() ==> (#[trigger] members[k]).1 is Null || is_good_fixture(
                members[k].1,
            ),
    decreases members.len(),
{
    if members.len() > 0 {
        let front = members.drop_last();
        fixtures_are_refused(front);
        fixture_is_refused(members.last().0, members.last().1);
        if fixture_list_diagnostics(members).len() == 0 {
            assert forall|k: int| 0 <= k < members.len() implies (#[trigger] members[k]).1 is Null
                || is_good_fixture(members[k].1) by {
                if k < front.len() {
                    assert(front[k] == members[k]);
                }
            }
        } else if forall|k: int|
            0 <= k < members.len() ==> (#[trigger] members[k]).1 is Null || is_good_fixture(
                members[k].1,
            ) {
            assert forall|k: int| 0 <= k < front.len() implies (#[trigger] front[k]).1 is Null
                || is_good_fixture(front[k].1) by {
                assert(front[k] == members[k]);
            }
            assert(members[members.len() - 1].1 is Null || is_good_fixture(
                members[members.len() - 1].1,
            ));
        }
    }
}

/// An update is refused if and only if there is no code cell of its id, or one
/// of its fields is not good.
pub proof fn updates_are_refused_if_not_good(update: UpdateModel, cells: Seq<CellModel>)
    ensures
        update_diagnostics(update, cells).len() == 0 <==> is_good_update(update) && exists|i: int|
            0 <= i < cells.len() && (#[trigger] cells[i]).is_code() && cells[i].id
                == update.cell_id,
{
    code_cell_index_is_first(cells, update.cell_id);
    let at = code_cell_index(cells, update.cell_id);
    if at < cells.len() {
        assert(cells[at].is_code() && cells[at].id == update.cell_id);
    } else if exists|i: int|
        0 <= i < cells.len() && (#[trigger] cells[i]).is_code() && cells[i].id
            == update.cell_id {
        let i = choose|i: int|
            0 <= i < cells.len() && (#[trigger] cells[i]).is_code() && cells[i].id
                == update.cell_id;
        assert(!(cells[i].is_code() && cells[i].id == update.cell_id));
    }
    if let UpdateFieldModel::Value(JsonModel::Object(members)) = update.fixtures {
        fixtures_are_refused(members);
    }
    if let UpdateFieldModel::Value(JsonModel::Object(members)) = update.test {
        if let Some(source) = member(members, "source"@) {
            code_texts_are_read(source);
        }
    }
    assert(fixtures_diagnostics(update.fixtures).len() == 0 <==> match update.fixtures {
        UpdateFieldModel::Value(JsonModel::Object(members)) => forall|k: int|
            0 <= k < members.len() ==> (#[trigger] members[k]).1 is Null || is_good_fixture(
                members[k].1,
            ),
        UpdateFieldModel::Value(_) => false,
        _ => true,
    });
    assert(test_diagnostics(update.test).len() == 0 <==> match update.test {
        UpdateFieldModel::Value(JsonModel::Object(members)) => (member(
            members,
            "name"@,
        ) matches Some(JsonModel::Text(_))) && (member(members, "source"@) matches Some(source)
            && is_code_text(source)),
        UpdateFieldModel::Value(_) => false,
        _ => true,
    });
}

// ---------------------------------------------------------------------------
// Reading updates
// ---------------------------------------------------------------------------

/// An array holds an update for each of its items, in their order; it is refused
/// if one of them is.
pub proof fn every_item_is_an_update(items: Seq<JsonModel>)
    ensures
        updates_in(JsonModel::Array(items)) is Ok <==> forall|k: int|
            0 <= k < items.len() ==> update_of(#[trigger] items[k]) is Ok,
        updates_in(JsonModel::Array(items)) matches Ok(updates) ==> updates.len() == items.len()
            && forall|k: int|
            0 <= k < items.len() ==> update_of(#[trigger] items[k]) == Ok::<
                UpdateModel,
                UpdateErrorModel,
            >(updates[k]),
    decreases items.len(),
{
    if items.len() > 0 {
        let front = items.drop_last();
        every_item_is_an_update(front);
        assert(updates_in(JsonModel::Array(front)) == update_list(front));
        if update_list(items) is Ok {
            let updates = update_list(items)->Ok_0;
            let before = update_list(front)->Ok_0;
            assert forall|k: int| 0 <= k < items.len() implies update_of(#[trigger] items[k])
                == Ok::<UpdateModel, UpdateErrorModel>(updates[k]) by {
                if k < front.len() {
                    assert(front[k] == items[k]);
                    assert(before[k] == updates[k]);
                }
            }
        } else if forall|k: int|
            0 <= k < items.len() ==> update_of(#[trigger] items[k]) is Ok {
            assert forall|k: int| 0 <= k < front.len() implies update_of(
                #[trigger] front[k],
            ) is Ok by {
                assert(front[k] == items[k]);
            }
            assert(update_of(items[items.len() - 1]) is Ok);
        }
    }
}

/// An object is an update if and only if its `cell_id` is a string; nothing but
/// objects and arrays holds updates.
pub proof fn an_object_is_an_update(json: JsonModel)
    ensures
        update_of(json) is Ok <==> json is Object && (member(
            json->Object_0,
            "cell_id"@,
        ) matches Some(JsonModel::Text(_))),
        json is Object ==> match update_of(json) {
            Ok(update) => updates_in(json) == Ok::<Seq<UpdateModel>, UpdateErrorModel>(
                seq![update],
            ),
            Err(_) => updates_in(json) is Err,
        },
        !(json is Object) && !(json is Array) ==> updates_in(json) is Err,
{
}

/// Updates are applied one after the other: what comes later goes on from what
/// the earlier ones left, and nothing follows one that fails.
pub proof fn updates_follow_each_other(
    cells: Seq<CellModel>,
    first: Seq<UpdateModel>,
    second: Seq<UpdateModel>,
)
    ensures
        with_updates(cells, first).1 is None ==> with_updates(cells, first + second)
            == with_updates(with_updates(cells, first).0, second),
        with_updates(cells, first).1 is Some ==> with_updates(cells, first + second)
            == with_updates(cells, first),
    decreases second.len(),
{
    let all = first + second;
    if second.len() == 0 {
        assert(all =~= first);
    } else {
        assert(all.drop_last() =~= first + second.drop_last());
        updates_follow_each_other(cells, first, second.drop_last());
    }
}

/// Cells that no update names stay as they are.
pub proof fn unnamed_cells_stay(cells: Seq<CellModel>, updates: Seq<UpdateModel>, index: int)
    requires
        0 <= index < cells.len(),
        can_apply_all(cells, updates),
        forall|k: int|
            0 <= k < updates.len() ==> (#[trigger] updates[k]).cell_id != cells[index].id,
    ensures
        with_updates(cells, updates).0.len() == cells.len(),
        with_updates(cells, updates).0[index] == cells[index],
    decreases updates.len(),
{
    if updates.len() > 0 {
        let front = updates.drop_last();
        assert forall|i: int|
            0 <= i < front.len() && with_updates(cells, front.take(i)).1 is None implies can_apply(
            with_updates(cells, front.take(i)).0,
            #[trigger] front[i],
        ) by {
            assert(front.take(i) =~= updates.take(i));
            assert(front[i] == updates[i]);
        }
        assert forall|k: int| 0 <= k < front.len() implies (#[trigger] front[k]).cell_id
            != cells[index].id by {
            assert(front[k] == updates[k]);
        }
        unnamed_cells_stay(cells, front, index);
        let before = with_updates(cells, front);
        if before.1 is None {
            let update = updates[updates.len() - 1];
            assert(updates.take(updates.len() - 1) =~= front);
            let at = code_cell_index(before.0, update.cell_id);
            assert(at < before.0.len());
            code_cell_index_is_first(before.0, update.cell_id);
            assert(before.0[at].id == update.cell_id);
        }
    }
}

// ---------------------------------------------------------------------------
// Faults
// ---------------------------------------------------------------------------

/// Whether one of the diagnostics is about a field.
pub open spec fn blames(diagnostics: Seq<DiagnosticModel>, field: Seq<char>) -> bool {
    exists|i: int| 0 <= i < diagnostics.len() && (#[trigger] diagnostics[i]).field == field
}

/// Whether all diagnostics are errors about fields that are not as they should be.
pub open spec fn are_field_errors(diagnostics: Seq<DiagnosticModel>) -> bool {
    forall|i: int|
        0 <= i < diagnostics.len() ==> (#[trigger] diagnostics[i]).kind is InvalidField
            && diagnostics[i].severity is Error
}

/// What two lists are about.
proof fn either_blames(first: Seq<DiagnosticModel>, second: Seq<DiagnosticModel>, field: Seq<char>)
    ensures
        blames(first + second, field) <==> blames(first, field) || blames(second, field),
        are_field_errors(first) && are_field_errors(second) ==> are_field_errors(first + second),
{
    let all = first + second;
    if blames(first, field) {
        let i = choose|i: int| 0 <= i < first.len() && (#[trigger] first[i]).field == field;
        assert(all[i].field == field);
    }
    if blames(second, field) {
        let i = choose|i: int| 0 <= i < second.len() && (#[trigger] second[i]).field == field;
        assert(all[first.len() + i].field == field);
    }
    if blames(all, field) {
        let i = choose|i: int| 0 <= i < all.len() && (#[trigger] all[i]).field == field;
        if i < first.len() {
            assert(first[i].field == field);
        } else {
            assert(second[i - first.len()].field == field);
        }
    }
}

/// What the diagnostics of one field are about.
proof fn field_is_blamed(
    value: Option<JsonModel>,
    good: bool,
    missing: Seq<char>,
    malformed: Seq<char>,
    field: Seq<char>,
    other: Seq<char>,
)
    ensures
        ({
            let found = field_diagnostics(value, good, missing, malformed, field);
            &&& are_field_errors(found)
            &&& blames(found, other) <==> other == field && (value is None || !good)
        }),
{
    let found = field_diagnostics(value, good, missing, malformed, field);
    if found.len() > 0 {
        assert(found[0].field == field);
    }
}

/// The faults of a fixture are named: `fixtures.<name>` if it is no object,
/// otherwise each field of it that is missing or not as it should be.
pub proof fn faults_of_fixtures_are_named(key: Seq<char>, json: JsonModel)
    ensures
        ({
            let found = fixture_diagnostics(key, json);
            let named = "fixtures."@ + key;
            &&& are_field_errors(found)
            &&& blames(found, named) <==> !(json is Object)
            &&& json matches JsonModel::Object(members) ==> {
                &&& blames(found, named + ".description"@) <==> !(member(
                    members,
                    "description"@,
                ) matches Some(JsonModel::Text(_)))
                &&& blames(found, named + ".priority"@) <==> !(member(
                    members,
                    "priority"@,
                ) matches Some(priority) && integer_of(priority) is Some)
                &&& blames(found, named + ".source"@) <==> !(member(
                    members,
                    "source"@,
                ) matches Some(source) && is_code_text(source))
            }
        }),
{
    let named = "fixtures."@ + key;
    let found = fixture_diagnostics(key, json);
    reveal_strlit("");
    reveal_strlit(".description");
    reveal_strlit(".priority");
    reveal_strlit(".source");
    assert(named + ""@ =~= named);
    if let JsonModel::Object(members) = json {
        let a = named + ".description"@;
        let b = named + ".priority"@;
        let c = named + ".source"@;
        assert(a.len() == named.len() + 12);
        assert(b.len() == named.len() + 9);
        assert(c.len() == named.len() + 7);
        let description = member(members, "description"@);
        let priority = member(members, "priority"@);
        let source = member(members, "source"@);
        if let Some(text) = source {
            code_texts_are_read(text);
        }
        fixture_parts(key, description, priority, source, a);
        fixture_parts(key, description, priority, source, b);
        fixture_parts(key, description, priority, source, c);
        fixture_parts(key, description, priority, source, named);
    } else {
        assert(found[0].field == named);
    }
}

/// What the diagnostics of the three fields of a fixture are about.
proof fn fixture_parts(
    key: Seq<char>,
    description: Option<JsonModel>,
    priority: Option<JsonModel>,
    source: Option<JsonModel>,
    field: Seq<char>,
)
    ensures
        ({
            let first = field_diagnostics(
                description,
                description is Some && description->0 is Text,
                fixture_message(key, DESCRIPTION_MISSING@),
                fixture_message(key, DESCRIPTION_FORM@),
                fixture_field(key, ".description"@),
            );
            let second = field_diagnostics(
                priority,
                priority is Some && integer_of(priority->0) is Some,
                fixture_message(key, PRIORITY_MISSING@),
                fixture_message(key, PRIORITY_FORM@),
                fixture_field(key, ".priority"@),
            );
            let third = field_diagnostics(
                source,
                source is Some && is_source_like(source->0),
                fixture_message(key, SOURCE_MISSING@),
                fixture_message(key, SOURCE_FORM@),
                fixture_field(key, ".source"@),
            );
            &&& are_field_errors(first + second + third)
            &&& blames(first + second + third, field) <==> {
                ||| field == "fixtures."@ + key + ".description"@ && !(description is Some
                    && description->0 is Text)
                ||| field == "fixtures."@ + key + ".priority"@ && !(priority is Some && integer_of(
                    priority->0,
                ) is Some)
                ||| field == "fixtures."@ + key + ".source"@ && !(source is Some && is_source_like(
                    source->0,
                ))
            }
        }),
{
    let a = fixture_field(key, ".description"@);
    let b = fixture_field(key, ".priority"@);
    let c = fixture_field(key, ".source"@);
    let first = field_diagnostics(
        description,
        description is Some && description->0 is Text,
        fixture_message(key, DESCRIPTION_MISSING@),
        fixture_message(key, DESCRIPTION_FORM@),
        a,
    );
    let second = field_diagnostics(
        priority,
        priority is Some && integer_of(priority->0) is Some,
        fixture_message(key, PRIORITY_MISSING@),
        fixture_message(key, PRIORITY_FORM@),
        b,
    );
    let third = field_diagnostics(
        source,
        source is Some && is_source_like(source->0),
        fixture_message(key, SOURCE_MISSING@),
        fixture_message(key, SOURCE_FORM@),
        c,
    );
    field_is_blamed(
        description,
        description is Some && description->0 is Text,
        fixture_message(key, DESCRIPTION_MISSING@),
        fixture_message(key, DESCRIPTION_FORM@),
        a,
        field,
    );
    field_is_blamed(
        priority,
        priority is Some && integer_of(priority->0) is Some,
        fixture_message(key, PRIORITY_MISSING@),
        fixture_message(key, PRIORITY_FORM@),
        b,
        field,
    );
    field_is_blamed(
        source,
        source is Some && is_source_like(source->0),
        fixture_message(key, SOURCE_MISSING@),
        fixture_message(key, SOURCE_FORM@),
        c,
        field,
    );
    either_blames(first, second, field);
    either_blames(first + second, third, field);
}

/// The faults of fixtures are all about fixtures, and none is left out.
proof fn fixtures_are_blamed(members: Seq<(Seq<char>, JsonModel)>)
    ensures
        ({
            let found = fixture_list_diagnostics(members);
            &&& are_field_errors(found)
            &&& forall|i: int|
                0 <= i < found.len() ==> (#[trigger] found[i]).field.len() > 8 && found[i].field[0]
                    == 'f'
            &&& forall|k: int, i: int|
                0 <= k < members.len() && !((#[trigger] members[k]).1 is Null) && 0 <= i
                    < fixture_diagnostics(members[k].0, members[k].1).len() ==> found.contains(
                    #[trigger] fixture_diagnostics(members[k].0, members[k].1)[i],
                )
        }),
    decreases members.len(),
{
    let found = fixture_list_diagnostics(members);
    if members.len() > 0 {
        let front = members.drop_last();
        let last = members.last();
        let before = fixture_list_diagnostics(front);
        let own = fixture_diagnostics(last.0, last.1);
        fixtures_are_blamed(front);
        faults_of_fixtures_are_named(last.0, last.1);
        reveal_strlit("fixtures.");
        assert forall|i: int| 0 <= i < own.len() implies (#[trigger] own[i]).field.len() > 8
            && own[i].field[0] == 'f' by {}
        either_blames(before, own, Seq::empty());
        assert forall|k: int, i: int|
            0 <= k < members.len() && !((#[trigger] members[k]).1 is Null) && 0 <= i
                < fixture_diagnostics(members[k].0, members[k].1).len() implies found.contains(
            #[trigger] fixture_diagnostics(members[k].0, members[k].1)[i],
        ) by {
            let fault = fixture_diagnostics(members[k].0, members[k].1)[i];
            if k < front.len() {
                assert(front[k] == members[k]);
                assert(before.contains(fixture_diagnostics(front[k].0, front[k].1)[i]));
                let j = choose|j: int| 0 <= j < before.len() && before[j] == fault;
                assert(found[j] == fault);
            } else {
                assert(found[before.len() + i] == fault);
            }
        }
    }
}

/// The faults of an update are errors that name what is wrong: `cell_id` if there
/// is no such code cell; otherwise `diff` if it is no string, `test` if it is no
/// object, its `test.name` and `test.source` if they are missing or not as they
/// should be, and `fixtures` if they are no object.
pub proof fn faults_are_named(update: UpdateModel, cells: Seq<CellModel>)
    ensures
        ({
            let found = update_diagnostics(update, cells);
            let known = exists|i: int|
                0 <= i < cells.len() && (#[trigger] cells[i]).is_code() && cells[i].id
                    == update.cell_id;
            &&& are_field_errors(found)
            &&& blames(found, "cell_id"@) <==> !known
            &&& known ==> {
                &&& blames(found, "diff"@) <==> update.diff is Value && !(update.diff->0 is Text)
                &&& blames(found, "test"@) <==> update.test is Value && !(update.test->0 is Object)
                &&& blames(found, "fixtures"@) <==> update.fixtures is Value
                    && !(update.fixtures->0 is Object)
                &&& blames(found, "test.name"@) <==> (update.test matches UpdateFieldModel::Value(
                    JsonModel::Object(members),
                ) && !(member(members, "name"@) matches Some(JsonModel::Text(_))))
                &&& blames(found, "test.source"@) <==> (update.test matches UpdateFieldModel::Value(
                    JsonModel::Object(members),
                ) && !(member(members, "source"@) matches Some(source) && is_code_text(source)))
            }
        }),
{
    code_cell_index_is_first(cells, update.cell_id);
    let at = code_cell_index(cells, update.cell_id);
    let found = update_diagnostics(update, cells);
    if at >= cells.len() {
        assert(found[0].field == "cell_id"@);
        if exists|i: int|
            0 <= i < cells.len() && (#[trigger] cells[i]).is_code() && cells[i].id
                == update.cell_id {
            let i = choose|i: int|
                0 <= i < cells.len() && (#[trigger] cells[i]).is_code() && cells[i].id
                    == update.cell_id;
            assert(!(cells[i].is_code() && cells[i].id == update.cell_id));
        }
    } else {
        assert(cells[at].is_code() && cells[at].id == update.cell_id);
        update_fields_differ();
        parts_are_blamed(update, "cell_id"@);
        parts_are_blamed(update, "diff"@);
        parts_are_blamed(update, "test"@);
        parts_are_blamed(update, "fixtures"@);
        parts_are_blamed(update, "test.name"@);
        parts_are_blamed(update, "test.source"@);
        if let UpdateFieldModel::Value(JsonModel::Object(members)) = update.test {
            if let Some(source) = member(members, "source"@) {
                code_texts_are_read(source);
            }
        }
    }
}

/// The names of the fields of an update differ.
proof fn update_fields_differ()
    ensures
        "cell_id"@.len() <= 8 && "diff"@.len() <= 8 && "test"@.len() <= 8 && "fixtures"@.len() <= 8,
        "test.name"@[0] != 'f' && "test.source"@[0] != 'f',
        "cell_id"@ != "diff"@ && "cell_id"@ != "test"@ && "cell_id"@ != "fixtures"@,
        "cell_id"@ != "test.name"@ && "cell_id"@ != "test.source"@,
        "diff"@ != "test"@ && "diff"@ != "fixtures"@ && "diff"@ != "test.name"@,
        "diff"@ != "test.source"@ && "test"@ != "fixtures"@ && "test"@ != "test.name"@,
        "test"@ != "test.source"@ && "fixtures"@ != "test.name"@ && "fixtures"@ != "test.source"@,
        "test.name"@ != "test.source"@,
{
    reveal_strlit("cell_id");
    reveal_strlit("diff");
    reveal_strlit("test");
    reveal_strlit("fixtures");
    reveal_strlit("test.name");
    reveal_strlit("test.source");
    assert("cell_id"@.len() == 7 && "diff"@.len() == 4 && "test"@.len() == 4);
    assert("fixtures"@.len() == 8 && "test.name"@.len() == 9 && "test.source"@.len() == 11);
    assert("diff"@[0] == 'd' && "test"@[0] == 't');
}

/// All faults of each fixture are among those of the update.
pub proof fn faults_of_each_fixture_are_told(
    update: UpdateModel,
    cells: Seq<CellModel>,
    members: Seq<(Seq<char>, JsonModel)>,
    at: int,
    k: int,
    i: int,
)
    requires
        0 <= at < cells.len(),
        cells[at].is_code() && cells[at].id == update.cell_id,
        update.fixtures == UpdateFieldModel::Value(JsonModel::Object(members)),
        0 <= k < members.len(),
        !(members[k].1 is Null),
        0 <= i < fixture_diagnostics(members[k].0, members[k].1).len(),
    ensures
        update_diagnostics(update, cells).contains(
            fixture_diagnostics(members[k].0, members[k].1)[i],
        ),
{
    code_cell_index_is_first(cells, update.cell_id);
    if code_cell_index(cells, update.cell_id) >= cells.len() {
        assert(!(cells[at].is_code() && cells[at].id == update.cell_id));
    }
    fixtures_are_blamed(members);
    let found = update_diagnostics(update, cells);
    let first = fixture_list_diagnostics(members);
    let fault = fixture_diagnostics(members[k].0, members[k].1)[i];
    assert(first.contains(fault));
    let j = choose|j: int| 0 <= j < first.len() && first[j] == fault;
    assert(found[j] == fault);
}

/// What the diagnostics of the parts of an update are about.
proof fn parts_are_blamed(update: UpdateModel, field: Seq<char>)
    requires
        field.len() <= 8 || field[0] != 'f',
    ensures
        ({
            let found = fixtures_diagnostics(update.fixtures) + test_diagnostics(update.test)
                + diff_diagnostics(update.diff);
            &&& are_field_errors(found)
            &&& blames(found, field) <==> {
                ||| field == "fixtures"@ && update.fixtures is Value && !(
                update.fixtures->0 is Object)
                ||| field == "diff"@ && update.diff is Value && !(update.diff->0 is Text)
                ||| field == "test"@ && update.test is Value && !(update.test->0 is Object)
                ||| field == "test.name"@ && (update.test matches UpdateFieldModel::Value(
                    JsonModel::Object(members),
                ) && !(member(members, "name"@) matches Some(JsonModel::Text(_))))
                ||| field == "test.source"@ && (update.test matches UpdateFieldModel::Value(
                    JsonModel::Object(members),
                ) && !(member(members, "source"@) matches Some(source) && is_source_like(source)))
            }
        }),
{
    let fixtures = fixtures_diagnostics(update.fixtures);
    let test = test_diagnostics(update.test);
    let diff = diff_diagnostics(update.diff);
    if let UpdateFieldModel::Value(json) = update.fixtures {
        if let JsonModel::Object(members) = json {
            fixtures_are_blamed(members);
        } else {
            assert(fixtures[0].field == "fixtures"@);
        }
    }
    assert(blames(fixtures, field) <==> field == "fixtures"@ && update.fixtures is Value && !(
    update.fixtures->0 is Object));
    if let UpdateFieldModel::Value(json) = update.test {
        if let JsonModel::Object(members) = json {
            let name = member(members, "name"@);
            let source = member(members, "source"@);
            let good = name is Some && name->0 is Text;
            let fine = source is Some && is_source_like(source->0);
            let first = field_diagnostics(
                name,
                good,
                TEST_NAME_MISSING@,
                TEST_NAME_FORM@,
                "test.name"@,
            );
            let second = field_diagnostics(
                source,
                fine,
                TEST_SOURCE_MISSING@,
                TEST_SOURCE_FORM@,
                "test.source"@,
            );
            field_is_blamed(
                name,
                good,
                TEST_NAME_MISSING@,
                TEST_NAME_FORM@,
                "test.name"@,
                field,
            );
            field_is_blamed(
                source,
                fine,
                TEST_SOURCE_MISSING@,
                TEST_SOURCE_FORM@,
                "test.source"@,
                field,
            );
            either_blames(first, second, field);
        } else {
            assert(test[0].field == "test"@);
        }
    }
    if diff.len() > 0 {
        assert(diff[0].field == "diff"@);
    }
    either_blames(fixtures, test, field);
    either_blames(fixtures + test, diff, field);
}

} // verus!
