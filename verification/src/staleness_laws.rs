//! What makes a cell out of date, and what is said of it.
use vstd::prelude::*;

use crate::commands::{accepted_all, can_accept};
use crate::diagnostics::{
    cell_diagnostics, own_diagnostics, DiagnosticModel, DiagnosticType, Severity, CONFLICT_MESSAGE,
    MISSING_MESSAGE,
};
use crate::diff_utils::patched_text;
use crate::json::{member_of_with_member, with_member, without_member, JsonModel};
use crate::metadata::{nb_members, shas_json, writable, DataModel, ShaModel, METADATA_KEY};
use crate::metadata_laws::{shas_field_reads_back, well_formed};
use crate::notebook::{CellModel, NotebookModel};
use crate::sha_laws::{cell_ids_differ, entry_index_unique};
use crate::shas::{
    accepted, ancestor_reasons, canonical_text, cell_sha, common_ids, deleted_reasons, entry_index,
    entry_index_is_first, ids_of, inserted_reasons, modified_reasons, order_changed, own_reasons,
    preceding, recorded_sha, sha1_hex, sha_subject, snapshot,
};

verus! {

// ---------------------------------------------------------------------------
// What was recorded
// ---------------------------------------------------------------------------

/// Whether a cell was recorded.
pub open spec fn was_recorded(stored: Seq<ShaModel>, id: Seq<char>) -> bool {
    exists|k: int| 0 <= k < stored.len() && (#[trigger] stored[k]).cell_id == id
}

/// Whether a cell was recorded with a fingerprint; the first record counts.
pub open spec fn was_recorded_as(stored: Seq<ShaModel>, id: Seq<char>, sha: Seq<char>) -> bool {
    exists|k: int|
        0 <= k < stored.len() && (#[trigger] stored[k]) == (ShaModel { cell_id: id, sha })
            && forall|j: int| 0 <= j < k ==> (#[trigger] stored[j]).cell_id != id
}

/// Whether a cell is in a notebook.
pub open spec fn is_there(nb: NotebookModel, id: Seq<char>) -> bool {
    exists|i: int| 0 <= i < nb.cells.len() && (#[trigger] nb.cells[i]).id == id
}

/// The recorded fingerprint of a cell.
proof fn recorded_sha_is(stored: Seq<ShaModel>, id: Seq<char>)
    ensures
        match recorded_sha(stored, id) {
            Some(sha) => was_recorded_as(stored, id, sha) && was_recorded(stored, id),
            None => !was_recorded(stored, id),
        },
        forall|sha: Seq<char>| #[trigger]
            was_recorded_as(stored, id, sha) ==> recorded_sha(stored, id) == Some(sha),
{
    entry_index_is_first(stored, id);
    let at = entry_index(stored, id);
    if at < stored.len() {
        assert(stored[at] == (ShaModel { cell_id: id, sha: stored[at].sha }));
    }
    assert forall|sha: Seq<char>| #[trigger]
        was_recorded_as(stored, id, sha) implies recorded_sha(stored, id) == Some(sha) by {
        let k = choose|k: int|
            0 <= k < stored.len() && (#[trigger] stored[k]) == (ShaModel { cell_id: id, sha })
                && forall|j: int| 0 <= j < k ==> (#[trigger] stored[j]).cell_id != id;
        entry_index_unique(stored, id, k);
    }
}

/// Ids among the recorded ones, and among those of a notebook.
proof fn ids_are(stored: Seq<ShaModel>, nb: NotebookModel, id: Seq<char>)
    ensures
        ids_of(stored).contains(id) <==> was_recorded(stored, id),
        ids_of(snapshot(nb)).contains(id) <==> is_there(nb, id),
{
    let ids = ids_of(stored);
    if ids.contains(id) {
        let k = choose|k: int| 0 <= k < ids.len() && ids[k] == id;
        assert(stored[k].cell_id == id);
    }
    if was_recorded(stored, id) {
        let k = choose|k: int| 0 <= k < stored.len() && (#[trigger] stored[k]).cell_id == id;
        assert(ids[k] == id);
    }
    let current = ids_of(snapshot(nb));
    if current.contains(id) {
        let i = choose|i: int| 0 <= i < current.len() && current[i] == id;
        assert(nb.cells[i].id == id);
    }
    if is_there(nb, id) {
        let i = choose|i: int| 0 <= i < nb.cells.len() && (#[trigger] nb.cells[i]).id == id;
        assert(current[i] == id);
    }
}

/// The cells before one are those that stand before it.
proof fn preceding_are_before(nb: NotebookModel, index: int)
    requires
        cell_ids_differ(nb),
        0 <= index < nb.cells.len(),
    ensures
        preceding(snapshot(nb), nb.cells[index].id) == snapshot(nb).take(index),
{
    let current = snapshot(nb);
    assert forall|i: int| 0 <= i < index implies (#[trigger] current[i]).cell_id
        != nb.cells[index].id by {
        assert(nb.cells[i].id != nb.cells[index].id);
    }
    entry_index_unique(current, nb.cells[index].id, index);
}

// ---------------------------------------------------------------------------
// Messages
// ---------------------------------------------------------------------------

/// What is said of a cell that is gone.
pub open spec fn says_deleted(id: Seq<char>) -> Seq<char> {
    "Preceding cell `"@ + id + "` was deleted (present at last validation, now missing)"@
}

/// What is said of a cell that is new.
pub open spec fn says_inserted(id: Seq<char>) -> Seq<char> {
    "Preceding cell `"@ + id + "` was inserted (not present at last validation)"@
}

/// What is said of a cell that is not what it was.
pub open spec fn says_modified(id: Seq<char>) -> Seq<char> {
    "Preceding cell `"@ + id + "` was modified"@
}

/// The messages about cells that are gone: one for each record of one.
proof fn deleted_are_told(stored: Seq<ShaModel>, nb: NotebookModel)
    ensures
        forall|k: int|
            0 <= k < stored.len() && !is_there(nb, (#[trigger] stored[k]).cell_id)
                ==> deleted_reasons(stored, snapshot(nb)).contains(
                says_deleted(stored[k].cell_id),
            ),
        forall|i: int|
            0 <= i < deleted_reasons(stored, snapshot(nb)).len() ==> exists|id: Seq<char>|
                was_recorded(stored, id) && !is_there(nb, id) && (#[trigger] deleted_reasons(
                    stored,
                    snapshot(nb),
                )[i]) == #[trigger] says_deleted(id),
    decreases stored.len(),
{
    let all = deleted_reasons(stored, snapshot(nb));
    if stored.len() > 0 {
        let front = stored.drop_last();
        let before = deleted_reasons(front, snapshot(nb));
        let last = stored.last().cell_id;
        deleted_are_told(front, nb);
        ids_are(stored, nb, last);
        assert forall|k: int|
            0 <= k < stored.len() && !is_there(
                nb,
                (#[trigger] stored[k]).cell_id,
            ) implies all.contains(says_deleted(stored[k].cell_id)) by {
            if k < front.len() {
                assert(front[k] == stored[k]);
                let j = choose|j: int|
                    0 <= j < before.len() && before[j] == says_deleted(front[k].cell_id);
                assert(all[j] == before[j]);
            } else {
                assert(all[all.len() - 1] == says_deleted(last));
            }
        }
        assert forall|i: int| 0 <= i < all.len() implies exists|id: Seq<char>|
            was_recorded(stored, id) && !is_there(nb, id) && (#[trigger] all[i])
                == #[trigger] says_deleted(id) by {
            if i < before.len() {
                assert(before[i] == all[i]);
                let id = choose|id: Seq<char>|
                    was_recorded(front, id) && !is_there(nb, id) && before[i]
                        == #[trigger] says_deleted(id);
                let k = choose|k: int| 0 <= k < front.len() && (#[trigger] front[k]).cell_id == id;
                assert(stored[k].cell_id == id);
                assert(was_recorded(stored, id));
            } else {
                assert(stored[stored.len() - 1].cell_id == last);
                assert(was_recorded(stored, last));
                assert(all[i] == says_deleted(last));
            }
        }
    }
}

/// The messages about cells that are new: one for each of them.
proof fn inserted_are_told(before: Seq<ShaModel>, stored: Seq<ShaModel>, nb: NotebookModel)
    ensures
        forall|k: int|
            0 <= k < before.len() && !was_recorded(stored, (#[trigger] before[k]).cell_id)
                ==> inserted_reasons(before, stored).contains(says_inserted(before[k].cell_id)),
        forall|i: int|
            0 <= i < inserted_reasons(before, stored).len() ==> exists|k: int|
                0 <= k < before.len() && !was_recorded(stored, before[k].cell_id) && (
                #[trigger] inserted_reasons(before, stored)[i]) == says_inserted(
                    (#[trigger] before[k]).cell_id,
                ),
    decreases before.len(),
{
    let all = inserted_reasons(before, stored);
    if before.len() > 0 {
        let front = before.drop_last();
        let earlier = inserted_reasons(front, stored);
        let last = before.last().cell_id;
        inserted_are_told(front, stored, nb);
        ids_are(stored, nb, last);
        assert forall|k: int|
            0 <= k < before.len() && !was_recorded(
                stored,
                (#[trigger] before[k]).cell_id,
            ) implies all.contains(says_inserted(before[k].cell_id)) by {
            if k < front.len() {
                assert(front[k] == before[k]);
                let j = choose|j: int|
                    0 <= j < earlier.len() && earlier[j] == says_inserted(front[k].cell_id);
                assert(all[j] == earlier[j]);
            } else {
                assert(all[all.len() - 1] == says_inserted(last));
            }
        }
        assert forall|i: int| 0 <= i < all.len() implies exists|k: int|
            0 <= k < before.len() && !was_recorded(stored, before[k].cell_id) && (
            #[trigger] all[i]) == says_inserted((#[trigger] before[k]).cell_id) by {
            if i < earlier.len() {
                assert(earlier[i] == all[i]);
                let k = choose|k: int|
                    0 <= k < front.len() && !was_recorded(stored, front[k].cell_id) && earlier[i]
                        == says_inserted((#[trigger] front[k]).cell_id);
                assert(before[k] == front[k]);
            } else {
                assert(before[before.len() - 1].cell_id == last);
                assert(all[i] == says_inserted(before[before.len() - 1].cell_id));
            }
        }
    }
}

/// The messages about cells that are not what they were: one for each of them.
proof fn modified_are_told(before: Seq<ShaModel>, stored: Seq<ShaModel>)
    ensures
        forall|k: int|
            0 <= k < before.len() && was_recorded(stored, (#[trigger] before[k]).cell_id)
                && !was_recorded_as(stored, before[k].cell_id, before[k].sha)
                ==> modified_reasons(before, stored).contains(says_modified(before[k].cell_id)),
        forall|i: int|
            0 <= i < modified_reasons(before, stored).len() ==> exists|k: int|
                0 <= k < before.len() && was_recorded(stored, before[k].cell_id)
                    && !was_recorded_as(stored, before[k].cell_id, before[k].sha) && (
                #[trigger] modified_reasons(before, stored)[i]) == says_modified(
                    (#[trigger] before[k]).cell_id,
                ),
    decreases before.len(),
{
    let all = modified_reasons(before, stored);
    if before.len() > 0 {
        let front = before.drop_last();
        let earlier = modified_reasons(front, stored);
        let last = before.last();
        modified_are_told(front, stored);
        recorded_sha_is(stored, last.cell_id);
        assert forall|k: int|
            0 <= k < before.len() && was_recorded(stored, (#[trigger] before[k]).cell_id)
                && !was_recorded_as(
                stored,
                before[k].cell_id,
                before[k].sha,
            ) implies all.contains(says_modified(before[k].cell_id)) by {
            if k < front.len() {
                assert(front[k] == before[k]);
                let j = choose|j: int|
                    0 <= j < earlier.len() && earlier[j] == says_modified(front[k].cell_id);
                assert(all[j] == earlier[j]);
            } else {
                assert(all[all.len() - 1] == says_modified(last.cell_id));
            }
        }
        assert forall|i: int| 0 <= i < all.len() implies exists|k: int|
            0 <= k < before.len() && was_recorded(stored, before[k].cell_id) && !was_recorded_as(
                stored,
                before[k].cell_id,
                before[k].sha,
            ) && (#[trigger] all[i]) == says_modified((#[trigger] before[k]).cell_id) by {
            if i < earlier.len() {
                assert(earlier[i] == all[i]);
                let k = choose|k: int|
                    0 <= k < front.len() && was_recorded(stored, front[k].cell_id)
                        && !was_recorded_as(stored, front[k].cell_id, front[k].sha) && earlier[i]
                        == says_modified((#[trigger] front[k]).cell_id);
                assert(before[k] == front[k]);
            } else {
                assert(before[before.len() - 1] == last);
                assert(all[i] == says_modified(before[before.len() - 1].cell_id));
            }
        }
    }
}

/// A cell is told to be reviewed if and only if it was recorded, and with
/// another fingerprint than it has.
pub proof fn own_change_is_told(stored: Seq<ShaModel>, cell: CellModel)
    ensures
        own_reasons(stored, cell) == if was_recorded(stored, cell.id) && !was_recorded_as(
            stored,
            cell.id,
            cell_sha(cell),
        ) {
            seq!["Cell source changed since fixtures were last validated"@]
        } else {
            Seq::<Seq<char>>::empty()
        },
{
    recorded_sha_is(stored, cell.id);
}

/// Whether a message is about a change before a cell.
pub open spec fn tells_a_change(
    nb: NotebookModel,
    index: int,
    stored: Seq<ShaModel>,
    message: Seq<char>,
) -> bool {
    ||| exists|id: Seq<char>|
        was_recorded(stored, id) && !is_there(nb, id) && message == #[trigger] says_deleted(id)
    ||| exists|i: int|
        0 <= i < index && !was_recorded(stored, nb.cells[i].id) && message == says_inserted(
            (#[trigger] nb.cells[i]).id,
        )
    ||| exists|i: int|
        0 <= i < index && was_recorded(stored, nb.cells[i].id) && !was_recorded_as(
            stored,
            nb.cells[i].id,
            cell_sha(nb.cells[i]),
        ) && message == says_modified((#[trigger] nb.cells[i]).id)
    ||| order_changed(stored, snapshot(nb)) && message
        == "Cell ordering changed since last validation"@
}

/// Of the cells before a cell it is told which are gone, which are new, which
/// are not what they were, and if their order changed; nothing else is told. The
/// ids of the cells differ.
pub proof fn changes_before_a_cell_are_told(
    nb: NotebookModel,
    index: int,
    stored: Seq<ShaModel>,
)
    requires
        cell_ids_differ(nb),
        0 <= index < nb.cells.len(),
    ensures
        forall|k: int|
            0 <= k < stored.len() && !is_there(nb, (#[trigger] stored[k]).cell_id)
                ==> ancestor_reasons(nb, index, stored).contains(
                says_deleted(stored[k].cell_id),
            ),
        forall|i: int|
            0 <= i < index && !was_recorded(stored, (#[trigger] nb.cells[i]).id)
                ==> ancestor_reasons(nb, index, stored).contains(says_inserted(nb.cells[i].id)),
        forall|i: int|
            0 <= i < index && was_recorded(stored, (#[trigger] nb.cells[i]).id)
                && !was_recorded_as(stored, nb.cells[i].id, cell_sha(nb.cells[i]))
                ==> ancestor_reasons(nb, index, stored).contains(says_modified(nb.cells[i].id)),
        order_changed(stored, snapshot(nb)) ==> ancestor_reasons(nb, index, stored).contains(
            "Cell ordering changed since last validation"@,
        ),
        forall|i: int|
            0 <= i < ancestor_reasons(nb, index, stored).len() ==> tells_a_change(
                nb,
                index,
                stored,
                #[trigger] ancestor_reasons(nb, index, stored)[i],
            ),
{
    let current = snapshot(nb);
    let before = current.take(index);
    preceding_are_before(nb, index);
    deleted_are_told(stored, nb);
    inserted_are_told(before, stored, nb);
    modified_are_told(before, stored);
    let deleted = deleted_reasons(stored, current);
    let inserted = inserted_reasons(before, stored);
    let order = crate::shas::order_reasons(stored, current);
    let modified = modified_reasons(before, stored);
    let all = ancestor_reasons(nb, index, stored);
    assert(all == deleted + inserted + order + modified);
    assert forall|message: Seq<char>| #[trigger]
        all.contains(message) <==> deleted.contains(message) || inserted.contains(message)
            || order.contains(message) || modified.contains(message) by {
        contains_of_sum(deleted + inserted + order, modified, message);
        contains_of_sum(deleted + inserted, order, message);
        contains_of_sum(deleted, inserted, message);
    }
    assert forall|i: int|
        0 <= i < index && !was_recorded(
            stored,
            (#[trigger] nb.cells[i]).id,
        ) implies all.contains(says_inserted(nb.cells[i].id)) by {
        assert(before[i].cell_id == nb.cells[i].id);
    }
    assert forall|i: int|
        0 <= i < index && was_recorded(stored, (#[trigger] nb.cells[i]).id) && !was_recorded_as(
            stored,
            nb.cells[i].id,
            cell_sha(nb.cells[i]),
        ) implies all.contains(says_modified(nb.cells[i].id)) by {
        assert(before[i] == (ShaModel {
            cell_id: nb.cells[i].id,
            sha: cell_sha(nb.cells[i]),
        }));
    }
    if order_changed(stored, current) {
        assert(order[0] == "Cell ordering changed since last validation"@);
        assert(order.contains(order[0]));
    }
    assert forall|i: int| 0 <= i < all.len() implies tells_a_change(
        nb,
        index,
        stored,
        #[trigger] all[i],
    ) by {
        let message = all[i];
        assert(all.contains(message));
        if deleted.contains(message) {
            let j = choose|j: int| 0 <= j < deleted.len() && deleted[j] == message;
            let id = choose|id: Seq<char>|
                was_recorded(stored, id) && !is_there(nb, id) && deleted[j]
                    == #[trigger] says_deleted(id);
            assert(message == says_deleted(id));
        } else if inserted.contains(message) {
            let j = choose|j: int| 0 <= j < inserted.len() && inserted[j] == message;
            let k = choose|k: int|
                0 <= k < before.len() && !was_recorded(stored, before[k].cell_id) && inserted[j]
                    == says_inserted((#[trigger] before[k]).cell_id);
            assert(before[k].cell_id == nb.cells[k].id);
        } else if modified.contains(message) {
            let j = choose|j: int| 0 <= j < modified.len() && modified[j] == message;
            let k = choose|k: int|
                0 <= k < before.len() && was_recorded(stored, before[k].cell_id)
                    && !was_recorded_as(stored, before[k].cell_id, before[k].sha) && modified[j]
                    == says_modified((#[trigger] before[k]).cell_id);
            assert(before[k] == (ShaModel {
                cell_id: nb.cells[k].id,
                sha: cell_sha(nb.cells[k]),
            }));
        }
    }
}

/// What lists put together hold.
proof fn contains_of_sum(first: Seq<Seq<char>>, second: Seq<Seq<char>>, message: Seq<char>)
    ensures
        (first + second).contains(message) <==> first.contains(message) || second.contains(message),
{
    let all = first + second;
    if all.contains(message) {
        let i = choose|i: int| 0 <= i < all.len() && all[i] == message;
        if i < first.len() {
            assert(first[i] == message);
        } else {
            assert(second[i - first.len()] == message);
        }
    }
    if first.contains(message) {
        let i = choose|i: int| 0 <= i < first.len() && first[i] == message;
        assert(all[i] == message);
    }
    if second.contains(message) {
        let i = choose|i: int| 0 <= i < second.len() && second[i] == message;
        assert(all[first.len() + i] == message);
    }
}

// ---------------------------------------------------------------------------
// Order
// ---------------------------------------------------------------------------

/// What is common to two lists stands in the order of the first.
proof fn common_in_order(list: Seq<Seq<char>>, allowed: Seq<Seq<char>>, i: int, j: int)
    requires
        0 <= i < j < list.len(),
        allowed.contains(list[i]),
        allowed.contains(list[j]),
    ensures
        exists|p: int, q: int|
            0 <= p < q < common_ids(list, allowed).len() && #[trigger] common_ids(
                list,
                allowed,
            )[p] == list[i] && #[trigger] common_ids(list, allowed)[q] == list[j],
    decreases list.len(),
{
    let front = list.drop_last();
    let before = common_ids(front, allowed);
    let all = common_ids(list, allowed);
    if j < front.len() {
        common_in_order(front, allowed, i, j);
        let (p, q) = choose|p: int, q: int|
            0 <= p < q < before.len() && #[trigger] before[p] == front[i] && #[trigger] before[q]
                == front[j];
        assert(all[p] == before[p]);
        assert(all[q] == before[q]);
    } else {
        common_has(front, allowed, i);
        let p = choose|p: int| 0 <= p < before.len() && before[p] == front[i];
        assert(all[p] == before[p]);
        assert(all[before.len() as int] == list[j]);
    }
}

/// What is common to two lists is found.
proof fn common_has(list: Seq<Seq<char>>, allowed: Seq<Seq<char>>, i: int)
    requires
        0 <= i < list.len(),
        allowed.contains(list[i]),
    ensures
        common_ids(list, allowed).contains(list[i]),
    decreases list.len(),
{
    let front = list.drop_last();
    let before = common_ids(front, allowed);
    let all = common_ids(list, allowed);
    if i < front.len() {
        common_has(front, allowed, i);
        let p = choose|p: int| 0 <= p < before.len() && before[p] == front[i];
        assert(all[p] == before[p]);
    } else {
        assert(all[all.len() - 1] == list[i]);
    }
}

/// What is common comes from the first list, each from a place of its own and in
/// its order.
proof fn common_comes_from(list: Seq<Seq<char>>, allowed: Seq<Seq<char>>, p: int, q: int)
    requires
        0 <= p < q < common_ids(list, allowed).len(),
    ensures
        exists|i: int, j: int|
            0 <= i < j < list.len() && #[trigger] list[i] == common_ids(list, allowed)[p]
                && #[trigger] list[j] == common_ids(list, allowed)[q],
    decreases list.len(),
{
    let front = list.drop_last();
    let before = common_ids(front, allowed);
    let all = common_ids(list, allowed);
    if q < before.len() {
        common_comes_from(front, allowed, p, q);
        let (i, j) = choose|i: int, j: int|
            0 <= i < j < front.len() && #[trigger] front[i] == before[p] && #[trigger] front[j]
                == before[q];
        assert(list[i] == front[i]);
        assert(list[j] == front[j]);
    } else {
        common_is_from(front, allowed, p);
        let i = choose|i: int| 0 <= i < front.len() && front[i] == before[p];
        assert(list[i] == front[i]);
        assert(list[list.len() - 1] == all[q]);
    }
}

/// What is common comes from the first list.
proof fn common_is_from(list: Seq<Seq<char>>, allowed: Seq<Seq<char>>, p: int)
    requires
        0 <= p < common_ids(list, allowed).len(),
    ensures
        list.contains(common_ids(list, allowed)[p]),
    decreases list.len(),
{
    let front = list.drop_last();
    let before = common_ids(front, allowed);
    let all = common_ids(list, allowed);
    if p < before.len() {
        common_is_from(front, allowed, p);
        let i = choose|i: int| 0 <= i < front.len() && front[i] == before[p];
        assert(list[i] == all[p]);
    } else {
        assert(list[list.len() - 1] == all[p]);
    }
}

/// Two recorded cells that have changed places count as a change of the order.
pub proof fn swapped_cells_change_the_order(
    nb: NotebookModel,
    stored: Seq<ShaModel>,
    i: int,
    j: int,
    first: int,
    second: int,
)
    requires
        cell_ids_differ(nb),
        0 <= i < j < stored.len(),
        0 <= first < second < nb.cells.len(),
        stored[i].cell_id == nb.cells[second].id,
        stored[j].cell_id == nb.cells[first].id,
    ensures
        order_changed(stored, snapshot(nb)),
{
    let ids = ids_of(stored);
    let current = ids_of(snapshot(nb));
    assert(ids[i] == nb.cells[second].id);
    assert(ids[j] == nb.cells[first].id);
    assert(current[first] == nb.cells[first].id);
    assert(current[second] == nb.cells[second].id);
    assert(current.contains(ids[i]));
    assert(current.contains(ids[j]));
    common_in_order(ids, current, i, j);
    let was = common_ids(ids, current);
    let is = common_ids(current, ids);
    let (p, q) = choose|p: int, q: int|
        0 <= p < q < was.len() && #[trigger] was[p] == ids[i] && #[trigger] was[q] == ids[j];
    if was == is {
        common_comes_from(current, ids, p, q);
        let (a, b) = choose|a: int, b: int|
            0 <= a < b < current.len() && #[trigger] current[a] == is[p] && #[trigger] current[b]
                == is[q];
        assert(nb.cells[a].id == nb.cells[second].id);
        assert(nb.cells[b].id == nb.cells[first].id);
        if a < second {
            assert(nb.cells[a].id != nb.cells[second].id);
        }
        if second < a {
            assert(nb.cells[second].id != nb.cells[a].id);
        }
        if b < first {
            assert(nb.cells[b].id != nb.cells[first].id);
        }
        if first < b {
            assert(nb.cells[first].id != nb.cells[b].id);
        }
    }
}

// ---------------------------------------------------------------------------
// Diagnostics
// ---------------------------------------------------------------------------

/// A code cell that was never accepted is missing, which is an error; one that
/// was accepted is not, and a cell that is no code never is.
pub proof fn unaccepted_cells_are_missing(nb: NotebookModel, index: int)
    requires
        0 <= index < nb.cells.len(),
    ensures
        ({
            let cell = nb.cells[index];
            let never = cell.is_code() && (cell.data() matches Some(data) ==> data.shas is None);
            let diagnostics = cell_diagnostics(nb, index);
            &&& never ==> diagnostics.len() > 0 && diagnostics[0] == (DiagnosticModel {
                kind: DiagnosticType::Missing,
                severity: Severity::Error,
                message: MISSING_MESSAGE@,
                field: "shas"@,
            })
            &&& !never ==> forall|k: int|
                0 <= k < diagnostics.len() ==> (#[trigger] diagnostics[k]).kind
                    != DiagnosticType::Missing
        }),
{
}

/// A diff that does not apply to the source of its cell is an error, and no
/// other diff is.
pub proof fn broken_diffs_are_errors(nb: NotebookModel, index: int)
    requires
        0 <= index < nb.cells.len(),
    ensures
        ({
            let cell = nb.cells[index];
            let broken = cell.data() matches Some(data) && data.diff matches Some(diff)
                && patched_text(cell.text(), diff) is Err;
            let diagnostics = cell_diagnostics(nb, index);
            &&& broken ==> diagnostics.len() > 0 && diagnostics.last() == (DiagnosticModel {
                kind: DiagnosticType::DiffConflict,
                severity: Severity::Error,
                message: CONFLICT_MESSAGE@,
                field: "diff"@,
            })
            &&& !broken ==> forall|k: int|
                0 <= k < diagnostics.len() ==> (#[trigger] diagnostics[k]).kind
                    != DiagnosticType::DiffConflict
        }),
{
    let own = own_diagnostics(nb.cells[index]);
    let diagnostics = cell_diagnostics(nb, index);
    if own.len() > 0 {
        assert(diagnostics.last() == own[0]);
    }
}

/// A warning about what was accepted.
pub open spec fn warning(kind: DiagnosticType, message: Seq<char>) -> DiagnosticModel {
    DiagnosticModel { kind, severity: Severity::Warning, message, field: "shas"@ }
}

/// An accepted code cell has a warning for its own change, a warning for each
/// change before it, and no other.
pub proof fn changes_are_warnings(nb: NotebookModel, index: int, stored: Seq<ShaModel>)
    requires
        0 <= index < nb.cells.len(),
        nb.cells[index].is_code(),
        nb.cells[index].data() matches Some(data) && data.shas == Some(stored),
    ensures
        ({
            let diagnostics = cell_diagnostics(nb, index);
            let own = own_reasons(stored, nb.cells[index]);
            let before = ancestor_reasons(nb, index, stored);
            &&& diagnostics.len() >= own.len() + before.len()
            &&& forall|k: int|
                0 <= k < own.len() ==> #[trigger] diagnostics[k] == warning(
                    DiagnosticType::NeedsReview,
                    own[k],
                )
            &&& forall|k: int|
                own.len() <= k < own.len() + before.len() ==> #[trigger] diagnostics[k]
                    == warning(DiagnosticType::AncestorModified, before[k - own.len()])
            &&& forall|k: int|
                own.len() + before.len() <= k < diagnostics.len() ==> (
                #[trigger] diagnostics[k]).kind == DiagnosticType::DiffConflict
        }),
{
}

// ---------------------------------------------------------------------------
// Fingerprints
// ---------------------------------------------------------------------------

/// The fingerprint of a cell is that of its source and of its metadata without
/// the recorded fingerprints: what is hashed is the same only if both are.
pub proof fn fingerprints_cover_source_and_metadata(cell: CellModel, other: CellModel)
    ensures
        cell_sha(cell) == match canonical_text(crate::json::value_of(sha_subject(cell))) {
            Some(text) => sha1_hex(text),
            None => sha1_hex(Seq::empty()),
        },
        sha_subject(cell) == sha_subject(other) <==> cell.text() == other.text()
            && without_member(nb_members(cell.additional), "shas"@) == without_member(
            nb_members(other.additional),
            "shas"@,
        ),
{
    assert(without_member(Seq::<(Seq<char>, JsonModel)>::empty(), "shas"@) =~= Seq::empty());
    let one = sha_subject(cell)->Object_0;
    let two = sha_subject(other)->Object_0;
    if sha_subject(cell) == sha_subject(other) {
        assert(one[0].1 == two[0].1);
        assert(one[1].1 == two[1].1);
    }
}

// ---------------------------------------------------------------------------
// Accepting
// ---------------------------------------------------------------------------

/// Accepting a cell records in it the fingerprints of the cells up to it, under
/// their ids, and changes nothing else of it.
pub proof fn accepting_records_the_cells_so_far(nb: NotebookModel, index: int)
    requires
        0 <= index < nb.cells.len(),
        nb.cells[index].data() is Some,
        well_formed(nb.cells[index].additional),
    ensures
        ({
            let before = nb.cells[index];
            let after = accepted(nb, index).cells[index];
            &&& after == (CellModel { additional: after.additional, ..before })
            &&& after.data() is Some
            &&& after.data()->0.shas is Some
            &&& after.data()->0 == (DataModel {
                shas: after.data()->0.shas,
                ..before.data()->0
            })
            &&& after.data()->0.shas->0.len() == index + 1
            &&& forall|i: int|
                0 <= i <= index ==> #[trigger] after.data()->0.shas->0[i] == (ShaModel {
                    cell_id: nb.cells[i].id,
                    sha: cell_sha(nb.cells[i]),
                })
        }),
{
    let before = nb.cells[index];
    let shas = snapshot(nb).take(index + 1);
    shas_field_reads_back(before.additional, shas);
    member_of_with_member(
        before.additional,
        METADATA_KEY@,
        JsonModel::Object(with_member(nb_members(before.additional), "shas"@, shas_json(shas))),
        METADATA_KEY@,
    );
    assert(accepted(nb, index).cells[index].data() is Some);
}

/// Accepting cells changes nothing of the others, and nothing of the notebook but
/// its cells.
pub proof fn accepting_leaves_the_others(nb: NotebookModel, indices: Seq<int>, index: int)
    requires
        can_accept(nb, indices),
        0 <= index < nb.cells.len(),
        !indices.contains(index),
    ensures
        ({
            let after = accepted_all(nb, indices);
            &&& after == (NotebookModel { cells: after.cells, ..nb })
            &&& after.cells.len() == nb.cells.len()
            &&& after.cells[index] == nb.cells[index]
        }),
    decreases indices.len(),
{
    if indices.len() > 0 {
        let front = indices.drop_last();
        let at = indices.last();
        assert(indices[indices.len() - 1] == at);
        assert(indices.contains(at));
        assert forall|k: int| 0 <= k < front.len() implies 0 <= #[trigger] front[k]
            < nb.cells.len() && writable(nb.cells[front[k]].additional) by {
            assert(front[k] == indices[k]);
        }
        assert(!front.contains(index)) by {
            if front.contains(index) {
                let k = choose|k: int| 0 <= k < front.len() && front[k] == index;
                assert(indices[k] == index);
            }
        }
        accepting_leaves_the_others(nb, front, index);
    }
}

} // verus!
