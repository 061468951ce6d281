//! What fingerprints, staleness and accepting promise together.
use vstd::prelude::*;

use crate::json::{member, member_of_with_member, with_member, without_member, JsonModel};
use crate::metadata::{nb_members, shas_json, writable, ShaModel, METADATA_KEY};
use crate::metadata_laws::{shas_field_reads_back, well_formed, without_member_just_set};
use crate::notebook::{CellModel, NotebookModel};
use crate::shas::{
    accepted, all_reasons, ancestor_reasons, cell_sha, common_ids, deleted_reasons, entry_index,
    entry_index_is_first, ids_of, inserted_reasons, modified_reasons, order_changed, order_reasons,
    own_reasons, preceding, recorded_sha, sha_subject, snapshot, staleness_of, state_of, with_shas,
    CellStateModel, StalenessModel,
};

verus! {

// ---------------------------------------------------------------------------
// Fingerprints
// ---------------------------------------------------------------------------

/// The fingerprint of a cell does not depend on its id.
pub proof fn sha_ignores_id(cell: CellModel, id: Seq<char>)
    ensures
        cell_sha(CellModel { id, ..cell }) == cell_sha(cell),
{
}

/// Cells with the same source and the same metadata, but for the recorded SHAs,
/// have the same fingerprint.
pub proof fn same_content_same_sha(cell: CellModel, other: CellModel)
    requires
        cell.text() == other.text(),
        without_member(nb_members(cell.additional), "shas"@) == without_member(
            nb_members(other.additional),
            "shas"@,
        ),
    ensures
        cell_sha(cell) == cell_sha(other),
{
    assert(without_member(Seq::<(Seq<char>, JsonModel)>::empty(), "shas"@) =~= Seq::empty());
}

/// A cell without metadata has the fingerprint of one with empty metadata.
pub proof fn sha_of_plain_cell(cell: CellModel, plain: CellModel)
    requires
        member(cell.additional, METADATA_KEY@) == Some(JsonModel::Object(Seq::empty())),
        member(plain.additional, METADATA_KEY@) is None,
        cell.text() == plain.text(),
    ensures
        cell_sha(cell) == cell_sha(plain),
{
    assert(without_member(Seq::<(Seq<char>, JsonModel)>::empty(), "shas"@) =~= Seq::empty());
}

/// Recording fingerprints in a cell does not change its own.
pub proof fn sha_ignores_recorded_shas(cell: CellModel, shas: Seq<ShaModel>)
    requires
        writable(cell.additional),
    ensures
        cell_sha(with_shas(cell, shas)) == cell_sha(cell),
{
    let members = nb_members(cell.additional);
    let changed = with_member(members, "shas"@, shas_json(shas));
    member_of_with_member(
        cell.additional,
        METADATA_KEY@,
        JsonModel::Object(changed),
        METADATA_KEY@,
    );
    without_member_just_set(members, "shas"@, shas_json(shas));
    assert(without_member(Seq::<(Seq<char>, JsonModel)>::empty(), "shas"@) =~= Seq::empty());
    assert(sha_subject(with_shas(cell, shas)) == sha_subject(cell));
}

/// Accepting a cell changes no fingerprint of the notebook.
pub proof fn accepting_keeps_snapshot(nb: NotebookModel, cell_index: int)
    requires
        0 <= cell_index < nb.cells.len(),
        writable(nb.cells[cell_index].additional),
    ensures
        snapshot(accepted(nb, cell_index)) == snapshot(nb),
{
    sha_ignores_recorded_shas(
        nb.cells[cell_index],
        snapshot(nb).take(cell_index + 1),
    );
    assert(snapshot(accepted(nb, cell_index)) =~= snapshot(nb));
}

// ---------------------------------------------------------------------------
// When nothing has changed
// ---------------------------------------------------------------------------

/// No message about deleted cells means that every recorded cell is there.
proof fn no_deleted(stored: Seq<ShaModel>, current: Seq<ShaModel>)
    ensures
        deleted_reasons(stored, current).len() == 0 <==> forall|i: int|
            0 <= i < stored.len() ==> ids_of(current).contains((#[trigger] stored[i]).cell_id),
    decreases stored.len(),
{
    if stored.len() > 0 {
        let front = stored.drop_last();
        no_deleted(front, current);
        if deleted_reasons(stored, current).len() == 0 {
            assert forall|i: int| 0 <= i < stored.len() implies ids_of(current).contains(
                (#[trigger] stored[i]).cell_id,
            ) by {
                if i < front.len() {
                    assert(front[i] == stored[i]);
                }
            }
        } else if forall|i: int|
            0 <= i < stored.len() ==> ids_of(current).contains((#[trigger] stored[i]).cell_id) {
            assert forall|i: int| 0 <= i < front.len() implies ids_of(current).contains(
                (#[trigger] front[i]).cell_id,
            ) by {
                assert(front[i] == stored[i]);
            }
            assert(stored[stored.len() - 1] == stored.last());
        }
    }
}

/// No message about inserted cells means that every preceding cell was
/// recorded.
proof fn no_inserted(before: Seq<ShaModel>, stored: Seq<ShaModel>)
    ensures
        inserted_reasons(before, stored).len() == 0 <==> forall|i: int|
            0 <= i < before.len() ==> ids_of(stored).contains((#[trigger] before[i]).cell_id),
    decreases before.len(),
{
    if before.len() > 0 {
        let front = before.drop_last();
        no_inserted(front, stored);
        if inserted_reasons(before, stored).len() == 0 {
            assert forall|i: int| 0 <= i < before.len() implies ids_of(stored).contains(
                (#[trigger] before[i]).cell_id,
            ) by {
                if i < front.len() {
                    assert(front[i] == before[i]);
                }
            }
        } else if forall|i: int|
            0 <= i < before.len() ==> ids_of(stored).contains((#[trigger] before[i]).cell_id) {
            assert forall|i: int| 0 <= i < front.len() implies ids_of(stored).contains(
                (#[trigger] front[i]).cell_id,
            ) by {
                assert(front[i] == before[i]);
            }
            assert(before[before.len() - 1] == before.last());
        }
    }
}

/// Whether the recorded SHA of a cell, if there is one, is the given one.
pub open spec fn agrees(stored: Seq<ShaModel>, entry: ShaModel) -> bool {
    recorded_sha(stored, entry.cell_id) is Some ==> recorded_sha(stored, entry.cell_id)
        == Some(entry.sha)
}

/// No message about modified cells means that every preceding cell has its
/// recorded fingerprint.
proof fn no_modified(before: Seq<ShaModel>, stored: Seq<ShaModel>)
    ensures
        modified_reasons(before, stored).len() == 0 <==> forall|i: int|
            0 <= i < before.len() ==> agrees(stored, #[trigger] before[i]),
    decreases before.len(),
{
    if before.len() > 0 {
        let front = before.drop_last();
        no_modified(front, stored);
        if modified_reasons(before, stored).len() == 0 {
            assert forall|i: int| 0 <= i < before.len() implies agrees(
                stored,
                #[trigger] before[i],
            ) by {
                if i < front.len() {
                    assert(front[i] == before[i]);
                }
            }
        } else if forall|i: int| 0 <= i < before.len() ==> agrees(stored, #[trigger] before[i]) {
            assert forall|i: int| 0 <= i < front.len() implies agrees(
                stored,
                #[trigger] front[i],
            ) by {
                assert(front[i] == before[i]);
            }
            assert(agrees(stored, before[before.len() - 1]));
        }
    }
}

/// Whether a notebook is, up to a cell, what was recorded in it: every recorded
/// cell is there, every preceding cell was recorded, the common cells stand in
/// their order, and the cell and those before it have their recorded
/// fingerprints.
pub open spec fn unchanged(nb: NotebookModel, cell_index: int, stored: Seq<ShaModel>) -> bool {
    let current = snapshot(nb);
    let cell = nb.cells[cell_index];
    let before = preceding(current, cell.id);
    &&& forall|i: int|
        0 <= i < stored.len() ==> ids_of(current).contains((#[trigger] stored[i]).cell_id)
    &&& forall|i: int|
        0 <= i < before.len() ==> ids_of(stored).contains((#[trigger] before[i]).cell_id)
    &&& !order_changed(stored, current)
    &&& agrees(stored, ShaModel { cell_id: cell.id, sha: cell_sha(cell) })
    &&& forall|i: int| 0 <= i < before.len() ==> agrees(stored, #[trigger] before[i])
}

/// A cell is valid exactly when the notebook is, up to it, what was recorded.
pub proof fn valid_means_unchanged(nb: NotebookModel, cell_index: int, stored: Seq<ShaModel>)
    requires
        0 <= cell_index < nb.cells.len(),
        nb.cells[cell_index].data() is Some,
        nb.cells[cell_index].data()->0.shas == Some(stored),
    ensures
        staleness_of(nb, cell_index) is Valid <==> unchanged(nb, cell_index, stored),
{
    let current = snapshot(nb);
    let before = preceding(current, nb.cells[cell_index].id);
    no_deleted(stored, current);
    no_inserted(before, stored);
    no_modified(before, stored);
}

/// Staleness and state of a code cell agree: it is valid or out of date in
/// both, and what is out of date is what changed in the cell and before it. A
/// code cell without recorded fingerprints is missing.
pub proof fn staleness_agrees_with_state(nb: NotebookModel, cell_index: int)
    requires
        0 <= cell_index < nb.cells.len(),
        nb.cells[cell_index].is_code(),
    ensures
        match nb.cells[cell_index].data() {
            None => state_of(nb, cell_index) is Missing,
            Some(data) => match data.shas {
                None => staleness_of(nb, cell_index) is NotImplemented && state_of(
                    nb,
                    cell_index,
                ) is Missing,
                Some(stored) => match (staleness_of(nb, cell_index), state_of(nb, cell_index)) {
                    (StalenessModel::Valid, CellStateModel::Valid) => true,
                    (
                        StalenessModel::OutOfDate(reasons),
                        CellStateModel::Changed { needs_review, ancestor_modified },
                    ) => reasons.to_multiset() == needs_review.to_multiset().add(
                        ancestor_modified.to_multiset(),
                    ),
                    _ => false,
                },
            },
        },
{
    broadcast use vstd::seq_lib::group_to_multiset_ensures;

    match nb.cells[cell_index].data() {
        Some(data) => match data.shas {
            Some(stored) => {
                let current = snapshot(nb);
                let cell = nb.cells[cell_index];
                let a = deleted_reasons(stored, current);
                let b = inserted_reasons(preceding(current, cell.id), stored);
                let c = order_reasons(stored, current);
                let d = own_reasons(stored, cell);
                let e = modified_reasons(preceding(current, cell.id), stored);
                vstd::seq_lib::lemma_multiset_commutative(a + b + c + d, e);
                vstd::seq_lib::lemma_multiset_commutative(a + b + c, d);
                vstd::seq_lib::lemma_multiset_commutative(a + b + c, e);
                assert(all_reasons(nb, cell_index, stored) =~= a + b + c + d + e);
                assert(ancestor_reasons(nb, cell_index, stored) =~= a + b + c + e);
                assert(all_reasons(nb, cell_index, stored).to_multiset() =~= d.to_multiset().add(
                    ancestor_reasons(nb, cell_index, stored).to_multiset(),
                ));
            },
            None => {},
        },
        None => {},
    }
}

// ---------------------------------------------------------------------------
// Accepting
// ---------------------------------------------------------------------------

/// Whether no two cells have the same id.
pub open spec fn cell_ids_differ(nb: NotebookModel) -> bool {
    forall|i: int, j: int|
        0 <= i < j < nb.cells.len() ==> (#[trigger] nb.cells[i]).id != (#[trigger] nb.cells[j]).id
}

/// The common ids of a list and a list that holds all of them.
pub proof fn common_ids_all(list: Seq<Seq<char>>, allowed: Seq<Seq<char>>)
    requires
        forall|i: int| 0 <= i < list.len() ==> allowed.contains(#[trigger] list[i]),
    ensures
        common_ids(list, allowed) == list,
    decreases list.len(),
{
    if list.len() > 0 {
        let front = list.drop_last();
        assert forall|i: int| 0 <= i < front.len() implies allowed.contains(
            #[trigger] front[i],
        ) by {
            assert(front[i] == list[i]);
        }
        common_ids_all(front, allowed);
        assert(allowed.contains(list[list.len() - 1]));
        assert(front.push(list.last()) =~= list);
    } else {
        assert(common_ids(list, allowed) =~= list);
    }
}

/// The common ids of a list and another that holds none of them.
proof fn common_ids_none(list: Seq<Seq<char>>, allowed: Seq<Seq<char>>)
    requires
        forall|i: int| 0 <= i < list.len() ==> !allowed.contains(#[trigger] list[i]),
    ensures
        common_ids(list, allowed) == Seq::<Seq<char>>::empty(),
    decreases list.len(),
{
    if list.len() > 0 {
        let front = list.drop_last();
        assert forall|i: int| 0 <= i < front.len() implies !allowed.contains(
            #[trigger] front[i],
        ) by {
            assert(front[i] == list[i]);
        }
        common_ids_none(front, allowed);
        assert(!allowed.contains(list[list.len() - 1]));
    }
}

/// Common ids are found piece by piece.
proof fn common_ids_of_sum(a: Seq<Seq<char>>, b: Seq<Seq<char>>, allowed: Seq<Seq<char>>)
    ensures
        common_ids(a + b, allowed) == common_ids(a, allowed) + common_ids(b, allowed),
    decreases b.len(),
{
    if b.len() == 0 {
        assert(a + b =~= a);
        assert(common_ids(a, allowed) + common_ids(b, allowed) =~= common_ids(a, allowed));
    } else {
        assert((a + b).drop_last() =~= a + b.drop_last());
        assert((a + b).last() == b.last());
        common_ids_of_sum(a, b.drop_last(), allowed);
        if allowed.contains(b.last()) {
            assert((common_ids(a, allowed) + common_ids(b.drop_last(), allowed)).push(b.last())
                =~= common_ids(a, allowed) + common_ids(b.drop_last(), allowed).push(b.last()));
        }
    }
}

/// The position of an entry whose id stands nowhere before it.
pub proof fn entry_index_unique(entries: Seq<ShaModel>, cell_id: Seq<char>, at: int)
    requires
        0 <= at < entries.len(),
        entries[at].cell_id == cell_id,
        forall|i: int| 0 <= i < at ==> (#[trigger] entries[i]).cell_id != cell_id,
    ensures
        entry_index(entries, cell_id) == at,
{
    entry_index_is_first(entries, cell_id);
    let found = entry_index(entries, cell_id);
    if found < at {
        assert(entries[found].cell_id == cell_id);
    }
}

/// Accepting a cell makes it valid. The ids of the cells differ, and the
/// metadata of the cell is well formed.
pub proof fn accepting_makes_valid(nb: NotebookModel, cell_index: int)
    requires
        0 <= cell_index < nb.cells.len(),
        cell_ids_differ(nb),
        nb.cells[cell_index].data() is Some,
        well_formed(nb.cells[cell_index].additional),
    ensures
        staleness_of(accepted(nb, cell_index), cell_index) is Valid,
        state_of(accepted(nb, cell_index), cell_index) is Valid,
{
    let after = accepted(nb, cell_index);
    let cell = nb.cells[cell_index];
    let current = snapshot(nb);
    let stored = current.take(cell_index + 1);
    accepting_keeps_snapshot(nb, cell_index);
    shas_field_reads_back(cell.additional, stored);
    member_of_with_member(
        cell.additional,
        METADATA_KEY@,
        JsonModel::Object(with_member(nb_members(cell.additional), "shas"@, shas_json(stored))),
        METADATA_KEY@,
    );
    assert(after.cells[cell_index].data() is Some);
    assert(after.cells[cell_index].data()->0.shas == Some(stored));
    assert(after.cells[cell_index].id == cell.id);

    assert forall|i: int, j: int| 0 <= i < j < current.len() implies (#[trigger] current[i]).cell_id
        != (#[trigger] current[j]).cell_id by {
        assert(nb.cells[i].id != nb.cells[j].id);
    }
    entry_index_unique(current, cell.id, cell_index);
    let before = preceding(current, cell.id);
    assert forall|i: int| 0 <= i < stored.len() implies ids_of(current).contains(
        (#[trigger] stored[i]).cell_id,
    ) by {
        assert(ids_of(current)[i] == stored[i].cell_id);
    }
    assert forall|i: int| 0 <= i < before.len() implies ids_of(stored).contains(
        (#[trigger] before[i]).cell_id,
    ) by {
        assert(ids_of(stored)[i] == before[i].cell_id);
    }
    assert forall|i: int| 0 <= i <= cell_index implies agrees(stored, #[trigger] current[i]) by {
        assert(stored[i] == current[i]);
        assert forall|k: int| 0 <= k < i implies (#[trigger] stored[k]).cell_id
            != current[i].cell_id by {
            assert(stored[k] == current[k]);
        }
        entry_index_unique(stored, current[i].cell_id, i);
    }
    assert forall|i: int| 0 <= i < before.len() implies agrees(stored, #[trigger] before[i]) by {
        assert(before[i] == current[i]);
    }
    sha_ignores_recorded_shas(cell, stored);
    assert(current[cell_index] == (ShaModel { cell_id: cell.id, sha: cell_sha(cell) }));
    assert(agrees(stored, current[cell_index]));

    let stored_ids = ids_of(stored);
    let current_ids = ids_of(current);
    let later = current_ids.skip(cell_index + 1);
    assert(current_ids =~= stored_ids + later);
    assert forall|i: int| 0 <= i < stored_ids.len() implies current_ids.contains(
        #[trigger] stored_ids[i],
    ) by {
        assert(current_ids[i] == stored_ids[i]);
    }
    common_ids_all(stored_ids, current_ids);
    common_ids_all(stored_ids, stored_ids);
    assert forall|i: int| 0 <= i < later.len() implies !stored_ids.contains(
        #[trigger] later[i],
    ) by {
        if stored_ids.contains(later[i]) {
            let k = choose|k: int| 0 <= k < stored_ids.len() && stored_ids[k] == later[i];
            assert(current[k].cell_id != current[i + cell_index + 1].cell_id);
        }
    }
    common_ids_none(later, stored_ids);
    common_ids_of_sum(stored_ids, later, stored_ids);
    assert(stored_ids + Seq::<Seq<char>>::empty() =~= stored_ids);
    assert(!order_changed(stored, current));

    assert(unchanged(after, cell_index, stored));
    valid_means_unchanged(after, cell_index, stored);
    if after.cells[cell_index].is_code() {
        staleness_agrees_with_state(after, cell_index);
    }
}

// ---------------------------------------------------------------------------
// Cells that do not matter
// ---------------------------------------------------------------------------

/// Cells that are put in behind a cell, and were not recorded in it, do not
/// change its staleness.
pub proof fn later_cells_do_not_matter(
    nb: NotebookModel,
    front: Seq<CellModel>,
    added: Seq<CellModel>,
    back: Seq<CellModel>,
    cell_index: int,
)
    requires
        nb.cells == front + back,
        0 <= cell_index < front.len(),
        forall|i: int, k: int|
            0 <= i < added.len() && front[cell_index].data() is Some
                && front[cell_index].data()->0.shas is Some && 0 <= k
                < front[cell_index].data()->0.shas->0.len() ==> (#[trigger] added[i]).id
                != #[trigger] front[cell_index].data()->0.shas->0[k].cell_id,
    ensures
        staleness_of(NotebookModel { cells: front + added + back, ..nb }, cell_index)
            == staleness_of(nb, cell_index),
{
    let other = NotebookModel { cells: front + added + back, ..nb };
    let cell = front[cell_index];
    assert(nb.cells[cell_index] == cell);
    assert(other.cells[cell_index] == cell);
    if cell.data() is Some && cell.data()->0.shas is Some {
        let stored = cell.data()->0.shas->0;
        let current = snapshot(nb);
        let wider = snapshot(other);
        let f = |c: CellModel| ShaModel { cell_id: c.id, sha: cell_sha(c) };
        let head = front.map_values(f);
        let middle = added.map_values(f);
        let tail = back.map_values(f);
        assert(current =~= head + tail);
        assert(wider =~= head + middle + tail);

        // The cells before the cell are the same.
        entry_index_is_first(current, cell.id);
        entry_index_is_first(wider, cell.id);
        let at = entry_index(current, cell.id);
        assert(current[cell_index].cell_id == cell.id);
        assert(at <= cell_index);
        assert forall|i: int| 0 <= i <= at implies (#[trigger] wider[i]) == current[i] by {
            assert(current[i] == head[i]);
        }
        entry_index_unique(wider, cell.id, at);
        assert(preceding(wider, cell.id) =~= preceding(current, cell.id));

        // A recorded cell is there or gone in both.
        assert forall|id: Seq<char>| ids_of(stored).contains(id) implies ids_of(wider).contains(id)
            == #[trigger] ids_of(current).contains(id) by {
            if ids_of(wider).contains(id) {
                let i = choose|i: int| 0 <= i < wider.len() && ids_of(wider)[i] == id;
                let k = choose|k: int| 0 <= k < stored.len() && ids_of(stored)[k] == id;
                if head.len() <= i < head.len() + middle.len() {
                    assert(wider[i].cell_id == added[i - head.len()].id);
                    assert(added[i - head.len()].id != stored[k].cell_id);
                } else if i < head.len() {
                    assert(ids_of(current)[i] == id);
                } else {
                    assert(ids_of(current)[i - middle.len()] == id);
                }
            }
            if ids_of(current).contains(id) {
                let i = choose|i: int| 0 <= i < current.len() && ids_of(current)[i] == id;
                if i < head.len() {
                    assert(ids_of(wider)[i] == id);
                } else {
                    assert(ids_of(wider)[i + middle.len()] == id);
                }
            }
        }
        assert forall|i: int| 0 <= i < stored.len() implies ids_of(stored).contains(
            (#[trigger] stored[i]).cell_id,
        ) by {
            assert(ids_of(stored)[i] == stored[i].cell_id);
        }
        deleted_same(stored, stored, current, wider);
        common_same(ids_of(stored), ids_of(stored), ids_of(current), ids_of(wider));
        let a = ids_of(head);
        let m = ids_of(middle);
        let b = ids_of(tail);
        assert(ids_of(current) =~= a + b);
        assert(ids_of(wider) =~= a + m + b);
        assert forall|i: int| 0 <= i < m.len() implies !ids_of(stored).contains(
            #[trigger] m[i],
        ) by {
            if ids_of(stored).contains(m[i]) {
                let k = choose|k: int| 0 <= k < stored.len() && ids_of(stored)[k] == m[i];
                assert(added[i].id != stored[k].cell_id);
            }
        }
        common_ids_none(m, ids_of(stored));
        common_ids_of_sum(a + m, b, ids_of(stored));
        common_ids_of_sum(a, m, ids_of(stored));
        common_ids_of_sum(a, b, ids_of(stored));
        assert(common_ids(a, ids_of(stored)) + Seq::<Seq<char>>::empty() =~= common_ids(
            a,
            ids_of(stored),
        ));
        assert(order_changed(stored, wider) == order_changed(stored, current));
        assert(all_reasons(other, cell_index, stored) == all_reasons(nb, cell_index, stored));
    }
}

/// Deleted cells are the same where presence is.
proof fn deleted_same(
    part: Seq<ShaModel>,
    stored: Seq<ShaModel>,
    current: Seq<ShaModel>,
    wider: Seq<ShaModel>,
)
    requires
        forall|i: int| 0 <= i < part.len() ==> ids_of(stored).contains((#[trigger] part[i]).cell_id),
        forall|id: Seq<char>|
            ids_of(stored).contains(id) ==> ids_of(wider).contains(id) == #[trigger] ids_of(
                current,
            ).contains(id),
    ensures
        deleted_reasons(part, wider) == deleted_reasons(part, current),
    decreases part.len(),
{
    if part.len() > 0 {
        let front = part.drop_last();
        assert forall|i: int| 0 <= i < front.len() implies ids_of(stored).contains(
            (#[trigger] front[i]).cell_id,
        ) by {
            assert(front[i] == part[i]);
        }
        deleted_same(front, stored, current, wider);
        assert(ids_of(stored).contains(part[part.len() - 1].cell_id));
        assert(ids_of(wider).contains(part.last().cell_id) == ids_of(current).contains(
            part.last().cell_id,
        ));
    }
}

/// Common ids are the same where presence is.
proof fn common_same(
    part: Seq<Seq<char>>,
    stored: Seq<Seq<char>>,
    current: Seq<Seq<char>>,
    wider: Seq<Seq<char>>,
)
    requires
        forall|i: int| 0 <= i < part.len() ==> stored.contains(#[trigger] part[i]),
        forall|id: Seq<char>|
            stored.contains(id) ==> wider.contains(id) == #[trigger] current.contains(id),
    ensures
        common_ids(part, wider) == common_ids(part, current),
    decreases part.len(),
{
    if part.len() > 0 {
        let front = part.drop_last();
        assert forall|i: int| 0 <= i < front.len() implies stored.contains(
            #[trigger] front[i],
        ) by {
            assert(front[i] == part[i]);
        }
        common_same(front, stored, current, wider);
        assert(stored.contains(part[part.len() - 1]));
        assert(wider.contains(part.last()) == current.contains(part.last()));
    }
}

} // verus!
