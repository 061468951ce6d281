//! Fingerprints of cells, and what has changed since a cell was last accepted.
use sha1::Digest;
use vstd::prelude::*;

use crate::json::{
    member, value_from_json, value_of, without_member, Json, JsonMap, JsonModel,
};
use crate::metadata::{
    sha_models, shas_json, with_field, write_pair, writable, NotaBeneData, ShaEntry, ShaModel,
    METADATA_KEY,
};
use crate::notebook::{Cell, CellExt, CellModel, Notebook, NotebookModel};
use crate::text::{list_contains, same_list, same_text, texts};

verus! {

broadcast use {crate::json::array_view, crate::json::object_view};

/// Why `canonical_json` could not print a value.
#[verifier::external_type_specification]
#[verifier::external_body]
pub struct ExCanonicalError(canonical_json::CanonicalJSONError);

// ---------------------------------------------------------------------------
// Fingerprints
// ---------------------------------------------------------------------------

/// What `canonical_json::to_string` returns for a value, if it succeeds.
pub uninterp spec fn canonical_text(value: serde_json::Value) -> Option<Seq<char>>;

/// The SHA-1 digest of the UTF-8 bytes of a text, in hexadecimal.
pub uninterp spec fn sha1_hex(text: Seq<char>) -> Seq<char>;

/// Calls `canonical_json::to_string`; the text depends on the value alone.
#[verifier::external_body]
fn print_canonical(value: &serde_json::Value) -> (text: Result<
    String,
    canonical_json::CanonicalJSONError,
>)
    ensures
        match text {
            Ok(t) => canonical_text(*value) == Some(t@),
            Err(_) => canonical_text(*value) is None,
        },
{
    canonical_json::to_string(value)
}

/// Whether a text is a SHA-1 digest in hexadecimal: forty lowercase digits.
pub open spec fn is_hex_digest(text: Seq<char>) -> bool {
    text.len() == 40 && forall|i: int|
        0 <= i < text.len() ==> '0' <= #[trigger] text[i] <= '9' || 'a' <= text[i] <= 'f'
}

/// Calls `sha1::Sha1::digest` on the bytes of a text and prints the digest in
/// hexadecimal, two lowercase digits for each of its twenty bytes; it depends on
/// the text alone.
#[verifier::external_body]
fn digest_hex(text: &str) -> (digest: String)
    ensures
        digest@ == sha1_hex(text@),
        is_hex_digest(digest@),
{
    format!("{:x}", sha1::Sha1::digest(text.as_bytes()))
}

/// What a cell is fingerprinted by: its metadata without the recorded SHAs, and
/// its source.
pub open spec fn sha_subject(cell: CellModel) -> JsonModel {
    let metadata = match member(cell.additional, METADATA_KEY@) {
        Some(JsonModel::Object(members)) => without_member(members, "shas"@),
        _ => Seq::empty(),
    };
    JsonModel::Object(
        seq![
            (METADATA_KEY@, JsonModel::Object(metadata)),
            ("source"@, JsonModel::Text(cell.text())),
        ],
    )
}

/// The fingerprint of a cell.
pub open spec fn cell_sha(cell: CellModel) -> Seq<char> {
    match canonical_text(value_of(sha_subject(cell))) {
        Some(text) => sha1_hex(text),
        None => sha1_hex(Seq::empty()),
    }
}

/// Computes the fingerprint of a cell: the SHA-1 of its metadata, without the
/// recorded SHAs, and its source, in hexadecimal.
pub fn compute_cell_sha(cell: &Cell) -> (sha: String)
    ensures
        sha@ == cell_sha(cell@),
        is_hex_digest(sha@),
{
    let metadata: JsonMap = match cell.additional().get(METADATA_KEY) {
        Some(Json::Object(members)) => {
            let mut kept: JsonMap = members.clone();
            kept.remove("shas");
            kept
        },
        _ => JsonMap::new(),
    };
    let subject: Json = write_pair(
        METADATA_KEY,
        Json::Object(metadata),
        "source",
        Json::Text(cell.source_str()),
    );
    assert(subject@ == sha_subject(cell@));
    let value = value_from_json(&subject);
    let canonical: String = match print_canonical(&value) {
        Ok(text) => text,
        Err(_) => String::new(),
    };
    digest_hex(canonical.as_str())
}

/// The fingerprints of all cells of a notebook, in order.
pub open spec fn snapshot(nb: NotebookModel) -> Seq<ShaModel> {
    nb.cells.map_values(|cell: CellModel| ShaModel { cell_id: cell.id, sha: cell_sha(cell) })
}

/// Computes the fingerprints of all cells of a notebook.
pub fn compute_snapshot(nb: &Notebook) -> (entries: Vec<ShaEntry>)
    ensures
        sha_models(entries@) == snapshot(nb@),
{
    let mut entries: Vec<ShaEntry> = Vec::new();
    let mut i: usize = 0;
    while i < nb.cells.len()
        invariant
            i <= nb.cells.len(),
            entries.len() == i,
            forall|k: int|
                0 <= k < i ==> #[trigger] entries@[k]@ == (ShaModel {
                    cell_id: nb.cells@[k]@.id,
                    sha: cell_sha(nb.cells@[k]@),
                }),
        decreases nb.cells.len() - i,
    {
        entries.push(
            ShaEntry {
                cell_id: nb.cells[i].cell_id_str().to_owned(),
                sha: compute_cell_sha(&nb.cells[i]),
            },
        );
        i += 1;
    }
    assert(sha_models(entries@) =~= snapshot(nb@));
    entries
}

// ---------------------------------------------------------------------------
// What has changed
// ---------------------------------------------------------------------------

/// The ids of a list of recorded SHAs.
pub open spec fn ids_of(entries: Seq<ShaModel>) -> Seq<Seq<char>> {
    entries.map_values(|entry: ShaModel| entry.cell_id)
}

/// The position of the first entry of a cell, or the number of entries.
pub open spec fn entry_index(entries: Seq<ShaModel>, cell_id: Seq<char>) -> int
    decreases entries.len(),
{
    if entries.len() == 0 || entries[0].cell_id == cell_id {
        0
    } else {
        1 + entry_index(entries.drop_first(), cell_id)
    }
}

/// The recorded SHA of a cell, if there is one.
pub open spec fn recorded_sha(entries: Seq<ShaModel>, cell_id: Seq<char>) -> Option<Seq<char>> {
    let at = entry_index(entries, cell_id);
    if at < entries.len() {
        Some(entries[at].sha)
    } else {
        None
    }
}

/// The message for a cell that is gone.
pub open spec fn deleted_message(cell_id: Seq<char>) -> Seq<char> {
    "Preceding cell `"@ + cell_id
        + "` was deleted (present at last validation, now missing)"@
}

/// The message for a cell that is new.
pub open spec fn inserted_message(cell_id: Seq<char>) -> Seq<char> {
    "Preceding cell `"@ + cell_id + "` was inserted (not present at last validation)"@
}

/// The message for a cell that is not what it was.
pub open spec fn modified_message(cell_id: Seq<char>) -> Seq<char> {
    "Preceding cell `"@ + cell_id + "` was modified"@
}

/// The messages for the recorded cells that are gone.
pub open spec fn deleted_reasons(stored: Seq<ShaModel>, current: Seq<ShaModel>) -> Seq<Seq<char>>
    decreases stored.len(),
{
    if stored.len() == 0 {
        Seq::empty()
    } else {
        let front = deleted_reasons(stored.drop_last(), current);
        let id = stored.last().cell_id;
        if ids_of(current).contains(id) {
            front
        } else {
            front.push(deleted_message(id))
        }
    }
}

/// The messages for the preceding cells that were not recorded.
pub open spec fn inserted_reasons(preceding: Seq<ShaModel>, stored: Seq<ShaModel>) -> Seq<
    Seq<char>,
>
    decreases preceding.len(),
{
    if preceding.len() == 0 {
        Seq::empty()
    } else {
        let front = inserted_reasons(preceding.drop_last(), stored);
        let id = preceding.last().cell_id;
        if ids_of(stored).contains(id) {
            front
        } else {
            front.push(inserted_message(id))
        }
    }
}

/// The messages for the preceding cells whose SHA is not the recorded one.
pub open spec fn modified_reasons(preceding: Seq<ShaModel>, stored: Seq<ShaModel>) -> Seq<
    Seq<char>,
>
    decreases preceding.len(),
{
    if preceding.len() == 0 {
        Seq::empty()
    } else {
        let front = modified_reasons(preceding.drop_last(), stored);
        let entry = preceding.last();
        match recorded_sha(stored, entry.cell_id) {
            Some(sha) => if sha != entry.sha {
                front.push(modified_message(entry.cell_id))
            } else {
                front
            },
            None => front,
        }
    }
}

/// The ids of `list` that are among `allowed`, in their order.
pub open spec fn common_ids(list: Seq<Seq<char>>, allowed: Seq<Seq<char>>) -> Seq<Seq<char>>
    decreases list.len(),
{
    if list.len() == 0 {
        Seq::empty()
    } else {
        let front = common_ids(list.drop_last(), allowed);
        if allowed.contains(list.last()) {
            front.push(list.last())
        } else {
            front
        }
    }
}

/// Whether the cells that are in both lists stand in another order.
pub open spec fn order_changed(stored: Seq<ShaModel>, current: Seq<ShaModel>) -> bool {
    common_ids(ids_of(stored), ids_of(current)) != common_ids(ids_of(current), ids_of(stored))
}

/// The message for a changed order.
pub open spec fn order_reasons(stored: Seq<ShaModel>, current: Seq<ShaModel>) -> Seq<Seq<char>> {
    if order_changed(stored, current) {
        seq!["Cell ordering changed since last validation"@]
    } else {
        Seq::empty()
    }
}

/// The message for a change of the cell itself.
pub open spec fn own_reasons(stored: Seq<ShaModel>, cell: CellModel) -> Seq<Seq<char>> {
    match recorded_sha(stored, cell.id) {
        Some(sha) => if sha != cell_sha(cell) {
            seq!["Cell source changed since fixtures were last validated"@]
        } else {
            Seq::empty()
        },
        None => Seq::empty(),
    }
}

/// The fingerprints of the cells before the first one with the given id.
pub open spec fn preceding(current: Seq<ShaModel>, cell_id: Seq<char>) -> Seq<ShaModel> {
    current.take(entry_index(current, cell_id))
}

/// `entry_index` is the first position of its cell.
pub proof fn entry_index_is_first(entries: Seq<ShaModel>, cell_id: Seq<char>)
    ensures
        0 <= entry_index(entries, cell_id) <= entries.len(),
        entry_index(entries, cell_id) < entries.len() ==> entries[entry_index(
            entries,
            cell_id,
        )].cell_id == cell_id,
        forall|i: int|
            0 <= i < entry_index(entries, cell_id) ==> (#[trigger] entries[i]).cell_id != cell_id,
    decreases entries.len(),
{
    if entries.len() > 0 && entries[0].cell_id != cell_id {
        let rest = entries.drop_first();
        entry_index_is_first(rest, cell_id);
        assert forall|i: int| 0 <= i < entry_index(entries, cell_id) implies (
        #[trigger] entries[i]).cell_id != cell_id by {
            if i > 0 {
                assert(rest[i - 1] == entries[i]);
            }
        }
    }
}

/// What has changed since the cells were recorded.
#[derive(Debug, PartialEq)]
pub struct Changes {
    /// Recorded cells that are gone.
    pub deleted: Vec<String>,
    /// Preceding cells that were not recorded.
    pub inserted: Vec<String>,
    /// A changed order.
    pub order: Vec<String>,
    /// A change of the cell itself.
    pub own: Vec<String>,
    /// Preceding cells that are not what was recorded.
    pub modified: Vec<String>,
}

/// The position of the first entry of a cell, or the number of entries.
pub(crate) fn find_entry(entries: &Vec<ShaEntry>, cell_id: &str) -> (at: usize)
    ensures
        at == entry_index(sha_models(entries@), cell_id@),
        at <= entries.len(),
{
    let ghost models = sha_models(entries@);
    let mut i: usize = 0;
    assert(models.skip(0) =~= models);
    while i < entries.len() && !same_text(entries[i].cell_id.as_str(), cell_id)
        invariant
            i <= entries.len(),
            models == sha_models(entries@),
            entry_index(models, cell_id@) == i + entry_index(models.skip(i as int), cell_id@),
        decreases entries.len() - i,
    {
        assert(models.skip(i as int)[0] == entries@[i as int]@);
        assert(models.skip(i as int).drop_first() =~= models.skip(i + 1));
        i += 1;
    }
    proof {
        if i < entries@.len() {
            assert(models.skip(i as int)[0] == entries@[i as int]@);
        }
    }
    i
}

/// The ids of a list of recorded SHAs.
pub(crate) fn entry_ids(entries: &Vec<ShaEntry>) -> (ids: Vec<String>)
    ensures
        texts(ids@) == ids_of(sha_models(entries@)),
{
    let mut ids: Vec<String> = Vec::new();
    let mut i: usize = 0;
    while i < entries.len()
        invariant
            i <= entries.len(),
            ids.len() == i,
            forall|k: int| 0 <= k < i ==> #[trigger] ids@[k]@ == entries@[k].cell_id@,
        decreases entries.len() - i,
    {
        ids.push(entries[i].cell_id.clone());
        i += 1;
    }
    assert(texts(ids@) =~= ids_of(sha_models(entries@)));
    ids
}

/// The ids of `list` that are among `allowed`.
pub fn find_common_ids(list: &Vec<String>, allowed: &Vec<String>) -> (common: Vec<String>)
    ensures
        texts(common@) == common_ids(texts(list@), texts(allowed@)),
{
    let ghost all = texts(list@);
    let mut common: Vec<String> = Vec::new();
    let mut i: usize = 0;
    assert(texts(common@) =~= common_ids(all.take(0), texts(allowed@)));
    while i < list.len()
        invariant
            i <= list.len(),
            all == texts(list@),
            texts(common@) == common_ids(all.take(i as int), texts(allowed@)),
        decreases list.len() - i,
    {
        let ghost done = texts(common@);
        assert(all.take(i + 1).drop_last() =~= all.take(i as int));
        assert(all.take(i + 1).last() == list@[i as int]@);
        if list_contains(allowed, list[i].as_str()) {
            common.push(list[i].clone());
            assert(texts(common@) =~= done.push(list@[i as int]@));
        }
        i += 1;
    }
    assert(all.take(i as int) =~= all);
    common
}

/// A message about a cell.
pub(crate) fn cell_message(start: &str, cell_id: &str, end: &str) -> (message: String)
    ensures
        message@ == start@ + cell_id@ + end@,
{
    let mut message: String = start.to_owned();
    message.append(cell_id);
    message.append(end);
    message
}

/// The messages for the recorded cells that are gone.
fn find_deleted(stored: &Vec<ShaEntry>, current_ids: &Vec<String>, Ghost(current): Ghost<
    Seq<ShaModel>,
>) -> (reasons: Vec<String>)
    requires
        texts(current_ids@) == ids_of(current),
    ensures
        texts(reasons@) == deleted_reasons(sha_models(stored@), current),
{
    let ghost all = sha_models(stored@);
    let mut reasons: Vec<String> = Vec::new();
    let mut i: usize = 0;
    assert(texts(reasons@) =~= deleted_reasons(all.take(0), current));
    while i < stored.len()
        invariant
            i <= stored.len(),
            all == sha_models(stored@),
            texts(current_ids@) == ids_of(current),
            texts(reasons@) == deleted_reasons(all.take(i as int), current),
        decreases stored.len() - i,
    {
        let ghost done = texts(reasons@);
        assert(all.take(i + 1).drop_last() =~= all.take(i as int));
        assert(all.take(i + 1).last() == stored@[i as int]@);
        if !list_contains(current_ids, stored[i].cell_id.as_str()) {
            let message: String = cell_message(
                "Preceding cell `",
                stored[i].cell_id.as_str(),
                "` was deleted (present at last validation, now missing)",
            );
            reasons.push(message);
            assert(texts(reasons@) =~= done.push(deleted_message(stored@[i as int].cell_id@)));
        }
        i += 1;
    }
    assert(all.take(i as int) =~= all);
    reasons
}

/// The messages for the first `count` cells that were not recorded.
fn find_inserted(current: &Vec<ShaEntry>, count: usize, stored_ids: &Vec<String>, Ghost(stored): Ghost<
    Seq<ShaModel>,
>) -> (reasons: Vec<String>)
    requires
        count <= current.len(),
        texts(stored_ids@) == ids_of(stored),
    ensures
        texts(reasons@) == inserted_reasons(sha_models(current@).take(count as int), stored),
{
    let ghost all = sha_models(current@);
    let mut reasons: Vec<String> = Vec::new();
    let mut i: usize = 0;
    assert(texts(reasons@) =~= inserted_reasons(all.take(0), stored));
    while i < count
        invariant
            i <= count <= current.len(),
            all == sha_models(current@),
            texts(stored_ids@) == ids_of(stored),
            texts(reasons@) == inserted_reasons(all.take(i as int), stored),
        decreases count - i,
    {
        let ghost done = texts(reasons@);
        assert(all.take(i + 1).drop_last() =~= all.take(i as int));
        assert(all.take(i + 1).last() == current@[i as int]@);
        if !list_contains(stored_ids, current[i].cell_id.as_str()) {
            let message: String = cell_message(
                "Preceding cell `",
                current[i].cell_id.as_str(),
                "` was inserted (not present at last validation)",
            );
            reasons.push(message);
            assert(texts(reasons@) =~= done.push(inserted_message(current@[i as int].cell_id@)));
        }
        i += 1;
    }
    reasons
}

/// The messages for the first `count` cells whose SHA is not the recorded one.
fn find_modified(current: &Vec<ShaEntry>, count: usize, stored: &Vec<ShaEntry>) -> (reasons: Vec<
    String,
>)
    requires
        count <= current.len(),
    ensures
        texts(reasons@) == modified_reasons(
            sha_models(current@).take(count as int),
            sha_models(stored@),
        ),
{
    let ghost all = sha_models(current@);
    let ghost recorded = sha_models(stored@);
    let mut reasons: Vec<String> = Vec::new();
    let mut i: usize = 0;
    assert(texts(reasons@) =~= modified_reasons(all.take(0), recorded));
    while i < count
        invariant
            i <= count <= current.len(),
            all == sha_models(current@),
            recorded == sha_models(stored@),
            texts(reasons@) == modified_reasons(all.take(i as int), recorded),
        decreases count - i,
    {
        let ghost done = texts(reasons@);
        assert(all.take(i + 1).drop_last() =~= all.take(i as int));
        assert(all.take(i + 1).last() == current@[i as int]@);
        let at: usize = find_entry(stored, current[i].cell_id.as_str());
        if at < stored.len() && !same_text(stored[at].sha.as_str(), current[i].sha.as_str()) {
            let message: String = cell_message(
                "Preceding cell `",
                current[i].cell_id.as_str(),
                "` was modified",
            );
            reasons.push(message);
            assert(texts(reasons@) =~= done.push(modified_message(current@[i as int].cell_id@)));
        }
        i += 1;
    }
    reasons
}

/// Compares the recorded SHAs of a cell with the notebook as it is.
fn find_changes(nb: &Notebook, cell_index: usize, stored: &Vec<ShaEntry>) -> (changes: Changes)
    requires
        cell_index < nb.cells.len(),
    ensures
        ({
            let recorded = sha_models(stored@);
            let current = snapshot(nb@);
            let cell = nb@.cells[cell_index as int];
            &&& texts(changes.deleted@) == deleted_reasons(recorded, current)
            &&& texts(changes.inserted@) == inserted_reasons(
                preceding(current, cell.id),
                recorded,
            )
            &&& texts(changes.order@) == order_reasons(recorded, current)
            &&& texts(changes.own@) == own_reasons(recorded, cell)
            &&& texts(changes.modified@) == modified_reasons(
                preceding(current, cell.id),
                recorded,
            )
        }),
{
    let cell: &Cell = &nb.cells[cell_index];
    let current: Vec<ShaEntry> = compute_snapshot(nb);
    let ghost recorded = sha_models(stored@);
    let ghost now = sha_models(current@);
    assert(nb@.cells[cell_index as int] == cell@);
    let stored_ids: Vec<String> = entry_ids(stored);
    let current_ids: Vec<String> = entry_ids(&current);
    let count: usize = find_entry(&current, cell.cell_id_str());
    let deleted: Vec<String> = find_deleted(stored, &current_ids, Ghost(now));
    let inserted: Vec<String> = find_inserted(&current, count, &stored_ids, Ghost(recorded));
    let mut order: Vec<String> = Vec::new();
    let stored_common: Vec<String> = find_common_ids(&stored_ids, &current_ids);
    let current_common: Vec<String> = find_common_ids(&current_ids, &stored_ids);
    if !same_list(&stored_common, &current_common) {
        order.push("Cell ordering changed since last validation".to_owned());
    }
    assert(texts(order@) =~= order_reasons(recorded, now));
    let mut own: Vec<String> = Vec::new();
    let at: usize = find_entry(stored, cell.cell_id_str());
    let sha: String = compute_cell_sha(cell);
    if at < stored.len() && !same_text(stored[at].sha.as_str(), sha.as_str()) {
        own.push("Cell source changed since fixtures were last validated".to_owned());
    }
    assert(texts(own@) =~= own_reasons(recorded, cell@));
    let modified: Vec<String> = find_modified(&current, count, stored);
    Changes { deleted, inserted, order, own, modified }
}

// ---------------------------------------------------------------------------
// Staleness
// ---------------------------------------------------------------------------

/// Whether the recorded SHAs of a cell still hold.
#[derive(Debug, PartialEq)]
pub enum Staleness {
    /// The cell has no metadata, or its recorded SHAs match the notebook.
    Valid,
    /// The cell has metadata but no recorded SHAs.
    NotImplemented,
    /// The recorded SHAs do not match; the reasons say why.
    OutOfDate(Vec<String>),
}

/// What a staleness holds.
pub enum StalenessModel {
    Valid,
    NotImplemented,
    OutOfDate(Seq<Seq<char>>),
}

impl View for Staleness {
    type V = StalenessModel;

    open spec fn view(&self) -> StalenessModel {
        match self {
            Staleness::Valid => StalenessModel::Valid,
            Staleness::NotImplemented => StalenessModel::NotImplemented,
            Staleness::OutOfDate(reasons) => StalenessModel::OutOfDate(texts(reasons@)),
        }
    }
}

/// Everything that has changed since the cells were recorded.
pub open spec fn all_reasons(nb: NotebookModel, cell_index: int, stored: Seq<ShaModel>) -> Seq<
    Seq<char>,
> {
    let current = snapshot(nb);
    let cell = nb.cells[cell_index];
    deleted_reasons(stored, current) + inserted_reasons(preceding(current, cell.id), stored)
        + order_reasons(stored, current) + own_reasons(stored, cell) + modified_reasons(
        preceding(current, cell.id),
        stored,
    )
}

/// Whether the recorded SHAs of a cell still hold.
pub open spec fn staleness_of(nb: NotebookModel, cell_index: int) -> StalenessModel {
    match nb.cells[cell_index].data() {
        None => StalenessModel::Valid,
        Some(data) => match data.shas {
            None => StalenessModel::NotImplemented,
            Some(stored) => if all_reasons(nb, cell_index, stored).len() == 0 {
                StalenessModel::Valid
            } else {
                StalenessModel::OutOfDate(all_reasons(nb, cell_index, stored))
            },
        },
    }
}

/// Tells whether the recorded SHAs of the cell at `cell_index` still hold.
pub fn staleness(nb: &Notebook, cell_index: usize) -> (outcome: Staleness)
    requires
        cell_index < nb.cells.len(),
    ensures
        outcome@ == staleness_of(nb@, cell_index as int),
{
    let cell: &Cell = &nb.cells[cell_index];
    assert(nb@.cells[cell_index as int] == cell@);
    let data: NotaBeneData = match cell.nota_bene() {
        None => return Staleness::Valid,
        Some(data) => data,
    };
    let stored: Vec<ShaEntry> = match data.shas {
        None => return Staleness::NotImplemented,
        Some(stored) => stored,
    };
    let mut changes: Changes = find_changes(nb, cell_index, &stored);
    let ghost parts = changes;
    let mut reasons: Vec<String> = Vec::new();
    reasons.append(&mut changes.deleted);
    reasons.append(&mut changes.inserted);
    reasons.append(&mut changes.order);
    reasons.append(&mut changes.own);
    reasons.append(&mut changes.modified);
    assert(texts(reasons@) =~= texts(parts.deleted@) + texts(parts.inserted@) + texts(parts.order@)
        + texts(parts.own@) + texts(parts.modified@));
    assert(texts(reasons@) == all_reasons(nb@, cell_index as int, sha_models(stored@)));
    if reasons.len() == 0 {
        Staleness::Valid
    } else {
        Staleness::OutOfDate(reasons)
    }
}

// ---------------------------------------------------------------------------
// The state of a cell
// ---------------------------------------------------------------------------

/// What has changed: in the cell itself, and in the cells before it.
#[derive(Debug, PartialEq)]
pub struct ChangedState {
    pub needs_review: Vec<String>,
    pub ancestor_modified: Vec<String>,
}

/// The state of a cell.
#[derive(Debug, PartialEq)]
pub enum CellState {
    /// The cell is accepted as it is, or is no code cell.
    Valid,
    /// A code cell without metadata, or never accepted.
    Missing,
    /// Something changed since the cell was accepted.
    Changed(ChangedState),
}

/// What the state of a cell holds.
pub enum CellStateModel {
    Valid,
    Missing,
    Changed { needs_review: Seq<Seq<char>>, ancestor_modified: Seq<Seq<char>> },
}

impl View for CellState {
    type V = CellStateModel;

    open spec fn view(&self) -> CellStateModel {
        match self {
            CellState::Valid => CellStateModel::Valid,
            CellState::Missing => CellStateModel::Missing,
            CellState::Changed(changed) => CellStateModel::Changed {
                needs_review: texts(changed.needs_review@),
                ancestor_modified: texts(changed.ancestor_modified@),
            },
        }
    }
}

/// What has changed in the cells before a cell.
pub open spec fn ancestor_reasons(
    nb: NotebookModel,
    cell_index: int,
    stored: Seq<ShaModel>,
) -> Seq<Seq<char>> {
    let current = snapshot(nb);
    let cell = nb.cells[cell_index];
    deleted_reasons(stored, current) + inserted_reasons(preceding(current, cell.id), stored)
        + order_reasons(stored, current) + modified_reasons(preceding(current, cell.id), stored)
}

/// The state of a cell.
pub open spec fn state_of(nb: NotebookModel, cell_index: int) -> CellStateModel {
    let cell = nb.cells[cell_index];
    if !cell.is_code() {
        CellStateModel::Valid
    } else {
        match cell.data() {
            None => CellStateModel::Missing,
            Some(data) => match data.shas {
                None => CellStateModel::Missing,
                Some(stored) => {
                    let needs_review = own_reasons(stored, cell);
                    let ancestor_modified = ancestor_reasons(nb, cell_index, stored);
                    if needs_review.len() == 0 && ancestor_modified.len() == 0 {
                        CellStateModel::Valid
                    } else {
                        CellStateModel::Changed { needs_review, ancestor_modified }
                    }
                },
            },
        }
    }
}

/// Tells the state of the cell at `cell_index`.
pub fn cell_state(nb: &Notebook, cell_index: usize) -> (state: CellState)
    requires
        cell_index < nb.cells.len(),
    ensures
        state@ == state_of(nb@, cell_index as int),
{
    let cell: &Cell = &nb.cells[cell_index];
    assert(nb@.cells[cell_index as int] == cell@);
    if !cell.is_code() {
        return CellState::Valid;
    }
    let data: NotaBeneData = match cell.nota_bene() {
        None => return CellState::Missing,
        Some(data) => data,
    };
    let stored: Vec<ShaEntry> = match data.shas {
        None => return CellState::Missing,
        Some(stored) => stored,
    };
    let mut changes: Changes = find_changes(nb, cell_index, &stored);
    let ghost parts = changes;
    let mut needs_review: Vec<String> = Vec::new();
    needs_review.append(&mut changes.own);
    let mut ancestor_modified: Vec<String> = Vec::new();
    ancestor_modified.append(&mut changes.deleted);
    ancestor_modified.append(&mut changes.inserted);
    ancestor_modified.append(&mut changes.order);
    ancestor_modified.append(&mut changes.modified);
    assert(texts(needs_review@) =~= texts(parts.own@));
    assert(texts(ancestor_modified@) =~= texts(parts.deleted@) + texts(parts.inserted@) + texts(
        parts.order@,
    ) + texts(parts.modified@));
    assert(texts(ancestor_modified@) == ancestor_reasons(
        nb@,
        cell_index as int,
        sha_models(stored@),
    ));
    if needs_review.len() == 0 && ancestor_modified.len() == 0 {
        CellState::Valid
    } else {
        CellState::Changed(ChangedState { needs_review, ancestor_modified })
    }
}

// ---------------------------------------------------------------------------
// Accepting a cell
// ---------------------------------------------------------------------------

/// A cell with the given fingerprints recorded.
pub open spec fn with_shas(cell: CellModel, shas: Seq<ShaModel>) -> CellModel {
    CellModel { additional: with_field(cell.additional, "shas"@, shas_json(shas)), ..cell }
}

/// The notebook after a cell is accepted: the fingerprints of the cells up to
/// it are recorded in it, if it has metadata.
pub open spec fn accepted(nb: NotebookModel, cell_index: int) -> NotebookModel {
    let cell = nb.cells[cell_index];
    if cell.data() is Some {
        NotebookModel {
            cells: nb.cells.update(
                cell_index,
                with_shas(cell, snapshot(nb).take(cell_index + 1)),
            ),
            ..nb
        }
    } else {
        nb
    }
}

/// The first `count` entries.
pub fn first_entries(entries: &Vec<ShaEntry>, count: usize) -> (first: Vec<ShaEntry>)
    requires
        count <= entries.len(),
    ensures
        sha_models(first@) == sha_models(entries@).take(count as int),
{
    let mut first: Vec<ShaEntry> = Vec::new();
    let mut i: usize = 0;
    while i < count
        invariant
            i <= count <= entries.len(),
            first@ == entries@.take(i as int),
        decreases count - i,
    {
        first.push(entries[i].clone());
        i += 1;
    }
    assert(sha_models(first@) =~= sha_models(entries@).take(count as int));
    first
}

/// Records the fingerprints of the cells up to `cell_index` in that cell. Does
/// nothing if the cell has no metadata.
pub fn accept_cell(nb: &mut Notebook, cell_index: usize)
    requires
        cell_index < old(nb).cells.len(),
        writable(old(nb)@.cells[cell_index as int].additional),
    ensures
        final(nb)@ == accepted(old(nb)@, cell_index as int),
        final(nb).cells.len() == old(nb).cells.len(),
{
    let ghost before = nb@;
    let all: Vec<ShaEntry> = compute_snapshot(nb);
    assert(before.cells[cell_index as int] == nb.cells@[cell_index as int]@);
    if nb.cells[cell_index].nota_bene().is_some() {
        let ghost cells = nb.cells@;
        assert(sha_models(all@).len() == all@.len());
        let shas: Vec<ShaEntry> = first_entries(&all, cell_index + 1);
        let ghost recorded = sha_models(shas@);
        let cell: &mut Cell = &mut nb.cells[cell_index];
        cell.nota_bene_mut().set_shas(shas);
        assert(nb@.cells =~= before.cells.update(
            cell_index as int,
            with_shas(before.cells[cell_index as int], recorded),
        ));
    }
}

} // verus!
