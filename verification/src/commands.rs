//! What the commands decide and compute, apart from reading and writing files.
use vstd::prelude::*;

use crate::diagnostics::{diagnostic_models, Diagnostic};
use crate::filter::{
    all_match, cell_matches_all, filter_models, has_test, parsed_filter, Filter, FilterError,
    FilterErrorModel, FilterModel,
};
use crate::fixtures::Fixture;
use crate::format::{
    check_upgradable, executed_in, parse_executed_notebook, text_upgradable, version_part,
    ExecutedErrorModel,
};
use crate::json::{array_model, parsed_json, print_pretty, printed_json, Json, JsonModel};
use crate::metadata::{
    addressed, fixture_json, is_writable, nb_members, test_json, writable, write_fixture,
    write_single, write_test, NotaBeneView, TestMeta, METADATA_KEY,
};
use crate::metadata_laws::with_field_is_writable;
use crate::notebook::{Cell, CellExt, CellModel, Notebook, NotebookModel};
use crate::notebook_json::cells_have_ids;
use crate::save::{
    apply_editor_to_source, can_apply_editor, check_conflicts, check_editor, conflict_message,
    conflicts, edited_notebook, reading_warnings, section_warnings, sections_of,
};
use crate::shas::{accept_cell, accepted};
use crate::test_runner::{
    executor_error_result, extract_results, plain_error, test_outcome, CellTestResult,
    TestResultModel,
};
use crate::text::{after_prefix, strip_prefix, text_view, texts, trim, trimmed};
use crate::update::{
    apply_updates, can_write_targets, targets_writable, update_models, updates_diagnostics,
    validate_updates, with_updates, CellUpdate,
};
use crate::update_laws::{valid_updates_can_be_applied, valid_updates_succeed};
use crate::view::{cell_view, optional_texts, parse_fields, view_json, CellView};

verus! {

broadcast use {crate::json::array_view, crate::json::object_view};

// ---------------------------------------------------------------------------
// Paths
// ---------------------------------------------------------------------------

/// What is said of a path without a file name.
pub const NO_STEM: &'static str = "source path has no file stem";

/// The name of the editor notebook, from the file name of the source without
/// its extension.
pub fn editor_path(stem: Option<&str>) -> (name: Result<String, String>)
    ensures
        match stem {
            Some(s) => name matches Ok(n) && n@ == s@ + ".nota-bene.ipynb"@,
            None => name matches Err(message) && message@ == NO_STEM@,
        },
{
    match stem {
        Some(s) => {
            let mut name: String = s.to_owned();
            name.append(".nota-bene.ipynb");
            Ok(name)
        },
        None => Err(NO_STEM.to_owned()),
    }
}

// ---------------------------------------------------------------------------
// Filters
// ---------------------------------------------------------------------------

/// The filters that texts stand for; the first error if any of them is none.
pub open spec fn parsed_filters(raw: Seq<Seq<char>>) -> Result<Seq<FilterModel>, FilterErrorModel>
    decreases raw.len(),
{
    if raw.len() == 0 {
        Ok(Seq::empty())
    } else {
        match parsed_filters(raw.drop_last()) {
            Err(error) => Err(error),
            Ok(front) => match parsed_filter(raw.last()) {
                Ok(last) => Ok(front.push(last)),
                Err(error) => Err(error),
            },
        }
    }
}

/// An error at the beginning of a list is the error of the list.
proof fn parsed_filters_fail(raw: Seq<Seq<char>>, count: int)
    requires
        0 <= count <= raw.len(),
        parsed_filters(raw.take(count)) is Err,
    ensures
        parsed_filters(raw) == parsed_filters(raw.take(count)),
    decreases raw.len() - count,
{
    if count < raw.len() {
        assert(raw.take(count + 1).drop_last() =~= raw.take(count));
        parsed_filters_fail(raw, count + 1);
    } else {
        assert(raw.take(count) =~= raw);
    }
}

/// Parses filters.
pub fn parse_filters(raw: &Vec<String>) -> (outcome: Result<Vec<Filter>, FilterError>)
    ensures
        match outcome {
            Ok(filters) => parsed_filters(texts(raw@)) == Ok::<Seq<FilterModel>, FilterErrorModel>(
                filter_models(filters@),
            ),
            Err(error) => parsed_filters(texts(raw@)) == Err::<Seq<FilterModel>, FilterErrorModel>(
                error@,
            ),
        },
{
    let ghost all = texts(raw@);
    let mut filters: Vec<Filter> = Vec::new();
    let mut i: usize = 0;
    assert(all.take(0) =~= Seq::<Seq<char>>::empty());
    assert(filter_models(filters@) =~= Seq::<FilterModel>::empty());
    while i < raw.len()
        invariant
            i <= raw.len(),
            all == texts(raw@),
            parsed_filters(all.take(i as int)) == Ok::<Seq<FilterModel>, FilterErrorModel>(
                filter_models(filters@),
            ),
        decreases raw.len() - i,
    {
        let ghost before = filter_models(filters@);
        assert(all.take(i + 1).drop_last() =~= all.take(i as int));
        assert(all.take(i + 1).last() == raw@[i as int]@);
        match Filter::parse(raw[i].as_str()) {
            Ok(filter) => {
                filters.push(filter);
                assert(filter_models(filters@) =~= before.push(filter@));
            },
            Err(error) => {
                proof {
                    parsed_filters_fail(all, i + 1);
                }
                return Err(error);
            },
        }
        i += 1;
    }
    assert(all.take(i as int) =~= all);
    Ok(filters)
}

// ---------------------------------------------------------------------------
// Viewing
// ---------------------------------------------------------------------------

/// The code cells among the first `count` that match all filters, as JSON.
pub open spec fn viewed_cells(
    nb: NotebookModel,
    filters: Seq<FilterModel>,
    fields: Option<Seq<Seq<char>>>,
    count: int,
) -> Seq<JsonModel>
    decreases count,
{
    if count <= 0 {
        Seq::empty()
    } else {
        let front = viewed_cells(nb, filters, fields, count - 1);
        let cell = nb.cells[count - 1];
        if cell.is_code() && all_match(filters, nb, cell, count - 1) {
            front.push(view_json(cell_view(nb, count - 1), fields))
        } else {
            front
        }
    }
}

/// Shows the code cells that match all filters, each with the wanted fields.
pub fn view_cells(nb: &Notebook, filters: &Vec<Filter>, fields: &Option<Vec<String>>) -> (cells:
    Vec<Json>)
    ensures
        array_model(cells@) == viewed_cells(
            nb@,
            filter_models(filters@),
            optional_texts(*fields),
            nb@.cells.len() as int,
        ),
{
    let ghost wanted = optional_texts(*fields);
    let ghost models = filter_models(filters@);
    let mut cells: Vec<Json> = Vec::new();
    let mut i: usize = 0;
    assert(array_model(cells@) =~= Seq::<JsonModel>::empty());
    while i < nb.cells.len()
        invariant
            i <= nb.cells.len(),
            wanted == optional_texts(*fields),
            models == filter_models(filters@),
            array_model(cells@) == viewed_cells(nb@, models, wanted, i as int),
        decreases nb.cells.len() - i,
    {
        let ghost before = array_model(cells@);
        let cell: &Cell = &nb.cells[i];
        assert(nb@.cells[i as int] == cell@);
        if cell.is_code() && cell_matches_all(filters.as_slice(), nb, cell, i) {
            let shown: Json = CellView::from_cell(nb, i).to_json_value(fields);
            let ghost model = shown@;
            cells.push(shown);
            assert(array_model(cells@) =~= before.push(model));
        }
        i += 1;
    }
    cells
}

/// The text of a list of JSON values; `None` where the printer fails.
pub fn print_cells(cells: Vec<Json>) -> (text: Option<String>)
    ensures
        text_view(text) == printed_json(JsonModel::Array(array_model(cells@))),
{
    print_pretty(&Json::Array(cells))
}

// ---------------------------------------------------------------------------
// Status
// ---------------------------------------------------------------------------

/// The filter that lets invalid cells through.
pub const INVALID_FILTER: &'static str = "status.valid:false";

/// The fields that the status of a cell shows.
pub const STATUS_FIELDS: &'static str = "cell_id,status";

/// The filters of the status command: the given ones, and that the cell is
/// invalid.
pub open spec fn status_filters(raw: Seq<Seq<char>>) -> Result<
    Seq<FilterModel>,
    FilterErrorModel,
> {
    parsed_filters(raw.push(INVALID_FILTER@))
}

/// Parses the filters of the status command.
pub fn parse_status_filters(raw: &Vec<String>) -> (outcome: Result<Vec<Filter>, FilterError>)
    ensures
        match outcome {
            Ok(filters) => status_filters(texts(raw@)) == Ok::<Seq<FilterModel>, FilterErrorModel>(
                filter_models(filters@),
            ),
            Err(error) => status_filters(texts(raw@)) == Err::<Seq<FilterModel>, FilterErrorModel>(
                error@,
            ),
        },
{
    let ghost all = texts(raw@).push(INVALID_FILTER@);
    assert(all.drop_last() =~= texts(raw@));
    let mut filters: Vec<Filter> = match parse_filters(raw) {
        Ok(filters) => filters,
        Err(error) => {
            return Err(error);
        },
    };
    let ghost before = filter_models(filters@);
    match Filter::parse(INVALID_FILTER) {
        Ok(filter) => {
            filters.push(filter);
            assert(filter_models(filters@) =~= before.push(filter@));
            Ok(filters)
        },
        Err(error) => Err(error),
    }
}

/// Shows the status of the cells that match all filters.
pub fn status_cells(nb: &Notebook, filters: &Vec<Filter>) -> (cells: Vec<Json>)
    ensures
        array_model(cells@) == viewed_cells(
            nb@,
            filter_models(filters@),
            Some(crate::filter::comma_values(STATUS_FIELDS@)),
            nb@.cells.len() as int,
        ),
{
    view_cells(nb, filters, &Some(parse_fields(STATUS_FIELDS)))
}

/// The exit code of the status command: 1 if any cell is shown.
pub fn status_exit_code(cells: &Vec<Json>) -> (code: i32)
    ensures
        code == if cells@.len() > 0 {
            1i32
        } else {
            0i32
        },
{
    if cells.len() > 0 {
        1
    } else {
        0
    }
}

// ---------------------------------------------------------------------------
// Accepting
// ---------------------------------------------------------------------------

/// What is said if no cells are asked for.
pub const ACCEPT_NOTHING: &'static str =
    "one of --all or at least one --filter is required for `accept`";

/// What is said if all cells and some cells are asked for.
pub const ACCEPT_BOTH: &'static str = "--all and --filter are mutually exclusive for `accept`";

/// Checks what the accept command is asked for.
pub fn check_accept(all: bool, filter_count: usize) -> (outcome: Result<(), String>)
    ensures
        match outcome {
            Ok(_) => all == (filter_count == 0),
            Err(message) => if all {
                filter_count > 0 && message@ == ACCEPT_BOTH@
            } else {
                filter_count == 0 && message@ == ACCEPT_NOTHING@
            },
        },
{
    if !all && filter_count == 0 {
        Err(ACCEPT_NOTHING.to_owned())
    } else if all && filter_count > 0 {
        Err(ACCEPT_BOTH.to_owned())
    } else {
        Ok(())
    }
}

/// The positions among the first `count` of the code cells to be accepted.
pub open spec fn positions_to_accept(
    nb: NotebookModel,
    all: bool,
    filters: Seq<FilterModel>,
    count: int,
) -> Seq<int>
    decreases count,
{
    if count <= 0 {
        Seq::empty()
    } else {
        let front = positions_to_accept(nb, all, filters, count - 1);
        let cell = nb.cells[count - 1];
        if cell.is_code() && (all || all_match(filters, nb, cell, count - 1)) {
            front.push(count - 1)
        } else {
            front
        }
    }
}

/// What a list of positions holds.
pub open spec fn positions(indices: Seq<usize>) -> Seq<int> {
    indices.map_values(|index: usize| index as int)
}

/// Finds the code cells to be accepted: all of them, or those that match all
/// filters.
pub fn find_cells_to_accept(nb: &Notebook, all: bool, filters: &Vec<Filter>) -> (indices: Vec<
    usize,
>)
    ensures
        positions(indices@) == positions_to_accept(
            nb@,
            all,
            filter_models(filters@),
            nb@.cells.len() as int,
        ),
        forall|k: int| 0 <= k < indices@.len() ==> #[trigger] indices@[k] < nb.cells.len(),
{
    let ghost models = filter_models(filters@);
    let mut indices: Vec<usize> = Vec::new();
    let mut i: usize = 0;
    assert(positions(indices@) =~= Seq::<int>::empty());
    while i < nb.cells.len()
        invariant
            i <= nb.cells.len(),
            models == filter_models(filters@),
            positions(indices@) == positions_to_accept(nb@, all, models, i as int),
            forall|k: int| 0 <= k < indices@.len() ==> #[trigger] indices@[k] < nb.cells.len(),
        decreases nb.cells.len() - i,
    {
        let ghost before = positions(indices@);
        let cell: &Cell = &nb.cells[i];
        assert(nb@.cells[i as int] == cell@);
        if cell.is_code() && (all || cell_matches_all(filters.as_slice(), nb, cell, i)) {
            indices.push(i);
            assert(positions(indices@) =~= before.push(i as int));
        }
        i += 1;
    }
    indices
}

/// A notebook with metadata in the cell at a position, empty if it had none.
pub open spec fn with_metadata(nb: NotebookModel, index: int) -> NotebookModel {
    let cell = nb.cells[index];
    NotebookModel {
        cells: nb.cells.update(
            index,
            CellModel { additional: addressed(cell.additional), ..cell },
        ),
        ..nb
    }
}

/// A notebook after cells are accepted, one after the other. A cell without
/// metadata gets some.
pub open spec fn accepted_all(nb: NotebookModel, indices: Seq<int>) -> NotebookModel
    decreases indices.len(),
{
    if indices.len() == 0 {
        nb
    } else {
        accepted(
            with_metadata(accepted_all(nb, indices.drop_last()), indices.last()),
            indices.last(),
        )
    }
}

/// Accepting cells does not change their number, and leaves what can be written
/// to writable.
proof fn accepting_keeps_writable(nb: NotebookModel, indices: Seq<int>)
    requires
        forall|k: int| 0 <= k < indices.len() ==> 0 <= #[trigger] indices[k] < nb.cells.len(),
    ensures
        accepted_all(nb, indices).cells.len() == nb.cells.len(),
        forall|i: int|
            0 <= i < nb.cells.len() && writable(nb.cells[i].additional) ==> writable(
                (#[trigger] accepted_all(nb, indices).cells[i]).additional,
            ),
    decreases indices.len(),
{
    if indices.len() > 0 {
        let front = indices.drop_last();
        assert forall|k: int| 0 <= k < front.len() implies 0 <= #[trigger] front[k]
            < nb.cells.len() by {
            assert(front[k] == indices[k]);
        }
        accepting_keeps_writable(nb, front);
        let before = accepted_all(nb, front);
        let at = indices.last();
        assert(indices[indices.len() - 1] == at);
        let between = with_metadata(before, at);
        with_field_is_writable(
            before.cells[at].additional,
            nb_members(before.cells[at].additional),
        );
        let cell = between.cells[at];
        if cell.data() is Some {
            with_field_is_writable(
                cell.additional,
                crate::json::with_member(
                    nb_members(cell.additional),
                    "shas"@,
                    crate::metadata::shas_json(crate::shas::snapshot(between).take(at + 1)),
                ),
            );
        }
        let after = accepted_all(nb, indices);
        assert forall|i: int| 0 <= i < nb.cells.len() && writable(nb.cells[i].additional) implies
            writable((#[trigger] after.cells[i]).additional) by {
            assert(writable(before.cells[i].additional));
        }
    }
}

/// Whether all positions are those of cells whose metadata can be written to.
pub open spec fn can_accept(nb: NotebookModel, indices: Seq<int>) -> bool {
    forall|k: int|
        0 <= k < indices.len() ==> 0 <= #[trigger] indices[k] < nb.cells.len() && writable(
            nb.cells[indices[k]].additional,
        )
}

/// Accepts cells, one after the other. A cell without metadata gets some, so
/// that accepting it counts.
pub fn accept_cells(nb: &mut Notebook, indices: &Vec<usize>)
    requires
        can_accept(old(nb)@, positions(indices@)),
    ensures
        final(nb)@ == accepted_all(old(nb)@, positions(indices@)),
{
    let ghost before = nb@;
    let ghost all = positions(indices@);
    let mut i: usize = 0;
    assert(all.take(0) =~= Seq::<int>::empty());
    while i < indices.len()
        invariant
            i <= indices.len(),
            all == positions(indices@),
            can_accept(before, all),
            nb@ == accepted_all(before, all.take(i as int)),
        decreases indices.len() - i,
    {
        let ghost done = all.take(i as int);
        proof {
            assert forall|k: int| 0 <= k < done.len() implies 0 <= #[trigger] done[k]
                < before.cells.len() by {
                assert(done[k] == all[k]);
            }
            accepting_keeps_writable(before, done);
            assert(all.take(i + 1).drop_last() =~= done);
            assert(all.take(i + 1).last() == all[i as int]);
            assert(all[i as int] == indices@[i as int] as int);
            assert(nb@.cells.len() == nb.cells.len());
            assert(writable(nb@.cells[all[i as int]].additional));
        }
        let ghost now = nb@;
        let at: usize = indices[i];
        let cell: &mut Cell = &mut nb.cells[at];
        let mut view: NotaBeneView<'_> = cell.nota_bene_mut();
        view.mark_addressed();
        assert(nb@.cells =~= with_metadata(now, at as int).cells);
        proof {
            with_field_is_writable(
                now.cells[at as int].additional,
                nb_members(now.cells[at as int].additional),
            );
        }
        accept_cell(nb, at);
        i += 1;
    }
    assert(all.take(i as int) =~= all);
}

/// Finds out whether all positions are those of cells whose metadata can be
/// written to.
fn check_cells_to_accept(nb: &Notebook, indices: &Vec<usize>) -> (possible: bool)
    ensures
        possible == can_accept(nb@, positions(indices@)),
{
    let ghost all = positions(indices@);
    let mut i: usize = 0;
    while i < indices.len()
        invariant
            i <= indices.len(),
            all == positions(indices@),
            can_accept(nb@, all.take(i as int)),
        decreases indices.len() - i,
    {
        let at: usize = indices[i];
        assert(all[i as int] == at as int);
        if at >= nb.cells.len() {
            return false;
        }
        assert(nb@.cells[at as int] == nb.cells@[at as int]@);
        if !is_writable(nb.cells[at].additional()) {
            return false;
        }
        proof {
            let done = all.take(i as int);
            let more = all.take(i + 1);
            assert forall|k: int| 0 <= k < more.len() implies 0 <= #[trigger] more[k]
                < nb@.cells.len() && writable(nb@.cells[more[k]].additional) by {
                if k < i {
                    assert(done[k] == more[k]);
                }
            }
        }
        i += 1;
    }
    assert(all.take(i as int) =~= all);
    true
}

/// Accepts all code cells, or those that match the filters. If the metadata of
/// one of them is no object, it changes nothing and says so.
pub fn accept_matching(nb: &mut Notebook, all: bool, filters: &Vec<Filter>) -> (done: bool)
    ensures
        ({
            let chosen = positions_to_accept(
                old(nb)@,
                all,
                filter_models(filters@),
                old(nb)@.cells.len() as int,
            );
            &&& done == can_accept(old(nb)@, chosen)
            &&& final(nb)@ == if done {
                accepted_all(old(nb)@, chosen)
            } else {
                old(nb)@
            }
        }),
{
    let indices: Vec<usize> = find_cells_to_accept(nb, all, filters);
    if !check_cells_to_accept(nb, &indices) {
        return false;
    }
    accept_cells(nb, &indices);
    true
}

// ---------------------------------------------------------------------------
// Updating
// ---------------------------------------------------------------------------

/// Where the data of an update comes from.
#[derive(Debug, PartialEq)]
pub enum DataSource {
    /// From the command line.
    Inline(String),
    /// From a file.
    File(String),
}

/// What is said if data is given twice.
pub const DATA_TWICE: &'static str = "cannot pass both --data and --data-file";

/// What is said if no data is given.
pub const DATA_MISSING: &'static str = "one of --data or --data-file is required";

/// Decides where the data of an update comes from.
pub fn choose_data(data: Option<String>, data_file: Option<String>) -> (source: Result<
    DataSource,
    String,
>)
    ensures
        match (data, data_file) {
            (Some(d), None) => source matches Ok(DataSource::Inline(text)) && text@ == d@,
            (None, Some(f)) => source matches Ok(DataSource::File(path)) && path@ == f@,
            (Some(_), Some(_)) => source matches Err(message) && message@ == DATA_TWICE@,
            (None, None) => source matches Err(message) && message@ == DATA_MISSING@,
        },
{
    match (data, data_file) {
        (Some(d), None) => Ok(DataSource::Inline(d)),
        (None, Some(f)) => Ok(DataSource::File(f)),
        (Some(_), Some(_)) => Err(DATA_TWICE.to_owned()),
        (None, None) => Err(DATA_MISSING.to_owned()),
    }
}

/// What is printed about invalid updates.
pub fn report_diagnostics(diagnostics: &Vec<Diagnostic>) -> (json: Json)
    ensures
        json@ == crate::view::status_json(false, diagnostic_models(diagnostics@)),
{
    crate::view::write_status(false, diagnostics)
}

/// What becomes of an update.
#[derive(Debug)]
pub enum UpdateOutcome {
    /// Something is wrong with the updates, and nothing was changed.
    Refused(Vec<Diagnostic>),
    /// The metadata of a cell is no object, and nothing was changed.
    NotAnObject,
    /// The updates were applied.
    Applied,
}

/// Checks updates against a notebook, and applies them if nothing is wrong with
/// them.
pub fn update_notebook(updates: Vec<CellUpdate>, nb: &mut Notebook) -> (outcome: UpdateOutcome)
    ensures
        ({
            let models = update_models(updates@);
            let cells = old(nb)@.cells;
            let wrong = updates_diagnostics(models, cells);
            let done = with_updates(cells, models);
            match outcome {
                UpdateOutcome::Refused(diagnostics) => wrong.len() > 0 && diagnostic_models(
                    diagnostics@,
                ) == wrong && final(nb)@ == old(nb)@,
                UpdateOutcome::NotAnObject => wrong.len() == 0 && !targets_writable(cells, models)
                    && final(nb)@ == old(nb)@,
                UpdateOutcome::Applied => wrong.len() == 0 && targets_writable(cells, models)
                    && done.1 is None && final(nb)@ == (NotebookModel {
                    cells: done.0,
                    ..old(nb)@
                }),
            }
        }),
{
    let diagnostics: Vec<Diagnostic> = validate_updates(updates.as_slice(), nb);
    assert(diagnostic_models(diagnostics@).len() == diagnostics@.len());
    if diagnostics.len() > 0 {
        return UpdateOutcome::Refused(diagnostics);
    }
    if !can_write_targets(nb, updates.as_slice()) {
        return UpdateOutcome::NotAnObject;
    }
    proof {
        valid_updates_can_be_applied(nb@.cells, update_models(updates@));
        valid_updates_succeed(nb@.cells, update_models(updates@));
    }
    let applied = apply_updates(updates, nb);
    assert(applied is Ok);
    UpdateOutcome::Applied
}

// ---------------------------------------------------------------------------
// Editing
// ---------------------------------------------------------------------------

/// A notebook without the metadata of its cells.
pub open spec fn stripped(nb: NotebookModel) -> NotebookModel {
    NotebookModel {
        cells: nb.cells.map_values(
            |cell: CellModel|
                CellModel {
                    additional: crate::json::without_member(cell.additional, METADATA_KEY@),
                    ..cell
                },
        ),
        ..nb
    }
}

/// Removes the metadata of every cell.
pub fn strip_metadata(nb: &mut Notebook)
    ensures
        final(nb)@ == stripped(old(nb)@),
{
    let ghost before = nb@;
    let mut i: usize = 0;
    while i < nb.cells.len()
        invariant
            i <= nb.cells.len(),
            before == old(nb)@,
            nb.cells.len() == before.cells.len(),
            nb@ == (NotebookModel { cells: nb@.cells, ..before }),
            forall|k: int|
                0 <= k < i ==> (#[trigger] nb@.cells[k]) == stripped(before).cells[k],
            forall|k: int|
                i <= k < before.cells.len() ==> (#[trigger] nb@.cells[k]) == before.cells[k],
        decreases nb.cells.len() - i,
    {
        let ghost cells = nb@.cells;
        assert(cells[i as int] == nb.cells@[i as int]@);
        let cell: &mut Cell = &mut nb.cells[i];
        cell.nota_bene_mut().clear();
        assert(nb@.cells =~= cells.update(i as int, stripped(before).cells[i as int]));
        i += 1;
    }
    assert(nb@.cells =~= stripped(before).cells);
}

/// What becomes of the changes in an editor notebook.
#[derive(Debug)]
pub enum EditOutcome {
    /// The source has changed meanwhile, and is left as it is.
    Conflict(String),
    /// The changes cannot be written down.
    Impossible,
    /// They were applied, with something to say about them.
    Applied(Vec<String>),
}

/// The source that the changes of an editor notebook are applied to.
pub open spec fn edit_base(source: NotebookModel, force: bool) -> NotebookModel {
    if force {
        stripped(source)
    } else {
        source
    }
}

/// Brings the changes in an editor notebook back into its source: unless the
/// source has changed meanwhile, or, if forced, after its metadata is removed.
pub fn continue_edit(source: &mut Notebook, editor: &Notebook, force: bool) -> (outcome:
    EditOutcome)
    ensures
        ({
            let base = edit_base(old(source)@, force);
            let found = conflicts(old(source)@, editor@);
            match outcome {
                EditOutcome::Conflict(message) => !force && found.len() > 0 && message@
                    == conflict_message(found) && final(source)@ == old(source)@,
                EditOutcome::Impossible => (force || found.len() == 0) && !can_apply_editor(
                    base,
                    editor@,
                ) && final(source)@ == base,
                EditOutcome::Applied(warnings) => (force || found.len() == 0)
                    && can_apply_editor(base, editor@) && final(source)@ == edited_notebook(
                    base,
                    editor@,
                ) && texts(warnings@) == reading_warnings(editor@) + section_warnings(
                    base.cells,
                    sections_of(editor@),
                ),
            }
        }),
{
    if force {
        strip_metadata(source);
    } else if let Err(message) = check_conflicts(source, editor) {
        return EditOutcome::Conflict(message);
    }
    if !check_editor(source, editor) {
        return EditOutcome::Impossible;
    }
    match apply_editor_to_source(source, editor) {
        Ok(warnings) => EditOutcome::Applied(warnings),
        Err(_) => EditOutcome::Impossible,
    }
}

// ---------------------------------------------------------------------------
// Scaffolds
// ---------------------------------------------------------------------------

/// Makes the JSON of a fixture, to be used in an update.
pub fn scaffold_fixture(name: &str, fixture: &Fixture) -> (json: Json)
    ensures
        json@ == JsonModel::Object(
            seq![("fixtures"@, JsonModel::Object(seq![(name@, fixture_json(fixture@))]))],
        ),
{
    write_single("fixtures", write_single(name, write_fixture(fixture)))
}

/// Makes the JSON of a test, to be used in an update.
pub fn scaffold_test(test: &TestMeta) -> (json: Json)
    ensures
        json@ == JsonModel::Object(seq![("test"@, test_json(test@))]),
{
    write_single("test", write_test(test))
}

// ---------------------------------------------------------------------------
// Running tests
// ---------------------------------------------------------------------------

/// A cell whose test is to be run.
#[derive(Debug)]
pub struct TestTarget {
    pub index: usize,
    pub cell_id: String,
    pub test_name: String,
}

/// What a target holds.
pub struct TargetModel {
    pub index: int,
    pub cell_id: Seq<char>,
    pub test_name: Seq<char>,
}

impl View for TestTarget {
    type V = TargetModel;

    open spec fn view(&self) -> TargetModel {
        TargetModel {
            index: self.index as int,
            cell_id: self.cell_id@,
            test_name: self.test_name@,
        }
    }
}

/// What a list of targets holds.
pub open spec fn target_models(targets: Seq<TestTarget>) -> Seq<TargetModel> {
    targets.map_values(|target: TestTarget| target@)
}

/// The code cells among the first `count` that have a test and match all
/// filters.
pub open spec fn targets_among(
    nb: NotebookModel,
    filters: Seq<FilterModel>,
    count: int,
) -> Seq<TargetModel>
    decreases count,
{
    if count <= 0 {
        Seq::empty()
    } else {
        let front = targets_among(nb, filters, count - 1);
        let cell = nb.cells[count - 1];
        if cell.is_code() && has_test(cell) && all_match(filters, nb, cell, count - 1) {
            front.push(
                TargetModel {
                    index: count - 1,
                    cell_id: cell.id,
                    test_name: cell.data()->0.test->0.name,
                },
            )
        } else {
            front
        }
    }
}

/// Finds the cells whose tests are to be run.
pub fn find_test_targets(nb: &Notebook, filters: &Vec<Filter>) -> (targets: Vec<TestTarget>)
    ensures
        target_models(targets@) == targets_among(
            nb@,
            filter_models(filters@),
            nb@.cells.len() as int,
        ),
{
    let ghost models = filter_models(filters@);
    let mut targets: Vec<TestTarget> = Vec::new();
    let mut i: usize = 0;
    assert(target_models(targets@) =~= Seq::<TargetModel>::empty());
    while i < nb.cells.len()
        invariant
            i <= nb.cells.len(),
            models == filter_models(filters@),
            target_models(targets@) == targets_among(nb@, models, i as int),
        decreases nb.cells.len() - i,
    {
        let ghost before = target_models(targets@);
        let cell: &Cell = &nb.cells[i];
        assert(nb@.cells[i as int] == cell@);
        if cell.is_code() {
            if let Some(data) = cell.nota_bene() {
                if let Some(test) = data.test {
                    if cell_matches_all(filters.as_slice(), nb, cell, i) {
                        let target = TestTarget {
                            index: i,
                            cell_id: cell.cell_id_str().to_owned(),
                            test_name: test.name,
                        };
                        let ghost model = target@;
                        targets.push(target);
                        assert(target_models(targets@) =~= before.push(model));
                    }
                }
            }
        }
        i += 1;
    }
    targets
}

/// What a list of test results holds.
pub open spec fn result_models(results: Seq<CellTestResult>) -> Seq<TestResultModel> {
    results.map_values(|result: CellTestResult| result@)
}

/// The exit code of the test command: 2 if any test could not run, 1 if any did
/// not pass, else 0.
pub open spec fn exit_code_of(results: Seq<TestResultModel>) -> i32 {
    if exists|i: int| 0 <= i < results.len() && (#[trigger] results[i]) is Error {
        2
    } else if exists|i: int| 0 <= i < results.len() && !(#[trigger] results[i]).passed() {
        1
    } else {
        0
    }
}

/// The exit code of the test command.
pub fn test_exit_code(results: &Vec<CellTestResult>) -> (code: i32)
    ensures
        code == exit_code_of(result_models(results@)),
{
    let ghost models = result_models(results@);
    let mut all_passed: bool = true;
    let mut any_error: bool = false;
    let mut i: usize = 0;
    while i < results.len()
        invariant
            i <= results.len(),
            models == result_models(results@),
            all_passed == !exists|k: int| 0 <= k < i && !(#[trigger] models[k]).passed(),
            any_error == exists|k: int| 0 <= k < i && (#[trigger] models[k]) is Error,
        decreases results.len() - i,
    {
        assert(models[i as int] == results@[i as int]@);
        if !results[i].all_passed() {
            all_passed = false;
        }
        if results[i].is_error() {
            any_error = true;
        }
        i += 1;
    }
    if any_error {
        2
    } else if !all_passed {
        1
    } else {
        0
    }
}

/// What the executor begins its own errors with.
pub const EXECUTOR_MARKER: &'static str = "__NB_EXEC_ERROR__";

/// What is said of an executor that failed: its own error if it printed one,
/// else its status, with what it printed.
pub open spec fn failure_detail(status: Seq<char>, stderr: Seq<char>) -> Seq<char> {
    match after_prefix(stderr, EXECUTOR_MARKER@) {
        Some(message) => "Executor error: "@ + trimmed(message),
        None => if stderr.len() > 0 {
            "Executor failed ("@ + status + "). stderr: "@ + trimmed(stderr)
        } else {
            "Executor failed ("@ + status + ")"@
        },
    }
}

/// The result of a test whose executor failed. `status` is how its exit status
/// displays.
pub fn failed_executor_result(cell_id: &str, test_name: &str, status: &str, stderr: &str) -> (result:
    CellTestResult)
    ensures
        result@ == (TestResultModel::Error {
            cell_id: cell_id@,
            test_name: test_name@,
            error: plain_error("executor"@, failure_detail(status@, stderr@)),
        }),
{
    let detail: String = match strip_prefix(stderr, EXECUTOR_MARKER) {
        Some(message) => {
            let mut text: String = "Executor error: ".to_owned();
            text.append(trim(message.as_str()).as_str());
            text
        },
        None => {
            let mut text: String = "Executor failed (".to_owned();
            text.append(status);
            if !stderr.is_empty() {
                text.append("). stderr: ");
                text.append(trim(stderr).as_str());
            } else {
                text.append(")");
            }
            text
        },
    };
    executor_error_result(cell_id, test_name, detail.as_str())
}

/// What an executed notebook, or the failure to read it, says about a test.
pub open spec fn executed_outcome(
    executed: Result<NotebookModel, ExecutedErrorModel>,
    cell_id: Seq<char>,
    test_name: Seq<char>,
) -> TestResultModel {
    match executed {
        Ok(nb) => test_outcome(nb, cell_id, test_name),
        Err(error) => TestResultModel::Error {
            cell_id,
            test_name,
            error: plain_error(
                "executor"@,
                "Failed to parse executed notebook: "@ + error.text(),
            ),
        },
    }
}

/// Reads off what an executed notebook, or the failure to read it, says about a
/// test.
pub fn judge_executed(
    executed: Result<Notebook, crate::format::ExecutedError>,
    cell_id: &str,
    test_name: &str,
) -> (result: CellTestResult)
    ensures
        result@ == executed_outcome(
            match executed {
                Ok(nb) => Ok(nb@),
                Err(error) => Err(error@),
            },
            cell_id@,
            test_name@,
        ),
{
    match executed {
        Ok(nb) => extract_results(&nb, cell_id, test_name),
        Err(error) => {
            let mut detail: String = "Failed to parse executed notebook: ".to_owned();
            detail.append(error.message().as_str());
            executor_error_result(cell_id, test_name, detail.as_str())
        },
    }
}

/// Reads off what the executor printed what it says about a test; nothing if it
/// printed a notebook that cannot be upgraded. A text that is no JSON is an
/// error of the executor.
pub fn executor_result(stdout: &str, cell_id: &str, test_name: &str) -> (result: Option<
    CellTestResult,
>)
    ensures
        result is Some == text_upgradable(stdout@),
        result is None ==> (parsed_json(stdout@) matches Ok(json) && version_part(
            json,
            "nbformat"@,
        ) == 3),
        parsed_json(stdout@) is Err ==> result->0@ == (TestResultModel::Error {
            cell_id: cell_id@,
            test_name: test_name@,
            error: plain_error(
                "executor"@,
                "Failed to parse executed notebook: "@
                    + "parsing executed notebook from subprocess stdout"@,
            ),
        }),
        result is Some ==> exists|ids: Seq<Seq<char>>, more_ids: Seq<Seq<char>>|
            result->0@ == executed_outcome(
                #[trigger] executed_in(stdout@, ids, more_ids),
                cell_id@,
                test_name@,
            ),
        (result is Some && (parsed_json(stdout@) matches Ok(json) && cells_have_ids(json)))
            ==> exists|more_ids: Seq<Seq<char>>|
            result->0@ == executed_outcome(
                #[trigger] executed_in(stdout@, Seq::empty(), more_ids),
                cell_id@,
                test_name@,
            ),
{
    if check_upgradable(stdout) {
        Some(judge_executed(parse_executed_notebook(stdout), cell_id, test_name))
    } else {
        None
    }
}

} // verus!
