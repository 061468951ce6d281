//! Diagnostics for an editor: where in the text of a notebook they belong.
use vstd::prelude::*;
use vstd::utf8::encode_utf8;

use crate::diagnostic_cache::{
    after_get, after_put, cache_entries, cache_get, cache_limit, cache_put, cached_value, key_index,
    DiagnosticCache,
};
use crate::diagnostics::{
    compute_own_diagnostics, compute_state_diagnostics, copy_diagnostics, diagnostic_models,
    kind_name, own_diagnostics, state_diagnostics, Diagnostic, DiagnosticModel, Severity,
};
use crate::format::{notebook_in, read_notebook};
use crate::json::parsed_json;
use crate::json_path::{
    json_path_range, line_starts, path_model, position_at, range_at, text_spans, JsonPathSegment,
    LineIndex, SegmentModel,
};
use crate::notebook::{Cell, CellModel, Notebook, NotebookModel};
use crate::notebook_json::cells_have_ids;
use crate::shas::{cell_sha, compute_cell_sha};

verus! {

/// A diagnostic as an editor shows it. Lines and characters count from zero,
/// characters in bytes.
#[derive(Debug)]
pub struct LspDiagnostic {
    pub start_line: u32,
    pub start_character: u32,
    pub end_line: u32,
    pub end_character: u32,
    pub severity: Severity,
    pub code: String,
    pub source: String,
    pub message: String,
}

/// What a diagnostic for an editor holds.
pub struct LspModel {
    pub start_line: u32,
    pub start_character: u32,
    pub end_line: u32,
    pub end_character: u32,
    pub severity: Severity,
    pub code: Seq<char>,
    pub source: Seq<char>,
    pub message: Seq<char>,
}

impl View for LspDiagnostic {
    type V = LspModel;

    open spec fn view(&self) -> LspModel {
        LspModel {
            start_line: self.start_line,
            start_character: self.start_character,
            end_line: self.end_line,
            end_character: self.end_character,
            severity: self.severity,
            code: self.code@,
            source: self.source@,
            message: self.message@,
        }
    }
}

/// What a list of diagnostics for an editor holds.
pub open spec fn lsp_models(list: Seq<LspDiagnostic>) -> Seq<LspModel> {
    list.map_values(|diagnostic: LspDiagnostic| diagnostic@)
}

/// The byte range of the source of a cell within the text of its notebook.
pub open spec fn source_range(text: Seq<char>, cell_index: usize) -> Option<(usize, usize)> {
    match text_spans(text) {
        Some(tree) => range_at(
            tree,
            seq![
                SegmentModel::Key("cells"@),
                SegmentModel::Index(cell_index),
                SegmentModel::Key("source"@),
            ],
        ),
        None => None,
    }
}

/// A diagnostic of a cell, at the source of the cell.
pub open spec fn lsp_diagnostic(
    text: Seq<char>,
    range: (usize, usize),
    diagnostic: DiagnosticModel,
) -> LspModel {
    let starts = line_starts(encode_utf8(text));
    let start = position_at(starts, range.0 as int);
    let end = position_at(starts, range.1 as int);
    LspModel {
        start_line: start.0 as u32,
        start_character: start.1 as u32,
        end_line: end.0 as u32,
        end_character: end.1 as u32,
        severity: diagnostic.severity,
        code: kind_name(diagnostic.kind),
        source: "nota-bene"@,
        message: diagnostic.message,
    }
}

/// The diagnostics of a cell, at the source of the cell; none if its source is
/// not found in the text.
pub open spec fn lsp_list(
    text: Seq<char>,
    cell_index: usize,
    diagnostics: Seq<DiagnosticModel>,
) -> Seq<LspModel> {
    match source_range(text, cell_index) {
        Some(range) => diagnostics.map_values(
            |diagnostic: DiagnosticModel| lsp_diagnostic(text, range, diagnostic),
        ),
        None => Seq::empty(),
    }
}

/// Places a diagnostic of a cell at the source of the cell; `None` if its source
/// is not found in the text.
pub fn map_to_lsp_diagnostic(
    text: &str,
    line_index: &LineIndex,
    cell_index: usize,
    diag: &Diagnostic,
) -> (placed: Option<LspDiagnostic>)
    requires
        line_index@ == line_starts(encode_utf8(text@)),
    ensures
        match placed {
            Some(d) => source_range(text@, cell_index) is Some && d@ == lsp_diagnostic(
                text@,
                source_range(text@, cell_index)->0,
                diag@,
            ),
            None => source_range(text@, cell_index) is None,
        },
{
    let path: Vec<JsonPathSegment> = vec![
        JsonPathSegment::Key("cells".to_owned()),
        JsonPathSegment::Index(cell_index),
        JsonPathSegment::Key("source".to_owned()),
    ];
    assert(path_model(path@) =~= seq![
        SegmentModel::Key("cells"@),
        SegmentModel::Index(cell_index),
        SegmentModel::Key("source"@),
    ]);
    match json_path_range(text, path.as_slice()) {
        Some(range) => {
            let start: (usize, usize) = line_index.offset_to_position(range.start);
            let end: (usize, usize) = line_index.offset_to_position(range.end);
            Some(
                LspDiagnostic {
                    start_line: start.0 as u32,
                    start_character: start.1 as u32,
                    end_line: end.0 as u32,
                    end_character: end.1 as u32,
                    severity: diag.severity,
                    code: diag.kind.to_string(),
                    source: "nota-bene".to_owned(),
                    message: diag.message.clone(),
                },
            )
        },
        None => None,
    }
}

/// What the cache says about the content of a cell: what it holds for the
/// fingerprint of the cell, or else the diagnostics of the content.
pub open spec fn cached_diagnostics(
    entries: Seq<(Seq<char>, Seq<DiagnosticModel>)>,
    cell: CellModel,
) -> Seq<DiagnosticModel> {
    match cached_value(entries, cell_sha(cell)) {
        Some(value) => value,
        None => own_diagnostics(cell),
    }
}

/// The entries of the cache after a cell is looked at.
pub open spec fn after_cell(
    entries: Seq<(Seq<char>, Seq<DiagnosticModel>)>,
    limit: nat,
    cell: CellModel,
) -> Seq<(Seq<char>, Seq<DiagnosticModel>)> {
    match cached_value(entries, cell_sha(cell)) {
        Some(_) => after_get(entries, cell_sha(cell)),
        None => after_put(entries, limit, cell_sha(cell), own_diagnostics(cell)),
    }
}

/// The entries of the cache after the first `count` cells of a notebook.
pub open spec fn entries_after(
    nb: NotebookModel,
    entries: Seq<(Seq<char>, Seq<DiagnosticModel>)>,
    limit: nat,
    count: int,
) -> Seq<(Seq<char>, Seq<DiagnosticModel>)>
    decreases count,
{
    if count <= 0 {
        entries
    } else {
        let before = entries_after(nb, entries, limit, count - 1);
        if nb.cells[count - 1].is_code() {
            after_cell(before, limit, nb.cells[count - 1])
        } else {
            before
        }
    }
}

/// The diagnostics of the first `count` cells of a notebook. Those of the state
/// of a cell come first and are always computed anew; those of its content may
/// come from the cache.
pub open spec fn lsp_diagnostics(
    text: Seq<char>,
    nb: NotebookModel,
    entries: Seq<(Seq<char>, Seq<DiagnosticModel>)>,
    limit: nat,
    count: int,
) -> Seq<LspModel>
    decreases count,
{
    if count <= 0 {
        Seq::empty()
    } else {
        let front = lsp_diagnostics(text, nb, entries, limit, count - 1);
        let cell = nb.cells[count - 1];
        if cell.is_code() {
            front + lsp_list(
                text,
                (count - 1) as usize,
                state_diagnostics(nb, count - 1) + cached_diagnostics(
                    entries_after(nb, entries, limit, count - 1),
                    cell,
                ),
            )
        } else {
            front
        }
    }
}

/// The diagnostics of the content of a cell, from the cache or computed anew.
fn look_up(cell: &Cell, cache: &mut DiagnosticCache) -> (diagnostics: Vec<Diagnostic>)
    ensures
        diagnostic_models(diagnostics@) == cached_diagnostics(cache_entries(*old(cache)), cell@),
        cache_entries(*final(cache)) == after_cell(
            cache_entries(*old(cache)),
            cache_limit(*old(cache)),
            cell@,
        ),
        cache_limit(*final(cache)) == cache_limit(*old(cache)),
{
    let sha: String = compute_cell_sha(cell);
    if let Some(cached) = cache_get(cache, sha.as_str()) {
        return copy_diagnostics(cached);
    }
    let fresh: Vec<Diagnostic> = compute_own_diagnostics(cell);
    cache_put(cache, sha, copy_diagnostics(&fresh));
    fresh
}

/// Adds diagnostics of a cell at the source of the cell.
fn place_all(
    text: &str,
    line_index: &LineIndex,
    cell_index: usize,
    diagnostics: &Vec<Diagnostic>,
    placed: &mut Vec<LspDiagnostic>,
)
    requires
        line_index@ == line_starts(encode_utf8(text@)),
    ensures
        lsp_models(final(placed)@) == lsp_models(old(placed)@) + lsp_list(
            text@,
            cell_index,
            diagnostic_models(diagnostics@),
        ),
{
    let ghost before = lsp_models(placed@);
    let ghost all = diagnostic_models(diagnostics@);
    let mut i: usize = 0;
    assert(lsp_models(placed@) =~= before + lsp_list(text@, cell_index, all.take(0)));
    while i < diagnostics.len()
        invariant
            i <= diagnostics.len(),
            all == diagnostic_models(diagnostics@),
            line_index@ == line_starts(encode_utf8(text@)),
            lsp_models(placed@) == before + lsp_list(text@, cell_index, all.take(i as int)),
        decreases diagnostics.len() - i,
    {
        let ghost done = lsp_models(placed@);
        let ghost one = diagnostics@[i as int]@;
        assert(all.take(i + 1) =~= all.take(i as int).push(one));
        if let Some(diagnostic) = map_to_lsp_diagnostic(
            text,
            line_index,
            cell_index,
            &diagnostics[i],
        ) {
            placed.push(diagnostic);
            assert(lsp_models(placed@) =~= done.push(diagnostic@));
        }
        assert(lsp_models(placed@) =~= before + lsp_list(text@, cell_index, all.take(i + 1)));
        i += 1;
    }
    assert(all.take(i as int) =~= all);
}

/// Diagnostics that are placed one list after the other are placed as one list.
proof fn lsp_list_of_sum(
    text: Seq<char>,
    cell_index: usize,
    first: Seq<DiagnosticModel>,
    second: Seq<DiagnosticModel>,
)
    ensures
        lsp_list(text, cell_index, first + second) == lsp_list(text, cell_index, first) + lsp_list(
            text,
            cell_index,
            second,
        ),
{
    assert(lsp_list(text, cell_index, first + second) =~= lsp_list(text, cell_index, first)
        + lsp_list(text, cell_index, second));
}

/// Computes the diagnostics of a notebook whose text is given. Those of the
/// content of a cell are cached by the fingerprint of the cell.
pub fn analyze_notebook(text: &str, nb: &Notebook, cell_cache: &mut DiagnosticCache) -> (placed:
    Vec<LspDiagnostic>)
    ensures
        lsp_models(placed@) == lsp_diagnostics(
            text@,
            nb@,
            cache_entries(*old(cell_cache)),
            cache_limit(*old(cell_cache)),
            nb@.cells.len() as int,
        ),
        cache_entries(*final(cell_cache)) == entries_after(
            nb@,
            cache_entries(*old(cell_cache)),
            cache_limit(*old(cell_cache)),
            nb@.cells.len() as int,
        ),
        cache_limit(*final(cell_cache)) == cache_limit(*old(cell_cache)),
{
    let ghost entries = cache_entries(*cell_cache);
    let ghost limit = cache_limit(*cell_cache);
    let line_index: LineIndex = LineIndex::new(text);
    let mut placed: Vec<LspDiagnostic> = Vec::new();
    let mut i: usize = 0;
    assert(lsp_models(placed@) =~= Seq::<LspModel>::empty());
    while i < nb.cells.len()
        invariant
            i <= nb.cells.len(),
            line_index@ == line_starts(encode_utf8(text@)),
            entries == cache_entries(*old(cell_cache)),
            limit == cache_limit(*old(cell_cache)),
            cache_limit(*cell_cache) == limit,
            cache_entries(*cell_cache) == entries_after(nb@, entries, limit, i as int),
            lsp_models(placed@) == lsp_diagnostics(text@, nb@, entries, limit, i as int),
        decreases nb.cells.len() - i,
    {
        let cell: &Cell = &nb.cells[i];
        assert(nb@.cells[i as int] == cell@);
        if cell.is_code() {
            let ghost done = lsp_models(placed@);
            let own: Vec<Diagnostic> = look_up(cell, cell_cache);
            let state: Vec<Diagnostic> = compute_state_diagnostics(nb, i);
            place_all(text, &line_index, i, &state, &mut placed);
            place_all(text, &line_index, i, &own, &mut placed);
            let ghost first = diagnostic_models(state@);
            let ghost second = diagnostic_models(own@);
            proof {
                lsp_list_of_sum(text@, i, first, second);
            }
            assert(lsp_models(placed@) =~= done + lsp_list(text@, i, first + second));
        }
        i += 1;
    }
    placed
}

/// Whether diagnostics, and the entries of the cache afterwards, are those for
/// the notebook in a text; without a notebook there are none, and the cache
/// stays as it is.
pub open spec fn analyzed(
    text: Seq<char>,
    nb: Option<NotebookModel>,
    limit: nat,
    before: Seq<(Seq<char>, Seq<DiagnosticModel>)>,
    after: Seq<(Seq<char>, Seq<DiagnosticModel>)>,
    placed: Seq<LspModel>,
) -> bool {
    match nb {
        Some(n) => {
            &&& placed == lsp_diagnostics(text, n, before, limit, n.cells.len() as int)
            &&& after == entries_after(n, before, limit, n.cells.len() as int)
        },
        None => placed.len() == 0 && after == before,
    }
}

/// Computes the diagnostics of the notebook in a text. A text that holds none
/// has no diagnostics. Cells without an id get random ones.
pub fn compute_lsp_diagnostics(text: &str, cell_cache: &mut DiagnosticCache) -> (placed: Vec<
    LspDiagnostic,
>)
    ensures
        cache_limit(*final(cell_cache)) == cache_limit(*old(cell_cache)),
        exists|ids: Seq<Seq<char>>|
            analyzed(
                text@,
                #[trigger] notebook_in(text@, ids),
                cache_limit(*old(cell_cache)),
                cache_entries(*old(cell_cache)),
                cache_entries(*final(cell_cache)),
                lsp_models(placed@),
            ),
        (parsed_json(text@) is Ok && cells_have_ids(parsed_json(text@)->Ok_0)) ==> analyzed(
            text@,
            notebook_in(text@, Seq::empty()),
            cache_limit(*old(cell_cache)),
            cache_entries(*old(cell_cache)),
            cache_entries(*final(cell_cache)),
            lsp_models(placed@),
        ),
{
    match read_notebook(text) {
        Some(nb) => analyze_notebook(text, &nb, cell_cache),
        None => Vec::new(),
    }
}

// ---------------------------------------------------------------------------
// The cache changes nothing
// ---------------------------------------------------------------------------

/// Whether what a cache holds is true of the given cells.
pub open spec fn faithful(
    entries: Seq<(Seq<char>, Seq<DiagnosticModel>)>,
    cells: Set<CellModel>,
) -> bool {
    forall|i: int, cell: CellModel|
        0 <= i < entries.len() && cells.contains(cell) && entries[i].0 == cell_sha(cell) ==> (
        #[trigger] entries[i]).1 == #[trigger] own_diagnostics(cell)
}

/// Whether those of the given cells that have the same fingerprint have the same
/// diagnostics of their content.
pub open spec fn fingerprints_tell_apart(cells: Set<CellModel>) -> bool {
    forall|cell: CellModel, other: CellModel|
        cells.contains(cell) && cells.contains(other) && #[trigger] cell_sha(cell)
            == #[trigger] cell_sha(other) ==> own_diagnostics(cell) == own_diagnostics(other)
}

/// The position of a key within the entries.
proof fn key_index_in_range(entries: Seq<(Seq<char>, Seq<DiagnosticModel>)>, key: Seq<char>)
    ensures
        0 <= key_index(entries, key) <= entries.len(),
        key_index(entries, key) < entries.len() ==> entries[key_index(entries, key)].0 == key,
    decreases entries.len(),
{
    if entries.len() > 0 && entries[0].0 != key {
        key_index_in_range(entries.drop_first(), key);
    }
}

/// Looking at a cell keeps a cache faithful.
proof fn cell_keeps_faithful(
    entries: Seq<(Seq<char>, Seq<DiagnosticModel>)>,
    limit: nat,
    cell: CellModel,
    cells: Set<CellModel>,
)
    requires
        faithful(entries, cells),
        limit > 0,
        cells.contains(cell),
        fingerprints_tell_apart(cells),
    ensures
        faithful(after_cell(entries, limit, cell), cells),
        cached_diagnostics(entries, cell) == own_diagnostics(cell),
{
    let key = cell_sha(cell);
    key_index_in_range(entries, key);
    let at = key_index(entries, key);
    if at < entries.len() {
        assert(entries[at].1 == own_diagnostics(cell));
    }
    let after = after_cell(entries, limit, cell);
    assert forall|i: int, other: CellModel|
        0 <= i < after.len() && cells.contains(other) && after[i].0 == cell_sha(
            other,
        ) implies (#[trigger] after[i]).1 == #[trigger] own_diagnostics(other) by {
        if i == 0 {
            if at < entries.len() {
                assert(after[0] == entries[at]);
            } else {
                assert(after[0] == (key, own_diagnostics(cell)));
            }
        } else if at < entries.len() {
            if i - 1 < at {
                assert(after[i] == entries[i - 1]);
            } else {
                assert(after[i] == entries[i]);
            }
        } else {
            assert(after[i] == entries[i - 1]);
        }
    }
}

/// The cache changes nothing: where what it holds is true, the diagnostics are
/// those that would be computed anew, and what it holds afterwards is true
/// again. What it holds is true of the cells that it is asked about, now or
/// later: those with the same fingerprint have the same diagnostics.
pub proof fn cache_changes_nothing(
    text: Seq<char>,
    nb: NotebookModel,
    entries: Seq<(Seq<char>, Seq<DiagnosticModel>)>,
    limit: nat,
    count: int,
    cells: Set<CellModel>,
)
    requires
        faithful(entries, cells),
        limit > 0,
        fingerprints_tell_apart(cells),
        0 <= count <= nb.cells.len(),
        forall|i: int|
            0 <= i < nb.cells.len() && (#[trigger] nb.cells[i]).is_code() ==> cells.contains(
                nb.cells[i],
            ),
    ensures
        faithful(entries_after(nb, entries, limit, count), cells),
        lsp_diagnostics(text, nb, entries, limit, count) == uncached_diagnostics(text, nb, count),
    decreases count,
{
    if count > 0 {
        cache_changes_nothing(text, nb, entries, limit, count - 1, cells);
        let cell = nb.cells[count - 1];
        if cell.is_code() {
            cell_keeps_faithful(entries_after(nb, entries, limit, count - 1), limit, cell, cells);
        }
    }
}

/// The diagnostics of the first `count` cells of a notebook, all computed anew.
pub open spec fn uncached_diagnostics(text: Seq<char>, nb: NotebookModel, count: int) -> Seq<
    LspModel,
>
    decreases count,
{
    if count <= 0 {
        Seq::empty()
    } else {
        let front = uncached_diagnostics(text, nb, count - 1);
        if nb.cells[count - 1].is_code() {
            front + lsp_list(
                text,
                (count - 1) as usize,
                crate::diagnostics::cell_diagnostics(nb, count - 1),
            )
        } else {
            front
        }
    }
}

/// The entries of a cache that was empty after notebooks were looked at, one
/// after the other.
pub open spec fn entries_of_calls(past: Seq<NotebookModel>, limit: nat) -> Seq<
    (Seq<char>, Seq<DiagnosticModel>),
>
    decreases past.len(),
{
    if past.len() == 0 {
        Seq::empty()
    } else {
        entries_after(
            past.last(),
            entries_of_calls(past.drop_last(), limit),
            limit,
            past.last().cells.len() as int,
        )
    }
}

/// The code cells of notebooks.
pub open spec fn code_cells(notebooks: Seq<NotebookModel>) -> Set<CellModel> {
    Set::new(
        |cell: CellModel|
            cell.is_code() && exists|k: int|
                0 <= k < notebooks.len() && (#[trigger] notebooks[k]).cells.contains(cell),
    )
}

/// The code cells of one of several notebooks are among those of all.
proof fn own_cells_among(notebooks: Seq<NotebookModel>, at: int)
    requires
        0 <= at < notebooks.len(),
    ensures
        forall|i: int|
            0 <= i < notebooks[at].cells.len() && (#[trigger] notebooks[at].cells[i]).is_code()
                ==> code_cells(notebooks).contains(notebooks[at].cells[i]),
{
    assert forall|i: int|
        0 <= i < notebooks[at].cells.len() && (
        #[trigger] notebooks[at].cells[i]).is_code() implies code_cells(notebooks).contains(
        notebooks[at].cells[i],
    ) by {
        assert(notebooks[at].cells.contains(notebooks[at].cells[i]));
    }
}

/// What earlier calls left in a cache is true of the cells of all notebooks.
proof fn calls_are_faithful(all: Seq<NotebookModel>, count: int, limit: nat)
    requires
        limit > 0,
        0 <= count <= all.len(),
        fingerprints_tell_apart(code_cells(all)),
    ensures
        faithful(entries_of_calls(all.take(count), limit), code_cells(all)),
    decreases count,
{
    if count > 0 {
        let past = all.take(count);
        assert(past.drop_last() =~= all.take(count - 1));
        assert(past.last() == all[count - 1]);
        calls_are_faithful(all, count - 1, limit);
        own_cells_among(all, count - 1);
        cache_changes_nothing(
            Seq::empty(),
            all[count - 1],
            entries_of_calls(all.take(count - 1), limit),
            limit,
            all[count - 1].cells.len() as int,
            code_cells(all),
        );
    }
}

/// A cache that earlier calls filled, whatever texts they were about, changes
/// nothing: the diagnostics are those that an empty cache would give. Cells with
/// the same fingerprint have the same diagnostics.
pub proof fn earlier_calls_change_nothing(
    text: Seq<char>,
    nb: NotebookModel,
    past: Seq<NotebookModel>,
    limit: nat,
)
    requires
        limit > 0,
        fingerprints_tell_apart(code_cells(past.push(nb))),
    ensures
        lsp_diagnostics(
            text,
            nb,
            entries_of_calls(past, limit),
            limit,
            nb.cells.len() as int,
        ) == lsp_diagnostics(text, nb, Seq::empty(), limit, nb.cells.len() as int),
{
    let all = past.push(nb);
    let cells = code_cells(all);
    let count = nb.cells.len() as int;
    calls_are_faithful(all, past.len() as int, limit);
    assert(all.take(past.len() as int) =~= past);
    own_cells_among(all, past.len() as int);
    assert(all[past.len() as int] == nb);
    cache_changes_nothing(text, nb, entries_of_calls(past, limit), limit, count, cells);
    cache_changes_nothing(text, nb, Seq::empty(), limit, count, cells);
}

} // verus!
