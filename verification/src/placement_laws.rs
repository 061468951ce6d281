//! Where the diagnostics of a notebook stand in its text.
use vstd::prelude::*;
use vstd::utf8::encode_utf8;

use crate::diagnostics::{cell_diagnostics, DiagnosticModel, DiagnosticType};
use crate::json_path::{
    line_at, line_counts_line_feeds, line_feeds, line_starts, line_starts_ascend, nests,
    position_at, range_at, span_member_index, text_spans, SegmentModel, SpanModel,
};
use crate::lsp::{lsp_diagnostic, lsp_list, source_range, uncached_diagnostics, LspModel};
use crate::notebook::NotebookModel;

verus! {

// ---------------------------------------------------------------------------
// Ranges of sources
// ---------------------------------------------------------------------------

/// Whether a value is the first member of an object under a key.
pub open spec fn is_member(tree: SpanModel, key: Seq<char>, value: SpanModel) -> bool {
    match tree {
        SpanModel::Object { members, .. } => exists|m: int|
            0 <= m < members.len() && (#[trigger] members[m]) == (key, value) && forall|j: int|
                0 <= j < m ==> (#[trigger] members[j]).0 != key,
        _ => false,
    }
}

/// Whether a value is the item of an array at a position.
pub open spec fn is_item(tree: SpanModel, index: int, value: SpanModel) -> bool {
    match tree {
        SpanModel::Array { items, .. } => 0 <= index < items.len() && items[index] == value,
        _ => false,
    }
}

/// Whether a value is that of a cell in the text of a notebook: the item at its
/// position under `cells`.
pub open spec fn is_cell_at(tree: SpanModel, index: int, cell: SpanModel) -> bool {
    exists|cells: SpanModel| #[trigger]
        is_member(tree, "cells"@, cells) && is_item(cells, index, cell)
}

/// The position of a member is the first one of its key.
proof fn member_is_first(members: Seq<(Seq<char>, SpanModel)>, key: Seq<char>)
    ensures
        ({
            let at = span_member_index(members, key);
            &&& 0 <= at <= members.len()
            &&& at < members.len() ==> members[at].0 == key
            &&& forall|j: int| 0 <= j < at ==> (#[trigger] members[j]).0 != key
        }),
    decreases members.len(),
{
    if members.len() > 0 && members[0].0 != key {
        let rest = members.drop_first();
        member_is_first(rest, key);
        let at = span_member_index(members, key);
        assert forall|j: int| 0 <= j < at implies (#[trigger] members[j]).0 != key by {
            if j > 0 {
                assert(rest[j - 1] == members[j]);
            }
        }
    }
}

/// A step into a member of an object.
proof fn step_into_member(tree: SpanModel, key: Seq<char>, rest: Seq<SegmentModel>)
    ensures
        ({
            let path = seq![SegmentModel::Key(key)] + rest;
            match range_at(tree, path) {
                Some(range) => exists|value: SpanModel| #[trigger]
                    is_member(tree, key, value) && range_at(value, rest) == Some(range),
                None => forall|value: SpanModel| #[trigger]
                    is_member(tree, key, value) ==> range_at(value, rest) is None,
            }
        }),
{
    let path = seq![SegmentModel::Key(key)] + rest;
    assert(path.drop_first() =~= rest);
    assert(path[0] == SegmentModel::Key(key));
    if let SpanModel::Object { members, .. } = tree {
        member_is_first(members, key);
        let at = span_member_index(members, key);
        if at < members.len() {
            assert(members[at] == (key, members[at].1));
            assert(is_member(tree, key, members[at].1));
        }
        assert forall|value: SpanModel| #[trigger] is_member(tree, key, value) implies at
            < members.len() && members[at].1 == value by {
            let m = choose|m: int|
                0 <= m < members.len() && (#[trigger] members[m]) == (key, value) && forall|j: int|
                    0 <= j < m ==> (#[trigger] members[j]).0 != key;
            if at < m {
                assert(members[at].0 != key);
            }
            if m < at {
                assert(members[m].0 != key);
            }
        }
    }
}

/// A diagnostic of the cell at a position stands at the source of this cell: at
/// the member `source` of the item at this position under `cells`. If there is
/// none, the diagnostic stands nowhere.
pub proof fn diagnostics_stand_at_the_source(text: Seq<char>, index: usize)
    ensures
        match source_range(text, index) {
            Some(range) => {
                &&& text_spans(text) is Some
                &&& exists|cell: SpanModel, source: SpanModel|
                    is_cell_at(text_spans(text)->0, index as int, cell) && #[trigger] is_member(
                        cell,
                        "source"@,
                        source,
                    ) && source.range() == range
            },
            None => text_spans(text) is Some ==> forall|cell: SpanModel, source: SpanModel|
                is_cell_at(text_spans(text)->0, index as int, cell) ==> !(#[trigger] is_member(
                    cell,
                    "source"@,
                    source,
                )),
        },
{
    if let Some(tree) = text_spans(text) {
        let last = seq![SegmentModel::Key("source"@)];
        let rest = seq![SegmentModel::Index(index)] + last;
        let path = seq![SegmentModel::Key("cells"@)] + rest;
        assert(path =~= seq![
            SegmentModel::Key("cells"@),
            SegmentModel::Index(index),
            SegmentModel::Key("source"@),
        ]);
        assert(rest.drop_first() =~= last);
        assert(last =~= seq![SegmentModel::Key("source"@)] + Seq::<SegmentModel>::empty());
        step_into_member(tree, "cells"@, rest);
        match source_range(text, index) {
            Some(range) => {
                let cells = choose|cells: SpanModel| #[trigger]
                    is_member(tree, "cells"@, cells) && range_at(cells, rest) == Some(range);
                let cell = cells->items[index as int];
                assert(is_item(cells, index as int, cell));
                assert(is_cell_at(tree, index as int, cell));
                step_into_member(cell, "source"@, Seq::empty());
                assert(range_at(cell, last) == Some(range));
                let source = choose|source: SpanModel| #[trigger]
                    is_member(cell, "source"@, source) && range_at(
                        source,
                        Seq::<SegmentModel>::empty(),
                    ) == Some(range);
                assert(source.range() == range);
            },
            None => {
                assert forall|cell: SpanModel, source: SpanModel|
                    is_cell_at(tree, index as int, cell) implies !(#[trigger] is_member(
                    cell,
                    "source"@,
                    source,
                )) by {
                    let cells = choose|cells: SpanModel| #[trigger]
                        is_member(tree, "cells"@, cells) && is_item(cells, index as int, cell);
                    assert(range_at(cells, rest) is None);
                    assert(range_at(cell, last) is None);
                    step_into_member(cell, "source"@, Seq::empty());
                    if is_member(cell, "source"@, source) {
                        assert(range_at(source, Seq::<SegmentModel>::empty()) is None);
                    }
                }
            },
        }
    }
}

/// The value of a cell in a text is the only one at its position.
proof fn one_cell_at(tree: SpanModel, index: int, cell: SpanModel, other: SpanModel)
    requires
        is_cell_at(tree, index, cell),
        is_cell_at(tree, index, other),
    ensures
        cell == other,
{
    let cells = choose|cells: SpanModel| #[trigger]
        is_member(tree, "cells"@, cells) && is_item(cells, index, cell);
    let others = choose|cells: SpanModel| #[trigger]
        is_member(tree, "cells"@, cells) && is_item(cells, index, other);
    same_member(tree, "cells"@, cells, others);
}

/// The first member under a key is the only one.
proof fn same_member(tree: SpanModel, key: Seq<char>, one: SpanModel, other: SpanModel)
    requires
        is_member(tree, key, one),
        is_member(tree, key, other),
    ensures
        one == other,
{
    let members = tree->members;
    let m = choose|m: int|
        0 <= m < members.len() && (#[trigger] members[m]) == (key, one) && forall|j: int|
            0 <= j < m ==> (#[trigger] members[j]).0 != key;
    let n = choose|n: int|
        0 <= n < members.len() && (#[trigger] members[n]) == (key, other) && forall|j: int|
            0 <= j < n ==> (#[trigger] members[j]).0 != key;
    if m < n {
        assert(members[m].0 != key);
    }
    if n < m {
        assert(members[n].0 != key);
    }
}

/// The range of a diagnostic lies within that of its cell, the item at its
/// position under `cells`, and strictly so.
pub proof fn diagnostics_stand_within_their_cell(text: Seq<char>, index: usize, cell: SpanModel)
    requires
        source_range(text, index) is Some,
        nests(text_spans(text)->0, 0, encode_utf8(text).len() as int),
        is_cell_at(text_spans(text)->0, index as int, cell),
    ensures
        ({
            let range = source_range(text, index)->0;
            cell.range().0 < range.0 < range.1 < cell.range().1
        }),
{
    let tree = text_spans(text)->0;
    let range = source_range(text, index)->0;
    diagnostics_stand_at_the_source(text, index);
    let (own, source) = choose|own: SpanModel, source: SpanModel|
        is_cell_at(tree, index as int, own) && #[trigger] is_member(own, "source"@, source)
            && source.range() == range;
    one_cell_at(tree, index as int, cell, own);
    let cells = choose|cells: SpanModel| #[trigger]
        is_member(tree, "cells"@, cells) && is_item(cells, index as int, cell);
    member_nests(tree, "cells"@, cells, 0, encode_utf8(text).len() as int);
    assert(nests(cells->items[index as int], cells.range().0 + 1, cells.range().1 - 1));
    member_nests(cell, "source"@, source, cells.range().0 + 1, cells.range().1 - 1);
}

/// A member of an object that nests stands between its brackets.
proof fn member_nests(tree: SpanModel, key: Seq<char>, value: SpanModel, from: int, to: int)
    requires
        nests(tree, from, to),
        is_member(tree, key, value),
    ensures
        nests(value, tree.range().0 + 1, tree.range().1 - 1),
{
    let members = tree->members;
    let m = choose|m: int|
        0 <= m < members.len() && (#[trigger] members[m]) == (key, value) && forall|j: int|
            0 <= j < m ==> (#[trigger] members[j]).0 != key;
    assert(nests(members[m].1, tree.range().0 + 1, tree.range().1 - 1));
}

/// Diagnostics of different cells stand at different places, if the cells do.
pub proof fn diagnostics_of_cells_stand_apart(
    text: Seq<char>,
    index: usize,
    other: usize,
    cell: SpanModel,
    other_cell: SpanModel,
)
    requires
        source_range(text, index) is Some,
        source_range(text, other) is Some,
        nests(text_spans(text)->0, 0, encode_utf8(text).len() as int),
        is_cell_at(text_spans(text)->0, index as int, cell),
        is_cell_at(text_spans(text)->0, other as int, other_cell),
        cell.range().1 <= other_cell.range().0,
    ensures
        ({
            let first = source_range(text, index)->0;
            let second = source_range(text, other)->0;
            first.1 < second.0
        }),
{
    diagnostics_stand_within_their_cell(text, index, cell);
    diagnostics_stand_within_their_cell(text, other, other_cell);
}

// ---------------------------------------------------------------------------
// Lines and columns
// ---------------------------------------------------------------------------

/// The line of an offset begins at it or before, and the next one behind it.
proof fn line_at_bounds(starts: Seq<int>, offset: int)
    requires
        starts.len() > 0,
        starts[0] <= offset,
        forall|i: int, j: int|
            0 <= i < j < starts.len() ==> #[trigger] starts[i] < #[trigger] starts[j],
    ensures
        ({
            let line = line_at(starts, offset);
            &&& 0 <= line < starts.len()
            &&& starts[line] <= offset
            &&& line + 1 < starts.len() ==> offset < starts[line + 1]
        }),
    decreases starts.len(),
{
    if !(starts.len() <= 1 || starts.last() <= offset) {
        line_at_bounds(starts.drop_last(), offset);
    }
}

/// A line begins at the beginning or behind a line feed.
proof fn lines_begin_behind_feeds(bytes: Seq<u8>, line: int)
    requires
        0 <= line < line_starts(bytes).len(),
    ensures
        ({
            let start = line_starts(bytes)[line];
            start == 0 || (0 < start <= bytes.len() && bytes[start - 1] == 0x0A)
        }),
    decreases bytes.len(),
{
    if bytes.len() > 0 {
        let front = bytes.drop_last();
        if line < line_starts(front).len() {
            lines_begin_behind_feeds(front, line);
        }
    }
}

/// The line of an offset is the number of line feeds before it, and its column
/// the number of bytes since the last of them.
pub proof fn positions_count_lines_and_bytes(bytes: Seq<u8>, offset: int)
    requires
        offset >= 0,
    ensures
        ({
            let (line, column) = position_at(line_starts(bytes), offset);
            let start = offset - column;
            &&& line == line_feeds(bytes, offset)
            &&& 0 <= column <= offset
            &&& start == 0 || (start <= bytes.len() && bytes[start - 1] == 0x0A)
            &&& line_feeds(bytes, start) == line
        }),
{
    let starts = line_starts(bytes);
    line_starts_ascend(bytes);
    line_at_bounds(starts, offset);
    let line = line_at(starts, offset);
    line_counts_line_feeds(bytes, offset, line);
    line_counts_line_feeds(bytes, starts[line], line);
    lines_begin_behind_feeds(bytes, line);
}

// ---------------------------------------------------------------------------
// Lists of diagnostics
// ---------------------------------------------------------------------------

/// Whether a diagnostic for an editor says what a diagnostic of a cell says, at
/// a range of bytes of the text.
pub open spec fn says_the_same(
    placed: LspModel,
    diagnostic: DiagnosticModel,
    text: Seq<char>,
    range: (usize, usize),
) -> bool {
    let start = position_at(line_starts(encode_utf8(text)), range.0 as int);
    let end = position_at(line_starts(encode_utf8(text)), range.1 as int);
    &&& placed.severity == diagnostic.severity
    &&& placed.message == diagnostic.message
    &&& placed.source == "nota-bene"@
    &&& placed.code == match diagnostic.kind {
        DiagnosticType::Missing => "missing"@,
        DiagnosticType::NeedsReview => "needs_review"@,
        DiagnosticType::AncestorModified => "ancestor_modified"@,
        DiagnosticType::DiffConflict => "diff_conflict"@,
        DiagnosticType::InvalidField => "invalid_field"@,
    }
    &&& placed.start_line == start.0 as u32
    &&& placed.start_character == start.1 as u32
    &&& placed.end_line == end.0 as u32
    &&& placed.end_character == end.1 as u32
}

/// A placed diagnostic says what it said.
proof fn placed_says_the_same(
    text: Seq<char>,
    range: (usize, usize),
    diagnostic: DiagnosticModel,
)
    ensures
        says_the_same(lsp_diagnostic(text, range, diagnostic), diagnostic, text, range),
{
}

/// Whether a placed diagnostic is that of a cell, at its source.
pub open spec fn is_of_cell(
    placed: LspModel,
    text: Seq<char>,
    nb: NotebookModel,
    index: int,
    k: int,
) -> bool {
    &&& 0 <= index < nb.cells.len()
    &&& nb.cells[index].is_code()
    &&& 0 <= k < cell_diagnostics(nb, index).len()
    &&& source_range(text, index as usize) is Some
    &&& says_the_same(
        placed,
        cell_diagnostics(nb, index)[k],
        text,
        source_range(text, index as usize)->0,
    )
}

/// Whether a code cell, whose source is found in the text, has a diagnostic at a
/// position.
pub open spec fn has_diagnostic(text: Seq<char>, nb: NotebookModel, index: int, k: int) -> bool {
    &&& 0 <= index < nb.cells.len()
    &&& nb.cells[index].is_code()
    &&& 0 <= k < cell_diagnostics(nb, index).len()
    &&& source_range(text, index as usize) is Some
}

/// Whether a placed diagnostic is one of the first cells.
pub open spec fn is_of_some_cell(
    placed: LspModel,
    text: Seq<char>,
    nb: NotebookModel,
    count: int,
) -> bool {
    exists|index: int, k: int|
        index < count && #[trigger] is_of_cell(placed, text, nb, index, k)
}

/// Whether a diagnostic of a cell is among the placed ones.
pub open spec fn is_placed(
    placed: Seq<LspModel>,
    text: Seq<char>,
    nb: NotebookModel,
    index: int,
    k: int,
) -> bool {
    exists|j: int| 0 <= j < placed.len() && is_of_cell(#[trigger] placed[j], text, nb, index, k)
}

/// Every diagnostic of every code cell is shown in the editor, at the source of
/// its cell, and no other.
pub proof fn every_diagnostic_is_placed(text: Seq<char>, nb: NotebookModel, count: int)
    requires
        0 <= count <= nb.cells.len(),
    ensures
        forall|j: int|
            0 <= j < uncached_diagnostics(text, nb, count).len() ==> is_of_some_cell(
                #[trigger] uncached_diagnostics(text, nb, count)[j],
                text,
                nb,
                count,
            ),
        forall|index: int, k: int|
            index < count && #[trigger] has_diagnostic(text, nb, index, k) ==> is_placed(
                uncached_diagnostics(text, nb, count),
                text,
                nb,
                index,
                k,
            ),
    decreases count,
{
    let placed = uncached_diagnostics(text, nb, count);
    if count > 0 {
        every_diagnostic_is_placed(text, nb, count - 1);
        let front = uncached_diagnostics(text, nb, count - 1);
        let at = (count - 1) as usize;
        let own = cell_diagnostics(nb, count - 1);
        let list = lsp_list(text, at, own);
        assert forall|j: int| 0 <= j < placed.len() implies is_of_some_cell(
            #[trigger] placed[j],
            text,
            nb,
            count,
        ) by {
            if j < front.len() {
                assert(placed[j] == front[j]);
                assert(is_of_some_cell(front[j], text, nb, count - 1));
                let (index, k) = choose|index: int, k: int|
                    index < count - 1 && #[trigger] is_of_cell(front[j], text, nb, index, k);
                assert(is_of_cell(placed[j], text, nb, index, k));
            } else {
                let k = j - front.len();
                assert(placed[j] == list[k]);
                placed_says_the_same(text, source_range(text, at)->0, own[k]);
                assert(is_of_cell(placed[j], text, nb, count - 1, k));
            }
        }
        assert forall|index: int, k: int|
            index < count && #[trigger] has_diagnostic(text, nb, index, k) implies is_placed(
            placed,
            text,
            nb,
            index,
            k,
        ) by {
            if index < count - 1 {
                assert(is_placed(front, text, nb, index, k));
                let j = choose|j: int|
                    0 <= j < front.len() && is_of_cell(#[trigger] front[j], text, nb, index, k);
                assert(placed[j] == front[j]);
                assert(is_of_cell(placed[j], text, nb, index, k));
            } else {
                let j = front.len() + k;
                assert(placed[j] == list[k]);
                placed_says_the_same(text, source_range(text, at)->0, own[k]);
                assert(is_of_cell(placed[j], text, nb, index, k));
            }
        }
    }
}

} // verus!
