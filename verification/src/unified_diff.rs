//! What a unified diff says: its hunks, how they are printed, which texts they
//! lead from and to, and what applying them in place gives.
use vstd::prelude::*;

use crate::text::{decimal, whole_lines};

verus! {

/// A line of a hunk, with its line feed if it has one.
pub enum DiffLine {
    /// The line stands in both texts.
    Context(Seq<char>),
    /// The line stands in the old text only.
    Delete(Seq<char>),
    /// The line stands in the new text only.
    Insert(Seq<char>),
}

/// Where the lines of a hunk stand in a text: the number of the first, counted
/// from one, and how many they are. Without lines the number is zero.
pub struct DiffRange {
    pub start: nat,
    pub len: nat,
}

/// A hunk of a unified diff.
pub struct DiffHunk {
    pub old_range: DiffRange,
    pub new_range: DiffRange,
    pub lines: Seq<DiffLine>,
}

impl DiffLine {
    /// The text of the line.
    pub open spec fn content(self) -> Seq<char> {
        match self {
            DiffLine::Context(c) => c,
            DiffLine::Delete(c) => c,
            DiffLine::Insert(c) => c,
        }
    }
}

impl DiffRange {
    /// The position of the first line, counted from zero.
    pub open spec fn position(self) -> int {
        if self.len > 0 {
            self.start - 1
        } else {
            self.start as int
        }
    }
}

/// The lines of a hunk that stand in the old text.
pub open spec fn old_lines(lines: Seq<DiffLine>) -> Seq<Seq<char>>
    decreases lines.len(),
{
    if lines.len() == 0 {
        Seq::empty()
    } else {
        let rest = old_lines(lines.drop_first());
        match lines[0] {
            DiffLine::Insert(_) => rest,
            _ => seq![lines[0].content()] + rest,
        }
    }
}

/// The lines of a hunk that stand in the new text.
pub open spec fn new_lines(lines: Seq<DiffLine>) -> Seq<Seq<char>>
    decreases lines.len(),
{
    if lines.len() == 0 {
        Seq::empty()
    } else {
        let rest = new_lines(lines.drop_first());
        match lines[0] {
            DiffLine::Delete(_) => rest,
            _ => seq![lines[0].content()] + rest,
        }
    }
}

// ---------------------------------------------------------------------------
// Printing
// ---------------------------------------------------------------------------

/// What stands behind a line that has no line feed.
pub const NO_LINE_FEED: &'static str = "\\ No newline at end of file";

/// Whether a line has a line feed.
pub open spec fn has_feed(line: Seq<char>) -> bool {
    line.len() > 0 && line.last() == '\n'
}

/// A line without its line feed.
pub open spec fn without_feed(line: Seq<char>) -> Seq<char> {
    if has_feed(line) {
        line.drop_last()
    } else {
        line
    }
}

/// The lines of a text without their line feeds; carriage returns stay.
pub open spec fn feed_lines(text: Seq<char>) -> Seq<Seq<char>> {
    whole_lines(text).map_values(|line: Seq<char>| without_feed(line))
}

/// A range as it is printed: a single line needs no length.
pub open spec fn range_text(range: DiffRange) -> Seq<char> {
    if range.len == 1 {
        decimal(range.start)
    } else {
        decimal(range.start) + seq![','] + decimal(range.len)
    }
}

/// The line that begins a hunk.
pub open spec fn header_text(hunk: DiffHunk) -> Seq<char> {
    seq!['@', '@', ' ', '-'] + range_text(hunk.old_range) + seq![' ', '+'] + range_text(
        hunk.new_range,
    ) + seq![' ', '@', '@']
}

/// A line of a hunk with its sign; a blank line of both texts has none.
pub open spec fn signed_line(line: DiffLine) -> Seq<char> {
    let body = without_feed(line.content());
    match line {
        DiffLine::Context(c) => if c == seq!['\n'] {
            Seq::empty()
        } else {
            seq![' '] + body
        },
        DiffLine::Delete(_) => seq!['-'] + body,
        DiffLine::Insert(_) => seq!['+'] + body,
    }
}

/// The lines that a line of a hunk is printed as.
pub open spec fn line_texts(line: DiffLine) -> Seq<Seq<char>> {
    if has_feed(line.content()) {
        seq![signed_line(line)]
    } else {
        seq![signed_line(line), NO_LINE_FEED@]
    }
}

/// The lines that lines of a hunk are printed as.
pub open spec fn body_texts(lines: Seq<DiffLine>) -> Seq<Seq<char>>
    decreases lines.len(),
{
    if lines.len() == 0 {
        Seq::empty()
    } else {
        line_texts(lines[0]) + body_texts(lines.drop_first())
    }
}

/// The lines that hunks are printed as.
pub open spec fn hunk_texts(hunks: Seq<DiffHunk>) -> Seq<Seq<char>>
    decreases hunks.len(),
{
    if hunks.len() == 0 {
        Seq::empty()
    } else {
        seq![header_text(hunks[0])] + body_texts(hunks[0].lines) + hunk_texts(hunks.drop_first())
    }
}

/// Lines one after the other, each with a line feed.
pub open spec fn terminated(lines: Seq<Seq<char>>) -> Seq<char>
    decreases lines.len(),
{
    if lines.len() == 0 {
        Seq::empty()
    } else {
        lines[0] + "\n"@ + terminated(lines.drop_first())
    }
}

/// The lines of a unified diff between two files.
pub open spec fn patch_lines(
    old_name: Seq<char>,
    new_name: Seq<char>,
    hunks: Seq<DiffHunk>,
) -> Seq<Seq<char>> {
    seq!["--- "@ + old_name, "+++ "@ + new_name] + hunk_texts(hunks)
}

/// The text of a unified diff between two files.
pub open spec fn printed_patch(
    old_name: Seq<char>,
    new_name: Seq<char>,
    hunks: Seq<DiffHunk>,
) -> Seq<char> {
    terminated(patch_lines(old_name, new_name, hunks))
}

/// Whether the name of a file needs no quotes.
pub open spec fn plain_name(name: Seq<char>) -> bool {
    forall|i: int|
        0 <= i < name.len() ==> !((#[trigger] name[i]) == '\n' || name[i] == '\t' || name[i]
            == '\0' || name[i] == '\r' || name[i] == '"' || name[i] == '\\')
}

// ---------------------------------------------------------------------------
// Hunks that make sense
// ---------------------------------------------------------------------------

/// Whether a text is a single line: it is not empty, and a line feed stands at
/// its end only.
pub open spec fn is_line(line: Seq<char>) -> bool {
    line.len() > 0 && forall|i: int| 0 <= i < line.len() - 1 ==> (#[trigger] line[i]) != '\n'
}

/// Whether texts are lines of a text: only the last may lack a line feed.
pub open spec fn are_lines(lines: Seq<Seq<char>>) -> bool {
    &&& forall|i: int| 0 <= i < lines.len() ==> is_line(#[trigger] lines[i])
    &&& forall|i: int| 0 <= i < lines.len() - 1 ==> has_feed(#[trigger] lines[i])
}

/// Whether a range is that of the given number of lines. Without lines it is at
/// the start.
pub open spec fn range_fits(range: DiffRange, count: nat) -> bool {
    &&& range.len == count
    &&& range.start > 0 <==> count > 0
    &&& range.start + range.len <= usize::MAX
}

/// Whether the ranges of a hunk are those of its lines.
pub open spec fn valid_hunk(hunk: DiffHunk) -> bool {
    &&& are_lines(old_lines(hunk.lines))
    &&& are_lines(new_lines(hunk.lines))
    &&& range_fits(hunk.old_range, old_lines(hunk.lines).len())
    &&& range_fits(hunk.new_range, new_lines(hunk.lines).len())
}

/// Whether hunks are valid and follow one another.
pub open spec fn valid_hunks(hunks: Seq<DiffHunk>) -> bool {
    &&& forall|i: int| 0 <= i < hunks.len() ==> valid_hunk(#[trigger] hunks[i])
    &&& forall|i: int|
        0 < i < hunks.len() ==> {
            &&& hunks[i - 1].old_range.start + hunks[i - 1].old_range.len <= (
            #[trigger] hunks[i]).old_range.start
            &&& hunks[i - 1].new_range.start + hunks[i - 1].new_range.len
                <= hunks[i].new_range.start
        }
}

// ---------------------------------------------------------------------------
// What hunks lead to
// ---------------------------------------------------------------------------

/// Whether hunks lead from the old lines to the new ones, where the lines before
/// `old_at` and `new_at` are done: between the hunks both are the same.
pub open spec fn describes(
    hunks: Seq<DiffHunk>,
    old: Seq<Seq<char>>,
    new: Seq<Seq<char>>,
    old_at: int,
    new_at: int,
) -> bool
    decreases hunks.len(),
{
    &&& 0 <= old_at <= old.len()
    &&& 0 <= new_at <= new.len()
    &&& if hunks.len() == 0 {
        old.skip(old_at) == new.skip(new_at)
    } else {
        let hunk = hunks[0];
        let from_old = hunk.old_range.position();
        let from_new = hunk.new_range.position();
        let to_old = from_old + hunk.old_range.len;
        let to_new = from_new + hunk.new_range.len;
        &&& old_at <= from_old
        &&& new_at <= from_new
        &&& to_old <= old.len()
        &&& to_new <= new.len()
        &&& old.subrange(old_at, from_old) == new.subrange(new_at, from_new)
        &&& old.subrange(from_old, to_old) == old_lines(hunk.lines)
        &&& new.subrange(from_new, to_new) == new_lines(hunk.lines)
        &&& describes(hunks.drop_first(), old, new, to_old, to_new)
    }
}

/// What hunks make of lines, if every one fits where its range of the new text
/// puts it. The lines before `done` are new already.
pub open spec fn applied_in_place(
    lines: Seq<Seq<char>>,
    done: int,
    hunks: Seq<DiffHunk>,
) -> Option<Seq<Seq<char>>>
    decreases hunks.len(),
{
    if hunks.len() == 0 {
        Some(lines)
    } else {
        let hunk = hunks[0];
        let at: int = if hunk.new_range.start > 0 {
            hunk.new_range.start - 1
        } else {
            0
        };
        let gone = old_lines(hunk.lines);
        let come = new_lines(hunk.lines);
        if done <= at && at + gone.len() <= lines.len() && lines.subrange(at, at + gone.len())
            == gone {
            applied_in_place(
                lines.take(at) + come + lines.skip(at + gone.len()),
                at + come.len(),
                hunks.drop_first(),
            )
        } else {
            None
        }
    }
}

/// Whether a diff leads from one text to another.
pub open spec fn leads(diff: Seq<char>, original: Seq<char>, patched: Seq<char>) -> bool {
    exists|hunks: Seq<DiffHunk>|
        diff == #[trigger] printed_patch("original"@, "modified"@, hunks) && valid_hunks(hunks)
            && describes(hunks, whole_lines(original), whole_lines(patched), 0, 0)
}

} // verus!
