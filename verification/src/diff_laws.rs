//! Why applying and undoing a diff gives the texts that it leads to and from.
use vstd::prelude::*;

use crate::diff_utils::{
    adds_last, change_count, change_count_bounds, end_fits, ends_fit, header_fits, header_words,
    is_change, is_mark, now_added, now_removed, original_index, reversed_header,
    reversed_header_line, reversed_hunks, reversed_lines, reversed_patch, reversible_header,
    reversible_headers, without_return,
};
use crate::text::{
    begins_with, concatenated, decimal, first_index, first_index_is_first, is_digit, is_white,
    joined, lines_give_text_back, stripped_end, stripped_start, trimmed, trimmed_end, trimmed_start,
    whole_lines, word_length, words,
};
use crate::unified_diff::{
    applied_in_place, body_texts, describes, feed_lines, has_feed, header_text, hunk_texts, is_line,
    leads, line_texts, new_lines, old_lines, patch_lines, plain_name, printed_patch, range_fits,
    range_text, signed_line, terminated, valid_hunk, valid_hunks, without_feed, DiffHunk, DiffLine,
    DiffRange, NO_LINE_FEED,
};

verus! {

// ---------------------------------------------------------------------------
// Applying hunks
// ---------------------------------------------------------------------------

/// Hunks that lead from old lines to new ones give these when they are applied
/// in place.
pub proof fn described_hunks_apply(
    hunks: Seq<DiffHunk>,
    old: Seq<Seq<char>>,
    new: Seq<Seq<char>>,
    old_at: int,
    new_at: int,
)
    requires
        describes(hunks, old, new, old_at, new_at),
        forall|i: int| 0 <= i < hunks.len() ==> valid_hunk(#[trigger] hunks[i]),
    ensures
        applied_in_place(new.take(new_at) + old.skip(old_at), new_at, hunks) == Some(new),
    decreases hunks.len(),
{
    let lines = new.take(new_at) + old.skip(old_at);
    if hunks.len() == 0 {
        assert(lines =~= new.take(new_at) + new.skip(new_at));
        assert(lines =~= new);
    } else {
        let hunk = hunks[0];
        assert(valid_hunk(hunk));
        let from_old = hunk.old_range.position();
        let from_new = hunk.new_range.position();
        let to_old = from_old + hunk.old_range.len;
        let to_new = from_new + hunk.new_range.len;
        let gone = old_lines(hunk.lines);
        let come = new_lines(hunk.lines);
        let between = old.subrange(old_at, from_old);
        assert(between.len() == from_old - old_at);
        assert(new.subrange(new_at, from_new).len() == from_new - new_at);
        assert(lines.take(from_new) =~= new.take(new_at) + between);
        assert(new.take(from_new) =~= new.take(new_at) + new.subrange(new_at, from_new));
        assert(lines.subrange(from_new, from_new + gone.len()) =~= old.subrange(from_old, to_old));
        assert(lines.skip(from_new + gone.len()) =~= old.skip(to_old));
        assert(new.take(to_new) =~= new.take(from_new) + new.subrange(from_new, to_new));
        assert(lines.take(from_new) + come + lines.skip(from_new + gone.len()) =~= new.take(to_new)
            + old.skip(to_old));
        let rest = hunks.drop_first();
        assert forall|i: int| 0 <= i < rest.len() implies valid_hunk(#[trigger] rest[i]) by {
            assert(rest[i] == hunks[i + 1]);
        }
        described_hunks_apply(rest, old, new, to_old, to_new);
    }
}

// ---------------------------------------------------------------------------
// Hunks the other way round
// ---------------------------------------------------------------------------

/// The number of changed lines with which `lines` begins.
spec fn run_length(lines: Seq<DiffLine>) -> int
    decreases lines.len(),
{
    if lines.len() == 0 || lines[0] is Context {
        0
    } else {
        1 + run_length(lines.drop_first())
    }
}

/// `run_length` is within bounds, and not zero on a changed line.
proof fn run_length_bounds(lines: Seq<DiffLine>)
    ensures
        0 <= run_length(lines) <= lines.len(),
        lines.len() > 0 && !(lines[0] is Context) ==> run_length(lines) > 0,
        forall|i: int| 0 <= i < run_length(lines) ==> !((#[trigger] lines[i]) is Context),
        run_length(lines) < lines.len() ==> lines[run_length(lines)] is Context,
    decreases lines.len(),
{
    if lines.len() > 0 && !(lines[0] is Context) {
        let rest = lines.drop_first();
        run_length_bounds(rest);
        let n = run_length(rest);
        assert forall|i: int| 0 <= i < run_length(lines) implies !((
        #[trigger] lines[i]) is Context) by {
            if i > 0 {
                assert(rest[i - 1] == lines[i]);
            }
        }
        if n < rest.len() {
            assert(rest[n] == lines[n + 1]);
        }
    }
}

/// The lines that a block of changes adds, as lines that it removes.
spec fn inserts_deleted(block: Seq<DiffLine>) -> Seq<DiffLine>
    decreases block.len(),
{
    if block.len() == 0 {
        Seq::empty()
    } else {
        let rest = inserts_deleted(block.drop_first());
        match block[0] {
            DiffLine::Insert(c) => seq![DiffLine::Delete(c)] + rest,
            _ => rest,
        }
    }
}

/// The lines that a block of changes removes, as lines that it adds.
spec fn deletes_inserted(block: Seq<DiffLine>) -> Seq<DiffLine>
    decreases block.len(),
{
    if block.len() == 0 {
        Seq::empty()
    } else {
        let rest = deletes_inserted(block.drop_first());
        match block[0] {
            DiffLine::Delete(c) => seq![DiffLine::Insert(c)] + rest,
            _ => rest,
        }
    }
}

/// The lines of a hunk the other way round: in every block of changes what is
/// removed comes before what is added.
spec fn turned_lines(lines: Seq<DiffLine>) -> Seq<DiffLine>
    decreases lines.len(),
    via turned_lines_decreases
{
    if lines.len() == 0 {
        Seq::empty()
    } else if lines[0] is Context {
        seq![lines[0]] + turned_lines(lines.drop_first())
    } else {
        let n = run_length(lines);
        inserts_deleted(lines.take(n)) + deletes_inserted(lines.take(n)) + turned_lines(
            lines.skip(n),
        )
    }
}

#[via_fn]
proof fn turned_lines_decreases(lines: Seq<DiffLine>) {
    run_length_bounds(lines);
}

/// The old lines of two lists of lines one after the other.
proof fn old_lines_of_sum(first: Seq<DiffLine>, second: Seq<DiffLine>)
    ensures
        old_lines(first + second) == old_lines(first) + old_lines(second),
    decreases first.len(),
{
    if first.len() == 0 {
        assert(first + second =~= second);
        assert(old_lines(first) + old_lines(second) =~= old_lines(second));
    } else {
        assert((first + second).drop_first() =~= first.drop_first() + second);
        old_lines_of_sum(first.drop_first(), second);
        assert(old_lines(first + second) =~= old_lines(first) + old_lines(second));
    }
}

/// The new lines of two lists of lines one after the other.
proof fn new_lines_of_sum(first: Seq<DiffLine>, second: Seq<DiffLine>)
    ensures
        new_lines(first + second) == new_lines(first) + new_lines(second),
    decreases first.len(),
{
    if first.len() == 0 {
        assert(first + second =~= second);
        assert(new_lines(first) + new_lines(second) =~= new_lines(second));
    } else {
        assert((first + second).drop_first() =~= first.drop_first() + second);
        new_lines_of_sum(first.drop_first(), second);
        assert(new_lines(first + second) =~= new_lines(first) + new_lines(second));
    }
}

/// A block of changes the other way round.
proof fn block_turns(block: Seq<DiffLine>)
    requires
        forall|i: int| 0 <= i < block.len() ==> !((#[trigger] block[i]) is Context),
    ensures
        old_lines(inserts_deleted(block)) == new_lines(block),
        new_lines(inserts_deleted(block)) == Seq::<Seq<char>>::empty(),
        old_lines(deletes_inserted(block)) == Seq::<Seq<char>>::empty(),
        new_lines(deletes_inserted(block)) == old_lines(block),
    decreases block.len(),
{
    if block.len() > 0 {
        let rest = block.drop_first();
        assert forall|i: int| 0 <= i < rest.len() implies !((#[trigger] rest[i]) is Context) by {
            assert(rest[i] == block[i + 1]);
        }
        block_turns(rest);
        assert(!(block[0] is Context));
        match block[0] {
            DiffLine::Insert(c) => {
                let turned = seq![DiffLine::Delete(c)] + inserts_deleted(rest);
                assert(turned.drop_first() =~= inserts_deleted(rest));
            },
            DiffLine::Delete(c) => {
                let turned = seq![DiffLine::Insert(c)] + deletes_inserted(rest);
                assert(turned.drop_first() =~= deletes_inserted(rest));
            },
            DiffLine::Context(_) => {},
        }
    }
}

/// The other way round, the old lines are the new ones.
proof fn sides_swap(lines: Seq<DiffLine>)
    ensures
        old_lines(turned_lines(lines)) == new_lines(lines),
        new_lines(turned_lines(lines)) == old_lines(lines),
    decreases lines.len(),
{
    if lines.len() > 0 {
        if lines[0] is Context {
            let rest = lines.drop_first();
            sides_swap(rest);
            let turned = seq![lines[0]] + turned_lines(rest);
            assert(turned.drop_first() =~= turned_lines(rest));
        } else {
            run_length_bounds(lines);
            let n = run_length(lines);
            let block = lines.take(n);
            let rest = lines.skip(n);
            sides_swap(rest);
            assert forall|i: int| 0 <= i < block.len() implies !((
            #[trigger] block[i]) is Context) by {
                assert(block[i] == lines[i]);
            }
            block_turns(block);
            let removed = inserts_deleted(block);
            let added = deletes_inserted(block);
            old_lines_of_sum(removed, added);
            new_lines_of_sum(removed, added);
            old_lines_of_sum(removed + added, turned_lines(rest));
            new_lines_of_sum(removed + added, turned_lines(rest));
            assert(lines =~= block + rest);
            old_lines_of_sum(block, rest);
            new_lines_of_sum(block, rest);
            assert(new_lines(block) + Seq::<Seq<char>>::empty() =~= new_lines(block));
            assert(Seq::<Seq<char>>::empty() + old_lines(block) =~= old_lines(block));
        }
    }
}

/// A hunk the other way round.
spec fn turned_hunk(hunk: DiffHunk) -> DiffHunk {
    DiffHunk {
        old_range: hunk.new_range,
        new_range: hunk.old_range,
        lines: turned_lines(hunk.lines),
    }
}

/// Hunks the other way round.
spec fn turned_hunks(hunks: Seq<DiffHunk>) -> Seq<DiffHunk> {
    hunks.map_values(|hunk: DiffHunk| turned_hunk(hunk))
}

/// The other way round, valid hunks are valid.
proof fn turned_hunks_are_valid(hunks: Seq<DiffHunk>)
    requires
        valid_hunks(hunks),
    ensures
        valid_hunks(turned_hunks(hunks)),
{
    let turned = turned_hunks(hunks);
    assert forall|i: int| 0 <= i < turned.len() implies valid_hunk(#[trigger] turned[i]) by {
        assert(valid_hunk(hunks[i]));
        sides_swap(hunks[i].lines);
    }
    assert forall|i: int| 0 < i < turned.len() implies {
        &&& turned[i - 1].old_range.start + turned[i - 1].old_range.len <= (
        #[trigger] turned[i]).old_range.start
        &&& turned[i - 1].new_range.start + turned[i - 1].new_range.len <= turned[i].new_range.start
    } by {
        assert(turned[i - 1] == turned_hunk(hunks[i - 1]));
        assert(turned[i] == turned_hunk(hunks[i]));
    }
}

/// The other way round, hunks lead back.
proof fn turned_hunks_describe(
    hunks: Seq<DiffHunk>,
    old: Seq<Seq<char>>,
    new: Seq<Seq<char>>,
    old_at: int,
    new_at: int,
)
    requires
        describes(hunks, old, new, old_at, new_at),
    ensures
        describes(turned_hunks(hunks), new, old, new_at, old_at),
    decreases hunks.len(),
{
    let turned = turned_hunks(hunks);
    if hunks.len() > 0 {
        let hunk = hunks[0];
        assert(turned[0] == turned_hunk(hunk));
        sides_swap(hunk.lines);
        assert(turned.drop_first() =~= turned_hunks(hunks.drop_first()));
        turned_hunks_describe(
            hunks.drop_first(),
            old,
            new,
            hunk.old_range.position() + hunk.old_range.len,
            hunk.new_range.position() + hunk.new_range.len,
        );
    }
}

// ---------------------------------------------------------------------------
// Headers the other way round
// ---------------------------------------------------------------------------

/// A word in front of white space, or of nothing, is the first word.
proof fn first_word(word: Seq<char>, rest: Seq<char>)
    requires
        forall|i: int| 0 <= i < word.len() ==> !is_white(#[trigger] word[i]),
        rest.len() == 0 || is_white(rest[0]),
    ensures
        word_length(word + rest) == word.len(),
    decreases word.len(),
{
    if word.len() == 0 {
        assert(word + rest =~= rest);
    } else {
        assert((word + rest)[0] == word[0]);
        assert((word + rest).drop_first() =~= word.drop_first() + rest);
        first_word(word.drop_first(), rest);
    }
}

/// Two words with a space between.
proof fn two_words(first: Seq<char>, second: Seq<char>)
    requires
        first.len() > 0,
        second.len() > 0,
        forall|i: int| 0 <= i < first.len() ==> !is_white(#[trigger] first[i]),
        forall|i: int| 0 <= i < second.len() ==> !is_white(#[trigger] second[i]),
    ensures
        words(first + seq![' '] + second) == seq![first, second],
{
    let both = first + seq![' '] + second;
    let rest = seq![' '] + second;
    assert(both =~= first + rest);
    assert(both[0] == first[0]);
    assert(trimmed_start(both) == both);
    first_word(first, rest);
    assert(both.take(first.len() as int) =~= first);
    assert(both.skip(first.len() as int) =~= rest);
    assert(rest.drop_first() =~= second);
    assert(trimmed_start(second) == second);
    assert(trimmed_start(rest) == second) by {
        assert(trimmed_start(rest) == trimmed_start(rest.drop_first()));
    }
    first_word(second, Seq::empty());
    assert(second + Seq::<char>::empty() =~= second);
    assert(second.take(second.len() as int) =~= second);
    assert(second.skip(second.len() as int) =~= Seq::<char>::empty());
    assert(words(Seq::<char>::empty()) =~= Seq::<Seq<char>>::empty());
    assert(words(rest) =~= seq![second]);
    assert(words(both) =~= seq![first] + words(rest));
}

/// A printed range has no white space, and neither begins nor ends with a sign.
proof fn range_is_a_word(range: DiffRange)
    ensures
        range_text(range).len() > 0,
        forall|i: int|
            0 <= i < range_text(range).len() ==> {
                ||| is_digit(#[trigger] range_text(range)[i])
                ||| range_text(range)[i] == ','
            },
{
    crate::save_laws::decimal_has_value(range.start);
    crate::save_laws::decimal_has_value(range.len);
}

/// Whether a text holds no white space.
pub open spec fn has_no_white(text: Seq<char>) -> bool {
    forall|i: int| 0 <= i < text.len() ==> !is_white(#[trigger] text[i])
}

/// A hunk header with the given ranges.
pub open spec fn header_line(old_range: Seq<char>, new_range: Seq<char>) -> Seq<char> {
    seq!['@', '@', ' ', '-'] + old_range + seq![' ', '+'] + new_range + seq![' ', '@', '@']
}

/// A hunk header with the given ranges the other way round.
proof fn header_line_turns(a: Seq<char>, b: Seq<char>)
    requires
        has_no_white(a),
        has_no_white(b),
    ensures
        reversed_header(header_line(a, b)) == header_line(b, a),
        begins_with(header_line(a, b), "@@ "@),
        reversed_header_line(header_line(a, b)) == header_line(b, a),
        reversible_header(header_line(a, b)),
        without_return(header_line(a, b)) == header_line(a, b),
        header_words(header_line(a, b)) == seq![seq!['-'] + a, seq!['+'] + b],
        !header_line(a, b).contains('\n'),
{
    let line = header_line(a, b);
    reveal_strlit("@@ ");
    reveal_strlit("-");
    reveal_strlit("+");
    reveal_strlit(" ");
    reveal_strlit(" @@");
    assert(line.take(3) =~= "@@ "@);
    let first = seq!['-'] + a;
    let second = seq!['+'] + b;
    let inner = first + seq![' '] + second;
    let padded = seq![' '] + inner + seq![' '];
    let tail = padded + seq!['@', '@'];
    assert(line =~= seq!['@', '@'] + tail);
    assert(stripped_start(line, '@') == tail) by {
        assert(line.drop_first() =~= seq!['@'] + tail);
        assert((seq!['@'] + tail).drop_first() =~= tail);
        assert(tail[0] == ' ');
        reveal_with_fuel(stripped_start, 3);
    }
    assert(stripped_end(tail, '@') == padded) by {
        assert(tail.drop_last() =~= padded + seq!['@']);
        assert((padded + seq!['@']).drop_last() =~= padded);
        assert(padded.last() == ' ');
        reveal_with_fuel(stripped_end, 3);
    }
    assert(trimmed(padded) == inner) by {
        assert(padded.drop_first() =~= inner + seq![' ']);
        assert((inner + seq![' '])[0] == '-');
        assert(trimmed_start(padded) == inner + seq![' ']) by {
            reveal_with_fuel(trimmed_start, 2);
        }
        assert((inner + seq![' ']).drop_last() =~= inner);
        assert(inner.last() == second.last());
        if b.len() > 0 {
            assert(second.last() == b[b.len() - 1]);
        }
        assert(!is_white(inner.last()));
        reveal_with_fuel(trimmed_end, 2);
    }
    two_words(first, second);
    assert(header_words(line) == seq![first, second]);
    assert(second.skip(1) =~= b);
    assert(first.skip(1) =~= a);
    assert(reversed_header(line) =~= header_line(b, a));
    assert(line.last() == '@');
    assert(reversed_header(line) + Seq::<char>::empty() =~= reversed_header(line));
    if line.contains('\n') {
        let i = choose|i: int| 0 <= i < line.len() && line[i] == '\n';
        if 4 <= i < 4 + a.len() {
            assert(line[i] == a[i - 4]);
        } else if 6 + a.len() <= i < 6 + a.len() + b.len() {
            assert(line[i] == b[i - 6 - a.len()]);
        }
    }
}

/// The header of a hunk the other way round.
proof fn header_turns(hunk: DiffHunk)
    ensures
        begins_with(header_text(hunk), "@@ "@),
        reversed_header_line(header_text(hunk)) == header_text(turned_hunk(hunk)),
        reversible_header(header_text(hunk)),
        without_return(header_text(hunk)) == header_text(hunk),
        header_words(header_text(hunk)) == seq![
            seq!['-'] + range_text(hunk.old_range),
            seq!['+'] + range_text(hunk.new_range),
        ],
        !header_text(hunk).contains('\n'),
{
    range_is_a_word(hunk.old_range);
    range_is_a_word(hunk.new_range);
    header_line_turns(range_text(hunk.old_range), range_text(hunk.new_range));
}

// ---------------------------------------------------------------------------
// Lines the other way round
// ---------------------------------------------------------------------------

/// What two lists of lines one after the other are printed as.
proof fn body_texts_of_sum(first: Seq<DiffLine>, second: Seq<DiffLine>)
    ensures
        body_texts(first + second) == body_texts(first) + body_texts(second),
    decreases first.len(),
{
    if first.len() == 0 {
        assert(first + second =~= second);
        assert(body_texts(first) + body_texts(second) =~= body_texts(second));
    } else {
        assert((first + second).drop_first() =~= first.drop_first() + second);
        body_texts_of_sum(first.drop_first(), second);
        assert(body_texts(first + second) =~= body_texts(first) + body_texts(second));
    }
}

/// The signs of printed lines.
proof fn signs(line: DiffLine)
    ensures
        is_change(signed_line(line)) == !(line is Context),
        begins_with(signed_line(line), "-"@) == (line is Delete),
        begins_with(signed_line(line), "+"@) == (line is Insert),
        !begins_with(signed_line(line), "@@ "@),
        !is_mark(signed_line(line)),
        line is Delete ==> "+"@ + signed_line(line).skip(1) == signed_line(
            DiffLine::Insert(line.content()),
        ),
        line is Insert ==> "-"@ + signed_line(line).skip(1) == signed_line(
            DiffLine::Delete(line.content()),
        ),
{
    reveal_strlit("-");
    reveal_strlit("+");
    reveal_strlit("@@ ");
    reveal_strlit("\\ No newline at end of file");
    let text = signed_line(line);
    if is_mark(text) {
        assert(text.take(NO_LINE_FEED@.len() as int)[0] == '\\');
    }
    if text.len() > 0 {
        assert(text.take(1)[0] == text[0]);
        assert(text.take(1) =~= seq![text[0]]);
    }
    if text.len() >= 3 {
        assert(text.take(3)[0] == text[0]);
    }
    assert("-"@ =~= seq!['-']);
    assert("+"@ =~= seq!['+']);
    let body = without_feed(line.content());
    if line is Delete {
        assert(text.skip(1) =~= body);
    }
    if line is Insert {
        assert(text.skip(1) =~= body);
    }
}

/// What stands behind a line without a line feed is no change and no header.
proof fn marker_is_no_change()
    ensures
        !is_change(NO_LINE_FEED@),
        is_mark(NO_LINE_FEED@),
        !begins_with(NO_LINE_FEED@, "@@ "@),
{
    reveal_strlit("-");
    reveal_strlit("+");
    reveal_strlit("@@ ");
    reveal_strlit("\\ No newline at end of file");
    assert(NO_LINE_FEED@[0] == '\\');
    assert(NO_LINE_FEED@.take(1)[0] == '\\');
    assert(NO_LINE_FEED@.take(3)[0] == '\\');
    assert(NO_LINE_FEED@.take(NO_LINE_FEED@.len() as int) =~= NO_LINE_FEED@);
}

/// Changed lines and marks in front of something else are counted whole.
proof fn lines_are_counted(block: Seq<Seq<char>>, rest: Seq<Seq<char>>)
    requires
        forall|i: int|
            0 <= i < block.len() ==> is_change(#[trigger] block[i]) || is_mark(block[i]),
        rest.len() == 0 || !(is_change(rest[0]) || is_mark(rest[0])),
    ensures
        change_count(block + rest) == block.len(),
    decreases block.len(),
{
    let all = block + rest;
    if block.len() == 0 {
        assert(all =~= rest);
    } else {
        let front = block.drop_first();
        assert forall|i: int| 0 <= i < front.len() implies is_change(#[trigger] front[i])
            || is_mark(front[i]) by {
            assert(front[i] == block[i + 1]);
        }
        assert(all.drop_first() =~= front + rest);
        lines_are_counted(front, rest);
        assert(all[0] == block[0]);
    }
}

/// The printed lines of a block are changed lines and marks, and the first is a
/// changed line.
proof fn block_is_counted(block: Seq<DiffLine>)
    requires
        forall|i: int| 0 <= i < block.len() ==> !((#[trigger] block[i]) is Context),
    ensures
        forall|i: int|
            0 <= i < body_texts(block).len() ==> is_change(#[trigger] body_texts(block)[i])
                || is_mark(body_texts(block)[i]),
        block.len() > 0 ==> body_texts(block).len() > 0 && is_change(body_texts(block)[0])
            && body_texts(block)[0] == signed_line(block[0]),
    decreases block.len(),
{
    if block.len() > 0 {
        let rest = block.drop_first();
        assert forall|i: int| 0 <= i < rest.len() implies !((#[trigger] rest[i]) is Context) by {
            assert(rest[i] == block[i + 1]);
        }
        block_is_counted(rest);
        assert(!(block[0] is Context));
        signs(block[0]);
        marker_is_no_change();
        let all = body_texts(block);
        let own = line_texts(block[0]);
        assert(all[0] == own[0]);
        assert forall|i: int| 0 <= i < all.len() implies is_change(#[trigger] all[i]) || is_mark(
            all[i],
        ) by {
            if i >= own.len() {
                assert(all[i] == body_texts(rest)[i - own.len()]);
            }
        }
    }
}

/// Lines in front of a block do not matter to its last changed line.
proof fn adds_last_of_sum(first: Seq<Seq<char>>, second: Seq<Seq<char>>)
    requires
        second.len() > 0,
        is_change(second[0]),
    ensures
        adds_last(first + second) == adds_last(second),
    decreases second.len(),
{
    let both = first + second;
    assert(both.last() == second.last());
    if !is_change(second.last()) {
        assert(second.drop_last()[0] == second[0]);
        assert(both.drop_last() =~= first + second.drop_last());
        adds_last_of_sum(first, second.drop_last());
    }
}

/// What two blocks remove and add when they are reversed.
proof fn reversed_of_sum(first: Seq<Seq<char>>, second: Seq<Seq<char>>)
    requires
        second.len() > 0,
        is_change(second[0]),
    ensures
        now_removed(first + second) == now_removed(first) + now_removed(second),
        now_added(first + second) == now_added(first) + now_added(second),
    decreases second.len(),
{
    let both = first + second;
    let front = second.drop_last();
    adds_last_of_sum(first, second);
    assert(both.drop_last() =~= first + front);
    assert(both.last() == second.last());
    if second.len() == 1 {
        assert(first + front =~= first);
        assert(now_removed(front) =~= Seq::<Seq<char>>::empty());
        assert(now_added(front) =~= Seq::<Seq<char>>::empty());
    } else {
        assert(front[0] == second[0]);
        reversed_of_sum(first, front);
    }
    assert(now_removed(both) =~= now_removed(first) + now_removed(second));
    assert(now_added(both) =~= now_added(first) + now_added(second));
}

/// The printed lines of one change, reversed.
proof fn printed_line_turns(line: DiffLine)
    requires
        !(line is Context),
    ensures
        now_removed(line_texts(line)) == match line {
            DiffLine::Insert(c) => line_texts(DiffLine::Delete(c)),
            _ => Seq::empty(),
        },
        now_added(line_texts(line)) == match line {
            DiffLine::Delete(c) => line_texts(DiffLine::Insert(c)),
            _ => Seq::empty(),
        },
{
    signs(line);
    marker_is_no_change();
    let all = line_texts(line);
    let text = signed_line(line);
    let one = seq![text];
    let none = Seq::<Seq<char>>::empty();
    assert(one.drop_last() =~= none);
    assert(one.last() == text);
    assert(now_removed(none) =~= none);
    assert(now_added(none) =~= none);
    assert(adds_last(one) == (line is Insert));
    assert(now_removed(one) =~= if line is Insert {
        seq!["-"@ + text.skip(1)]
    } else {
        none
    });
    assert(now_added(one) =~= if line is Insert {
        none
    } else {
        seq!["+"@ + text.skip(1)]
    });
    if !has_feed(line.content()) {
        assert(all.drop_last() =~= one);
        assert(all.last() == NO_LINE_FEED@);
        assert(adds_last(all) == adds_last(one));
    }
    match line {
        DiffLine::Insert(c) => {
            assert(now_removed(all) =~= line_texts(DiffLine::Delete(c)));
            assert(now_added(all) =~= none);
        },
        DiffLine::Delete(c) => {
            assert(now_removed(all) =~= none);
            assert(now_added(all) =~= line_texts(DiffLine::Insert(c)));
        },
        DiffLine::Context(_) => {},
    }
}

/// The printed lines of a block, reversed.
proof fn printed_block_turns(block: Seq<DiffLine>)
    requires
        forall|i: int| 0 <= i < block.len() ==> !((#[trigger] block[i]) is Context),
    ensures
        now_removed(body_texts(block)) == body_texts(inserts_deleted(block)),
        now_added(body_texts(block)) == body_texts(deletes_inserted(block)),
    decreases block.len(),
{
    let all = body_texts(block);
    if block.len() == 0 {
        assert(now_removed(all) =~= body_texts(inserts_deleted(block)));
        assert(now_added(all) =~= body_texts(deletes_inserted(block)));
    } else {
        let rest = block.drop_first();
        let own = line_texts(block[0]);
        assert forall|i: int| 0 <= i < rest.len() implies !((#[trigger] rest[i]) is Context) by {
            assert(rest[i] == block[i + 1]);
        }
        printed_block_turns(rest);
        block_is_counted(rest);
        assert(!(block[0] is Context));
        printed_line_turns(block[0]);
        if rest.len() > 0 {
            reversed_of_sum(own, body_texts(rest));
        } else {
            assert(all =~= own);
            assert(now_removed(body_texts(rest)) =~= Seq::<Seq<char>>::empty());
            assert(now_added(body_texts(rest)) =~= Seq::<Seq<char>>::empty());
        }
        match block[0] {
            DiffLine::Insert(c) => {
                let turned = seq![DiffLine::Delete(c)] + inserts_deleted(rest);
                assert(turned.drop_first() =~= inserts_deleted(rest));
            },
            DiffLine::Delete(c) => {
                let turned = seq![DiffLine::Insert(c)] + deletes_inserted(rest);
                assert(turned.drop_first() =~= deletes_inserted(rest));
            },
            DiffLine::Context(_) => {},
        }
        assert(now_removed(all) =~= body_texts(inserts_deleted(block)));
        assert(now_added(all) =~= body_texts(deletes_inserted(block)));
    }
}

/// The printed lines of a hunk, reversed, are those of the hunk the other way
/// round.
proof fn body_turns(lines: Seq<DiffLine>, tail: Seq<Seq<char>>)
    requires
        tail.len() == 0 || begins_with(tail[0], "@@ "@),
    ensures
        reversed_hunks(body_texts(lines) + tail) == body_texts(turned_lines(lines))
            + reversed_hunks(tail),
    decreases lines.len(), 1int,
{
    let all = body_texts(lines) + tail;
    if lines.len() == 0 {
        assert(all =~= tail);
        assert(body_texts(turned_lines(lines)) + reversed_hunks(tail) =~= reversed_hunks(tail));
    } else if lines[0] is Context {
        context_turns(lines, tail);
    } else {
        run_turns(lines, tail);
    }
}

/// `body_turns` for lines that begin with one of both texts.
proof fn context_turns(lines: Seq<DiffLine>, tail: Seq<Seq<char>>)
    requires
        lines.len() > 0,
        lines[0] is Context,
        tail.len() == 0 || begins_with(tail[0], "@@ "@),
    ensures
        reversed_hunks(body_texts(lines) + tail) == body_texts(turned_lines(lines))
            + reversed_hunks(tail),
    decreases lines.len(), 0int,
{
    let all = body_texts(lines) + tail;
    let rest = lines.drop_first();
    let behind = body_texts(rest) + tail;
    let text = signed_line(lines[0]);
    signs(lines[0]);
    marker_is_no_change();
    let turned = seq![lines[0]] + turned_lines(rest);
    assert(turned.drop_first() =~= turned_lines(rest));
    assert(all[0] == text);
    if has_feed(lines[0].content()) {
        assert(all.drop_first() =~= behind);
        body_turns(rest, tail);
    } else {
        let next = all.drop_first();
        assert(next =~= seq![NO_LINE_FEED@] + behind);
        assert(next[0] == NO_LINE_FEED@);
        assert(next.drop_first() =~= behind);
        body_turns(rest, tail);
        assert(reversed_hunks(next) == seq![NO_LINE_FEED@] + reversed_hunks(behind));
    }
    assert(reversed_hunks(all) == seq![text] + reversed_hunks(all.drop_first()));
    assert(reversed_hunks(all) =~= body_texts(turned) + reversed_hunks(tail));
}

/// `body_turns` for lines that begin with a change.
proof fn run_turns(lines: Seq<DiffLine>, tail: Seq<Seq<char>>)
    requires
        lines.len() > 0,
        !(lines[0] is Context),
        tail.len() == 0 || begins_with(tail[0], "@@ "@),
    ensures
        reversed_hunks(body_texts(lines) + tail) == body_texts(turned_lines(lines))
            + reversed_hunks(tail),
    decreases lines.len(), 0int,
{
    let all = body_texts(lines) + tail;
    run_length_bounds(lines);
    let n = run_length(lines);
    let block = lines.take(n);
    let rest = lines.skip(n);
    let behind = body_texts(rest) + tail;
    let texts = body_texts(block);
    assert forall|i: int| 0 <= i < block.len() implies !((#[trigger] block[i]) is Context) by {
        assert(block[i] == lines[i]);
    }
    assert(lines =~= block + rest);
    body_texts_of_sum(block, rest);
    block_is_counted(block);
    signs(lines[0]);
    assert(block[0] == lines[0]);
    let removed = inserts_deleted(block);
    let added = deletes_inserted(block);
    body_texts_of_sum(removed + added, turned_lines(rest));
    body_texts_of_sum(removed, added);
    assert(all =~= texts + behind);
    if behind.len() > 0 {
        if rest.len() > 0 {
            assert(rest[0] == lines[n]);
            signs(rest[0]);
            assert(behind[0] == signed_line(rest[0]));
        } else {
            assert(behind =~= tail);
            header_is_no_change(tail[0]);
        }
    }
    lines_are_counted(texts, behind);
    assert(all.take(texts.len() as int) =~= texts);
    assert(all.skip(texts.len() as int) =~= behind);
    assert(all[0] == texts[0]);
    printed_block_turns(block);
    body_turns(rest, tail);
    assert(reversed_hunks(all) =~= body_texts(turned_lines(lines)) + reversed_hunks(tail));
}

/// The line that begins a hunk is no change.
proof fn header_is_no_change(line: Seq<char>)
    requires
        begins_with(line, "@@ "@),
    ensures
        !is_change(line),
        !is_mark(line),
{
    reveal_strlit("@@ ");
    reveal_strlit("-");
    reveal_strlit("+");
    reveal_strlit("\\ No newline at end of file");
    if is_mark(line) {
        assert(line.take(NO_LINE_FEED@.len() as int)[0] == '\\');
    }
    assert(line.take(3)[0] == '@');
    assert(line[0] == '@');
    assert(line.take(1)[0] == '@');
}

/// Printed hunks, reversed, are the hunks the other way round.
proof fn hunks_turn(hunks: Seq<DiffHunk>)
    ensures
        reversed_hunks(hunk_texts(hunks)) == hunk_texts(turned_hunks(hunks)),
    decreases hunks.len(),
{
    let turned = turned_hunks(hunks);
    if hunks.len() == 0 {
        assert(reversed_hunks(hunk_texts(hunks)) =~= hunk_texts(turned));
    } else {
        let rest = hunks.drop_first();
        let tail = hunk_texts(rest);
        let all = hunk_texts(hunks);
        if rest.len() > 0 {
            header_turns(rest[0]);
            assert(tail[0] == header_text(rest[0]));
        }
        header_turns(hunks[0]);
        assert(all[0] == header_text(hunks[0]));
        assert(all.drop_first() =~= body_texts(hunks[0].lines) + tail);
        body_turns(hunks[0].lines, tail);
        hunks_turn(rest);
        assert(turned[0] == turned_hunk(hunks[0]));
        assert(turned.drop_first() =~= turned_hunks(rest));
        assert(reversed_hunks(all) =~= hunk_texts(turned));
    }
}

// ---------------------------------------------------------------------------
// Patches the other way round
// ---------------------------------------------------------------------------

/// Whether lines hold no line feed.
spec fn unbroken(lines: Seq<Seq<char>>) -> bool {
    forall|i: int| 0 <= i < lines.len() ==> !(#[trigger] lines[i]).contains('\n')
}

/// Lines with line feeds are read back.
proof fn lines_are_read_back(lines: Seq<Seq<char>>)
    requires
        unbroken(lines),
    ensures
        feed_lines(terminated(lines)) == lines,
    decreases lines.len(),
{
    if lines.len() == 0 {
        assert(feed_lines(terminated(lines)) =~= lines);
    } else {
        let line = lines[0];
        let rest = lines.drop_first();
        let text = terminated(lines);
        let behind = terminated(rest);
        reveal_strlit("\n");
        first_index_is_first(text, '\n');
        let at = first_index(text, '\n');
        assert(text[line.len() as int] == '\n');
        if at < line.len() {
            assert(text[at] == line[at]);
            assert(line.contains('\n'));
        }
        let first = line + "\n"@;
        assert(text.take(at + 1) =~= first);
        assert(text.skip(at + 1) =~= behind);
        assert(first.drop_last() =~= line);
        assert(whole_lines(text) == seq![first] + whole_lines(behind));
        assert forall|i: int| 0 <= i < rest.len() implies !(#[trigger] rest[i]).contains(
            '\n',
        ) by {
            assert(rest[i] == lines[i + 1]);
        }
        lines_are_read_back(rest);
        assert(feed_lines(text) =~= seq![line] + feed_lines(behind));
        assert(seq![line] + rest =~= lines);
    }
}

/// One more line with a line feed.
proof fn terminated_push(lines: Seq<Seq<char>>, line: Seq<char>)
    ensures
        terminated(lines.push(line)) == terminated(lines) + line + "\n"@,
    decreases lines.len(),
{
    let all = lines.push(line);
    if lines.len() == 0 {
        assert(all.drop_first() =~= Seq::<Seq<char>>::empty());
        assert(terminated(all.drop_first()) =~= Seq::<char>::empty());
        assert(terminated(all) =~= terminated(lines) + line + "\n"@);
    } else {
        assert(all.drop_first() =~= lines.drop_first().push(line));
        terminated_push(lines.drop_first(), line);
        assert(terminated(all) =~= terminated(lines) + line + "\n"@);
    }
}

/// Lines with line feeds between them and one at the end.
proof fn joined_lines(lines: Seq<Seq<char>>)
    requires
        lines.len() > 0,
    ensures
        joined(lines, "\n"@) + "\n"@ == terminated(lines),
    decreases lines.len(),
{
    let front = lines.drop_last();
    assert(lines =~= front.push(lines.last()));
    terminated_push(front, lines.last());
    if lines.len() == 1 {
        assert(terminated(front) =~= Seq::<char>::empty());
        assert(joined(lines, "\n"@) + "\n"@ =~= terminated(lines));
    } else {
        joined_lines(front);
        assert(joined(lines, "\n"@) + "\n"@ =~= terminated(lines));
    }
}

/// The contents of lines whose two sides are lines.
proof fn contents_are_lines(lines: Seq<DiffLine>)
    requires
        forall|i: int| 0 <= i < old_lines(lines).len() ==> is_line(#[trigger] old_lines(lines)[i]),
        forall|i: int| 0 <= i < new_lines(lines).len() ==> is_line(#[trigger] new_lines(lines)[i]),
    ensures
        forall|i: int| 0 <= i < lines.len() ==> is_line((#[trigger] lines[i]).content()),
    decreases lines.len(),
{
    if lines.len() > 0 {
        let rest = lines.drop_first();
        let old = old_lines(lines);
        let new = new_lines(lines);
        assert forall|i: int| 0 <= i < old_lines(rest).len() implies is_line(
            #[trigger] old_lines(rest)[i],
        ) by {
            if lines[0] is Insert {
                assert(old[i] == old_lines(rest)[i]);
            } else {
                assert(old[i + 1] == old_lines(rest)[i]);
            }
        }
        assert forall|i: int| 0 <= i < new_lines(rest).len() implies is_line(
            #[trigger] new_lines(rest)[i],
        ) by {
            if lines[0] is Delete {
                assert(new[i] == new_lines(rest)[i]);
            } else {
                assert(new[i + 1] == new_lines(rest)[i]);
            }
        }
        contents_are_lines(rest);
        assert(is_line(lines[0].content())) by {
            if lines[0] is Insert {
                assert(new[0] == lines[0].content());
            } else {
                assert(old[0] == lines[0].content());
            }
        }
        assert forall|i: int| 0 <= i < lines.len() implies is_line((
        #[trigger] lines[i]).content()) by {
            if i > 0 {
                assert(rest[i - 1] == lines[i]);
            }
        }
    }
}

/// The printed lines of a hunk hold no line feed.
proof fn body_is_unbroken(lines: Seq<DiffLine>)
    requires
        forall|i: int| 0 <= i < lines.len() ==> is_line((#[trigger] lines[i]).content()),
    ensures
        unbroken(body_texts(lines)),
    decreases lines.len(),
{
    if lines.len() > 0 {
        let rest = lines.drop_first();
        assert forall|i: int| 0 <= i < rest.len() implies is_line((
        #[trigger] rest[i]).content()) by {
            assert(rest[i] == lines[i + 1]);
        }
        body_is_unbroken(rest);
        let content = lines[0].content();
        let body = without_feed(content);
        let text = signed_line(lines[0]);
        assert(is_line(content));
        assert(!text.contains('\n')) by {
            if text.contains('\n') {
                let i = choose|i: int| 0 <= i < text.len() && text[i] == '\n';
                assert(i > 0);
                assert(text[i] == body[i - 1]);
                assert(body[i - 1] == content[i - 1]);
            }
        }
        reveal_strlit("\\ No newline at end of file");
        assert(!NO_LINE_FEED@.contains('\n'));
        let all = body_texts(lines);
        let own = line_texts(lines[0]);
        assert forall|i: int| 0 <= i < all.len() implies !(#[trigger] all[i]).contains('\n') by {
            if i >= own.len() {
                assert(all[i] == body_texts(rest)[i - own.len()]);
            }
        }
    }
}

/// The printed lines of hunks hold no line feed.
proof fn hunks_are_unbroken(hunks: Seq<DiffHunk>)
    requires
        forall|i: int| 0 <= i < hunks.len() ==> valid_hunk(#[trigger] hunks[i]),
    ensures
        unbroken(hunk_texts(hunks)),
    decreases hunks.len(),
{
    if hunks.len() > 0 {
        let hunk = hunks[0];
        let rest = hunks.drop_first();
        assert forall|i: int| 0 <= i < rest.len() implies valid_hunk(#[trigger] rest[i]) by {
            assert(rest[i] == hunks[i + 1]);
        }
        hunks_are_unbroken(rest);
        assert(valid_hunk(hunk));
        contents_are_lines(hunk.lines);
        body_is_unbroken(hunk.lines);
        header_turns(hunk);
        let all = hunk_texts(hunks);
        let body = body_texts(hunk.lines);
        assert forall|i: int| 0 <= i < all.len() implies !(#[trigger] all[i]).contains('\n') by {
            if 0 < i <= body.len() {
                assert(all[i] == body[i - 1]);
            } else if i > body.len() {
                assert(all[i] == hunk_texts(rest)[i - 1 - body.len()]);
            }
        }
    }
}

/// The names of the two files hold no line feed.
proof fn names_are_unbroken(old_name: Seq<char>, new_name: Seq<char>)
    requires
        plain_name(old_name),
        plain_name(new_name),
    ensures
        !("--- "@ + old_name).contains('\n'),
        !("+++ "@ + new_name).contains('\n'),
        begins_with("--- "@ + old_name, "--- "@),
        begins_with("+++ "@ + new_name, "+++ "@),
        ("--- "@ + old_name).skip(4) == old_name,
        ("+++ "@ + new_name).skip(4) == new_name,
{
    reveal_strlit("--- ");
    reveal_strlit("+++ ");
    let first = "--- "@ + old_name;
    let second = "+++ "@ + new_name;
    if first.contains('\n') {
        let i = choose|i: int| 0 <= i < first.len() && first[i] == '\n';
        if i >= 4 {
            assert(first[i] == old_name[i - 4]);
        }
    }
    if second.contains('\n') {
        let i = choose|i: int| 0 <= i < second.len() && second[i] == '\n';
        if i >= 4 {
            assert(second[i] == new_name[i - 4]);
        }
    }
    assert(first.take(4) =~= "--- "@);
    assert(second.take(4) =~= "+++ "@);
    assert(first.skip(4) =~= old_name);
    assert(second.skip(4) =~= new_name);
}

/// A printed diff, reversed, is the diff the other way round.
proof fn patch_turns(old_name: Seq<char>, new_name: Seq<char>, hunks: Seq<DiffHunk>)
    requires
        plain_name(old_name),
        plain_name(new_name),
        valid_hunks(hunks),
    ensures
        reversed_patch(printed_patch(old_name, new_name, hunks)) == printed_patch(
            new_name,
            old_name,
            turned_hunks(hunks),
        ),
{
    let lines = patch_lines(old_name, new_name, hunks);
    let text = printed_patch(old_name, new_name, hunks);
    let body = hunk_texts(hunks);
    names_are_unbroken(old_name, new_name);
    hunks_are_unbroken(hunks);
    assert forall|i: int| 0 <= i < lines.len() implies !(#[trigger] lines[i]).contains('\n') by {
        if i >= 2 {
            assert(lines[i] == body[i - 2]);
        }
    }
    lines_are_read_back(lines);
    assert(lines.skip(2) =~= body);
    hunks_turn(hunks);
    assert(original_index(lines) == 0);
    let turned = patch_lines(new_name, old_name, turned_hunks(hunks));
    assert(lines.take(0) =~= Seq::<Seq<char>>::empty());
    assert(reversed_lines(lines) =~= turned);
    joined_lines(lines);
    joined_lines(turned);
    reveal_strlit("\n");
    assert(text.last() == '\n') by {
        assert(text == joined(lines, "\n"@) + "\n"@);
    }
}

/// A diff that leads from one text to another leads back when it is reversed.
pub proof fn reversed_diff_leads_back(
    hunks: Seq<DiffHunk>,
    original: Seq<char>,
    patched: Seq<char>,
)
    requires
        valid_hunks(hunks),
        describes(hunks, whole_lines(original), whole_lines(patched), 0, 0),
    ensures
        exists|turned: Seq<DiffHunk>|
            reversed_patch(printed_patch("original"@, "modified"@, hunks))
                == #[trigger] printed_patch("modified"@, "original"@, turned) && valid_hunks(turned)
                && describes(turned, whole_lines(patched), whole_lines(original), 0, 0),
{
    names_are_plain();
    patch_turns("original"@, "modified"@, hunks);
    turned_hunks_are_valid(hunks);
    turned_hunks_describe(hunks, whole_lines(original), whole_lines(patched), 0, 0);
}

// ---------------------------------------------------------------------------
// Reversing twice
// ---------------------------------------------------------------------------

/// Whether a line is a hunk header that holds two ranges and nothing else.
pub open spec fn is_plain_header(line: Seq<char>) -> bool {
    exists|old_range: Seq<char>, new_range: Seq<char>|
        without_return(line) == #[trigger] header_line(old_range, new_range) && has_no_white(
            old_range,
        ) && has_no_white(new_range)
}

/// Whether a block of changes removes lines before it adds others.
pub open spec fn removes_first(block: Seq<Seq<char>>) -> bool {
    forall|i: int, j: int|
        0 <= i < j < block.len() && begins_with(#[trigger] block[i], "+"@) ==> !begins_with(
            #[trigger] block[j],
            "-"@,
        )
}

/// Whether all blocks of changes in the lines of hunks remove lines before they
/// add others.
pub open spec fn all_remove_first(lines: Seq<Seq<char>>) -> bool
    decreases lines.len(),
    via all_remove_first_decreases
{
    if lines.len() == 0 {
        true
    } else if !begins_with(lines[0], "@@ "@) && is_change(lines[0]) {
        let n = change_count(lines);
        removes_first(lines.take(n)) && all_remove_first(lines.skip(n))
    } else {
        all_remove_first(lines.drop_first())
    }
}

#[via_fn]
proof fn all_remove_first_decreases(lines: Seq<Seq<char>>) {
    change_count_bounds(lines);
}

/// Whether every hunk header among lines holds two ranges and nothing else.
pub open spec fn has_plain_headers(lines: Seq<Seq<char>>) -> bool {
    forall|i: int|
        0 <= i < lines.len() && begins_with(#[trigger] lines[i], "@@ "@) ==> is_plain_header(
            lines[i],
        )
}

/// Whether a text is a unified diff: the names of the two files come first, and
/// hunk headers hold two ranges and nothing else.
pub open spec fn is_unified_diff(patch: Seq<char>) -> bool {
    let lines = feed_lines(patch);
    &&& lines.len() >= 2
    &&& begins_with(lines[0], "--- "@)
    &&& begins_with(lines[1], "+++ "@)
    &&& has_plain_headers(lines.skip(2))
}

/// A plain header reversed twice is what it was.
proof fn plain_header_turns(line: Seq<char>)
    requires
        is_plain_header(line),
    ensures
        is_plain_header(reversed_header_line(line)),
        begins_with(reversed_header_line(line), "@@ "@),
        reversed_header_line(reversed_header_line(line)) == line,
        !line.contains('\n') ==> !reversed_header_line(line).contains('\n'),
        reversible_header(without_return(line)),
{
    let (a, b) = choose|a: Seq<char>, b: Seq<char>|
        without_return(line) == #[trigger] header_line(a, b) && has_no_white(a) && has_no_white(b);
    header_line_turns(a, b);
    header_line_turns(b, a);
    let turned = reversed_header_line(line);
    let plain = header_line(b, a);
    reveal_strlit("@@ ");
    if line.len() > 0 && line.last() == '\r' {
        assert(turned == plain + seq!['\r']);
        assert(turned.drop_last() =~= plain);
        assert(without_return(turned) == plain);
        assert(turned.take(3) =~= plain.take(3));
        assert(header_line(a, b) + seq!['\r'] =~= line);
        if turned.contains('\n') {
            let i = choose|i: int| 0 <= i < turned.len() && turned[i] == '\n';
            assert(plain[i] == '\n');
        }
    } else {
        assert(turned =~= plain);
        assert(reversed_header_line(turned) =~= line);
    }
}

/// The lines of a block that remove something, with their marks.
spec fn removed_part(block: Seq<Seq<char>>) -> Seq<Seq<char>>
    decreases block.len(),
{
    if block.len() == 0 {
        Seq::empty()
    } else {
        let front = removed_part(block.drop_last());
        if adds_last(block) {
            front
        } else {
            front.push(block.last())
        }
    }
}

/// The lines of a block that add something, with their marks.
spec fn added_part(block: Seq<Seq<char>>) -> Seq<Seq<char>>
    decreases block.len(),
{
    if block.len() == 0 {
        Seq::empty()
    } else {
        let front = added_part(block.drop_last());
        if adds_last(block) {
            front.push(block.last())
        } else {
            front
        }
    }
}

/// Whether lines are changed lines and marks, and begin with a changed line.
spec fn is_block(lines: Seq<Seq<char>>) -> bool {
    &&& lines.len() > 0 ==> is_change(lines[0])
    &&& forall|i: int| 0 <= i < lines.len() ==> is_change(#[trigger] lines[i]) || is_mark(lines[i])
}

/// A changed line with the other sign, and back.
proof fn sign_turns(line: Seq<char>)
    requires
        is_change(line),
    ensures
        line.len() > 0,
        begins_with(line, "-"@) != begins_with(line, "+"@),
        is_change("-"@ + line.skip(1)),
        is_change("+"@ + line.skip(1)),
        begins_with("-"@ + line.skip(1), "-"@),
        begins_with("+"@ + line.skip(1), "+"@),
        !begins_with("-"@ + line.skip(1), "+"@),
        !begins_with("+"@ + line.skip(1), "-"@),
        begins_with(line, "-"@) ==> "-"@ + ("+"@ + line.skip(1)).skip(1) == line,
        begins_with(line, "+"@) ==> "+"@ + ("-"@ + line.skip(1)).skip(1) == line,
        !begins_with(line, "@@ "@),
        !begins_with("-"@ + line.skip(1), "@@ "@),
        !begins_with("+"@ + line.skip(1), "@@ "@),
        !line.contains('\n') ==> !("-"@ + line.skip(1)).contains('\n') && !("+"@ + line.skip(
            1,
        )).contains('\n'),
{
    reveal_strlit("-");
    reveal_strlit("+");
    reveal_strlit("@@ ");
    let minus = "-"@ + line.skip(1);
    let plus = "+"@ + line.skip(1);
    assert(line.take(1)[0] == line[0]);
    assert(minus.take(1) =~= "-"@);
    assert(plus.take(1) =~= "+"@);
    assert("-"@[0] == '-' && "+"@[0] == '+');
    assert(minus.take(1)[0] == '-');
    assert(plus.take(1)[0] == '+');
    if begins_with(line, "@@ "@) {
        assert(line.take(3)[0] == line[0]);
    }
    if begins_with(minus, "@@ "@) {
        assert(minus.take(3)[0] == minus[0]);
    }
    if begins_with(plus, "@@ "@) {
        assert(plus.take(3)[0] == plus[0]);
    }
    assert(plus.skip(1) =~= line.skip(1));
    assert(minus.skip(1) =~= line.skip(1));
    if begins_with(line, "-"@) {
        assert("-"@ + line.skip(1) =~= line);
    }
    if begins_with(line, "+"@) {
        assert("+"@ + line.skip(1) =~= line);
    }
    if minus.contains('\n') {
        let i = choose|i: int| 0 <= i < minus.len() && minus[i] == '\n';
        assert(line[i] == '\n');
    }
    if plus.contains('\n') {
        let i = choose|i: int| 0 <= i < plus.len() && plus[i] == '\n';
        assert(line[i] == '\n');
    }
}

/// What the two halves of a reversed block are, and what they are reversed
/// again.
proof fn halves_turn(block: Seq<Seq<char>>)
    requires
        is_block(block),
    ensures
        is_block(now_removed(block)),
        is_block(now_added(block)),
        now_removed(block).len() + now_added(block).len() == block.len(),
        now_removed(block).len() > 0 ==> !adds_last(now_removed(block)),
        now_added(block).len() > 0 ==> adds_last(now_added(block)),
        forall|i: int|
            0 <= i < now_removed(block).len() ==> !begins_with(
                #[trigger] now_removed(block)[i],
                "+"@,
            ),
        forall|i: int|
            0 <= i < now_added(block).len() ==> !begins_with(#[trigger] now_added(block)[i], "-"@),
        now_removed(now_removed(block)) == Seq::<Seq<char>>::empty(),
        now_added(now_added(block)) == Seq::<Seq<char>>::empty(),
        now_removed(now_added(block)) == removed_part(block),
        now_added(now_removed(block)) == added_part(block),
        unbroken(block) ==> unbroken(now_removed(block)) && unbroken(now_added(block)),
    decreases block.len(),
{
    let removed = now_removed(block);
    let added = now_added(block);
    if block.len() > 0 {
        let front = block.drop_last();
        let line = block.last();
        assert(line == block[block.len() - 1]);
        assert(is_block(front)) by {
            if front.len() > 0 {
                assert(front[0] == block[0]);
            }
            assert forall|i: int| 0 <= i < front.len() implies is_change(#[trigger] front[i])
                || is_mark(front[i]) by {
                assert(front[i] == block[i]);
            }
        }
        if unbroken(block) {
            assert forall|i: int| 0 <= i < front.len() implies !(#[trigger] front[i]).contains(
                '\n',
            ) by {
                assert(front[i] == block[i]);
            }
        }
        halves_turn(front);
        let old_removed = now_removed(front);
        let old_added = now_added(front);
        if is_change(line) {
            sign_turns(line);
        } else {
            mark_has_no_sign(line);
            assert(front.len() > 0);
            last_has_half(front);
        }
        if adds_last(block) {
            let turned = if is_change(line) {
                "-"@ + line.skip(1)
            } else {
                line
            };
            assert(removed == old_removed.push(turned));
            assert(removed.drop_last() =~= old_removed);
            assert(removed.last() == turned);
            assert(added == old_added);
            if old_removed.len() > 0 {
                assert(removed[0] == old_removed[0]);
            }
        } else {
            let turned = if is_change(line) {
                "+"@ + line.skip(1)
            } else {
                line
            };
            assert(added == old_added.push(turned));
            assert(added.drop_last() =~= old_added);
            assert(added.last() == turned);
            assert(removed == old_removed);
            if old_added.len() > 0 {
                assert(added[0] == old_added[0]);
            }
        }
    }
    assert(now_removed(removed) =~= Seq::<Seq<char>>::empty());
    assert(now_added(added) =~= Seq::<Seq<char>>::empty());
    assert(now_removed(added) =~= removed_part(block));
    assert(now_added(removed) =~= added_part(block));
}

/// A mark has no sign.
proof fn mark_has_no_sign(line: Seq<char>)
    requires
        is_mark(line),
    ensures
        !is_change(line),
        !begins_with(line, "@@ "@),
        !begins_with(line, "-"@),
        !begins_with(line, "+"@),
        line.len() > 0,
{
    reveal_strlit("-");
    reveal_strlit("+");
    reveal_strlit("@@ ");
    reveal_strlit("\\ No newline at end of file");
    assert(line.take(NO_LINE_FEED@.len() as int)[0] == line[0]);
    assert(NO_LINE_FEED@[0] == '\\');
    assert(line.take(1)[0] == line[0]);
    if begins_with(line, "@@ "@) {
        assert(line.take(3)[0] == line[0]);
    }
}

/// The half of a reversed block that its last line is in is not empty.
proof fn last_has_half(block: Seq<Seq<char>>)
    requires
        is_block(block),
        block.len() > 0,
    ensures
        adds_last(block) ==> now_removed(block).len() > 0,
        !adds_last(block) ==> now_added(block).len() > 0,
{
}

/// A block that only removes has no added part.
proof fn only_removes(block: Seq<Seq<char>>)
    requires
        is_block(block),
        forall|i: int| 0 <= i < block.len() ==> !begins_with(#[trigger] block[i], "+"@),
    ensures
        added_part(block) == Seq::<Seq<char>>::empty(),
        !adds_last(block),
    decreases block.len(),
{
    if block.len() > 0 {
        let front = block.drop_last();
        assert(block.last() == block[block.len() - 1]);
        assert(front.len() > 0 ==> front[0] == block[0]);
        assert forall|i: int| 0 <= i < front.len() implies !begins_with(
            #[trigger] front[i],
            "+"@,
        ) && (is_change(front[i]) || is_mark(front[i])) by {
            assert(front[i] == block[i]);
        }
        only_removes(front);
    }
}

/// A block whose last changed line removes something, and that removes first,
/// only removes.
proof fn no_addition_before(block: Seq<Seq<char>>, at: int)
    requires
        is_block(block),
        removes_first(block),
        !adds_last(block),
        0 <= at < block.len(),
    ensures
        !begins_with(block[at], "+"@),
    decreases block.len(),
{
    let front = block.drop_last();
    let line = block.last();
    assert(line == block[block.len() - 1]);
    if is_change(line) {
        sign_turns(line);
        if at < block.len() - 1 && begins_with(block[at], "+"@) {
            assert(!begins_with(block[block.len() - 1], "-"@));
        }
    } else {
        mark_has_no_sign(line);
        if at < front.len() {
            assert(front[0] == block[0]);
            assert forall|i: int| 0 <= i < front.len() implies is_change(#[trigger] front[i])
                || is_mark(front[i]) by {
                assert(front[i] == block[i]);
            }
            assert forall|i: int, j: int|
                0 <= i < j < front.len() && begins_with(
                    #[trigger] front[i],
                    "+"@,
                ) implies !begins_with(#[trigger] front[j], "-"@) by {
                assert(front[i] == block[i]);
                assert(front[j] == block[j]);
            }
            no_addition_before(front, at);
            assert(front[at] == block[at]);
        }
    }
}

/// A block that removes first is what it removes and then what it adds.
proof fn parts_make_block(block: Seq<Seq<char>>)
    requires
        is_block(block),
        removes_first(block),
    ensures
        removed_part(block) + added_part(block) == block,
    decreases block.len(),
{
    let both = removed_part(block) + added_part(block);
    if block.len() == 0 {
        assert(both =~= block);
    } else {
        let front = block.drop_last();
        assert(front.len() > 0 ==> front[0] == block[0]);
        assert forall|i: int| 0 <= i < front.len() implies is_change(#[trigger] front[i])
            || is_mark(front[i]) by {
            assert(front[i] == block[i]);
        }
        assert forall|i: int, j: int|
            0 <= i < j < front.len() && begins_with(
                #[trigger] front[i],
                "+"@,
            ) implies !begins_with(#[trigger] front[j], "-"@) by {
            assert(front[i] == block[i]);
            assert(front[j] == block[j]);
        }
        parts_make_block(front);
        if !adds_last(block) {
            assert forall|i: int| 0 <= i < front.len() implies !begins_with(
                #[trigger] front[i],
                "+"@,
            ) by {
                no_addition_before(block, i);
                assert(front[i] == block[i]);
            }
            only_removes(front);
        }
        assert(both =~= front.push(block.last()));
        assert(front.push(block.last()) =~= block);
    }
}

/// The changed lines and marks with which lines begin.
proof fn counted_lines(lines: Seq<Seq<char>>)
    ensures
        ({
            let n = change_count(lines);
            &&& 0 <= n <= lines.len()
            &&& forall|i: int|
                0 <= i < n ==> is_change(#[trigger] lines[i]) || is_mark(lines[i])
            &&& n < lines.len() ==> !(is_change(lines[n]) || is_mark(lines[n]))
        }),
    decreases lines.len(),
{
    if lines.len() > 0 && (is_change(lines[0]) || is_mark(lines[0])) {
        let rest = lines.drop_first();
        counted_lines(rest);
        let n = change_count(lines);
        assert forall|i: int| 0 <= i < n implies is_change(#[trigger] lines[i]) || is_mark(
            lines[i],
        ) by {
            if i > 0 {
                assert(rest[i - 1] == lines[i]);
            }
        }
        if n < lines.len() {
            assert(rest[n - 1] == lines[n]);
        }
    }
}

/// Lines behind others have plain headers too.
proof fn rest_keeps_headers(lines: Seq<Seq<char>>, at: int)
    requires
        has_plain_headers(lines),
        0 <= at <= lines.len(),
    ensures
        has_plain_headers(lines.skip(at)),
{
    let rest = lines.skip(at);
    assert forall|i: int|
        0 <= i < rest.len() && begins_with(#[trigger] rest[i], "@@ "@) implies is_plain_header(
        rest[i],
    ) by {
        assert(rest[i] == lines[i + at]);
    }
}

/// Lines in front of others whose headers are plain.
proof fn headers_of_sum(first: Seq<Seq<char>>, second: Seq<Seq<char>>)
    requires
        has_plain_headers(first),
        has_plain_headers(second),
    ensures
        has_plain_headers(first + second),
{
    let both = first + second;
    assert forall|i: int|
        0 <= i < both.len() && begins_with(#[trigger] both[i], "@@ "@) implies is_plain_header(
        both[i],
    ) by {
        if i < first.len() {
            assert(both[i] == first[i]);
        } else {
            assert(both[i] == second[i - first.len()]);
        }
    }
}

/// What reversing the lines of hunks keeps: the number of lines, plain headers,
/// whether a block comes first, and whether the last line is empty. Afterwards
/// all blocks remove lines before they add others.
spec fn keeps_shape(lines: Seq<Seq<char>>, reversed: Seq<Seq<char>>) -> bool {
    &&& reversed.len() == lines.len()
    &&& has_plain_headers(reversed)
    &&& all_remove_first(reversed)
    &&& unbroken(lines) ==> unbroken(reversed)
    &&& lines.len() > 0 ==> ((is_change(lines[0]) || is_mark(lines[0])) == (is_change(reversed[0])
        || is_mark(reversed[0])))
    &&& lines.len() > 0 && lines.last().len() > 0 ==> reversed.last().len() > 0
    &&& all_remove_first(lines) ==> reversed_hunks(reversed) == lines
}

/// The lines of hunks, reversed, keep their shape, and reversed again they are
/// what they were, if their blocks removed lines before they added others.
proof fn reversed_keep_shape(lines: Seq<Seq<char>>)
    requires
        has_plain_headers(lines),
    ensures
        keeps_shape(lines, reversed_hunks(lines)),
    decreases lines.len(),
{
    if lines.len() == 0 {
        assert(reversed_hunks(reversed_hunks(lines)) =~= lines);
    } else if !begins_with(lines[0], "@@ "@) && is_change(lines[0]) {
        counted_lines(lines);
        change_count_bounds(lines);
        let n = change_count(lines);
        let block = lines.take(n);
        rest_keeps_headers(lines, n);
        reversed_keep_shape(lines.skip(n));
        assert(block[0] == lines[0]);
        assert forall|i: int| 0 <= i < block.len() implies is_change(#[trigger] block[i])
            || is_mark(block[i]) by {
            assert(block[i] == lines[i]);
        }
        assert(n < lines.len() ==> lines.skip(n)[0] == lines[n]);
        block_in_front(block, lines.skip(n));
        assert(block + lines.skip(n) =~= lines);
    } else {
        let rest = lines.drop_first();
        rest_keeps_headers(lines, 1);
        assert(rest =~= lines.skip(1));
        reversed_keep_shape(rest);
        line_in_front(lines[0], rest);
        assert(seq![lines[0]] + rest =~= lines);
    }
}

/// `reversed_keep_shape` for a line that is no change.
proof fn line_in_front(line: Seq<char>, rest: Seq<Seq<char>>)
    requires
        begins_with(line, "@@ "@) || !is_change(line),
        begins_with(line, "@@ "@) ==> is_plain_header(line),
        keeps_shape(rest, reversed_hunks(rest)),
    ensures
        keeps_shape(seq![line] + rest, reversed_hunks(seq![line] + rest)),
{
    let lines = seq![line] + rest;
    let behind = reversed_hunks(rest);
    let turned = if begins_with(line, "@@ "@) {
        reversed_header_line(line)
    } else {
        line
    };
    let one = seq![turned];
    let reversed = one + behind;
    assert(lines.drop_first() =~= rest);
    assert(reversed.drop_first() =~= behind);
    assert(lines[0] == line);
    assert(reversed[0] == turned);
    if begins_with(line, "@@ "@) {
        plain_header_turns(line);
        header_is_no_change(line);
        header_is_no_change(turned);
        reveal_strlit("@@ ");
    }
    assert(reversed_hunks(lines) == reversed);
    headers_of_sum(one, behind);
    if unbroken(lines) {
        assert(!lines[0].contains('\n'));
        rest_is_unbroken(lines, 1);
        assert(lines.skip(1) =~= rest);
        unbroken_of_sum(one, behind);
    }
    if rest.len() > 0 {
        assert(rest.last() == lines.last());
        assert(reversed.last() == behind.last());
    }
    if all_remove_first(lines) {
        assert(reversed_hunks(reversed) =~= lines);
    }
}

/// `reversed_keep_shape` for a block of changes.
proof fn block_in_front(block: Seq<Seq<char>>, rest: Seq<Seq<char>>)
    requires
        is_block(block),
        block.len() > 0,
        !begins_with(block[0], "@@ "@),
        rest.len() == 0 || !(is_change(rest[0]) || is_mark(rest[0])),
        keeps_shape(rest, reversed_hunks(rest)),
    ensures
        keeps_shape(block + rest, reversed_hunks(block + rest)),
{
    let lines = block + rest;
    let n = block.len() as int;
    let behind = reversed_hunks(rest);
    let both = now_removed(block) + now_added(block);
    let reversed = both + behind;
    reversed_block(block);
    lines_are_counted(block, rest);
    assert(lines.take(n) =~= block);
    assert(lines.skip(n) =~= rest);
    assert(lines[0] == block[0]);
    assert(reversed_hunks(lines) == reversed);
    lines_are_counted(both, behind);
    assert(reversed.take(n) =~= both);
    assert(reversed.skip(n) =~= behind);
    assert(reversed[0] == both[0]);
    headers_of_sum(both, behind);
    assert(all_remove_first(reversed));
    if unbroken(lines) {
        rest_is_unbroken(lines, n);
        front_is_unbroken(lines, n);
        unbroken_of_sum(both, behind);
    }
    if rest.len() > 0 {
        assert(rest.last() == lines.last());
        assert(reversed.last() == behind.last());
    } else {
        assert(reversed.last() == both[both.len() - 1]);
    }
    if all_remove_first(lines) {
        assert(removes_first(block) && all_remove_first(rest));
        assert(reversed_hunks(reversed) == now_removed(both) + now_added(both) + reversed_hunks(
            behind,
        ));
        assert(reversed_hunks(reversed) =~= lines);
    }
}

/// Lines in front of others hold no line feed either.
proof fn front_is_unbroken(lines: Seq<Seq<char>>, at: int)
    requires
        unbroken(lines),
        0 <= at <= lines.len(),
    ensures
        unbroken(lines.take(at)),
{
    let front = lines.take(at);
    assert forall|i: int| 0 <= i < front.len() implies !(#[trigger] front[i]).contains('\n') by {
        assert(front[i] == lines[i]);
    }
}

/// A block of changes, reversed, and reversed again.
proof fn reversed_block(block: Seq<Seq<char>>)
    requires
        is_block(block),
        block.len() > 0,
    ensures
        ({
            let both = now_removed(block) + now_added(block);
            &&& both.len() == block.len()
            &&& forall|i: int|
                0 <= i < both.len() ==> (is_change(#[trigger] both[i]) || is_mark(both[i]))
                    && both[i].len() > 0
            &&& is_change(both[0])
            &&& !begins_with(both[0], "@@ "@)
            &&& has_plain_headers(both)
            &&& removes_first(both)
            &&& unbroken(block) ==> unbroken(both)
            &&& removes_first(block) ==> now_removed(both) + now_added(both) == block
        }),
{
    halves_turn(block);
    let removed = now_removed(block);
    let added = now_added(block);
    let both = removed + added;
    assert forall|i: int| 0 <= i < both.len() implies (is_change(#[trigger] both[i]) || is_mark(
        both[i],
    )) && !begins_with(both[i], "@@ "@) && both[i].len() > 0 by {
        if i < removed.len() {
            assert(both[i] == removed[i]);
        } else {
            assert(both[i] == added[i - removed.len()]);
        }
        if is_change(both[i]) {
            sign_turns(both[i]);
        } else {
            mark_has_no_sign(both[i]);
        }
    }
    if removed.len() > 0 {
        assert(both[0] == removed[0]);
    } else {
        assert(both[0] == added[0]);
    }
    assert forall|i: int, j: int|
        0 <= i < j < both.len() && begins_with(#[trigger] both[i], "+"@) implies !begins_with(
        #[trigger] both[j],
        "-"@,
    ) by {
        if i < removed.len() {
            assert(both[i] == removed[i]);
        }
        assert(both[j] == added[j - removed.len()]);
    }
    if unbroken(block) {
        unbroken_of_sum(removed, added);
    }
    if removes_first(block) {
        if added.len() > 0 {
            reversed_of_sum(removed, added);
        } else {
            assert(both =~= removed);
        }
        parts_make_block(block);
        assert(now_removed(both) + now_added(both) =~= block);
    }
}

/// Lines without line feeds in front of others.
proof fn unbroken_of_sum(first: Seq<Seq<char>>, second: Seq<Seq<char>>)
    requires
        unbroken(first),
        unbroken(second),
    ensures
        unbroken(first + second),
{
    let both = first + second;
    assert forall|i: int| 0 <= i < both.len() implies !(#[trigger] both[i]).contains('\n') by {
        if i < first.len() {
            assert(both[i] == first[i]);
        } else {
            assert(both[i] == second[i - first.len()]);
        }
    }
}

/// A line in front of a text is its first line.
proof fn first_feed_line(line: Seq<char>, rest: Seq<char>)
    requires
        !line.contains('\n'),
    ensures
        feed_lines(line + "\n"@ + rest) == seq![line] + feed_lines(rest),
{
    reveal_strlit("\n");
    let text = line + "\n"@ + rest;
    first_index_is_first(text, '\n');
    let at = first_index(text, '\n');
    assert(text[line.len() as int] == '\n');
    if at < line.len() {
        assert(text[at] == line[at]);
        assert(line.contains('\n'));
    }
    let first = line + "\n"@;
    assert(text.take(at + 1) =~= first);
    assert(text.skip(at + 1) =~= rest);
    assert(first.drop_last() =~= line);
    assert(whole_lines(text) == seq![first] + whole_lines(rest));
    assert(feed_lines(text) =~= seq![line] + feed_lines(rest));
}

/// Lines in front of a text that holds no line feed are read back.
proof fn lines_before_text(lines: Seq<Seq<char>>, text: Seq<char>)
    requires
        unbroken(lines),
        text.len() > 0,
        !text.contains('\n'),
    ensures
        feed_lines(terminated(lines) + text) == lines.push(text),
    decreases lines.len(),
{
    if lines.len() == 0 {
        assert(terminated(lines) + text =~= text);
        first_index_is_first(text, '\n');
        let at = first_index(text, '\n');
        if at < text.len() {
            assert(text.contains('\n'));
        }
        assert(whole_lines(text) =~= seq![text]);
        if has_feed(text) {
            assert(text.contains(text[text.len() - 1]));
        }
        assert(feed_lines(terminated(lines) + text) =~= lines.push(text));
    } else {
        let rest = lines.drop_first();
        assert forall|i: int| 0 <= i < rest.len() implies !(#[trigger] rest[i]).contains(
            '\n',
        ) by {
            assert(rest[i] == lines[i + 1]);
        }
        lines_before_text(rest, text);
        first_feed_line(lines[0], terminated(rest) + text);
        assert(terminated(lines) + text =~= lines[0] + "\n"@ + (terminated(rest) + text));
        assert(seq![lines[0]] + rest.push(text) =~= lines.push(text));
    }
}

/// The text of lines, with a line feed at its end or without.
spec fn text_of_lines(lines: Seq<Seq<char>>, feed: bool) -> Seq<char> {
    joined(lines, "\n"@) + if feed {
        "\n"@
    } else {
        Seq::empty()
    }
}

/// The lines of a text are read back, and so is whether it ends in a line feed.
proof fn text_reads_as_lines(lines: Seq<Seq<char>>, feed: bool)
    requires
        lines.len() > 0,
        unbroken(lines),
        feed || lines.last().len() > 0,
    ensures
        feed_lines(text_of_lines(lines, feed)) == lines,
        text_of_lines(lines, feed).len() > 0,
        (text_of_lines(lines, feed).last() == '\n') == feed,
{
    let text = text_of_lines(lines, feed);
    reveal_strlit("\n");
    joined_lines(lines);
    if feed {
        lines_are_read_back(lines);
    } else {
        let front = lines.drop_last();
        let last = lines.last();
        assert(lines =~= front.push(last));
        assert(last == lines[lines.len() - 1]);
        terminated_push(front, last);
        let whole = terminated(lines);
        assert(text =~= joined(lines, "\n"@));
        assert(text =~= whole.drop_last());
        assert(text =~= terminated(front) + last);
        assert forall|i: int| 0 <= i < front.len() implies !(#[trigger] front[i]).contains(
            '\n',
        ) by {
            assert(front[i] == lines[i]);
        }
        lines_before_text(front, last);
        assert(text.last() == last[last.len() - 1]);
        if text.last() == '\n' {
            assert(last.contains('\n'));
        }
    }
}

/// Lines one after the other, from the first on.
proof fn joined_from_first(line: Seq<char>, rest: Seq<Seq<char>>)
    requires
        rest.len() > 0,
    ensures
        joined(seq![line] + rest, "\n"@) == line + "\n"@ + joined(rest, "\n"@),
    decreases rest.len(),
{
    let all = seq![line] + rest;
    if rest.len() == 1 {
        assert(all.drop_last() =~= seq![line]);
        assert(all.last() == rest[0]);
        assert(joined(seq![line], "\n"@) == line);
        assert(joined(all, "\n"@) =~= line + "\n"@ + joined(rest, "\n"@));
    } else {
        assert(all.drop_last() =~= seq![line] + rest.drop_last());
        assert(all.last() == rest.last());
        joined_from_first(line, rest.drop_last());
        assert(joined(all, "\n"@) =~= line + "\n"@ + joined(rest, "\n"@));
    }
}

/// A text is its lines, with a line feed at its end or without.
proof fn lines_make_text(text: Seq<char>)
    requires
        text.len() > 0,
    ensures
        feed_lines(text).len() > 0,
        unbroken(feed_lines(text)),
        text_of_lines(feed_lines(text), text.last() == '\n') == text,
        text.last() == '\n' || feed_lines(text).last().len() > 0,
    decreases text.len(),
{
    reveal_strlit("\n");
    first_index_is_first(text, '\n');
    let at = first_index(text, '\n');
    let lines = feed_lines(text);
    if at >= text.len() {
        assert(whole_lines(text) =~= seq![text]);
        assert(lines =~= seq![text]);
        assert(!text.contains('\n')) by {
            if text.contains('\n') {
                let i = choose|i: int| 0 <= i < text.len() && text[i] == '\n';
                assert(text[i] != '\n');
            }
        }
        assert(text.last() != '\n');
        assert(text_of_lines(lines, false) =~= text);
    } else {
        let first = text.take(at);
        let rest = text.skip(at + 1);
        assert(text =~= first + "\n"@ + rest);
        assert(!first.contains('\n')) by {
            if first.contains('\n') {
                let i = choose|i: int| 0 <= i < first.len() && first[i] == '\n';
                assert(text[i] != '\n');
            }
        }
        first_feed_line(first, rest);
        let behind = feed_lines(rest);
        assert(lines == seq![first] + behind);
        if rest.len() == 0 {
            assert(whole_lines(rest) =~= Seq::<Seq<char>>::empty());
            assert(behind =~= Seq::<Seq<char>>::empty());
            assert(lines =~= seq![first]);
            assert(text_of_lines(lines, true) =~= text);
        } else {
            lines_make_text(rest);
            assert(rest.last() == text.last());
            joined_from_first(first, behind);
            unbroken_of_sum(seq![first], behind);
            assert(lines.last() == behind.last());
            assert(text_of_lines(lines, text.last() == '\n') =~= text);
        }
    }
}

/// The lines of a unified diff, reversed, and reversed again.
proof fn reversed_diff_lines(patch: Seq<char>)
    requires
        is_unified_diff(patch),
    ensures
        ({
            let lines = feed_lines(patch);
            let reversed = reversed_lines(lines);
            &&& patch.len() > 0
            &&& is_unified_diff(reversed_patch(patch))
            &&& feed_lines(reversed_patch(patch)) == reversed
            &&& (reversed_patch(patch).last() == '\n') == (patch.last() == '\n')
            &&& reversed_patch(patch).len() > 0
            &&& all_remove_first(reversed.skip(2))
            &&& all_remove_first(lines.skip(2)) ==> reversed_lines(reversed) == lines
        }),
{
    let lines = feed_lines(patch);
    let body = lines.skip(2);
    let reversed = reversed_lines(lines);
    if patch.len() == 0 {
        assert(whole_lines(patch).len() == 0);
    }
    lines_make_text(patch);
    assert(original_index(lines) == 0);
    reversed_keep_shape(body);
    reveal_strlit("--- ");
    reveal_strlit("+++ ");
    let old_name = "--- "@ + lines[1].skip(4);
    let new_name = "+++ "@ + lines[0].skip(4);
    let names = seq![old_name, new_name];
    assert(lines.take(0) =~= Seq::<Seq<char>>::empty());
    assert(reversed =~= names + reversed_hunks(body));
    assert(reversed.skip(2) =~= reversed_hunks(body));
    assert(old_name.take(4) =~= "--- "@);
    assert(new_name.take(4) =~= "+++ "@);
    assert(unbroken(names)) by {
        assert(!lines[0].contains('\n') && !lines[1].contains('\n'));
        if old_name.contains('\n') {
            let i = choose|i: int| 0 <= i < old_name.len() && old_name[i] == '\n';
            assert(lines[1][i] == '\n');
        }
        if new_name.contains('\n') {
            let i = choose|i: int| 0 <= i < new_name.len() && new_name[i] == '\n';
            assert(lines[0][i] == '\n');
        }
    }
    rest_is_unbroken(lines, 2);
    unbroken_of_sum(names, reversed_hunks(body));
    if body.len() > 0 {
        assert(body.last() == lines.last());
        assert(reversed.last() == reversed_hunks(body).last());
    } else {
        assert(reversed.last() == new_name);
    }
    let feed = patch.last() == '\n';
    assert(reversed_patch(patch) == text_of_lines(reversed, feed));
    text_reads_as_lines(reversed, feed);
    assert(reversed[0] == old_name && reversed[1] == new_name);
    if all_remove_first(body) {
        assert(original_index(reversed) == 0);
        assert(reversed.take(0) =~= Seq::<Seq<char>>::empty());
        assert(new_name.skip(4) =~= lines[0].skip(4));
        assert(old_name.skip(4) =~= lines[1].skip(4));
        assert("--- "@ + lines[0].skip(4) =~= lines[0]) by {
            assert(lines[0].take(4) + lines[0].skip(4) =~= lines[0]);
        }
        assert("+++ "@ + lines[1].skip(4) =~= lines[1]) by {
            assert(lines[1].take(4) + lines[1].skip(4) =~= lines[1]);
        }
        assert(reversed_lines(reversed) =~= seq![lines[0], lines[1]] + body);
        assert(seq![lines[0], lines[1]] + body =~= lines);
    }
}

/// Lines behind others hold no line feed either.
proof fn rest_is_unbroken(lines: Seq<Seq<char>>, at: int)
    requires
        unbroken(lines),
        0 <= at <= lines.len(),
    ensures
        unbroken(lines.skip(at)),
{
    let rest = lines.skip(at);
    assert forall|i: int| 0 <= i < rest.len() implies !(#[trigger] rest[i]).contains('\n') by {
        assert(rest[i] == lines[i + at]);
    }
}

/// Reversing a unified diff twice gives it back, with or without a line feed at
/// its end, if its blocks of changes remove lines before they add others. A mark
/// of a missing line feed belongs to the block of the line before it.
pub proof fn reversing_twice_gives_back(patch: Seq<char>)
    requires
        is_unified_diff(patch),
        all_remove_first(feed_lines(patch).skip(2)),
    ensures
        reversed_patch(reversed_patch(patch)) == patch,
{
    reversed_diff_lines(patch);
    lines_make_text(patch);
}

/// Reversing a reversed unified diff twice gives it back.
pub proof fn reversed_diff_reverses_twice(patch: Seq<char>)
    requires
        is_unified_diff(patch),
    ensures
        ({
            let reversed = reversed_patch(patch);
            reversed_patch(reversed_patch(reversed)) == reversed
        }),
{
    reversed_diff_lines(patch);
    reversing_twice_gives_back(reversed_patch(patch));
}

/// The headers of a unified diff can be reversed.
pub proof fn unified_diffs_are_reversible(patch: Seq<char>)
    requires
        is_unified_diff(patch),
    ensures
        reversible_headers(feed_lines(patch)),
{
    let lines = feed_lines(patch);
    reveal_strlit("--- ");
    reveal_strlit("+++ ");
    reveal_strlit("@@ ");
    assert forall|i: int|
        0 <= i < lines.len() && begins_with(#[trigger] lines[i], "@@ "@) implies reversible_header(
        without_return(lines[i]),
    ) by {
        assert(lines[i].take(3)[0] == lines[i][0]);
        if i < 2 {
            assert(lines[i].take(4)[0] == lines[i][0]);
        } else {
            assert(lines.skip(2)[i - 2] == lines[i]);
            plain_header_turns(lines[i]);
        }
    }
}

/// The names of the two sides need no quotes.
pub proof fn names_are_plain()
    ensures
        plain_name("original"@),
        plain_name("modified"@),
{
    reveal_strlit("original");
    reveal_strlit("modified");
}

/// Hunks that lead from one text to another give it when they are applied in
/// place.
pub proof fn described_text(hunks: Seq<DiffHunk>, original: Seq<char>, patched: Seq<char>)
    requires
        valid_hunks(hunks),
        describes(hunks, whole_lines(original), whole_lines(patched), 0, 0),
    ensures
        applied_in_place(whole_lines(original), 0, hunks) == Some(whole_lines(patched)),
        concatenated(whole_lines(patched)) == patched,
{
    let old = whole_lines(original);
    let new = whole_lines(patched);
    described_hunks_apply(hunks, old, new, 0, 0);
    assert(new.take(0) + old.skip(0) =~= old);
    lines_give_text_back(patched);
}

/// What the reversal of a diff makes of the text that the diff leads to.
pub proof fn undone(diff: Seq<char>, original: Seq<char>, patched: Seq<char>)
    requires
        leads(diff, original, patched),
    ensures
        exists|turned: Seq<DiffHunk>|
            reversed_patch(diff) == #[trigger] printed_patch("modified"@, "original"@, turned)
                && valid_hunks(turned) && applied_in_place(whole_lines(patched), 0, turned) == Some(
                whole_lines(original),
            ) && concatenated(whole_lines(original)) == original,
{
    let hunks = choose|hunks: Seq<DiffHunk>|
        diff == #[trigger] printed_patch("original"@, "modified"@, hunks) && valid_hunks(hunks)
            && describes(hunks, whole_lines(original), whole_lines(patched), 0, 0);
    reversed_diff_leads_back(hunks, original, patched);
    let turned = choose|turned: Seq<DiffHunk>|
        reversed_patch(printed_patch("original"@, "modified"@, hunks)) == #[trigger] printed_patch(
            "modified"@,
            "original"@,
            turned,
        ) && valid_hunks(turned) && describes(
            turned,
            whole_lines(patched),
            whole_lines(original),
            0,
            0,
        );
    described_text(turned, patched, original);
}

// ---------------------------------------------------------------------------
// Headers that can be reversed
// ---------------------------------------------------------------------------

/// The end of a printed range can be counted.
proof fn printed_end_fits(range: DiffRange, count: nat)
    requires
        range_fits(range, count),
    ensures
        end_fits(range_text(range)),
{
    let text = range_text(range);
    let start = decimal(range.start);
    let len = decimal(range.len);
    crate::save_laws::decimal_has_value(range.start);
    crate::save_laws::decimal_has_value(range.len);
    first_index_is_first(text, ',');
    let comma = first_index(text, ',');
    assert(is_digit(start[0]));
    assert(is_digit(len[0]));
    if range.len == 1 {
        if comma < text.len() {
            assert(is_digit(text[comma]));
        }
        assert(text.take(comma) =~= start);
    } else {
        assert(text[start.len() as int] == ',');
        if comma < start.len() {
            assert(is_digit(start[comma]));
        }
        assert(text.take(comma) =~= start);
        assert(text.skip(comma + 1) =~= len);
    }
}

/// The ends of the ranges in the header of a valid hunk can be counted.
proof fn header_ends_fit(hunk: DiffHunk)
    requires
        valid_hunk(hunk),
    ensures
        header_fits(header_text(hunk)),
{
    header_turns(hunk);
    printed_end_fits(hunk.old_range, old_lines(hunk.lines).len());
    printed_end_fits(hunk.new_range, new_lines(hunk.lines).len());
    assert((seq!['-'] + range_text(hunk.old_range)).skip(1) =~= range_text(hunk.old_range));
    assert((seq!['+'] + range_text(hunk.new_range)).skip(1) =~= range_text(hunk.new_range));
}

/// A printed line that begins like the header of a hunk is one.
proof fn headers_among(hunks: Seq<DiffHunk>)
    requires
        forall|i: int| 0 <= i < hunks.len() ==> valid_hunk(#[trigger] hunks[i]),
    ensures
        forall|i: int|
            0 <= i < hunk_texts(hunks).len() && begins_with(
                #[trigger] hunk_texts(hunks)[i],
                "@@ "@,
            ) ==> reversible_header(without_return(hunk_texts(hunks)[i])) && header_fits(
                hunk_texts(hunks)[i],
            ),
    decreases hunks.len(),
{
    if hunks.len() > 0 {
        let rest = hunks.drop_first();
        assert forall|i: int| 0 <= i < rest.len() implies valid_hunk(#[trigger] rest[i]) by {
            assert(rest[i] == hunks[i + 1]);
        }
        headers_among(rest);
        header_turns(hunks[0]);
        assert(valid_hunk(hunks[0]));
        header_ends_fit(hunks[0]);
        body_has_no_headers(hunks[0].lines);
        let all = hunk_texts(hunks);
        let body = body_texts(hunks[0].lines);
        assert forall|i: int|
            0 <= i < all.len() && begins_with(#[trigger] all[i], "@@ "@) implies reversible_header(
            without_return(all[i]),
        ) && header_fits(all[i]) by {
            if i == 0 {
                assert(all[0] == header_text(hunks[0]));
            } else if i <= body.len() {
                assert(all[i] == body[i - 1]);
            } else {
                assert(all[i] == hunk_texts(rest)[i - 1 - body.len()]);
            }
        }
    }
}

/// No printed line of a hunk begins like a header.
proof fn body_has_no_headers(lines: Seq<DiffLine>)
    ensures
        forall|i: int|
            0 <= i < body_texts(lines).len() ==> !begins_with(
                #[trigger] body_texts(lines)[i],
                "@@ "@,
            ),
    decreases lines.len(),
{
    if lines.len() > 0 {
        let rest = lines.drop_first();
        body_has_no_headers(rest);
        signs(lines[0]);
        marker_is_no_change();
        let all = body_texts(lines);
        let own = line_texts(lines[0]);
        assert forall|i: int| 0 <= i < all.len() implies !begins_with(
            #[trigger] all[i],
            "@@ "@,
        ) by {
            if i >= own.len() {
                assert(all[i] == body_texts(rest)[i - own.len()]);
            }
        }
    }
}

/// A printed diff is read back line by line.
proof fn patch_is_read_back(old_name: Seq<char>, new_name: Seq<char>, hunks: Seq<DiffHunk>)
    requires
        plain_name(old_name),
        plain_name(new_name),
        valid_hunks(hunks),
    ensures
        feed_lines(printed_patch(old_name, new_name, hunks)) == patch_lines(
            old_name,
            new_name,
            hunks,
        ),
        !begins_with("--- "@ + old_name, "@@ "@),
        !begins_with("+++ "@ + new_name, "@@ "@),
{
    let lines = patch_lines(old_name, new_name, hunks);
    let body = hunk_texts(hunks);
    names_are_unbroken(old_name, new_name);
    hunks_are_unbroken(hunks);
    assert forall|i: int| 0 <= i < lines.len() implies !(#[trigger] lines[i]).contains('\n') by {
        if i >= 2 {
            assert(lines[i] == body[i - 2]);
        }
    }
    lines_are_read_back(lines);
    reveal_strlit("--- ");
    reveal_strlit("+++ ");
    reveal_strlit("@@ ");
    assert(("--- "@ + old_name).take(3)[0] == '-');
    assert(("+++ "@ + new_name).take(3)[0] == '+');
}

/// The hunk headers of a printed diff can be reversed.
pub proof fn printed_headers_reverse(
    old_name: Seq<char>,
    new_name: Seq<char>,
    hunks: Seq<DiffHunk>,
)
    requires
        plain_name(old_name),
        plain_name(new_name),
        valid_hunks(hunks),
    ensures
        reversible_headers(feed_lines(printed_patch(old_name, new_name, hunks))),
{
    let lines = patch_lines(old_name, new_name, hunks);
    let body = hunk_texts(hunks);
    patch_is_read_back(old_name, new_name, hunks);
    headers_among(hunks);
    assert forall|i: int|
        0 <= i < lines.len() && begins_with(#[trigger] lines[i], "@@ "@) implies reversible_header(
        without_return(lines[i]),
    ) by {
        if i >= 2 {
            assert(lines[i] == body[i - 2]);
        }
    }
}

/// The ends of the ranges in a printed diff can be counted.
pub proof fn printed_ranges_fit(old_name: Seq<char>, new_name: Seq<char>, hunks: Seq<DiffHunk>)
    requires
        plain_name(old_name),
        plain_name(new_name),
        valid_hunks(hunks),
    ensures
        ends_fit(feed_lines(printed_patch(old_name, new_name, hunks))),
{
    let lines = patch_lines(old_name, new_name, hunks);
    let body = hunk_texts(hunks);
    patch_is_read_back(old_name, new_name, hunks);
    headers_among(hunks);
    assert forall|i: int, j: int|
        0 <= i < j < lines.len() && begins_with(#[trigger] lines[i], "@@ "@) && begins_with(
            #[trigger] lines[j],
            "@@ "@,
        ) implies header_fits(lines[i]) by {
        if i >= 2 {
            assert(lines[i] == body[i - 2]);
        }
    }
}

} // verus!
