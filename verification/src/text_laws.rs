//! What the pieces of texts are.
use vstd::prelude::*;

use crate::text::{
    bare_line, bare_lines, concatenated, decimal, first_index, first_index_is_first, is_digit,
    is_white, joined, lines_give_text_back, signed_value, split_on, trimmed, trimmed_end,
    trimmed_start, unsigned_value, whole_lines,
};

verus! {

/// Whether a text is white space.
pub open spec fn is_white_space(s: Seq<char>) -> bool {
    forall|i: int| 0 <= i < s.len() ==> is_white(#[trigger] s[i])
}

/// What is taken away in front is white space, and what is left begins with
/// something else.
proof fn start_is_trimmed(s: Seq<char>) -> (front: Seq<char>)
    ensures
        s == front + trimmed_start(s),
        is_white_space(front),
        trimmed_start(s).len() > 0 ==> !is_white(trimmed_start(s)[0]),
    decreases s.len(),
{
    if s.len() > 0 && is_white(s[0]) {
        let front = start_is_trimmed(s.drop_first());
        assert(s =~= seq![s[0]] + s.drop_first());
        assert(seq![s[0]] + (front + trimmed_start(s)) =~= seq![s[0]] + front + trimmed_start(s));
        seq![s[0]] + front
    } else {
        assert(s =~= Seq::<char>::empty() + s);
        Seq::empty()
    }
}

/// What is taken away at the end is white space, and what is left ends with
/// something else.
proof fn end_is_trimmed(s: Seq<char>) -> (back: Seq<char>)
    ensures
        s == trimmed_end(s) + back,
        is_white_space(back),
        trimmed_end(s).len() > 0 ==> !is_white(trimmed_end(s).last()),
    decreases s.len(),
{
    if s.len() > 0 && is_white(s.last()) {
        let back = end_is_trimmed(s.drop_last());
        assert(s =~= s.drop_last() + seq![s.last()]);
        assert(trimmed_end(s) + back + seq![s.last()] =~= trimmed_end(s) + (back + seq![s.last()]));
        back + seq![s.last()]
    } else {
        assert(s =~= s + Seq::<char>::empty());
        Seq::empty()
    }
}

/// Trimming takes white space away at both ends, all of it and nothing else.
pub proof fn trimming_takes_white_space(s: Seq<char>)
    ensures
        exists|front: Seq<char>, back: Seq<char>|
            #![trigger is_white_space(front), is_white_space(back)]
            s == front + trimmed(s) + back && is_white_space(front) && is_white_space(back),
        trimmed(s).len() > 0 ==> !is_white(trimmed(s)[0]) && !is_white(trimmed(s).last()),
{
    let front = start_is_trimmed(s);
    let start = trimmed_start(s);
    let back = end_is_trimmed(start);
    assert(s =~= front + trimmed(s) + back);
    assert(is_white_space(front) && is_white_space(back));
    if trimmed(s).len() > 0 {
        assert(trimmed(s)[0] == start[0]);
    }
}

/// Lines are what stands between line feeds: put together they give the text,
/// none is empty, each but the last ends with a line feed, and no line feed
/// stands anywhere else in one.
pub proof fn lines_end_with_line_feeds(s: Seq<char>)
    ensures
        concatenated(whole_lines(s)) == s,
        forall|i: int|
            0 <= i < whole_lines(s).len() ==> (#[trigger] whole_lines(s)[i]).len() > 0,
        forall|i: int|
            0 <= i < whole_lines(s).len() - 1 ==> (#[trigger] whole_lines(s)[i]).last() == '\n',
        forall|i: int|
            0 <= i < whole_lines(s).len() ==> !(#[trigger] whole_lines(s)[i]).drop_last().contains(
                '\n',
            ),
    decreases s.len(),
{
    lines_give_text_back(s);
    first_index_is_first(s, '\n');
    let at = first_index(s, '\n');
    let lines = whole_lines(s);
    if s.len() > 0 {
        if at >= s.len() {
            assert(lines =~= seq![s]);
            if s.drop_last().contains('\n') {
                let i = choose|i: int| 0 <= i < s.drop_last().len() && s.drop_last()[i] == '\n';
                assert(s[i] == '\n');
            }
        } else {
            let rest = whole_lines(s.skip(at + 1));
            let first = s.take(at + 1);
            lines_end_with_line_feeds(s.skip(at + 1));
            assert(lines =~= seq![first] + rest);
            if first.drop_last().contains('\n') {
                let i = choose|i: int|
                    0 <= i < first.drop_last().len() && first.drop_last()[i] == '\n';
                assert(s[i] == '\n');
            }
            assert forall|i: int| 0 <= i < lines.len() implies (#[trigger] lines[i]).len() > 0
                && !lines[i].drop_last().contains('\n') by {
                if i > 0 {
                    assert(lines[i] == rest[i - 1]);
                }
            }
            assert forall|i: int| 0 <= i < lines.len() - 1 implies (#[trigger] lines[i]).last()
                == '\n' by {
                if i > 0 {
                    assert(lines[i] == rest[i - 1]);
                }
            }
        }
    }
}

/// A line without its ending is the line up to its line feed, and up to a
/// carriage return before it.
pub proof fn line_endings_are_dropped(line: Seq<char>)
    requires
        !line.contains('\n'),
    ensures
        bare_line(line.push('\n')) == if line.len() > 0 && line.last() == '\r' {
            line.drop_last()
        } else {
            line
        },
        bare_line(line) == line,
{
    assert(line.push('\n').drop_last() =~= line);
    if line.len() > 0 && line.last() == '\n' {
        assert(line.contains(line[line.len() - 1]));
    }
}

/// The lines without their endings are those of the text, one for each.
pub proof fn lines_lose_their_endings(s: Seq<char>)
    ensures
        bare_lines(s).len() == whole_lines(s).len(),
        forall|i: int|
            0 <= i < whole_lines(s).len() ==> #[trigger] bare_lines(s)[i] == bare_line(
                whole_lines(s)[i],
            ),
{
}

/// Pieces between separators hold none, and joined with it they give the text.
pub proof fn pieces_give_text_back(s: Seq<char>, separator: char)
    ensures
        split_on(s, separator).len() > 0,
        joined(split_on(s, separator), seq![separator]) == s,
        forall|i: int|
            0 <= i < split_on(s, separator).len() ==> !(#[trigger] split_on(
                s,
                separator,
            )[i]).contains(separator),
    decreases s.len(),
{
    first_index_is_first(s, separator);
    let at = first_index(s, separator);
    let pieces = split_on(s, separator);
    if at >= s.len() {
        assert(pieces =~= seq![s]);
        assert(joined(pieces, seq![separator]) =~= s);
    } else {
        let first = s.take(at);
        let rest = split_on(s.skip(at + 1), separator);
        pieces_give_text_back(s.skip(at + 1), separator);
        assert(pieces =~= seq![first] + rest);
        joined_after_first(first, rest, seq![separator]);
        assert(s =~= first + seq![separator] + s.skip(at + 1));
        if first.contains(separator) {
            let i = choose|i: int| 0 <= i < first.len() && first[i] == separator;
            assert(s[i] == separator);
        }
        assert forall|i: int| 0 <= i < pieces.len() implies !(#[trigger] pieces[i]).contains(
            separator,
        ) by {
            if i > 0 {
                assert(pieces[i] == rest[i - 1]);
            }
        }
    }
}

/// A piece in front of joined ones.
proof fn joined_after_first(first: Seq<char>, rest: Seq<Seq<char>>, separator: Seq<char>)
    requires
        rest.len() > 0,
    ensures
        joined(seq![first] + rest, separator) == first + separator + joined(rest, separator),
    decreases rest.len(),
{
    let all = seq![first] + rest;
    if rest.len() == 1 {
        assert(all.drop_last() =~= seq![first]);
        assert(joined(seq![first], separator) == first);
        assert(joined(all, separator) =~= first + separator + joined(rest, separator));
    } else {
        assert(all.drop_last() =~= seq![first] + rest.drop_last());
        joined_after_first(first, rest.drop_last(), separator);
        assert(joined(all, separator) =~= first + separator + joined(rest, separator));
    }
}

/// Numbers that are written are read as they are, with a plus sign or without,
/// up to the limit.
pub proof fn written_numbers_are_read(n: nat, limit: int)
    ensures
        unsigned_value(decimal(n), limit) == if n <= limit {
            Some(n as int)
        } else {
            None
        },
        unsigned_value(seq!['+'] + decimal(n), limit) == if n <= limit {
            Some(n as int)
        } else {
            None
        },
        n <= i64::MAX ==> signed_value(seq!['-'] + decimal(n)) == Some(-(n as int)),
{
    crate::save_laws::decimal_has_value(n);
    assert(is_digit(decimal(n)[0]));
    assert((seq!['+'] + decimal(n)).skip(1) =~= decimal(n));
    assert((seq!['-'] + decimal(n)).skip(1) =~= decimal(n));
}

} // verus!
