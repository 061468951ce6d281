//! Text as sequences of characters: searching, trimming, splitting, joining
//! and decimal numbers.
use vstd::prelude::*;
use vstd::slice::slice_subrange;

verus! {

// ---------------------------------------------------------------------------
// Characters in and out of strings
// ---------------------------------------------------------------------------

/// Calls `String::from_iter` on the characters of `chars`: the string holds
/// exactly those characters, in that order.
#[verifier::external_body]
fn string_from_chars(chars: &[char]) -> (text: String)
    ensures
        text@ == chars@,
{
    chars.iter().collect()
}

/// The characters of `text`, in order.
pub fn chars_of(text: &str) -> (chars: Vec<char>)
    ensures
        chars@ == text@,
{
    let mut chars: Vec<char> = Vec::new();
    for c in it: text.chars()
        invariant
            chars@ == text@.take(it.index() as int),
            it.seq() == text@,
    {
        chars.push(c);
    }
    chars
}

/// The characters `from..to` of `chars` as a string.
pub fn text_between(chars: &Vec<char>, from: usize, to: usize) -> (text: String)
    requires
        from <= to <= chars.len(),
    ensures
        text@ == chars@.subrange(from as int, to as int),
{
    string_from_chars(slice_subrange(chars.as_slice(), from, to))
}

/// Whether two strings hold the same characters.
pub fn same_text(a: &str, b: &str) -> (same: bool)
    ensures
        same == (a@ == b@),
{
    let left: Vec<char> = chars_of(a);
    let right: Vec<char> = chars_of(b);
    if left.len() != right.len() {
        return false;
    }
    let mut i: usize = 0;
    while i < left.len()
        invariant
            i <= left.len() == right.len(),
            left@ == a@,
            right@ == b@,
            left@.take(i as int) == right@.take(i as int),
        decreases left.len() - i,
    {
        if left[i] != right[i] {
            assert(a@[i as int] != b@[i as int]);
            return false;
        }
        assert(left@.take(i + 1) == left@.take(i as int).push(left@[i as int]));
        assert(right@.take(i + 1) == right@.take(i as int).push(right@[i as int]));
        i += 1;
    }
    assert(left@.take(i as int) == left@);
    assert(right@.take(i as int) == right@);
    true
}

// ---------------------------------------------------------------------------
// Order
// ---------------------------------------------------------------------------

/// The order of strings: by the first character in which they differ; a prefix
/// comes before what extends it.
pub open spec fn text_less(a: Seq<char>, b: Seq<char>) -> bool
    decreases a.len(),
{
    if b.len() == 0 {
        false
    } else if a.len() == 0 {
        true
    } else if a[0] == b[0] {
        text_less(a.drop_first(), b.drop_first())
    } else {
        a[0] < b[0]
    }
}

/// Whether `a` comes before `b`.
pub fn comes_before(a: &str, b: &str) -> (less: bool)
    ensures
        less == text_less(a@, b@),
{
    let left: Vec<char> = chars_of(a);
    let right: Vec<char> = chars_of(b);
    let mut i: usize = 0;
    assert(left@.skip(0) == a@);
    assert(right@.skip(0) == b@);
    while i < left.len() && i < right.len() && left[i] == right[i]
        invariant
            i <= left.len(),
            i <= right.len(),
            text_less(a@, b@) == text_less(left@.skip(i as int), right@.skip(i as int)),
        decreases left.len() - i,
    {
        assert(left@.skip(i as int).drop_first() == left@.skip(i + 1));
        assert(right@.skip(i as int).drop_first() == right@.skip(i + 1));
        i += 1;
    }
    if i == right.len() {
        false
    } else if i == left.len() {
        true
    } else {
        left[i] < right[i]
    }
}

/// Nothing comes before itself.
pub proof fn text_less_irreflexive(a: Seq<char>)
    ensures
        !text_less(a, a),
    decreases a.len(),
{
    if a.len() > 0 {
        text_less_irreflexive(a.drop_first());
    }
}

/// The order of strings is transitive.
pub proof fn text_less_transitive(a: Seq<char>, b: Seq<char>, c: Seq<char>)
    requires
        text_less(a, b),
        text_less(b, c),
    ensures
        text_less(a, c),
    decreases a.len(),
{
    if a.len() > 0 && a[0] == b[0] && b[0] == c[0] {
        text_less_transitive(a.drop_first(), b.drop_first(), c.drop_first());
    }
}

/// Of two different strings one comes before the other.
pub proof fn text_less_total(a: Seq<char>, b: Seq<char>)
    requires
        a != b,
    ensures
        text_less(a, b) || text_less(b, a),
    decreases a.len(),
{
    if a.len() == 0 || b.len() == 0 {
        if a.len() == 0 && b.len() == 0 {
            assert(a == b);
        }
    } else if a[0] == b[0] {
        if a.drop_first() == b.drop_first() {
            assert(a == seq![a[0]] + a.drop_first());
            assert(b == seq![b[0]] + b.drop_first());
        }
        text_less_total(a.drop_first(), b.drop_first());
    }
}

// ---------------------------------------------------------------------------
// Searching
// ---------------------------------------------------------------------------

/// The position of the first `c` in `s`, or the length of `s` if there is none.
pub open spec fn first_index(s: Seq<char>, c: char) -> int
    decreases s.len(),
{
    if s.len() == 0 || s[0] == c {
        0
    } else {
        1 + first_index(s.drop_first(), c)
    }
}

/// `first_index` is within bounds, names a `c` when it is not the length, and
/// nothing before it is a `c`.
pub proof fn first_index_is_first(s: Seq<char>, c: char)
    ensures
        0 <= first_index(s, c) <= s.len(),
        first_index(s, c) < s.len() ==> s[first_index(s, c)] == c,
        forall|i: int| 0 <= i < first_index(s, c) ==> s[i] != c,
    decreases s.len(),
{
    if s.len() > 0 && s[0] != c {
        let rest = s.drop_first();
        first_index_is_first(rest, c);
        assert forall|i: int| 0 <= i < first_index(s, c) implies s[i] != c by {
            if i > 0 {
                assert(rest[i - 1] == s[i]);
            }
        }
    }
}

/// The position of the first `c` at or after `from`, or the length.
pub fn find_from(chars: &Vec<char>, c: char, from: usize) -> (at: usize)
    requires
        from <= chars.len(),
    ensures
        from <= at <= chars.len(),
        at == from + first_index(chars@.skip(from as int), c),
{
    let mut at: usize = from;
    while at < chars.len() && chars[at] != c
        invariant
            from <= at <= chars.len(),
            from + first_index(chars@.skip(from as int), c) == at + first_index(
                chars@.skip(at as int),
                c,
            ),
        decreases chars.len() - at,
    {
        assert(chars@.skip(at as int).drop_first() == chars@.skip(at + 1));
        at += 1;
    }
    at
}

/// Whether `s` begins with `prefix`.
pub open spec fn begins_with(s: Seq<char>, prefix: Seq<char>) -> bool {
    prefix.len() <= s.len() && s.take(prefix.len() as int) == prefix
}

/// Whether `part` stands in `s` at position `at`.
pub open spec fn stands_at(s: Seq<char>, part: Seq<char>, at: int) -> bool {
    0 <= at && at + part.len() <= s.len() && s.subrange(at, at + part.len()) == part
}

/// Whether `part` occurs in `s`.
pub open spec fn occurs_in(s: Seq<char>, part: Seq<char>) -> bool {
    exists|at: int| stands_at(s, part, at)
}

/// Whether `part` stands in `chars` at position `at`.
pub fn stands_at_exec(chars: &Vec<char>, part: &Vec<char>, at: usize) -> (found: bool)
    ensures
        found == stands_at(chars@, part@, at as int),
{
    if at > chars.len() || part.len() > chars.len() - at {
        return false;
    }
    let mut i: usize = 0;
    while i < part.len()
        invariant
            i <= part.len(),
            at + part.len() <= chars.len(),
            forall|k: int| 0 <= k < i ==> chars@[at + k] == part@[k],
        decreases part.len() - i,
    {
        if chars[at + i] != part[i] {
            assert(chars@.subrange(at as int, at + part.len())[i as int] == chars@[at + i]);
            return false;
        }
        i += 1;
    }
    assert(chars@.subrange(at as int, at + part.len()) == part@);
    true
}

/// Whether `text` begins with `prefix`.
pub fn text_begins_with(text: &str, prefix: &str) -> (found: bool)
    ensures
        found == begins_with(text@, prefix@),
{
    let chars: Vec<char> = chars_of(text);
    let part: Vec<char> = chars_of(prefix);
    assert(prefix@.len() <= text@.len() ==> text@.subrange(0, prefix@.len() as int) == text@.take(
        prefix@.len() as int,
    ));
    stands_at_exec(&chars, &part, 0)
}

/// Whether `text` ends with the character `c`.
pub fn text_ends_with_char(text: &str, c: char) -> (found: bool)
    ensures
        found == (text@.len() > 0 && text@.last() == c),
{
    let chars: Vec<char> = chars_of(text);
    chars.len() > 0 && chars[chars.len() - 1] == c
}

/// Whether `part` occurs in `text`.
pub fn text_contains(text: &str, part: &str) -> (found: bool)
    ensures
        found == occurs_in(text@, part@),
{
    let chars: Vec<char> = chars_of(text);
    let wanted: Vec<char> = chars_of(part);
    let mut at: usize = 0;
    while at < chars.len()
        invariant
            at <= chars.len(),
            chars@ == text@,
            wanted@ == part@,
            forall|k: int| 0 <= k < at ==> !stands_at(text@, part@, k),
        decreases chars.len() - at,
    {
        if stands_at_exec(&chars, &wanted, at) {
            return true;
        }
        at += 1;
    }
    stands_at_exec(&chars, &wanted, at)
}

/// The first position at which `part` stands in `s`, if there is one.
#[verifier::opaque]
pub open spec fn first_occurrence(s: Seq<char>, part: Seq<char>) -> Option<int> {
    if occurs_in(s, part) {
        Some(
            choose|at: int|
                stands_at(s, part, at) && forall|i: int| 0 <= i < at ==> !stands_at(s, part, i),
        )
    } else {
        None
    }
}

/// The first position at which `part` stands in `text`.
pub fn find_text(text: &str, part: &str) -> (found: Option<usize>)
    ensures
        match found {
            Some(at) => first_occurrence(text@, part@) == Some(at as int) && stands_at(
                text@,
                part@,
                at as int,
            ),
            None => first_occurrence(text@, part@) is None,
        },
{
    let chars: Vec<char> = chars_of(text);
    let wanted: Vec<char> = chars_of(part);
    let mut at: usize = 0;
    reveal(first_occurrence);
    while at <= chars.len()
        invariant
            at <= chars.len() + 1,
            chars@ == text@,
            wanted@ == part@,
            forall|k: int| 0 <= k < at ==> !stands_at(text@, part@, k),
        decreases chars.len() + 1 - at,
    {
        if stands_at_exec(&chars, &wanted, at) {
            proof {
                reveal(first_occurrence);
                let first = first_occurrence(text@, part@)->0;
                assert(stands_at(text@, part@, at as int));
                assert(stands_at(text@, part@, first));
                if first > at {
                    assert(!stands_at(text@, part@, at as int));
                }
            }
            return Some(at);
        }
        if at == chars.len() {
            reveal(first_occurrence);
            return None;
        }
        at += 1;
    }
    None
}

/// What follows `prefix` in `s`, where `s` begins with it.
pub open spec fn after_prefix(s: Seq<char>, prefix: Seq<char>) -> Option<Seq<char>> {
    if begins_with(s, prefix) {
        Some(s.skip(prefix.len() as int))
    } else {
        None
    }
}

/// The view of an optional string.
pub open spec fn text_view(text: Option<String>) -> Option<Seq<char>> {
    match text {
        Some(t) => Some(t@),
        None => None,
    }
}

/// Whether an optional text is there, and is the given one.
pub fn text_is(text: &Option<String>, other: &str) -> (same: bool)
    ensures
        same == (text_view(*text) == Some(other@)),
{
    match text {
        Some(t) => same_text(t.as_str(), other),
        None => false,
    }
}

/// What follows `prefix` in `text`, if `text` begins with it.
pub fn strip_prefix(text: &str, prefix: &str) -> (rest: Option<String>)
    ensures
        text_view(rest) == after_prefix(text@, prefix@),
{
    if text_begins_with(text, prefix) {
        let chars: Vec<char> = chars_of(text);
        let skipped: usize = chars_of(prefix).len();
        assert(chars@.subrange(skipped as int, chars@.len() as int) == chars@.skip(skipped as int));
        Some(text_between(&chars, skipped, chars.len()))
    } else {
        None
    }
}

// ---------------------------------------------------------------------------
// White space
// ---------------------------------------------------------------------------

/// Whether `c` has the Unicode property `White_Space`.
pub open spec fn is_white(c: char) -> bool {
    ||| '\u{9}' <= c <= '\u{d}'
    ||| c == ' '
    ||| c == '\u{85}'
    ||| c == '\u{a0}'
    ||| c == '\u{1680}'
    ||| '\u{2000}' <= c <= '\u{200a}'
    ||| c == '\u{2028}'
    ||| c == '\u{2029}'
    ||| c == '\u{202f}'
    ||| c == '\u{205f}'
    ||| c == '\u{3000}'
}

/// Whether `c` is white space.
pub fn char_is_white(c: char) -> (white: bool)
    ensures
        white == is_white(c),
{
    ('\u{9}' <= c && c <= '\u{d}') || c == ' ' || c == '\u{85}' || c == '\u{a0}' || c == '\u{1680}'
        || ('\u{2000}' <= c && c <= '\u{200a}') || c == '\u{2028}' || c == '\u{2029}' || c
        == '\u{202f}' || c == '\u{205f}' || c == '\u{3000}'
}

/// `s` without its leading white space.
pub open spec fn trimmed_start(s: Seq<char>) -> Seq<char>
    decreases s.len(),
{
    if s.len() > 0 && is_white(s[0]) {
        trimmed_start(s.drop_first())
    } else {
        s
    }
}

/// `s` without its trailing white space.
pub open spec fn trimmed_end(s: Seq<char>) -> Seq<char>
    decreases s.len(),
{
    if s.len() > 0 && is_white(s.last()) {
        trimmed_end(s.drop_last())
    } else {
        s
    }
}

/// `s` without leading and trailing white space.
pub open spec fn trimmed(s: Seq<char>) -> Seq<char> {
    trimmed_end(trimmed_start(s))
}

/// `text` without its leading white space.
pub fn trim_start(text: &str) -> (rest: String)
    ensures
        rest@ == trimmed_start(text@),
{
    let chars: Vec<char> = chars_of(text);
    let mut from: usize = 0;
    assert(chars@.skip(0) == text@);
    while from < chars.len() && char_is_white(chars[from])
        invariant
            from <= chars.len(),
            trimmed_start(text@) == trimmed_start(chars@.skip(from as int)),
        decreases chars.len() - from,
    {
        assert(chars@.skip(from as int).drop_first() == chars@.skip(from + 1));
        from += 1;
    }
    assert(chars@.subrange(from as int, chars@.len() as int) == chars@.skip(from as int));
    text_between(&chars, from, chars.len())
}

/// `text` without leading and trailing white space.
pub fn trim(text: &str) -> (rest: String)
    ensures
        rest@ == trimmed(text@),
{
    let start: String = trim_start(text);
    let chars: Vec<char> = chars_of(start.as_str());
    let mut to: usize = chars.len();
    assert(chars@.take(to as int) == start@);
    while to > 0 && char_is_white(chars[to - 1])
        invariant
            to <= chars.len(),
            trimmed(text@) == trimmed_end(chars@.take(to as int)),
        decreases to,
    {
        assert(chars@.take(to as int).drop_last() == chars@.take(to - 1));
        assert(chars@.take(to as int).last() == chars@[to - 1]);
        to -= 1;
    }
    if to > 0 {
        assert(chars@.take(to as int).last() == chars@[to - 1]);
    }
    assert(chars@.subrange(0, to as int) == chars@.take(to as int));
    text_between(&chars, 0, to)
}

/// Whether `text` holds nothing but white space.
pub fn is_blank(text: &str) -> (blank: bool)
    ensures
        blank == (trimmed(text@).len() == 0),
{
    let rest: String = trim(text);
    chars_of(rest.as_str()).len() == 0
}

/// `s` without its leading `c`s.
pub open spec fn stripped_start(s: Seq<char>, c: char) -> Seq<char>
    decreases s.len(),
{
    if s.len() > 0 && s[0] == c {
        stripped_start(s.drop_first(), c)
    } else {
        s
    }
}

/// `s` without its trailing `c`s.
pub open spec fn stripped_end(s: Seq<char>, c: char) -> Seq<char>
    decreases s.len(),
{
    if s.len() > 0 && s.last() == c {
        stripped_end(s.drop_last(), c)
    } else {
        s
    }
}

/// `text` without the `c`s at both ends.
pub fn strip_char(text: &str, c: char) -> (rest: String)
    ensures
        rest@ == stripped_end(stripped_start(text@, c), c),
{
    let chars: Vec<char> = chars_of(text);
    let mut from: usize = 0;
    assert(chars@.skip(0) == text@);
    while from < chars.len() && chars[from] == c
        invariant
            from <= chars.len(),
            stripped_start(text@, c) == stripped_start(chars@.skip(from as int), c),
        decreases chars.len() - from,
    {
        assert(chars@.skip(from as int).drop_first() == chars@.skip(from + 1));
        from += 1;
    }
    let ghost start = chars@.skip(from as int);
    assert(stripped_start(text@, c) == start);
    let mut to: usize = chars.len();
    assert(chars@.subrange(from as int, to as int) == start);
    while to > from && chars[to - 1] == c
        invariant
            from <= to <= chars.len(),
            stripped_end(start, c) == stripped_end(chars@.subrange(from as int, to as int), c),
        decreases to - from,
    {
        let ghost part = chars@.subrange(from as int, to as int);
        assert(part.drop_last() == chars@.subrange(from as int, to - 1));
        assert(part.last() == chars@[to - 1]);
        to -= 1;
    }
    if to > from {
        assert(chars@.subrange(from as int, to as int).last() == chars@[to - 1]);
    }
    text_between(&chars, from, to)
}

/// The length of the run of characters other than white space with which `s`
/// begins.
pub open spec fn word_length(s: Seq<char>) -> int
    decreases s.len(),
{
    if s.len() == 0 || is_white(s[0]) {
        0
    } else {
        1 + word_length(s.drop_first())
    }
}

/// `word_length` is within bounds.
proof fn word_length_bounds(s: Seq<char>)
    ensures
        0 <= word_length(s) <= s.len(),
    decreases s.len(),
{
    if s.len() > 0 && !is_white(s[0]) {
        word_length_bounds(s.drop_first());
    }
}

/// `trimmed_start` is no longer than what it trims and begins with no white
/// space.
proof fn trimmed_start_bounds(s: Seq<char>)
    ensures
        trimmed_start(s).len() <= s.len(),
        trimmed_start(s).len() > 0 ==> !is_white(trimmed_start(s)[0]),
    decreases s.len(),
{
    if s.len() > 0 && is_white(s[0]) {
        trimmed_start_bounds(s.drop_first());
    }
}

/// The runs of characters other than white space.
pub open spec fn words(s: Seq<char>) -> Seq<Seq<char>>
    decreases s.len(),
    via words_decreases
{
    let start = trimmed_start(s);
    if start.len() == 0 {
        Seq::empty()
    } else {
        let n = word_length(start);
        seq![start.take(n)] + words(start.skip(n))
    }
}

#[via_fn]
proof fn words_decreases(s: Seq<char>) {
    trimmed_start_bounds(s);
    word_length_bounds(trimmed_start(s));
    let start = trimmed_start(s);
    if start.len() > 0 {
        word_length_bounds(start.drop_first());
    }
}

/// The runs of characters other than white space in `text`.
pub fn split_words(text: &str) -> (pieces: Vec<String>)
    ensures
        texts(pieces@) == words(text@),
{
    let chars: Vec<char> = chars_of(text);
    let mut pieces: Vec<String> = Vec::new();
    let mut from: usize = 0;
    assert(chars@.skip(0) == text@);
    assert(texts(pieces@) + words(chars@.skip(0)) == words(text@));
    while from < chars.len()
        invariant
            from <= chars.len(),
            texts(pieces@) + words(chars@.skip(from as int)) == words(text@),
        decreases chars.len() - from,
    {
        let ghost rest = chars@.skip(from as int);
        if char_is_white(chars[from]) {
            assert(rest.drop_first() == chars@.skip(from + 1));
            assert(trimmed_start(rest) == trimmed_start(chars@.skip(from + 1)));
            assert(words(rest) == words(chars@.skip(from + 1)));
            from += 1;
        } else {
            let mut to: usize = from;
            while to < chars.len() && !char_is_white(chars[to])
                invariant
                    from <= to <= chars.len(),
                    rest == chars@.skip(from as int),
                    word_length(rest) == to - from + word_length(chars@.skip(to as int)),
                decreases chars.len() - to,
            {
                assert(chars@.skip(to as int).drop_first() == chars@.skip(to + 1));
                to += 1;
            }
            assert(word_length(chars@.skip(to as int)) == 0);
            let ghost before = pieces@;
            let word: String = text_between(&chars, from, to);
            assert(word@ == rest.take(to - from));
            assert(trimmed_start(rest) == rest);
            assert(rest.skip(to - from) == chars@.skip(to as int));
            pieces.push(word);
            assert(texts(pieces@) == texts(before) + seq![rest.take(to - from)]);
            assert(texts(before) + (seq![rest.take(to - from)] + words(chars@.skip(to as int)))
                == texts(pieces@) + words(chars@.skip(to as int)));
            from = to;
        }
    }
    assert(words(chars@.skip(from as int)) == Seq::<Seq<char>>::empty());
    assert(texts(pieces@) + Seq::<Seq<char>>::empty() == texts(pieces@));
    pieces
}

// ---------------------------------------------------------------------------
// Splitting and joining
// ---------------------------------------------------------------------------

/// The views of a list of strings.
pub open spec fn texts(list: Seq<String>) -> Seq<Seq<char>> {
    list.map_values(|t: String| t@)
}

/// The pieces of `s` between the occurrences of `separator`; there is always
/// at least one.
pub open spec fn split_on(s: Seq<char>, separator: char) -> Seq<Seq<char>>
    decreases s.len(),
    via split_on_decreases
{
    let at = first_index(s, separator);
    if at >= s.len() {
        seq![s]
    } else {
        seq![s.take(at)] + split_on(s.skip(at + 1), separator)
    }
}

#[via_fn]
proof fn split_on_decreases(s: Seq<char>, separator: char) {
    first_index_is_first(s, separator);
}

/// The pieces of `text` between the occurrences of `separator`.
pub fn split_at_each(text: &str, separator: char) -> (pieces: Vec<String>)
    ensures
        texts(pieces@) == split_on(text@, separator),
{
    let chars: Vec<char> = chars_of(text);
    let mut pieces: Vec<String> = Vec::new();
    let mut from: usize = 0;
    assert(chars@.skip(0) == text@);
    assert(texts(pieces@) + split_on(chars@.skip(0), separator) == split_on(text@, separator));
    loop
        invariant
            from <= chars.len(),
            texts(pieces@) + split_on(chars@.skip(from as int), separator) == split_on(
                text@,
                separator,
            ),
        decreases chars.len() - from,
    {
        let ghost rest = chars@.skip(from as int);
        let ghost before = pieces@;
        let at: usize = find_from(&chars, separator, from);
        let piece: String = text_between(&chars, from, at);
        if at == chars.len() {
            assert(piece@ == rest);
            pieces.push(piece);
            assert(texts(pieces@) == texts(before) + seq![rest]);
            return pieces;
        }
        assert(piece@ == rest.take(at - from));
        assert(rest.skip(at - from + 1) == chars@.skip(at + 1));
        pieces.push(piece);
        assert(texts(pieces@) == texts(before) + seq![rest.take(at - from)]);
        assert(texts(pieces@) + split_on(chars@.skip(at + 1), separator) == texts(before) + (
        seq![rest.take(at - from)] + split_on(chars@.skip(at + 1), separator)));
        from = at + 1;
    }
}

/// The lines of `s`, each with its line feed; an empty `s` has none.
pub open spec fn whole_lines(s: Seq<char>) -> Seq<Seq<char>>
    decreases s.len(),
    via whole_lines_decreases
{
    let at = first_index(s, '\n');
    if s.len() == 0 {
        Seq::empty()
    } else if at >= s.len() {
        seq![s]
    } else {
        seq![s.take(at + 1)] + whole_lines(s.skip(at + 1))
    }
}

#[via_fn]
proof fn whole_lines_decreases(s: Seq<char>) {
    first_index_is_first(s, '\n');
}

/// The lines of `text`, each with its line feed.
pub fn split_lines_whole(text: &str) -> (lines: Vec<String>)
    ensures
        texts(lines@) == whole_lines(text@),
{
    let chars: Vec<char> = chars_of(text);
    let mut lines: Vec<String> = Vec::new();
    let mut from: usize = 0;
    assert(chars@.skip(0) == text@);
    assert(texts(lines@) + whole_lines(chars@.skip(0)) == whole_lines(text@));
    while from < chars.len()
        invariant
            from <= chars.len(),
            texts(lines@) + whole_lines(chars@.skip(from as int)) == whole_lines(text@),
        decreases chars.len() - from,
    {
        let ghost rest = chars@.skip(from as int);
        let ghost before = lines@;
        let at: usize = find_from(&chars, '\n', from);
        let to: usize = if at < chars.len() {
            at + 1
        } else {
            at
        };
        let line: String = text_between(&chars, from, to);
        assert(line@ == rest.take(to - from));
        assert(rest.skip(to - from) == chars@.skip(to as int));
        assert(rest.take(rest.len() as int) == rest);
        lines.push(line);
        assert(texts(lines@) == texts(before) + seq![rest.take(to - from)]);
        assert(whole_lines(rest) == seq![rest.take(to - from)] + whole_lines(
            chars@.skip(to as int),
        ));
        assert(texts(lines@) + whole_lines(chars@.skip(to as int)) == texts(before) + (
        seq![rest.take(to - from)] + whole_lines(chars@.skip(to as int))));
        from = to;
    }
    assert(whole_lines(chars@.skip(from as int)) == Seq::<Seq<char>>::empty());
    assert(texts(lines@) + Seq::<Seq<char>>::empty() == texts(lines@));
    lines
}

/// A line without its line ending, `"\n"` or `"\r\n"`.
pub open spec fn bare_line(line: Seq<char>) -> Seq<char> {
    if line.len() > 0 && line.last() == '\n' {
        let body = line.drop_last();
        if body.len() > 0 && body.last() == '\r' {
            body.drop_last()
        } else {
            body
        }
    } else {
        line
    }
}

/// The lines of `s` without their line endings.
pub open spec fn bare_lines(s: Seq<char>) -> Seq<Seq<char>> {
    whole_lines(s).map_values(|line: Seq<char>| bare_line(line))
}

/// `line` without its line ending.
pub fn without_line_end(line: &str) -> (body: String)
    ensures
        body@ == bare_line(line@),
{
    let chars: Vec<char> = chars_of(line);
    let mut to: usize = chars.len();
    if to > 0 && chars[to - 1] == '\n' {
        to -= 1;
        assert(line@.drop_last() == chars@.take(to as int));
        if to > 0 && chars[to - 1] == '\r' {
            to -= 1;
            assert(line@.drop_last().drop_last() == chars@.take(to as int));
        }
    }
    assert(chars@.subrange(0, to as int) == chars@.take(to as int));
    assert(chars@.take(chars@.len() as int) == chars@);
    text_between(&chars, 0, to)
}

/// The lines of `text` without their line endings.
pub fn split_lines(text: &str) -> (lines: Vec<String>)
    ensures
        texts(lines@) == bare_lines(text@),
{
    let whole: Vec<String> = split_lines_whole(text);
    let mut lines: Vec<String> = Vec::new();
    let mut i: usize = 0;
    while i < whole.len()
        invariant
            i <= whole.len(),
            lines.len() == i,
            texts(whole@) == whole_lines(text@),
            forall|k: int| 0 <= k < i ==> #[trigger] lines@[k]@ == bare_line(whole@[k]@),
        decreases whole.len() - i,
    {
        lines.push(without_line_end(whole[i].as_str()));
        i += 1;
    }
    assert forall|k: int| 0 <= k < lines@.len() implies texts(lines@)[k] == bare_lines(text@)[k] by {
        assert(texts(whole@)[k] == whole@[k]@);
        assert(lines@[k]@ == bare_line(whole@[k]@));
    }
    assert(texts(whole@).len() == whole@.len());
    assert(texts(lines@) == bare_lines(text@));
    lines
}

/// The pieces one after the other, with `separator` between neighbours.
pub open spec fn joined(pieces: Seq<Seq<char>>, separator: Seq<char>) -> Seq<char>
    decreases pieces.len(),
{
    if pieces.len() == 0 {
        Seq::empty()
    } else if pieces.len() == 1 {
        pieces[0]
    } else {
        joined(pieces.drop_last(), separator) + separator + pieces.last()
    }
}

/// The pieces one after the other, with `separator` between neighbours.
pub fn join(pieces: &Vec<String>, separator: &str) -> (text: String)
    ensures
        text@ == joined(texts(pieces@), separator@),
{
    let mut text: String = String::new();
    let mut i: usize = 0;
    assert(texts(pieces@).take(0) == Seq::<Seq<char>>::empty());
    while i < pieces.len()
        invariant
            i <= pieces.len(),
            text@ == joined(texts(pieces@).take(i as int), separator@),
        decreases pieces.len() - i,
    {
        let ghost all = texts(pieces@);
        assert(all.take(i + 1).drop_last() == all.take(i as int));
        assert(all.take(i + 1).last() == pieces@[i as int]@);
        if i > 0 {
            text.append(separator);
        } else {
            assert(Seq::<char>::empty() + pieces@[0]@ == pieces@[0]@);
        }
        text.append(pieces[i].as_str());
        i += 1;
    }
    assert(texts(pieces@).take(i as int) == texts(pieces@));
    text
}

/// The pieces one after the other.
pub open spec fn concatenated(pieces: Seq<Seq<char>>) -> Seq<char>
    decreases pieces.len(),
{
    if pieces.len() == 0 {
        Seq::empty()
    } else {
        concatenated(pieces.drop_last()) + pieces.last()
    }
}

/// The pieces one after the other.
pub fn concatenate(pieces: &Vec<String>) -> (text: String)
    ensures
        text@ == concatenated(texts(pieces@)),
{
    let mut text: String = String::new();
    let mut i: usize = 0;
    assert(texts(pieces@).take(0) == Seq::<Seq<char>>::empty());
    while i < pieces.len()
        invariant
            i <= pieces.len(),
            text@ == concatenated(texts(pieces@).take(i as int)),
        decreases pieces.len() - i,
    {
        let ghost all = texts(pieces@);
        assert(all.take(i + 1).drop_last() == all.take(i as int));
        assert(all.take(i + 1).last() == pieces@[i as int]@);
        text.append(pieces[i].as_str());
        i += 1;
    }
    assert(texts(pieces@).take(i as int) == texts(pieces@));
    text
}

/// A copy of a list of strings.
pub fn copy_texts(list: &Vec<String>) -> (copy: Vec<String>)
    ensures
        copy@ == list@,
{
    let mut copy: Vec<String> = Vec::new();
    let mut i: usize = 0;
    while i < list.len()
        invariant
            i <= list.len(),
            copy@ == list@.take(i as int),
        decreases list.len() - i,
    {
        copy.push(list[i].clone());
        i += 1;
    }
    copy
}

/// Whether `wanted` is one of the strings of `list`.
pub fn list_contains(list: &Vec<String>, wanted: &str) -> (found: bool)
    ensures
        found == texts(list@).contains(wanted@),
{
    let mut i: usize = 0;
    while i < list.len()
        invariant
            i <= list.len(),
            forall|k: int| 0 <= k < i ==> #[trigger] texts(list@)[k] != wanted@,
        decreases list.len() - i,
    {
        assert(texts(list@)[i as int] == list@[i as int]@);
        if same_text(list[i].as_str(), wanted) {
            return true;
        }
        i += 1;
    }
    false
}

/// Whether two lists hold the same strings in the same order.
pub fn same_list(a: &Vec<String>, b: &Vec<String>) -> (same: bool)
    ensures
        same == (texts(a@) == texts(b@)),
{
    if a.len() != b.len() {
        assert(texts(a@).len() != texts(b@).len());
        return false;
    }
    let mut i: usize = 0;
    while i < a.len()
        invariant
            i <= a.len() == b.len(),
            forall|k: int| 0 <= k < i ==> #[trigger] texts(a@)[k] == texts(b@)[k],
        decreases a.len() - i,
    {
        if !same_text(a[i].as_str(), b[i].as_str()) {
            assert(texts(a@)[i as int] != texts(b@)[i as int]);
            return false;
        }
        assert(texts(a@)[i as int] == texts(b@)[i as int]);
        i += 1;
    }
    assert(texts(a@) =~= texts(b@));
    true
}

/// Splitting a text into lines loses nothing: the lines put together again
/// give the text.
pub proof fn lines_give_text_back(s: Seq<char>)
    ensures
        concatenated(whole_lines(s)) == s,
    decreases s.len(),
{
    first_index_is_first(s, '\n');
    let at = first_index(s, '\n');
    if s.len() > 0 {
        if at >= s.len() {
            assert(seq![s].drop_last() == Seq::<Seq<char>>::empty());
            assert(concatenated(seq![s].drop_last()) == Seq::<char>::empty());
            assert(concatenated(seq![s]) == Seq::<char>::empty() + s);
        } else {
            let rest = whole_lines(s.skip(at + 1));
            lines_give_text_back(s.skip(at + 1));
            concatenated_front(s.take(at + 1), rest);
            assert(s == s.take(at + 1) + s.skip(at + 1));
        }
    }
}

/// A piece put in front of the others comes first in the whole.
pub proof fn concatenated_front(first: Seq<char>, rest: Seq<Seq<char>>)
    ensures
        concatenated(seq![first] + rest) == first + concatenated(rest),
    decreases rest.len(),
{
    let all = seq![first] + rest;
    if rest.len() == 0 {
        assert(all.drop_last() == Seq::<Seq<char>>::empty());
        assert(concatenated(all.drop_last()) == Seq::<char>::empty());
        assert(concatenated(all) == Seq::<char>::empty() + first);
        assert(first + concatenated(rest) == first);
    } else {
        assert(all.drop_last() == seq![first] + rest.drop_last());
        concatenated_front(first, rest.drop_last());
        assert(first + concatenated(rest.drop_last()) + rest.last() == first + concatenated(rest));
    }
}

// ---------------------------------------------------------------------------
// Decimal numbers
// ---------------------------------------------------------------------------

/// The digit character of `d`.
pub open spec fn digit_char(d: nat) -> char {
    ('0' as u32 + d) as char
}

/// `n` in decimal, without leading zeros.
pub open spec fn decimal(n: nat) -> Seq<char>
    decreases n,
{
    if n < 10 {
        seq![digit_char(n)]
    } else {
        decimal(n / 10).push(digit_char(n % 10))
    }
}

/// `n` in decimal, with a minus sign in front of a negative number.
pub open spec fn signed_decimal(n: int) -> Seq<char> {
    if n < 0 {
        seq!['-'] + decimal((-n) as nat)
    } else {
        decimal(n as nat)
    }
}

/// Whether `c` is a decimal digit.
pub open spec fn is_digit(c: char) -> bool {
    '0' <= c <= '9'
}

/// The value of a digit character.
pub open spec fn digit_value(c: char) -> int {
    c as int - '0' as int
}

/// The number that a sequence of digits stands for; `None` if it is empty or
/// holds anything else.
pub open spec fn digits_value(s: Seq<char>) -> Option<int>
    decreases s.len(),
{
    if s.len() == 0 {
        None
    } else if !is_digit(s.last()) {
        None
    } else if s.len() == 1 {
        Some(digit_value(s[0]))
    } else {
        match digits_value(s.drop_last()) {
            Some(high) => Some(10 * high + digit_value(s.last())),
            None => None,
        }
    }
}

/// The digit character of `d`.
fn digit_of(d: u64) -> (c: char)
    requires
        d < 10,
    ensures
        c == digit_char(d as nat),
{
    if d == 0 {
        '0'
    } else if d == 1 {
        '1'
    } else if d == 2 {
        '2'
    } else if d == 3 {
        '3'
    } else if d == 4 {
        '4'
    } else if d == 5 {
        '5'
    } else if d == 6 {
        '6'
    } else if d == 7 {
        '7'
    } else if d == 8 {
        '8'
    } else {
        '9'
    }
}

/// The decimal digits of `n`.
fn decimal_chars(n: u64) -> (chars: Vec<char>)
    ensures
        chars@ == decimal(n as nat),
    decreases n,
{
    if n < 10 {
        let mut chars: Vec<char> = Vec::new();
        chars.push(digit_of(n));
        chars
    } else {
        let mut chars: Vec<char> = decimal_chars(n / 10);
        chars.push(digit_of(n % 10));
        chars
    }
}

/// `n` in decimal.
pub fn decimal_text(n: usize) -> (text: String)
    ensures
        text@ == decimal(n as nat),
{
    let chars: Vec<char> = decimal_chars(n as u64);
    string_from_chars(chars.as_slice())
}

/// `n` in decimal, with a minus sign in front of a negative number.
pub fn signed_decimal_text(n: i64) -> (text: String)
    ensures
        text@ == signed_decimal(n as int),
{
    if n < 0 {
        let magnitude: u64 = (-(n + 1)) as u64 + 1;
        let chars: Vec<char> = decimal_chars(magnitude);
        let mut text: String = text_of_char('-');
        text.append(string_from_chars(chars.as_slice()).as_str());
        text
    } else {
        let chars: Vec<char> = decimal_chars(n as u64);
        string_from_chars(chars.as_slice())
    }
}

/// The string of one character.
pub fn text_of_char(c: char) -> (text: String)
    ensures
        text@ == seq![c],
{
    let mut chars: Vec<char> = Vec::new();
    chars.push(c);
    string_from_chars(chars.as_slice())
}

/// The number that `s` stands for: decimal digits, after an optional plus
/// sign, with a value of at most `limit`.
pub open spec fn unsigned_value(s: Seq<char>, limit: int) -> Option<int> {
    let digits = if s.len() > 0 && s[0] == '+' {
        s.skip(1)
    } else {
        s
    };
    match digits_value(digits) {
        Some(v) => if v <= limit {
            Some(v)
        } else {
            None
        },
        None => None,
    }
}

/// The number that `s` stands for: decimal digits, after an optional sign,
/// with a value that fits in 64 bits.
pub open spec fn signed_value(s: Seq<char>) -> Option<int> {
    if s.len() > 0 && s[0] == '-' {
        match digits_value(s.skip(1)) {
            Some(v) => if -v >= i64::MIN {
                Some(-v)
            } else {
                None
            },
            None => None,
        }
    } else {
        unsigned_value(s, i64::MAX as int)
    }
}

/// The value of the digits from `from` on, if there are any, if nothing else
/// stands there and if it is at most `limit`.
fn parse_digits(chars: &Vec<char>, from: usize, limit: u64) -> (value: Option<u64>)
    requires
        from <= chars.len(),
    ensures
        match (value, digits_value(chars@.skip(from as int))) {
            (Some(v), Some(d)) => v == d && d <= limit,
            (None, Some(d)) => d > limit,
            (Some(_), None) => false,
            (None, None) => true,
        },
{
    let ghost digits = chars@.skip(from as int);
    if from == chars.len() {
        return None;
    }
    let mut value: u64 = 0;
    let mut too_large: bool = false;
    let mut i: usize = from;
    while i < chars.len()
        invariant
            from <= i <= chars.len(),
            digits == chars@.skip(from as int),
            !too_large ==> value <= limit,
            i > from ==> digits_value(digits.take(i - from)) is Some,
            i > from && !too_large ==> digits_value(digits.take(i - from)) == Some(value as int),
            i > from && too_large ==> digits_value(digits.take(i - from))->0 > limit,
            i == from ==> value == 0 && !too_large,
        decreases chars.len() - i,
    {
        let c: char = chars[i];
        let ghost upto = digits.take(i + 1 - from);
        assert(upto.drop_last() == digits.take(i - from));
        assert(upto.last() == c);
        if !('0' <= c && c <= '9') {
            proof {
                no_digits_with_other(digits, i - from);
            }
            return None;
        }
        let d: u64 = c as u64 - '0' as u64;
        assert(i > from ==> digits_value(upto) == Some(
            10 * digits_value(digits.take(i - from))->0 + d,
        ));
        if !too_large {
            match value.checked_mul(10) {
                Some(tens) => match tens.checked_add(d) {
                    Some(v) => {
                        if v <= limit {
                            value = v;
                        } else {
                            too_large = true;
                        }
                    },
                    None => {
                        too_large = true;
                    },
                },
                None => {
                    too_large = true;
                },
            }
        }
        i += 1;
    }
    assert(digits.take(i - from) == digits);
    if too_large {
        None
    } else {
        Some(value)
    }
}

/// Something other than a digit anywhere makes the whole no number.
proof fn no_digits_with_other(s: Seq<char>, at: int)
    requires
        0 <= at < s.len(),
        !is_digit(s[at]),
    ensures
        digits_value(s) is None,
    decreases s.len(),
{
    if at < s.len() - 1 {
        no_digits_with_other(s.drop_last(), at);
    }
}

/// Reads an unsigned number, as `str::parse::<usize>` does.
pub fn parse_usize(text: &str) -> (value: Option<usize>)
    ensures
        match value {
            Some(v) => unsigned_value(text@, usize::MAX as int) == Some(v as int),
            None => unsigned_value(text@, usize::MAX as int) is None,
        },
{
    let chars: Vec<char> = chars_of(text);
    let from: usize = if chars.len() > 0 && chars[0] == '+' {
        1
    } else {
        0
    };
    assert(chars@.skip(0) == chars@);
    match parse_digits(&chars, from, usize::MAX as u64) {
        Some(v) => Some(v as usize),
        None => None,
    }
}

/// Reads a signed number, as `str::parse::<i64>` does.
pub fn parse_i64(text: &str) -> (value: Option<i64>)
    ensures
        match value {
            Some(v) => signed_value(text@) == Some(v as int),
            None => signed_value(text@) is None,
        },
{
    let chars: Vec<char> = chars_of(text);
    assert(chars@.skip(0) == chars@);
    if chars.len() > 0 && chars[0] == '-' {
        match parse_digits(&chars, 1, 0x8000_0000_0000_0000) {
            Some(v) => {
                if v == 0x8000_0000_0000_0000 {
                    Some(i64::MIN)
                } else {
                    Some(-(v as i64))
                }
            },
            None => None,
        }
    } else {
        let from: usize = if chars.len() > 0 && chars[0] == '+' {
            1
        } else {
            0
        };
        match parse_digits(&chars, from, i64::MAX as u64) {
            Some(v) => Some(v as i64),
            None => None,
        }
    }
}

} // verus!
