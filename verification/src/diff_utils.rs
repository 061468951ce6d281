//! Unified diffs between two versions of a source: making, applying and
//! reversing them.
use vstd::prelude::*;

use crate::diff_laws::{
    described_text, names_are_plain, printed_headers_reverse, printed_ranges_fit, undone,
};
use crate::text::{
    begins_with, chars_of, concatenated, find_from, first_index, join, joined, parse_usize,
    same_text, split_lines_whole, split_words, strip_char, stripped_end, stripped_start,
    text_begins_with, text_between, text_ends_with_char, texts, trim, trimmed, unsigned_value,
    whole_lines, words,
};
use crate::unified_diff::{
    applied_in_place, describes, feed_lines, leads, plain_name, printed_patch, valid_hunks,
    without_feed, DiffHunk, NO_LINE_FEED,
};

verus! {

/// A parsed patch of `diffy`.
#[verifier::external_type_specification]
#[verifier::external_body]
#[verifier::reject_recursive_types(T)]
pub struct ExPatch<'a, T: ToOwned + ?Sized>(diffy::Patch<'a, T>);

/// Why `diffy` could not parse a patch.
#[verifier::external_type_specification]
#[verifier::external_body]
pub struct ExParsePatchError(diffy::ParsePatchError);

/// Why `diffy` could not apply a patch.
#[verifier::external_type_specification]
#[verifier::external_body]
pub struct ExApplyError(diffy::ApplyError);

// ---------------------------------------------------------------------------
// Patches
// ---------------------------------------------------------------------------

/// What `diffy::create_patch` returns for two texts.
pub uninterp spec fn created_patch(
    original: Seq<char>,
    patched: Seq<char>,
) -> diffy::Patch<'static, str>;

/// How a `diffy::Patch` displays.
pub uninterp spec fn patch_text(patch: diffy::Patch<'static, str>) -> Seq<char>;

/// What `diffy::Patch::from_str` returns for a text.
pub uninterp spec fn parsed_patch(diff: Seq<char>) -> Result<
    diffy::Patch<'static, str>,
    diffy::ParsePatchError,
>;

/// What `diffy::apply` returns for a text and a patch.
pub uninterp spec fn applied_patch(
    original: Seq<char>,
    patch: diffy::Patch<'static, str>,
) -> Result<Seq<char>, diffy::ApplyError>;

/// How a `diffy::ParsePatchError` displays.
pub uninterp spec fn parse_error_text(error: diffy::ParsePatchError) -> Seq<char>;

/// How a `diffy::ApplyError` displays.
pub uninterp spec fn apply_error_text(error: diffy::ApplyError) -> Seq<char>;

/// A line without a carriage return at its end.
pub open spec fn without_return(line: Seq<char>) -> Seq<char> {
    if line.len() > 0 && line.last() == '\r' {
        line.drop_last()
    } else {
        line
    }
}

/// Whether a hunk header can be reversed: it has fewer than two words, or the
/// first two begin with a character of a single byte.
pub open spec fn reversible_header(line: Seq<char>) -> bool {
    let parts = header_words(line);
    parts.len() >= 2 ==> parts[0].len() > 0 && parts[0][0] < '\u{80}' && parts[1].len() > 0
        && parts[1][0] < '\u{80}'
}

/// Whether every hunk header in a list of lines can be reversed.
pub open spec fn reversible_headers(lines: Seq<Seq<char>>) -> bool {
    forall|i: int|
        0 <= i < lines.len() && begins_with(#[trigger] lines[i], "@@ "@) ==> reversible_header(
            without_return(lines[i]),
        )
}

/// Whether the end of a range can be counted: a range is a number and a length
/// behind a comma, or a number alone for a single line. What is not a range has
/// no end to count.
pub open spec fn end_fits(range: Seq<char>) -> bool {
    let comma = first_index(range, ',');
    let start = unsigned_value(range.take(comma), usize::MAX as int);
    let len = if comma < range.len() {
        unsigned_value(range.skip(comma + 1), usize::MAX as int)
    } else {
        Some(1)
    };
    start is Some && len is Some ==> start->0 + len->0 <= usize::MAX
}

/// Whether the ends of the two ranges of a hunk header can be counted.
pub open spec fn header_fits(line: Seq<char>) -> bool {
    let parts = header_words(line);
    parts.len() >= 2 && parts[0].len() > 0 && parts[1].len() > 0 ==> end_fits(parts[0].skip(1))
        && end_fits(parts[1].skip(1))
}

/// Whether the ends of the ranges can be counted in every hunk header that is
/// followed by another one.
pub open spec fn ends_fit(lines: Seq<Seq<char>>) -> bool {
    forall|i: int, j: int|
        0 <= i < j < lines.len() && begins_with(#[trigger] lines[i], "@@ "@) && begins_with(
            #[trigger] lines[j],
            "@@ "@,
        ) ==> header_fits(lines[i])
}

/// The hunks of a `diffy::Patch`.
pub uninterp spec fn patch_hunks(patch: diffy::Patch<'static, str>) -> Seq<DiffHunk>;

/// Whether a text that is a printed diff was parsed to its hunks, and prints as
/// it was.
pub open spec fn parsed_as_printed(
    diff: Seq<char>,
    outcome: Result<diffy::Patch<'static, str>, diffy::ParsePatchError>,
) -> bool {
    forall|old_name: Seq<char>, new_name: Seq<char>, hunks: Seq<DiffHunk>|
        diff == #[trigger] printed_patch(old_name, new_name, hunks) && plain_name(old_name)
            && plain_name(new_name) && valid_hunks(hunks) ==> {
            &&& outcome is Ok
            &&& patch_text(outcome->Ok_0) == diff
            &&& patch_hunks(outcome->Ok_0) == hunks
        }
}

/// Calls `diffy::create_patch`. The patch depends on the two texts alone. Its
/// hunks lead from the first to the second, and it prints as a unified diff with
/// them. Applied to the first text it gives the second, and printed it parses to
/// itself.
#[verifier::external_body]
fn create_patch<'a>(original: &'a str, patched: &'a str) -> (patch: diffy::Patch<'a, str>)
    ensures
        patch == created_patch(original@, patched@),
        valid_hunks(patch_hunks(patch)),
        describes(patch_hunks(patch), whole_lines(original@), whole_lines(patched@), 0, 0),
        patch_text(patch) == printed_patch("original"@, "modified"@, patch_hunks(patch)),
        applied_patch(original@, patch) is Ok,
        applied_patch(original@, patch)->Ok_0 == patched@,
        parsed_patch(patch_text(patch)) is Ok,
        parsed_patch(patch_text(patch))->Ok_0 == patch,
{
    diffy::create_patch(original, patched)
}

/// Calls `ToString::to_string` on a `diffy::Patch`. The text depends on the
/// patch alone.
#[verifier::external_body]
fn print_patch(patch: &diffy::Patch<'_, str>) -> (text: String)
    ensures
        text@ == patch_text(*patch),
{
    patch.to_string()
}

/// Calls `diffy::Patch::from_str`. The outcome depends on the text alone; a
/// printed diff is parsed to its hunks, and prints as it was. The parser counts
/// the end of every hunk but the last, which must not overflow.
#[verifier::external_body]
fn parse_patch(diff: &str) -> (outcome: Result<diffy::Patch<'_, str>, diffy::ParsePatchError>)
    requires
        ends_fit(feed_lines(diff@)),
    ensures
        outcome == parsed_patch(diff@),
        parsed_as_printed(diff@, outcome),
{
    diffy::Patch::from_str(diff)
}

/// Calls `diffy::apply`. The outcome depends on the text and the patch alone;
/// hunks that fit where their ranges put them are applied there.
#[verifier::external_body]
fn apply_patch(original: &str, patch: &diffy::Patch<'_, str>) -> (outcome: Result<
    String,
    diffy::ApplyError,
>)
    ensures
        match outcome {
            Ok(text) => applied_patch(original@, *patch) matches Ok(t) && t == text@,
            Err(error) => applied_patch(original@, *patch) matches Err(e) && e == error,
        },
        match applied_in_place(whole_lines(original@), 0, patch_hunks(*patch)) {
            Some(lines) => outcome matches Ok(text) && text@ == concatenated(lines),
            None => true,
        },
{
    diffy::apply(original, patch)
}

/// Calls `ToString::to_string` on a `diffy::ParsePatchError`.
#[verifier::external_body]
fn print_parse_error(error: &diffy::ParsePatchError) -> (text: String)
    ensures
        text@ == parse_error_text(*error),
{
    error.to_string()
}

/// Calls `ToString::to_string` on a `diffy::ApplyError`.
#[verifier::external_body]
fn print_apply_error(error: &diffy::ApplyError) -> (text: String)
    ensures
        text@ == apply_error_text(*error),
{
    error.to_string()
}

// ---------------------------------------------------------------------------
// Making and applying diffs
// ---------------------------------------------------------------------------

/// Why a diff could not be used; each holds the message of the patch library.
#[derive(Debug, PartialEq)]
pub enum DiffError {
    /// The diff could not be parsed.
    Parse(String),
    /// The diff could not be applied.
    Apply(String),
    /// The diff could not be parsed in order to reverse it.
    ParseForReconstruction(String),
    /// The reversed diff could not be parsed.
    ParseReversed(String),
    /// The reversed diff could not be applied.
    ApplyReversed(String),
}

/// What a diff error holds.
pub enum DiffErrorModel {
    Parse(Seq<char>),
    Apply(Seq<char>),
    ParseForReconstruction(Seq<char>),
    ParseReversed(Seq<char>),
    ApplyReversed(Seq<char>),
}

impl View for DiffError {
    type V = DiffErrorModel;

    open spec fn view(&self) -> DiffErrorModel {
        match self {
            DiffError::Parse(m) => DiffErrorModel::Parse(m@),
            DiffError::Apply(m) => DiffErrorModel::Apply(m@),
            DiffError::ParseForReconstruction(m) => DiffErrorModel::ParseForReconstruction(m@),
            DiffError::ParseReversed(m) => DiffErrorModel::ParseReversed(m@),
            DiffError::ApplyReversed(m) => DiffErrorModel::ApplyReversed(m@),
        }
    }
}

/// The message of a diff error.
pub open spec fn diff_error_message(error: DiffErrorModel) -> Seq<char> {
    match error {
        DiffErrorModel::Parse(m) => "failed to parse diff: "@ + m,
        DiffErrorModel::Apply(m) => "failed to apply diff: "@ + m,
        DiffErrorModel::ParseForReconstruction(m) => "failed to parse diff for reconstruction: "@
            + m,
        DiffErrorModel::ParseReversed(m) => "failed to parse reversed diff: "@ + m,
        DiffErrorModel::ApplyReversed(m) => "failed to apply reversed diff: "@ + m,
    }
}

impl DiffError {
    /// The message of the error.
    pub fn message(&self) -> (message: String)
        ensures
            message@ == diff_error_message(self@),
    {
        let (start, end) = match self {
            DiffError::Parse(m) => ("failed to parse diff: ", m),
            DiffError::Apply(m) => ("failed to apply diff: ", m),
            DiffError::ParseForReconstruction(m) => (
                "failed to parse diff for reconstruction: ",
                m,
            ),
            DiffError::ParseReversed(m) => ("failed to parse reversed diff: ", m),
            DiffError::ApplyReversed(m) => ("failed to apply reversed diff: ", m),
        };
        let mut message: String = start.to_owned();
        message.append(end.as_str());
        message
    }
}

/// What the outcome of using a diff holds.
pub open spec fn diff_outcome(outcome: Result<String, DiffError>) -> Result<
    Seq<char>,
    DiffErrorModel,
> {
    match outcome {
        Ok(text) => Ok(text@),
        Err(error) => Err(error@),
    }
}

/// The diff between two texts; none if they are the same.
pub open spec fn diff_between(original: Seq<char>, patched: Seq<char>) -> Option<Seq<char>> {
    if original == patched {
        None
    } else {
        Some(patch_text(created_patch(original, patched)))
    }
}

/// What is said of a diff with a range whose end cannot be counted.
pub const RANGE_TOO_LARGE: &'static str = "error parsing patch: hunk range too large";

/// What a diff is parsed to, or why it cannot be.
pub open spec fn read_diff(diff: Seq<char>) -> Result<diffy::Patch<'static, str>, Seq<char>> {
    if ends_fit(feed_lines(diff)) {
        match parsed_patch(diff) {
            Ok(patch) => Ok(patch),
            Err(error) => Err(parse_error_text(error)),
        }
    } else {
        Err(RANGE_TOO_LARGE@)
    }
}

/// What applying a diff to a text gives.
pub open spec fn patched_text(original: Seq<char>, diff: Seq<char>) -> Result<
    Seq<char>,
    DiffErrorModel,
> {
    match read_diff(diff) {
        Err(message) => Err(DiffErrorModel::Parse(message)),
        Ok(patch) => match applied_patch(original, patch) {
            Ok(text) => Ok(text),
            Err(error) => Err(DiffErrorModel::Apply(apply_error_text(error))),
        },
    }
}

/// What undoing a diff gives: the diff is printed anew, reversed and applied.
pub open spec fn reconstructed_text(patched: Seq<char>, diff: Seq<char>) -> Result<
    Seq<char>,
    DiffErrorModel,
> {
    match read_diff(diff) {
        Err(message) => Err(DiffErrorModel::ParseForReconstruction(message)),
        Ok(patch) => match read_diff(reversed_patch(patch_text(patch))) {
            Err(message) => Err(DiffErrorModel::ParseReversed(message)),
            Ok(reversed) => match applied_patch(patched, reversed) {
                Ok(text) => Ok(text),
                Err(error) => Err(DiffErrorModel::ApplyReversed(apply_error_text(error))),
            },
        },
    }
}

/// Whether the hunk headers of a diff, printed anew, can be reversed.
pub open spec fn reversible_diff(diff: Seq<char>) -> bool {
    read_diff(diff) matches Ok(patch) ==> reversible_headers(feed_lines(patch_text(patch)))
}

/// The lines of a text without their line feeds.
fn split_at_feeds(text: &str) -> (lines: Vec<String>)
    ensures
        texts(lines@) == feed_lines(text@),
{
    let whole: Vec<String> = split_lines_whole(text);
    let ghost all = texts(whole@);
    let mut lines: Vec<String> = Vec::new();
    let mut i: usize = 0;
    while i < whole.len()
        invariant
            i <= whole.len(),
            all == texts(whole@),
            all == whole_lines(text@),
            texts(lines@) == feed_lines(text@).take(i as int),
        decreases whole.len() - i,
    {
        let ghost done = texts(lines@);
        let chars: Vec<char> = chars_of(whole[i].as_str());
        let count: usize = chars.len();
        let to: usize = if count > 0 && chars[count - 1] == '\n' {
            count - 1
        } else {
            count
        };
        let line: String = text_between(&chars, 0, to);
        assert(all[i as int] == whole@[i as int]@);
        assert(line@ =~= without_feed(all[i as int]));
        lines.push(line);
        assert(texts(lines@) =~= done.push(line@));
        assert(feed_lines(text@).take(i + 1) =~= feed_lines(text@).take(i as int).push(
            feed_lines(text@)[i as int],
        ));
        i += 1;
    }
    assert(feed_lines(text@).take(i as int) =~= feed_lines(text@));
    lines
}

/// Finds out whether the end of a range can be counted.
fn check_end(range: &str) -> (fits: bool)
    ensures
        fits == end_fits(range@),
{
    let chars: Vec<char> = chars_of(range);
    assert(chars@.skip(0) =~= chars@);
    let comma: usize = find_from(&chars, ',', 0);
    let count: usize = chars.len();
    let first: String = text_between(&chars, 0, comma);
    assert(first@ =~= range@.take(comma as int));
    let start: Option<usize> = parse_usize(first.as_str());
    let len: Option<usize> = if comma < count {
        let second: String = text_between(&chars, comma + 1, count);
        assert(second@ =~= range@.skip(comma + 1));
        parse_usize(second.as_str())
    } else {
        Some(1)
    };
    match (start, len) {
        (Some(s), Some(l)) => l <= usize::MAX - s,
        _ => true,
    }
}

/// Finds out whether the ends of the two ranges of a hunk header can be counted.
fn check_ends(line: &str) -> (fits: bool)
    ensures
        fits == header_fits(line@),
{
    let inner: String = trim(strip_char(line, '@').as_str());
    let parts: Vec<String> = split_words(inner.as_str());
    let ghost all = header_words(line@);
    assert(texts(parts@) == all);
    if parts.len() < 2 {
        return true;
    }
    assert(all[0] == parts@[0]@);
    assert(all[1] == parts@[1]@);
    let first: Vec<char> = chars_of(parts[0].as_str());
    let second: Vec<char> = chars_of(parts[1].as_str());
    if first.len() == 0 || second.len() == 0 {
        return true;
    }
    let old_range: String = text_between(&first, 1, first.len());
    let new_range: String = text_between(&second, 1, second.len());
    assert(old_range@ =~= all[0].skip(1));
    assert(new_range@ =~= all[1].skip(1));
    check_end(old_range.as_str()) && check_end(new_range.as_str())
}

/// Finds out whether the ends of the ranges can be counted in every hunk header
/// that is followed by another one.
fn check_all_ends(lines: &Vec<String>) -> (fits: bool)
    ensures
        fits == ends_fit(texts(lines@)),
{
    let ghost all = texts(lines@);
    let mut last_fits: bool = true;
    let mut i: usize = 0;
    while i < lines.len()
        invariant
            i <= lines.len(),
            all == texts(lines@),
            last_fits == forall|k: int|
                0 <= k < i && begins_with(#[trigger] all[k], "@@ "@) ==> header_fits(all[k]),
            ends_fit(all.take(i as int)),
        decreases lines.len() - i,
    {
        let ghost before = last_fits;
        assert(all[i as int] == lines@[i as int]@);
        if text_begins_with(lines[i].as_str(), "@@ ") {
            if !last_fits {
                proof {
                    let k = choose|k: int|
                        0 <= k < i && begins_with(#[trigger] all[k], "@@ "@) && !header_fits(
                            all[k],
                        );
                    assert(begins_with(all[k], "@@ "@) && begins_with(all[i as int], "@@ "@));
                    assert(!ends_fit(all));
                }
                return false;
            }
            last_fits = check_ends(lines[i].as_str());
        }
        proof {
            let more = all.take(i + 1);
            assert forall|k: int, j: int|
                0 <= k < j < more.len() && begins_with(#[trigger] more[k], "@@ "@) && begins_with(
                    #[trigger] more[j],
                    "@@ "@,
                ) implies header_fits(more[k]) by {
                assert(more[k] == all[k]);
                if j < i {
                    assert(all.take(i as int)[k] == more[k]);
                    assert(all.take(i as int)[j] == more[j]);
                }
            }
            if last_fits {
                assert forall|k: int|
                    0 <= k < i + 1 && begins_with(#[trigger] all[k], "@@ "@) implies header_fits(
                    all[k],
                ) by {}
            } else if before {
                assert(begins_with(all[i as int], "@@ "@) && !header_fits(all[i as int]));
            }
        }
        i += 1;
    }
    assert(all.take(i as int) =~= all);
    true
}

/// Parses a diff.
fn read_patch(diff: &str) -> (outcome: Result<diffy::Patch<'_, str>, String>)
    ensures
        match outcome {
            Ok(patch) => read_diff(diff@) matches Ok(p) && p == patch && parsed_as_printed(
                diff@,
                parsed_patch(diff@),
            ),
            Err(message) => read_diff(diff@) matches Err(m) && m == message@ && (ends_fit(
                feed_lines(diff@),
            ) ==> parsed_as_printed(diff@, parsed_patch(diff@))),
        },
{
    if !check_all_ends(&split_at_feeds(diff)) {
        return Err(RANGE_TOO_LARGE.to_owned());
    }
    match parse_patch(diff) {
        Ok(patch) => Ok(patch),
        Err(error) => Err(print_parse_error(&error)),
    }
}

/// Computes a unified diff between `original` and `patched`; `None` if they
/// are the same. A diff that is returned leads from `original` to `patched`, and
/// gives `patched` when it is applied to `original`.
pub fn compute_diff(original: &str, patched: &str) -> (diff: Option<String>)
    ensures
        crate::text::text_view(diff) == diff_between(original@, patched@),
        diff is Some ==> leads(diff->0@, original@, patched@) && reversible_diff(diff->0@),
        diff is Some ==> patched_text(original@, diff->0@) == Ok::<Seq<char>, DiffErrorModel>(
            patched@,
        ),
{
    if same_text(original, patched) {
        return None;
    }
    let patch = create_patch(original, patched);
    proof {
        names_are_plain();
        printed_headers_reverse("original"@, "modified"@, patch_hunks(patch));
        printed_ranges_fit("original"@, "modified"@, patch_hunks(patch));
    }
    Some(print_patch(&patch))
}

/// Applies a diff to a text. A diff that leads from this text to another gives
/// the other.
pub fn apply_diff(original: &str, diff: &str) -> (outcome: Result<String, DiffError>)
    ensures
        diff_outcome(outcome) == patched_text(original@, diff@),
        forall|patched: Seq<char>| #[trigger]
            leads(diff@, original@, patched) ==> diff_outcome(outcome) == Ok::<
                Seq<char>,
                DiffErrorModel,
            >(patched),
{
    proof {
        names_are_plain();
        assert forall|hunks: Seq<DiffHunk>, patched: Seq<char>|
            diff@ == #[trigger] printed_patch("original"@, "modified"@, hunks) && valid_hunks(hunks)
                && #[trigger] describes(
                hunks,
                whole_lines(original@),
                whole_lines(patched),
                0,
                0,
            ) implies applied_in_place(whole_lines(original@), 0, hunks) == Some(
            whole_lines(patched),
        ) && concatenated(whole_lines(patched)) == patched && ends_fit(feed_lines(diff@)) by {
            described_text(hunks, original@, patched);
            printed_ranges_fit("original"@, "modified"@, hunks);
        }
    }
    match read_patch(diff) {
        Err(message) => Err(DiffError::Parse(message)),
        Ok(patch) => match apply_patch(original, &patch) {
            Ok(text) => Ok(text),
            Err(error) => Err(DiffError::Apply(print_apply_error(&error))),
        },
    }
}

/// Undoes a diff on the text that it led to. A diff that leads from a text to
/// this one gives the text that it leads from.
pub fn reconstruct_original(patched: &str, diff: &str) -> (outcome: Result<String, DiffError>)
    requires
        reversible_diff(diff@),
    ensures
        diff_outcome(outcome) == reconstructed_text(patched@, diff@),
        forall|original: Seq<char>| #[trigger]
            leads(diff@, original, patched@) ==> diff_outcome(outcome) == Ok::<
                Seq<char>,
                DiffErrorModel,
            >(original),
{
    proof {
        names_are_plain();
        assert forall|original: Seq<char>| #[trigger]
            leads(diff@, original, patched@) implies exists|turned: Seq<DiffHunk>|
            reversed_patch(diff@) == #[trigger] printed_patch("modified"@, "original"@, turned)
                && valid_hunks(turned) && applied_in_place(whole_lines(patched@), 0, turned)
                == Some(whole_lines(original)) && concatenated(whole_lines(original))
                == original by {
            undone(diff@, original, patched@);
        }
        assert forall|original: Seq<char>| #[trigger]
            leads(diff@, original, patched@) implies exists|hunks: Seq<DiffHunk>|
            diff@ == #[trigger] printed_patch("original"@, "modified"@, hunks) && valid_hunks(
                hunks,
            ) by {}
        assert forall|hunks: Seq<DiffHunk>|
            valid_hunks(hunks) implies ends_fit(feed_lines(
            #[trigger] printed_patch("original"@, "modified"@, hunks),
        )) by {
            printed_ranges_fit("original"@, "modified"@, hunks);
        }
        assert forall|hunks: Seq<DiffHunk>|
            valid_hunks(hunks) implies ends_fit(feed_lines(
            #[trigger] printed_patch("modified"@, "original"@, hunks),
        )) by {
            printed_ranges_fit("modified"@, "original"@, hunks);
        }
    }
    let patch = match read_patch(diff) {
        Err(message) => return Err(DiffError::ParseForReconstruction(message)),
        Ok(patch) => patch,
    };
    let forward: String = print_patch(&patch);
    let backward: String = reverse_patch_str(forward.as_str());
    match read_patch(backward.as_str()) {
        Err(message) => Err(DiffError::ParseReversed(message)),
        Ok(reversed) => match apply_patch(patched, &reversed) {
            Ok(text) => Ok(text),
            Err(error) => Err(DiffError::ApplyReversed(print_apply_error(&error))),
        },
    }
}

/// Finds out whether a hunk header can be reversed.
fn check_header(line: &str) -> (reversible: bool)
    ensures
        reversible == reversible_header(line@),
{
    let inner: String = trim(strip_char(line, '@').as_str());
    let parts: Vec<String> = split_words(inner.as_str());
    let ghost all = header_words(line@);
    assert(texts(parts@) == all);
    if parts.len() < 2 {
        return true;
    }
    assert(all[0] == parts@[0]@);
    assert(all[1] == parts@[1]@);
    let first: Vec<char> = chars_of(parts[0].as_str());
    let second: Vec<char> = chars_of(parts[1].as_str());
    first.len() > 0 && first[0] < '\u{80}' && second.len() > 0 && second[0] < '\u{80}'
}

/// Finds out whether the hunk headers of a diff, printed anew, can be reversed.
pub fn check_reversible(diff: &str) -> (reversible: bool)
    ensures
        reversible == reversible_diff(diff@),
{
    let patch = match read_patch(diff) {
        Err(_) => return true,
        Ok(patch) => patch,
    };
    let lines: Vec<String> = split_at_feeds(print_patch(&patch).as_str());
    let ghost all = texts(lines@);
    let mut i: usize = 0;
    while i < lines.len()
        invariant
            i <= lines.len(),
            all == texts(lines@),
            read_diff(diff@) matches Ok(p) && all == feed_lines(patch_text(p)),
            reversible_headers(all.take(i as int)),
        decreases lines.len() - i,
    {
        assert(all[i as int] == lines@[i as int]@);
        if text_begins_with(lines[i].as_str(), "@@ ") && !check_header(
            drop_return(lines[i].as_str()).as_str(),
        ) {
            assert(!reversible_headers(all));
            return false;
        }
        proof {
            let more = all.take(i + 1);
            assert forall|k: int|
                0 <= k < more.len() && begins_with(
                    #[trigger] more[k],
                    "@@ "@,
                ) implies reversible_header(without_return(more[k])) by {
                if k < i {
                    assert(all.take(i as int)[k] == more[k]);
                }
            }
        }
        i += 1;
    }
    assert(all.take(i as int) =~= all);
    true
}

/// Undoes a diff on the text that it led to; nothing if its hunk headers cannot
/// be reversed.
pub fn undo_diff(patched: &str, diff: &str) -> (undone: Option<Result<String, DiffError>>)
    ensures
        match undone {
            Some(outcome) => reversible_diff(diff@) && diff_outcome(outcome) == reconstructed_text(
                patched@,
                diff@,
            ),
            None => !reversible_diff(diff@),
        },
{
    if check_reversible(diff) {
        Some(reconstruct_original(patched, diff))
    } else {
        None
    }
}

// ---------------------------------------------------------------------------
// Reversing a patch
// ---------------------------------------------------------------------------

/// The words of a hunk header between its `@`s.
pub open spec fn header_words(line: Seq<char>) -> Seq<Seq<char>> {
    words(trimmed(stripped_end(stripped_start(line, '@'), '@')))
}

/// A hunk header with its two ranges swapped; a line with fewer than two words
/// stays as it is.
pub open spec fn reversed_header(line: Seq<char>) -> Seq<char> {
    let parts = header_words(line);
    if parts.len() >= 2 {
        let rest = if parts.len() > 2 {
            " "@ + joined(parts.skip(2), " "@)
        } else {
            Seq::empty()
        };
        "@@ "@ + ("-"@ + parts[1].skip(1)) + " "@ + ("+"@ + parts[0].skip(1)) + rest + " @@"@
    } else {
        line
    }
}

/// A hunk header with its two ranges swapped; a carriage return at its end stays.
pub open spec fn reversed_header_line(line: Seq<char>) -> Seq<char> {
    reversed_header(without_return(line)) + if line.len() > 0 && line.last() == '\r' {
        seq!['\r']
    } else {
        Seq::empty()
    }
}

/// Whether a line of a hunk adds or removes something.
pub open spec fn is_change(line: Seq<char>) -> bool {
    begins_with(line, "-"@) || begins_with(line, "+"@)
}

/// Whether a line says that the line before has no line feed.
pub open spec fn is_mark(line: Seq<char>) -> bool {
    begins_with(line, NO_LINE_FEED@)
}

/// The number of changed lines, and of marks behind them, with which `lines`
/// begins.
pub open spec fn change_count(lines: Seq<Seq<char>>) -> int
    decreases lines.len(),
{
    if lines.len() == 0 || !(is_change(lines[0]) || is_mark(lines[0])) {
        0
    } else {
        1 + change_count(lines.drop_first())
    }
}

/// Whether the last changed line of a block adds something.
pub open spec fn adds_last(block: Seq<Seq<char>>) -> bool
    decreases block.len(),
{
    if block.len() == 0 {
        false
    } else if is_change(block.last()) {
        begins_with(block.last(), "+"@)
    } else {
        adds_last(block.drop_last())
    }
}

/// The lines that a block of changes removes when it is reversed; a mark stays
/// behind its line.
pub open spec fn now_removed(block: Seq<Seq<char>>) -> Seq<Seq<char>>
    decreases block.len(),
{
    if block.len() == 0 {
        Seq::empty()
    } else {
        let line = block.last();
        let front = now_removed(block.drop_last());
        if !adds_last(block) {
            front
        } else if is_change(line) {
            front.push("-"@ + line.skip(1))
        } else {
            front.push(line)
        }
    }
}

/// The lines that a block of changes adds when it is reversed; a mark stays
/// behind its line.
pub open spec fn now_added(block: Seq<Seq<char>>) -> Seq<Seq<char>>
    decreases block.len(),
{
    if block.len() == 0 {
        Seq::empty()
    } else {
        let line = block.last();
        let front = now_added(block.drop_last());
        if adds_last(block) {
            front
        } else if is_change(line) {
            front.push("+"@ + line.skip(1))
        } else {
            front.push(line)
        }
    }
}

/// `change_count` is within bounds and not zero on a changed line.
pub proof fn change_count_bounds(lines: Seq<Seq<char>>)
    ensures
        0 <= change_count(lines) <= lines.len(),
        lines.len() > 0 && is_change(lines[0]) ==> change_count(lines) > 0,
    decreases lines.len(),
{
    if lines.len() > 0 && (is_change(lines[0]) || is_mark(lines[0])) {
        change_count_bounds(lines.drop_first());
    }
}

/// The lines of the hunks, reversed: ranges swap, and in every block of changes
/// the removed lines come before the added ones.
pub open spec fn reversed_hunks(lines: Seq<Seq<char>>) -> Seq<Seq<char>>
    decreases lines.len(),
    via reversed_hunks_decreases
{
    if lines.len() == 0 {
        Seq::empty()
    } else if begins_with(lines[0], "@@ "@) {
        seq![reversed_header_line(lines[0])] + reversed_hunks(lines.drop_first())
    } else if is_change(lines[0]) {
        let n = change_count(lines);
        now_removed(lines.take(n)) + now_added(lines.take(n)) + reversed_hunks(lines.skip(n))
    } else {
        seq![lines[0]] + reversed_hunks(lines.drop_first())
    }
}

#[via_fn]
proof fn reversed_hunks_decreases(lines: Seq<Seq<char>>) {
    change_count_bounds(lines);
}

/// The position of the first line that names the original file, or the number
/// of lines.
pub open spec fn original_index(lines: Seq<Seq<char>>) -> int
    decreases lines.len(),
{
    if lines.len() == 0 || begins_with(lines[0], "--- "@) {
        0
    } else {
        1 + original_index(lines.drop_first())
    }
}

/// The lines of a patch, reversed.
pub open spec fn reversed_lines(lines: Seq<Seq<char>>) -> Seq<Seq<char>> {
    let at = original_index(lines);
    if at >= lines.len() {
        lines
    } else if at + 1 < lines.len() && begins_with(lines[at + 1], "+++ "@) {
        lines.take(at) + seq![
            "--- "@ + lines[at + 1].skip(4),
            "+++ "@ + lines[at].skip(4),
        ] + reversed_hunks(lines.skip(at + 2))
    } else {
        lines.take(at) + seq!["+++ "@ + lines[at].skip(4)] + reversed_hunks(lines.skip(at + 1))
    }
}

/// The text of a patch, reversed. Carriage returns stay at the ends of their
/// lines.
pub open spec fn reversed_patch(patch: Seq<char>) -> Seq<char> {
    joined(reversed_lines(feed_lines(patch)), "\n"@) + if patch.len() > 0 && patch.last() == '\n' {
        "\n"@
    } else {
        Seq::empty()
    }
}

/// `line` with its first `count` characters replaced by `start`.
fn replace_start(line: &str, count: usize, start: &str) -> (text: String)
    requires
        count <= line@.len(),
    ensures
        text@ == start@ + line@.skip(count as int),
{
    let chars: Vec<char> = chars_of(line);
    let mut text: String = start.to_owned();
    assert(chars@.subrange(count as int, chars@.len() as int) == chars@.skip(count as int));
    text.append(text_between(&chars, count, chars.len()).as_str());
    text
}

/// `line` without a carriage return at its end.
fn drop_return(line: &str) -> (rest: String)
    ensures
        rest@ == without_return(line@),
{
    let chars: Vec<char> = chars_of(line);
    let count: usize = chars.len();
    let to: usize = if count > 0 && chars[count - 1] == '\r' {
        count - 1
    } else {
        count
    };
    let rest: String = text_between(&chars, 0, to);
    assert(rest@ =~= without_return(line@));
    rest
}

/// Swaps the two ranges of a hunk header; a carriage return at its end stays.
fn reverse_header_line(line: &str) -> (reversed: String)
    requires
        reversible_header(without_return(line@)),
    ensures
        reversed@ == reversed_header_line(line@),
{
    let mut reversed: String = reverse_hunk_header(drop_return(line).as_str());
    if text_ends_with_char(line, '\r') {
        reversed.append("\r");
        proof {
            reveal_strlit("\r");
            assert("\r"@ =~= seq!['\r']);
        }
    } else {
        assert(reversed@ + Seq::<char>::empty() =~= reversed@);
    }
    reversed
}

/// Swaps the two ranges of a hunk header.
pub fn reverse_hunk_header(line: &str) -> (reversed: String)
    requires
        reversible_header(line@),
    ensures
        reversed@ == reversed_header(line@),
{
    let inner: String = trim(strip_char(line, '@').as_str());
    let parts: Vec<String> = split_words(inner.as_str());
    let ghost all = header_words(line@);
    assert(texts(parts@) == all);
    if parts.len() >= 2 {
        assert(all[0] == parts@[0]@);
        assert(all[1] == parts@[1]@);
        let reversed_old: String = replace_start(parts[1].as_str(), 1, "-");
        let reversed_new: String = replace_start(parts[0].as_str(), 1, "+");
        let mut rest: String = String::new();
        if parts.len() > 2 {
            let mut others: Vec<String> = Vec::new();
            let mut i: usize = 2;
            while i < parts.len()
                invariant
                    2 <= i <= parts.len(),
                    others@ == parts@.subrange(2, i as int),
                decreases parts.len() - i,
            {
                others.push(parts[i].clone());
                i += 1;
            }
            assert(texts(others@) =~= all.skip(2));
            rest = " ".to_owned();
            rest.append(join(&others, " ").as_str());
        }
        let mut reversed: String = "@@ ".to_owned();
        reversed.append(reversed_old.as_str());
        reversed.append(" ");
        reversed.append(reversed_new.as_str());
        reversed.append(rest.as_str());
        reversed.append(" @@");
        reversed
    } else {
        line.to_owned()
    }
}

/// Whether a line of a hunk adds or removes something.
fn is_change_line(line: &str) -> (change: bool)
    ensures
        change == is_change(line@),
{
    text_begins_with(line, "-") || text_begins_with(line, "+")
}

/// Reverses the text of a patch: what it added it removes, and the other way
/// round. Lines end as they did, and a mark of a missing line feed stays behind
/// its line.
pub fn reverse_patch_str(patch: &str) -> (reversed: String)
    requires
        reversible_headers(feed_lines(patch@)),
    ensures
        reversed@ == reversed_patch(patch@),
{
    let lines: Vec<String> = split_at_feeds(patch);
    let ghost all = texts(lines@);
    let mut out: Vec<String> = Vec::new();
    let mut i: usize = 0;
    assert(all.skip(0) =~= all);
    while i < lines.len() && !text_begins_with(lines[i].as_str(), "--- ")
        invariant
            i <= lines.len(),
            all == texts(lines@),
            texts(out@) == all.take(i as int),
            original_index(all) == i + original_index(all.skip(i as int)),
        decreases lines.len() - i,
    {
        assert(all.skip(i as int)[0] == lines@[i as int]@);
        assert(all.skip(i as int).drop_first() =~= all.skip(i + 1));
        let ghost done = texts(out@);
        out.push(lines[i].clone());
        assert(texts(out@) =~= done.push(all[i as int]));
        assert(all.take(i + 1) =~= all.take(i as int).push(all[i as int]));
        i += 1;
    }
    let ghost at = i as int;
    if i < lines.len() {
        proof {
            assert(all.skip(at)[0] == all[at]);
            assert(original_index(all) == at);
            reveal_strlit("--- ");
            reveal_strlit("+++ ");
        }
        let ghost done = texts(out@);
        if i + 1 < lines.len() && text_begins_with(lines[i + 1].as_str(), "+++ ") {
            assert(all[at + 1] == lines@[at + 1]@);
            out.push(replace_start(lines[i + 1].as_str(), 4, "--- "));
            out.push(replace_start(lines[i].as_str(), 4, "+++ "));
            assert(texts(out@) =~= done + seq![
                "--- "@ + all[at + 1].skip(4),
                "+++ "@ + all[at].skip(4),
            ]);
            i += 2;
        } else {
            out.push(replace_start(lines[i].as_str(), 4, "+++ "));
            assert(texts(out@) =~= done + seq!["+++ "@ + all[at].skip(4)]);
            assert(at + 1 < all.len() ==> all[at + 1] == lines@[at + 1]@);
            i += 1;
        }
        assert(texts(out@) + reversed_hunks(all.skip(i as int)) =~= reversed_lines(all));
    } else {
        assert(texts(out@) + reversed_hunks(all.skip(i as int)) =~= reversed_lines(all));
    }
    while i < lines.len()
        invariant
            i <= lines.len(),
            all == texts(lines@),
            reversible_headers(all),
            texts(out@) + reversed_hunks(all.skip(i as int)) == reversed_lines(all),
        decreases lines.len() - i,
    {
        let ghost rest = all.skip(i as int);
        let ghost done = texts(out@);
        assert(rest[0] == lines@[i as int]@);
        assert(rest[0] == all[i as int]);
        assert(rest.drop_first() =~= all.skip(i + 1));
        if text_begins_with(lines[i].as_str(), "@@ ") {
            out.push(reverse_header_line(lines[i].as_str()));
            assert(texts(out@) =~= done.push(reversed_header_line(rest[0])));
            assert(texts(out@) + reversed_hunks(all.skip(i + 1)) =~= done + (seq![
                reversed_header_line(rest[0]),
            ] + reversed_hunks(all.skip(i + 1))));
            i += 1;
        } else if is_change_line(lines[i].as_str()) {
            let from: usize = i;
            let mut removed: Vec<String> = Vec::new();
            let mut added: Vec<String> = Vec::new();
            let mut adding: bool = false;
            assert(rest.take(0) =~= Seq::<Seq<char>>::empty());
            assert(texts(removed@) =~= now_removed(rest.take(0)));
            assert(texts(added@) =~= now_added(rest.take(0)));
            assert(rest.skip(0) =~= rest);
            while i < lines.len() && (is_change_line(lines[i].as_str()) || text_begins_with(
                lines[i].as_str(),
                NO_LINE_FEED,
            ))
                invariant
                    from <= i <= lines.len(),
                    all == texts(lines@),
                    rest == all.skip(from as int),
                    texts(removed@) == now_removed(rest.take(i - from)),
                    texts(added@) == now_added(rest.take(i - from)),
                    adding == adds_last(rest.take(i - from)),
                    change_count(rest) == i - from + change_count(rest.skip(i - from)),
                decreases lines.len() - i,
            {
                let ghost n = i - from;
                let ghost line = rest[n];
                assert(line == lines@[i as int]@);
                assert(rest.take(n + 1).drop_last() =~= rest.take(n));
                assert(rest.take(n + 1).last() == line);
                assert(rest.skip(n)[0] == line);
                assert(rest.skip(n).drop_first() =~= rest.skip(n + 1));
                let ghost was_removed = texts(removed@);
                let ghost was_added = texts(added@);
                proof {
                    reveal_strlit("-");
                    reveal_strlit("+");
                    if begins_with(line, "-"@) && begins_with(line, "+"@) {
                        assert(line.take(1)[0] == '-');
                        assert(line.take(1)[0] == '+');
                    }
                }
                let change: bool = is_change_line(lines[i].as_str());
                if change {
                    adding = text_begins_with(lines[i].as_str(), "+");
                }
                if !change && adding {
                    removed.push(lines[i].clone());
                    assert(texts(removed@) =~= was_removed.push(line));
                } else if !change {
                    added.push(lines[i].clone());
                    assert(texts(added@) =~= was_added.push(line));
                } else if adding {
                    removed.push(replace_start(lines[i].as_str(), 1, "-"));
                    assert(texts(removed@) =~= was_removed.push("-"@ + line.skip(1)));
                } else {
                    added.push(replace_start(lines[i].as_str(), 1, "+"));
                    assert(texts(added@) =~= was_added.push("+"@ + line.skip(1)));
                }
                i += 1;
            }
            let ghost n = i - from;
            proof {
                if i < lines@.len() {
                    assert(rest.skip(n)[0] == lines@[i as int]@);
                }
                assert(change_count(rest.skip(n)) == 0);
                assert(rest.skip(n) =~= all.skip(i as int));
            }
            let ghost removed_lines = removed@;
            let ghost added_lines = added@;
            out.append(&mut removed);
            out.append(&mut added);
            assert(texts(out@) =~= done + texts(removed_lines) + texts(added_lines));
            assert(texts(out@) + reversed_hunks(all.skip(i as int)) =~= done + (texts(removed_lines)
                + texts(added_lines) + reversed_hunks(all.skip(i as int))));
        } else {
            out.push(lines[i].clone());
            assert(texts(out@) =~= done.push(rest[0]));
            assert(texts(out@) + reversed_hunks(all.skip(i + 1)) =~= done + (seq![rest[0]]
                + reversed_hunks(all.skip(i + 1))));
            i += 1;
        }
    }
    assert(all.skip(i as int).len() == 0);
    assert(texts(out@) + Seq::<Seq<char>>::empty() =~= texts(out@));
    let mut reversed: String = join(&out, "\n");
    if text_ends_with_char(patch, '\n') {
        reversed.append("\n");
    } else {
        assert(reversed@ + Seq::<char>::empty() =~= reversed@);
    }
    reversed
}

} // verus!
