//! Which cells filters pick.
use vstd::prelude::*;

use crate::commands::{positions_to_accept, targets_among, STATUS_FIELDS};
use crate::diagnostics::{cell_diagnostics, kind_name, severity_name};
use crate::filter::{
    comma_values, filter_matches, has_diff, has_fixtures, has_test, index_matches, key_matches,
    null_matches, parsed_filter, some_kind, some_severity, FilterKey, FilterModel,
};
use crate::json::{member, member_index_is_first, member_of_with_member, JsonModel};
use crate::metadata::{data_of, fixtures_json, METADATA_KEY};
use crate::notebook::{CellModel, NotebookModel};
use crate::save_laws::decimal_has_value;
use crate::text::{
    begins_with, decimal, first_index, first_index_is_first, first_occurrence, is_digit, joined,
    occurs_in, split_on, stands_at, trimmed, unsigned_value,
};
use crate::view::{cell_view, view_json};
use crate::view_laws::{
    field_in, fields_cut_down_the_view, picks, shown_diagnostics, shown_field, view_shows_the_cell,
    view_shows_the_status,
};

verus! {

// ---------------------------------------------------------------------------
// What filters look at
// ---------------------------------------------------------------------------

/// A filter for what is there or not.
proof fn null_filter(
    filter: FilterModel,
    nb: NotebookModel,
    cell: CellModel,
    index: int,
    there: bool,
)
    requires
        forall|value: Seq<char>| #[trigger]
            key_matches(filter.key, nb, cell, index, value) == null_matches(there, value),
    ensures
        filter_matches(filter, nb, cell, index) <==> (filter.values.contains("not null"@) && there)
            || (filter.values.contains("null"@) && !there),
{
    let values = filter.values;
    if filter_matches(filter, nb, cell, index) {
        let i = choose|i: int|
            0 <= i < values.len() && key_matches(filter.key, nb, cell, index, #[trigger] values[i]);
        assert(null_matches(there, values[i]));
        assert(values.contains(values[i]));
    }
    if values.contains("not null"@) && there {
        let i = choose|i: int| 0 <= i < values.len() && values[i] == "not null"@;
        assert(key_matches(filter.key, nb, cell, index, values[i]));
    }
    if values.contains("null"@) && !there {
        let i = choose|i: int| 0 <= i < values.len() && values[i] == "null"@;
        assert(key_matches(filter.key, nb, cell, index, values[i]));
    }
}

/// The metadata of a cell, if it can be read.
pub open spec fn readable_metadata(cell: CellModel) -> Option<Seq<(Seq<char>, JsonModel)>> {
    match member(cell.additional, METADATA_KEY@) {
        Some(json) => match (json, data_of(json)) {
            (JsonModel::Object(members), Some(_)) => Some(members),
            _ => None,
        },
        None => None,
    }
}

/// A cell matches `diff:not null` if and only if a diff is shown of it: if the
/// member `diff` of its metadata is a string. It matches `diff:null` if and only
/// if null is shown.
pub proof fn diff_filter_goes_by_the_view(filter: FilterModel, nb: NotebookModel, index: int)
    requires
        filter.key is Diff,
        0 <= index < nb.cells.len(),
    ensures
        ({
            let cell = nb.cells[index];
            let shown = shown_field(nb, index, "diff"@)->0;
            let stored = match readable_metadata(cell) {
                Some(members) => member(members, "diff"@) is Some && member(
                    members,
                    "diff"@,
                )->0 is Text,
                None => false,
            };
            &&& shown_field(nb, index, "diff"@) is Some
            &&& shown is Text <==> stored
            &&& shown is Null <==> !stored
            &&& filter_matches(filter, nb, cell, index) <==> (filter.values.contains("not null"@)
                && shown is Text) || (filter.values.contains("null"@) && shown is Null)
        }),
{
    view_shows_the_cell(nb, index);
    null_filter(filter, nb, nb.cells[index], index, has_diff(nb.cells[index]));
}

/// A cell matches `test:not null` if and only if a test is shown of it, and
/// `test:null` if and only if null is shown.
pub proof fn test_filter_goes_by_the_view(filter: FilterModel, nb: NotebookModel, index: int)
    requires
        filter.key is Test,
        0 <= index < nb.cells.len(),
    ensures
        ({
            let cell = nb.cells[index];
            let shown = shown_field(nb, index, "test"@)->0;
            let stored = match readable_metadata(cell) {
                Some(members) => member(members, "test"@) is Some && !(member(
                    members,
                    "test"@,
                )->0 is Null),
                None => false,
            };
            &&& shown_field(nb, index, "test"@) is Some
            &&& shown is Object <==> stored
            &&& shown is Null <==> !stored
            &&& filter_matches(filter, nb, cell, index) <==> (filter.values.contains("not null"@)
                && shown is Object) || (filter.values.contains("null"@) && shown is Null)
        }),
{
    view_shows_the_cell(nb, index);
    null_filter(filter, nb, nb.cells[index], index, has_test(nb.cells[index]));
}

/// A cell matches `fixtures:not null` if and only if a fixture is shown of it,
/// and `fixtures:null` if and only if none is.
pub proof fn fixtures_filter_goes_by_the_view(filter: FilterModel, nb: NotebookModel, index: int)
    requires
        filter.key is Fixtures,
        0 <= index < nb.cells.len(),
    ensures
        ({
            let cell = nb.cells[index];
            let shown = shown_field(nb, index, "fixtures"@)->0;
            let some = shown is Object && shown->Object_0.len() > 0;
            &&& shown_field(nb, index, "fixtures"@) is Some
            &&& shown is Object || shown is Null
            &&& filter_matches(filter, nb, cell, index) <==> (filter.values.contains("not null"@)
                && some) || (filter.values.contains("null"@) && !some)
        }),
{
    let cell = nb.cells[index];
    view_shows_the_cell(nb, index);
    null_filter(filter, nb, cell, index, has_fixtures(cell));
    if let Some(data) = cell.data() {
        if let Some(entries) = data.fixtures {
            if entries.len() > 0 {
                let last = entries.last();
                let front = crate::metadata::fixture_members(entries.drop_last());
                let all = crate::metadata::fixture_members(entries);
                member_of_with_member(
                    front,
                    last.0,
                    crate::metadata::fixture_json(last.1),
                    last.0,
                );
                member_index_is_first(all, last.0);
            }
            assert(fixtures_json(entries)->Object_0.len() > 0 <==> entries.len() > 0);
        }
    }
}

/// A cell matches `cell:` if and only if its id is one of the values.
pub proof fn cell_filter_goes_by_the_id(
    filter: FilterModel,
    nb: NotebookModel,
    cell: CellModel,
    index: int,
)
    requires
        filter.key is Cell,
    ensures
        filter_matches(filter, nb, cell, index) <==> filter.values.contains(cell.id),
{
    let values = filter.values;
    if values.contains(cell.id) {
        let i = choose|i: int| 0 <= i < values.len() && values[i] == cell.id;
        assert(key_matches(filter.key, nb, cell, index, values[i]));
    }
}

/// A cell matches `status.valid:true` if and only if it is shown as valid, and
/// `status.valid:false` if and only if it is not.
pub proof fn status_filter_goes_by_the_view(filter: FilterModel, nb: NotebookModel, index: int)
    requires
        filter.key is StatusValid,
        0 <= index < nb.cells.len(),
    ensures
        ({
            let valid = field_in(shown_field(nb, index, "status"@)->0, "valid"@);
            filter_matches(filter, nb, nb.cells[index], index) <==> (filter.values.contains(
                "true"@,
            ) && valid == Some(JsonModel::Bool(true))) || (filter.values.contains("false"@)
                && valid == Some(JsonModel::Bool(false)))
        }),
{
    let values = filter.values;
    let cell = nb.cells[index];
    view_shows_the_status(nb, index);
    let own = if cell_diagnostics(nb, index).len() == 0 {
        "true"@
    } else {
        "false"@
    };
    if filter_matches(filter, nb, cell, index) {
        let i = choose|i: int|
            0 <= i < values.len() && key_matches(filter.key, nb, cell, index, #[trigger] values[i]);
        assert(values.contains(values[i]));
    }
    if values.contains(own) {
        let i = choose|i: int| 0 <= i < values.len() && values[i] == own;
        assert(key_matches(filter.key, nb, cell, index, values[i]));
    }
}

/// Whether one of the values stands under a key in one of the diagnostics that
/// are shown of a cell.
pub open spec fn shows_one_of(
    nb: NotebookModel,
    index: int,
    key: Seq<char>,
    values: Seq<Seq<char>>,
) -> bool {
    exists|k: int, i: int|
        0 <= k < shown_diagnostics(nb, index).len() && 0 <= i < values.len() && field_in(
            #[trigger] shown_diagnostics(nb, index)[k],
            key,
        ) == Some(JsonModel::Text(#[trigger] values[i]))
}

/// A cell matches `diagnostics.type:` if and only if one of its diagnostics is
/// shown with one of the values as its type.
pub proof fn type_filter_goes_by_the_view(filter: FilterModel, nb: NotebookModel, index: int)
    requires
        filter.key is DiagnosticsType,
        0 <= index < nb.cells.len(),
    ensures
        filter_matches(filter, nb, nb.cells[index], index) <==> shows_one_of(
            nb,
            index,
            "type"@,
            filter.values,
        ),
{
    let values = filter.values;
    let cell = nb.cells[index];
    let diagnostics = cell_diagnostics(nb, index);
    let shown = shown_diagnostics(nb, index);
    view_shows_the_status(nb, index);
    if filter_matches(filter, nb, cell, index) {
        let i = choose|i: int|
            0 <= i < values.len() && key_matches(filter.key, nb, cell, index, #[trigger] values[i]);
        assert(some_kind(diagnostics, values[i]));
        let k = choose|k: int|
            0 <= k < diagnostics.len() && kind_name((#[trigger] diagnostics[k]).kind) == values[i];
        assert(field_in(shown[k], "type"@) == Some(JsonModel::Text(values[i])));
    }
    if shows_one_of(nb, index, "type"@, values) {
        let (k, i) = choose|k: int, i: int|
            0 <= k < shown.len() && 0 <= i < values.len() && field_in(#[trigger] shown[k], "type"@)
                == Some(JsonModel::Text(#[trigger] values[i]));
        assert(kind_name(diagnostics[k].kind) == values[i]);
        assert(key_matches(filter.key, nb, cell, index, values[i]));
    }
}

/// A cell matches `diagnostics.severity:` if and only if one of its diagnostics
/// is shown with one of the values as its severity.
pub proof fn severity_filter_goes_by_the_view(filter: FilterModel, nb: NotebookModel, index: int)
    requires
        filter.key is DiagnosticsSeverity,
        0 <= index < nb.cells.len(),
    ensures
        filter_matches(filter, nb, nb.cells[index], index) <==> shows_one_of(
            nb,
            index,
            "severity"@,
            filter.values,
        ),
{
    let values = filter.values;
    let cell = nb.cells[index];
    let diagnostics = cell_diagnostics(nb, index);
    let shown = shown_diagnostics(nb, index);
    view_shows_the_status(nb, index);
    if filter_matches(filter, nb, cell, index) {
        let i = choose|i: int|
            0 <= i < values.len() && key_matches(filter.key, nb, cell, index, #[trigger] values[i]);
        assert(some_severity(diagnostics, values[i]));
        let k = choose|k: int|
            0 <= k < diagnostics.len() && severity_name((#[trigger] diagnostics[k]).severity)
                == values[i];
        assert(field_in(shown[k], "severity"@) == Some(JsonModel::Text(values[i])));
    }
    if shows_one_of(nb, index, "severity"@, values) {
        let (k, i) = choose|k: int, i: int|
            0 <= k < shown.len() && 0 <= i < values.len() && field_in(
                #[trigger] shown[k],
                "severity"@,
            ) == Some(JsonModel::Text(#[trigger] values[i]));
        assert(severity_name(diagnostics[k].severity) == values[i]);
        assert(key_matches(filter.key, nb, cell, index, values[i]));
    }
}

// ---------------------------------------------------------------------------
// Positions
// ---------------------------------------------------------------------------

/// Two dots behind a text without any are found.
proof fn dots_between(first: Seq<char>, rest: Seq<char>)
    requires
        forall|i: int| 0 <= i < first.len() ==> #[trigger] first[i] != '.',
    ensures
        first_occurrence(first + ".."@ + rest, ".."@) == Some(first.len() as int),
        (first + ".."@ + rest).take(first.len() as int) == first,
        (first + ".."@ + rest).skip(first.len() as int + 2) == rest,
        first.len() > 0 ==> !begins_with(first + ".."@ + rest, ".."@),
{
    reveal_strlit("..");
    reveal(first_occurrence);
    let whole = first + ".."@ + rest;
    let n = first.len() as int;
    assert(whole.subrange(n, n + 2) =~= ".."@);
    assert(stands_at(whole, ".."@, n));
    assert(occurs_in(whole, ".."@));
    assert forall|i: int| 0 <= i < n implies !stands_at(whole, ".."@, i) by {
        if stands_at(whole, ".."@, i) {
            assert(whole.subrange(i, i + 2)[0] == ".."@[0]);
            assert(whole[i] == first[i]);
        }
    }
    let at = first_occurrence(whole, ".."@)->0;
    assert(stands_at(whole, ".."@, at) && forall|i: int|
        0 <= i < at ==> !stands_at(whole, ".."@, i));
    assert(at == n);
    assert(whole.take(n) =~= first);
    assert(whole.skip(n + 2) =~= rest);
    if n > 0 && begins_with(whole, ".."@) {
        assert(whole.take(2)[0] == ".."@[0]);
        assert(whole[0] == first[0]);
    }
}

/// A text without a dot has no two of them.
proof fn none_without_dots(digits: Seq<char>)
    requires
        forall|i: int| 0 <= i < digits.len() ==> #[trigger] digits[i] != '.',
    ensures
        first_occurrence(digits, ".."@) is None,
        !begins_with(digits, ".."@),
{
    reveal_strlit("..");
    reveal(first_occurrence);
    assert forall|at: int| !stands_at(digits, ".."@, at) by {
        if stands_at(digits, ".."@, at) {
            assert(digits.subrange(at, at + 2)[0] == ".."@[0]);
            assert(digits[at] != '.');
        }
    }
    if begins_with(digits, ".."@) {
        assert(digits.take(2)[0] == ".."@[0]);
        assert(digits[0] != '.');
    }
}

/// A position matches `n` if it is that one, `n..m` if it is one of those from
/// the first to the last, `n..` if it is not before, and `..m` if it is not
/// behind.
pub proof fn index_filter_goes_by_the_position(index: int, from: usize, to: usize)
    ensures
        index_matches(index, decimal(from as nat)) <==> index == from,
        index_matches(index, decimal(from as nat) + ".."@ + decimal(to as nat)) <==> from <= index
            <= to,
        index_matches(index, decimal(from as nat) + ".."@) <==> from <= index,
        index_matches(index, ".."@ + decimal(to as nat)) <==> index <= to,
{
    reveal_strlit("..");
    let first = decimal(from as nat);
    let last = decimal(to as nat);
    decimal_has_value(from as nat);
    decimal_has_value(to as nat);
    assert(is_digit(first[0]));
    assert(is_digit(last[0]));
    assert forall|i: int| 0 <= i < first.len() implies #[trigger] first[i] != '.' by {
        assert(is_digit(first[i]));
    }
    none_without_dots(first);
    dots_between(first, last);
    dots_between(first, Seq::empty());
    assert(first + ".."@ + Seq::<char>::empty() =~= first + ".."@);
    let until = ".."@ + last;
    assert(until.take(2) =~= ".."@);
    assert(until.skip(2) =~= last);
}

/// A text that is no number picks no position, and none as the end of a range;
/// as the start of one it stands for the first position.
pub proof fn other_texts_are_no_positions(index: int, from: usize, to: usize, other: Seq<char>)
    requires
        0 <= index,
        other.len() > 0,
        !other.contains('.'),
        unsigned_value(other, usize::MAX as int) is None,
    ensures
        !index_matches(index, other),
        !index_matches(index, ".."@ + other),
        !index_matches(index, decimal(from as nat) + ".."@ + other),
        index_matches(index, other + ".."@),
        index_matches(index, other + ".."@ + decimal(to as nat)) <==> index <= to,
{
    reveal_strlit("..");
    let first = decimal(from as nat);
    let last = decimal(to as nat);
    decimal_has_value(from as nat);
    decimal_has_value(to as nat);
    assert(is_digit(first[0]));
    assert(is_digit(last[0]));
    assert forall|i: int| 0 <= i < first.len() implies #[trigger] first[i] != '.' by {
        assert(is_digit(first[i]));
    }
    assert forall|i: int| 0 <= i < other.len() implies #[trigger] other[i] != '.' by {
        assert(other.contains(other[i]));
    }
    none_without_dots(other);
    dots_between(first, other);
    dots_between(other, last);
    dots_between(other, Seq::empty());
    assert(other + ".."@ + Seq::<char>::empty() =~= other + ".."@);
    let until = ".."@ + other;
    assert(until.take(2) =~= ".."@);
    assert(until.skip(2) =~= other);
}

/// Whether one of the values of a filter picks a position.
pub proof fn index_filter_matches_by_value(
    filter: FilterModel,
    nb: NotebookModel,
    cell: CellModel,
    index: int,
)
    requires
        filter.key is Index,
    ensures
        filter_matches(filter, nb, cell, index) <==> exists|i: int|
            0 <= i < filter.values.len() && index_matches(index, #[trigger] filter.values[i]),
{
    let values = filter.values;
    if exists|i: int| 0 <= i < values.len() && index_matches(index, #[trigger] values[i]) {
        let i = choose|i: int| 0 <= i < values.len() && index_matches(index, #[trigger] values[i]);
        assert(key_matches(filter.key, nb, cell, index, values[i]));
    }
}

// ---------------------------------------------------------------------------
// Parsing
// ---------------------------------------------------------------------------

/// What stands before and behind the first separator.
proof fn around_separator(first: Seq<char>, separator: char, rest: Seq<char>)
    requires
        !first.contains(separator),
    ensures
        ({
            let whole = first + seq![separator] + rest;
            &&& first_index(whole, separator) == first.len()
            &&& whole.take(first.len() as int) == first
            &&& whole.skip(first.len() as int + 1) == rest
        }),
{
    let whole = first + seq![separator] + rest;
    first_index_is_first(whole, separator);
    let at = first_index(whole, separator);
    assert(whole[first.len() as int] == separator);
    if at < first.len() {
        assert(whole[at] == first[at]);
        assert(first.contains(separator));
    }
    assert(whole.take(first.len() as int) =~= first);
    assert(whole.skip(first.len() as int + 1) =~= rest);
}

/// Without filters every cell matches, and a single filter decides alone.
pub proof fn filters_decide(
    filter: FilterModel,
    nb: NotebookModel,
    cell: CellModel,
    index: int,
)
    ensures
        crate::filter::all_match(Seq::empty(), nb, cell, index),
        crate::filter::all_match(seq![filter], nb, cell, index) <==> filter_matches(
            filter,
            nb,
            cell,
            index,
        ),
{
    assert(seq![filter][0] == filter);
}

/// What is no key, or has no colon, is no filter.
pub proof fn other_texts_are_no_filters(name: Seq<char>, expr: Seq<char>, raw: Seq<char>)
    requires
        !name.contains(':'),
        name != "cell"@,
        name != "index"@,
        name != "test"@,
        name != "fixtures"@,
        name != "diff"@,
        name != "status.valid"@,
        name != "diagnostics.type"@,
        name != "diagnostics.severity"@,
        !raw.contains(':'),
    ensures
        parsed_filter(name + seq![':'] + expr) == Err::<
            FilterModel,
            crate::filter::FilterErrorModel,
        >(crate::filter::FilterErrorModel::UnknownKey(name)),
        parsed_filter(raw) == Err::<FilterModel, crate::filter::FilterErrorModel>(
            crate::filter::FilterErrorModel::MissingColon(raw),
        ),
{
    around_separator(name, ':', expr);
    first_index_is_first(raw, ':');
    let at = first_index(raw, ':');
    if at < raw.len() {
        assert(raw[at] == ':');
    }
}

/// Every key is known by its name, and what follows the colon are its values.
pub proof fn filters_are_parsed(expr: Seq<char>)
    ensures
        ({
            let values = comma_values(expr);
            &&& parsed_filter("cell"@ + seq![':'] + expr) == Ok::<
                FilterModel,
                crate::filter::FilterErrorModel,
            >(FilterModel { key: FilterKey::Cell, values })
            &&& parsed_filter("index"@ + seq![':'] + expr) == Ok::<
                FilterModel,
                crate::filter::FilterErrorModel,
            >(FilterModel { key: FilterKey::Index, values })
            &&& parsed_filter("test"@ + seq![':'] + expr) == Ok::<
                FilterModel,
                crate::filter::FilterErrorModel,
            >(FilterModel { key: FilterKey::Test, values })
            &&& parsed_filter("fixtures"@ + seq![':'] + expr) == Ok::<
                FilterModel,
                crate::filter::FilterErrorModel,
            >(FilterModel { key: FilterKey::Fixtures, values })
            &&& parsed_filter("diff"@ + seq![':'] + expr) == Ok::<
                FilterModel,
                crate::filter::FilterErrorModel,
            >(FilterModel { key: FilterKey::Diff, values })
            &&& parsed_filter("status.valid"@ + seq![':'] + expr) == Ok::<
                FilterModel,
                crate::filter::FilterErrorModel,
            >(FilterModel { key: FilterKey::StatusValid, values })
            &&& parsed_filter("diagnostics.type"@ + seq![':'] + expr) == Ok::<
                FilterModel,
                crate::filter::FilterErrorModel,
            >(FilterModel { key: FilterKey::DiagnosticsType, values })
            &&& parsed_filter("diagnostics.severity"@ + seq![':'] + expr) == Ok::<
                FilterModel,
                crate::filter::FilterErrorModel,
            >(FilterModel { key: FilterKey::DiagnosticsSeverity, values })
        }),
{
    reveal_strlit("cell");
    reveal_strlit("index");
    reveal_strlit("test");
    reveal_strlit("fixtures");
    reveal_strlit("diff");
    reveal_strlit("status.valid");
    reveal_strlit("diagnostics.type");
    reveal_strlit("diagnostics.severity");
    assert("cell"@.len() == 4 && "cell"@[0] == 'c');
    assert("index"@.len() == 5);
    assert("test"@.len() == 4 && "test"@[0] == 't');
    assert("fixtures"@.len() == 8);
    assert("diff"@.len() == 4 && "diff"@[0] == 'd');
    assert("status.valid"@.len() == 12);
    assert("diagnostics.type"@.len() == 16);
    assert("diagnostics.severity"@.len() == 20);
    around_separator("cell"@, ':', expr);
    around_separator("index"@, ':', expr);
    around_separator("test"@, ':', expr);
    around_separator("fixtures"@, ':', expr);
    around_separator("diff"@, ':', expr);
    around_separator("status.valid"@, ':', expr);
    around_separator("diagnostics.type"@, ':', expr);
    around_separator("diagnostics.severity"@, ':', expr);
}

/// A piece in front of joined ones.
proof fn joined_with_first(first: Seq<char>, rest: Seq<Seq<char>>, separator: Seq<char>)
    requires
        rest.len() > 0,
    ensures
        joined(seq![first] + rest, separator) == first + separator + joined(rest, separator),
    decreases rest.len(),
{
    let all = seq![first] + rest;
    if rest.len() == 1 {
        assert(all.drop_last() =~= seq![first]);
        assert(joined(seq![first], separator) == first);
        assert(joined(all, separator) =~= first + separator + joined(rest, separator));
    } else {
        assert(all.drop_last() =~= seq![first] + rest.drop_last());
        joined_with_first(first, rest.drop_last(), separator);
        assert(joined(all, separator) =~= first + separator + joined(rest, separator));
    }
}

/// Pieces that are joined are told apart again.
proof fn joined_pieces_split(pieces: Seq<Seq<char>>, separator: char)
    requires
        pieces.len() > 0,
        forall|i: int| 0 <= i < pieces.len() ==> !(#[trigger] pieces[i]).contains(separator),
    ensures
        split_on(joined(pieces, seq![separator]), separator) == pieces,
    decreases pieces.len(),
{
    let whole = joined(pieces, seq![separator]);
    assert(!pieces[0].contains(separator));
    if pieces.len() == 1 {
        first_index_is_first(whole, separator);
        if first_index(whole, separator) < whole.len() {
            assert(whole[first_index(whole, separator)] == separator);
        }
        assert(split_on(whole, separator) =~= pieces);
    } else {
        let rest = pieces.drop_first();
        assert(pieces =~= seq![pieces[0]] + rest);
        joined_with_first(pieces[0], rest, seq![separator]);
        around_separator(pieces[0], separator, joined(rest, seq![separator]));
        assert forall|i: int| 0 <= i < rest.len() implies !(#[trigger] rest[i]).contains(
            separator,
        ) by {
            assert(rest[i] == pieces[i + 1]);
        }
        joined_pieces_split(rest, separator);
        assert(split_on(whole, separator) =~= pieces);
    }
}

/// Values that are written with commas between them are read as they are.
pub proof fn comma_values_read_back(values: Seq<Seq<char>>)
    requires
        values.len() > 0,
        forall|i: int|
            0 <= i < values.len() ==> !(#[trigger] values[i]).contains(',') && trimmed(values[i])
                == values[i],
    ensures
        comma_values(joined(values, seq![','])) == values,
{
    joined_pieces_split(values, ',');
    assert(comma_values(joined(values, seq![','])) =~= values);
}

// ---------------------------------------------------------------------------
// Commands
// ---------------------------------------------------------------------------

/// The cells to be accepted are all code cells, or those that match all filters.
pub proof fn accept_picks_matching_cells(
    nb: NotebookModel,
    all: bool,
    filters: Seq<FilterModel>,
    count: int,
)
    requires
        0 <= count <= nb.cells.len(),
    ensures
        picks(
            nb,
            if all {
                Seq::empty()
            } else {
                filters
            },
            positions_to_accept(nb, all, filters, count),
            count,
        ),
    decreases count,
{
    let used = if all {
        Seq::empty()
    } else {
        filters
    };
    let positions = positions_to_accept(nb, all, filters, count);
    if count > 0 {
        let front = positions_to_accept(nb, all, filters, count - 1);
        accept_picks_matching_cells(nb, all, filters, count - 1);
        assert forall|i: int, j: int| 0 <= i < j < positions.len() implies #[trigger] positions[i]
            < #[trigger] positions[j] by {
            if j < front.len() {
                assert(front[i] < front[j]);
            } else {
                assert(front.contains(front[i]));
            }
        }
        assert forall|at: int| #[trigger] positions.contains(at) <==> 0 <= at < count
            && nb.cells[at].is_code() && crate::filter::all_match(used, nb, nb.cells[at], at) by {
            assert(front.contains(at) <==> 0 <= at < count - 1 && nb.cells[at].is_code()
                && crate::filter::all_match(used, nb, nb.cells[at], at));
            if positions.contains(at) {
                let k = choose|k: int| 0 <= k < positions.len() && positions[k] == at;
                if k < front.len() {
                    assert(front[k] == at);
                    assert(front.contains(at));
                }
            }
            if front.contains(at) {
                let k = choose|k: int| 0 <= k < front.len() && front[k] == at;
                assert(positions[k] == at);
            } else if positions.len() > front.len() && at == count - 1 {
                assert(positions[front.len() as int] == at);
            }
        }
    } else {
        assert forall|at: int| #[trigger] positions.contains(at) <==> 0 <= at < count
            && nb.cells[at].is_code() && crate::filter::all_match(used, nb, nb.cells[at], at) by {}
    }
}

/// The tests that run are those of the code cells with a test that match all
/// filters, in the order of the cells, each under its name.
pub proof fn tests_of_matching_cells_run(
    nb: NotebookModel,
    filters: Seq<FilterModel>,
    count: int,
)
    requires
        0 <= count <= nb.cells.len(),
    ensures
        ({
            let targets = targets_among(nb, filters, count);
            let wanted = FilterModel { key: FilterKey::Test, values: seq!["not null"@] };
            &&& picks(
                nb,
                filters.push(wanted),
                targets.map_values(|target: crate::commands::TargetModel| target.index),
                count,
            )
            &&& forall|k: int|
                0 <= k < targets.len() ==> {
                    let cell = nb.cells[(#[trigger] targets[k]).index];
                    &&& targets[k].cell_id == cell.id
                    &&& cell.data() matches Some(data) && data.test matches Some(test)
                        && targets[k].test_name == test.name
                }
        }),
    decreases count,
{
    let targets = targets_among(nb, filters, count);
    let wanted = FilterModel { key: FilterKey::Test, values: seq!["not null"@] };
    let used = filters.push(wanted);
    let positions = targets.map_values(|target: crate::commands::TargetModel| target.index);
    assert forall|at: int|
        0 <= at < nb.cells.len() implies #[trigger] crate::filter::all_match(
        used,
        nb,
        nb.cells[at],
        at,
    ) == (crate::filter::all_match(filters, nb, nb.cells[at], at) && has_test(nb.cells[at])) by {
        let cell = nb.cells[at];
        assert(used =~= filters + seq![wanted]);
        crate::filter::filters_combine_with_and(filters, seq![wanted], nb, cell, at);
        null_filter(wanted, nb, cell, at, has_test(cell));
        assert(wanted.values[0] == "not null"@);
        assert(wanted.values.contains("not null"@));
        reveal_strlit("null");
        reveal_strlit("not null");
        assert("null"@.len() == 4 && "not null"@.len() == 8);
        assert(!wanted.values.contains("null"@));
        assert(seq![wanted][0] == wanted);
        assert(crate::filter::all_match(seq![wanted], nb, cell, at) == filter_matches(
            wanted,
            nb,
            cell,
            at,
        ));
    }
    if count > 0 {
        let before = targets_among(nb, filters, count - 1);
        let front = before.map_values(|target: crate::commands::TargetModel| target.index);
        tests_of_matching_cells_run(nb, filters, count - 1);
        assert(crate::filter::all_match(used, nb, nb.cells[count - 1], count - 1) == (
        crate::filter::all_match(filters, nb, nb.cells[count - 1], count - 1) && has_test(
            nb.cells[count - 1],
        )));
        assert forall|i: int, j: int| 0 <= i < j < positions.len() implies #[trigger] positions[i]
            < #[trigger] positions[j] by {
            assert(positions[i] == front[i]);
            if j < front.len() {
                assert(front[i] < front[j]);
            } else {
                assert(front.contains(front[i]));
            }
        }
        assert forall|at: int| #[trigger] positions.contains(at) <==> 0 <= at < count
            && nb.cells[at].is_code() && crate::filter::all_match(used, nb, nb.cells[at], at) by {
            assert(front.contains(at) <==> 0 <= at < count - 1 && nb.cells[at].is_code()
                && crate::filter::all_match(used, nb, nb.cells[at], at));
            if positions.contains(at) {
                let k = choose|k: int| 0 <= k < positions.len() && positions[k] == at;
                if k < front.len() {
                    assert(front[k] == at);
                    assert(front.contains(at));
                }
            }
            if front.contains(at) {
                let k = choose|k: int| 0 <= k < front.len() && front[k] == at;
                assert(positions[k] == at);
            } else if positions.len() > front.len() && at == count - 1 {
                assert(positions[front.len() as int] == at);
            }
        }
        assert forall|k: int| 0 <= k < targets.len() implies {
            let cell = nb.cells[(#[trigger] targets[k]).index];
            &&& targets[k].cell_id == cell.id
            &&& cell.data() matches Some(data) && data.test matches Some(test)
                && targets[k].test_name == test.name
        } by {
            if k < before.len() {
                assert(before[k] == targets[k]);
            }
        }
    } else {
        assert forall|at: int| #[trigger] positions.contains(at) <==> 0 <= at < count
            && nb.cells[at].is_code() && crate::filter::all_match(used, nb, nb.cells[at], at) by {}
    }
}

/// The status of a cell shows its id and whether it is valid, as the view does,
/// and nothing else.
pub proof fn status_shows_the_validity(nb: NotebookModel, index: int, key: Seq<char>)
    requires
        0 <= index < nb.cells.len(),
    ensures
        ({
            let fields = comma_values(STATUS_FIELDS@);
            field_in(view_json(cell_view(nb, index), Some(fields)), key) == if key == "cell_id"@
                || key == "status"@ {
                shown_field(nb, index, key)
            } else {
                None
            }
        }),
{
    reveal_strlit("cell_id,status");
    reveal_strlit("cell_id");
    reveal_strlit("status");
    let values = seq!["cell_id"@, "status"@];
    assert forall|i: int| 0 <= i < values.len() implies !(#[trigger] values[i]).contains(',')
        && trimmed(values[i]) == values[i] by {
        if i == 0 {
            assert(values[0] == "cell_id"@);
        } else {
            assert(values[1] == "status"@);
        }
    }
    comma_values_read_back(values);
    assert(values.drop_last() =~= seq!["cell_id"@]);
    assert(joined(seq!["cell_id"@], seq![',']) =~= "cell_id"@);
    assert(joined(values, seq![',']) == "cell_id"@ + seq![','] + "status"@);
    assert(STATUS_FIELDS@ =~= "cell_id"@ + seq![','] + "status"@);
    assert(values[0] == "cell_id"@ && values[1] == "status"@);
    assert(values.contains("status"@));
    fields_cut_down_the_view(cell_view(nb, index), values, key);
}

} // verus!
