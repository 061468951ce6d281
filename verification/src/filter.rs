//! Filters that pick cells: `key:expr` pairs, whose comma-separated values
//! combine with OR; several filters combine with AND.
use vstd::prelude::*;

use crate::diagnostics::{
    cell_diagnostics, compute_cell_diagnostics, diagnostic_models, kind_name, severity_name,
    CellStatus, DiagnosticModel,
};
use crate::fixtures::fixture_count;
use crate::notebook::{Cell, CellExt, CellModel, Notebook, NotebookModel};
use crate::text::{
    begins_with, chars_of, find_from, find_text, first_index, first_occurrence, parse_usize,
    same_text, split_at_each, split_on, strip_prefix, text_between, texts, trim, trimmed,
    unsigned_value,
};

verus! {

/// What a filter looks at.
#[derive(Debug, Clone, Copy, PartialEq, Eq, Structural)]
pub enum FilterKey {
    /// The id of the cell.
    Cell,
    /// The position of the cell: `n`, `n..m`, `n..` or `..m`.
    Index,
    /// Whether there is a test.
    Test,
    /// Whether there are fixtures.
    Fixtures,
    /// Whether there is a diff.
    Diff,
    /// Whether the cell is valid.
    StatusValid,
    /// The kinds of the diagnostics.
    DiagnosticsType,
    /// The severities of the diagnostics.
    DiagnosticsSeverity,
}

/// A parsed filter.
#[derive(Debug)]
pub struct Filter {
    pub key: FilterKey,
    /// The values, any of which may match.
    pub values: Vec<String>,
}

/// What a filter holds.
pub struct FilterModel {
    pub key: FilterKey,
    pub values: Seq<Seq<char>>,
}

impl View for Filter {
    type V = FilterModel;

    open spec fn view(&self) -> FilterModel {
        FilterModel { key: self.key, values: texts(self.values@) }
    }
}

/// What a list of filters holds.
pub open spec fn filter_models(filters: Seq<Filter>) -> Seq<FilterModel> {
    filters.map_values(|filter: Filter| filter@)
}

/// Why a filter could not be parsed.
#[derive(Debug, PartialEq)]
pub enum FilterError {
    /// There is no colon in it; holds the whole filter.
    MissingColon(String),
    /// Nothing is known by that key.
    UnknownKey(String),
}

/// What a filter error holds.
pub enum FilterErrorModel {
    MissingColon(Seq<char>),
    UnknownKey(Seq<char>),
}

impl View for FilterError {
    type V = FilterErrorModel;

    open spec fn view(&self) -> FilterErrorModel {
        match self {
            FilterError::MissingColon(raw) => FilterErrorModel::MissingColon(raw@),
            FilterError::UnknownKey(key) => FilterErrorModel::UnknownKey(key@),
        }
    }
}

/// The message of a filter error.
pub open spec fn filter_error_message(error: FilterErrorModel) -> Seq<char> {
    match error {
        FilterErrorModel::MissingColon(raw) => "filter must be in the form 'key:expr', got: "@
            + raw,
        FilterErrorModel::UnknownKey(key) => "unknown filter key: "@ + key,
    }
}

impl FilterError {
    /// The message of the error.
    pub fn message(&self) -> (message: String)
        ensures
            message@ == filter_error_message(self@),
    {
        match self {
            FilterError::MissingColon(raw) => {
                let mut message: String =
                    "filter must be in the form 'key:expr', got: ".to_owned();
                message.append(raw.as_str());
                message
            },
            FilterError::UnknownKey(key) => {
                let mut message: String = "unknown filter key: ".to_owned();
                message.append(key.as_str());
                message
            },
        }
    }
}

// ---------------------------------------------------------------------------
// Parsing
// ---------------------------------------------------------------------------

/// The key of that name.
pub open spec fn key_named(name: Seq<char>) -> Option<FilterKey> {
    if name == "cell"@ {
        Some(FilterKey::Cell)
    } else if name == "index"@ {
        Some(FilterKey::Index)
    } else if name == "test"@ {
        Some(FilterKey::Test)
    } else if name == "fixtures"@ {
        Some(FilterKey::Fixtures)
    } else if name == "diff"@ {
        Some(FilterKey::Diff)
    } else if name == "status.valid"@ {
        Some(FilterKey::StatusValid)
    } else if name == "diagnostics.type"@ {
        Some(FilterKey::DiagnosticsType)
    } else if name == "diagnostics.severity"@ {
        Some(FilterKey::DiagnosticsSeverity)
    } else {
        None
    }
}

/// The comma-separated values of an expression, without the white space around
/// them.
pub open spec fn comma_values(expr: Seq<char>) -> Seq<Seq<char>> {
    split_on(expr, ',').map_values(|value: Seq<char>| trimmed(value))
}

/// What parsing a filter gives.
pub open spec fn parsed_filter(raw: Seq<char>) -> Result<FilterModel, FilterErrorModel> {
    let colon = first_index(raw, ':');
    if colon >= raw.len() {
        Err(FilterErrorModel::MissingColon(raw))
    } else {
        match key_named(raw.take(colon)) {
            None => Err(FilterErrorModel::UnknownKey(raw.take(colon))),
            Some(key) => Ok(FilterModel { key, values: comma_values(raw.skip(colon + 1)) }),
        }
    }
}

/// The comma-separated values of a text, without the white space around them.
pub fn split_commas(text: &str) -> (values: Vec<String>)
    ensures
        texts(values@) == comma_values(text@),
{
    let pieces: Vec<String> = split_at_each(text, ',');
    let mut values: Vec<String> = Vec::new();
    let mut i: usize = 0;
    while i < pieces.len()
        invariant
            i <= pieces.len(),
            values.len() == i,
            forall|k: int| 0 <= k < i ==> #[trigger] values@[k]@ == trimmed(pieces@[k]@),
        decreases pieces.len() - i,
    {
        values.push(trim(pieces[i].as_str()));
        i += 1;
    }
    assert forall|k: int| 0 <= k < values@.len() implies texts(values@)[k] == comma_values(
        text@,
    )[k] by {
        assert(values@[k]@ == trimmed(pieces@[k]@));
        assert(texts(pieces@)[k] == pieces@[k]@);
    }
    assert(texts(pieces@).len() == pieces@.len());
    assert(texts(values@) =~= comma_values(text@));
    values
}

impl FilterKey {
    /// The key of that name.
    pub fn parse(name: &str) -> (key: Result<FilterKey, FilterError>)
        ensures
            match key {
                Ok(k) => key_named(name@) == Some(k),
                Err(error) => key_named(name@) is None && error@ == FilterErrorModel::UnknownKey(
                    name@,
                ),
            },
    {
        if same_text(name, "cell") {
            Ok(FilterKey::Cell)
        } else if same_text(name, "index") {
            Ok(FilterKey::Index)
        } else if same_text(name, "test") {
            Ok(FilterKey::Test)
        } else if same_text(name, "fixtures") {
            Ok(FilterKey::Fixtures)
        } else if same_text(name, "diff") {
            Ok(FilterKey::Diff)
        } else if same_text(name, "status.valid") {
            Ok(FilterKey::StatusValid)
        } else if same_text(name, "diagnostics.type") {
            Ok(FilterKey::DiagnosticsType)
        } else if same_text(name, "diagnostics.severity") {
            Ok(FilterKey::DiagnosticsSeverity)
        } else {
            Err(FilterError::UnknownKey(name.to_owned()))
        }
    }
}

impl Filter {
    /// Parses a `key:expr` pair.
    pub fn parse(raw: &str) -> (filter: Result<Filter, FilterError>)
        ensures
            match filter {
                Ok(f) => parsed_filter(raw@) matches Ok(model) && model == f@,
                Err(error) => parsed_filter(raw@) matches Err(model) && model == error@,
            },
    {
        let chars: Vec<char> = chars_of(raw);
        let colon: usize = find_from(&chars, ':', 0);
        assert(chars@.skip(0) == raw@);
        if colon == chars.len() {
            return Err(FilterError::MissingColon(raw.to_owned()));
        }
        let name: String = text_between(&chars, 0, colon);
        let expr: String = text_between(&chars, colon + 1, chars.len());
        assert(name@ == raw@.take(colon as int));
        assert(expr@ == raw@.skip(colon + 1));
        match FilterKey::parse(name.as_str()) {
            Ok(key) => Ok(Filter { key, values: split_commas(expr.as_str()) }),
            Err(error) => Err(error),
        }
    }
}

// ---------------------------------------------------------------------------
// Matching
// ---------------------------------------------------------------------------

/// Whether `null` or `not null` holds of something that is there or not.
pub open spec fn null_matches(has_value: bool, expr: Seq<char>) -> bool {
    (expr == "null"@ && !has_value) || (expr == "not null"@ && has_value)
}

/// Whether a position matches `n`, `n..m`, `n..` or `..m`. Both ends count. A
/// start that is no number counts as zero; any other part that is no number
/// matches nothing.
pub open spec fn index_matches(index: int, expr: Seq<char>) -> bool {
    if begins_with(expr, ".."@) {
        match unsigned_value(expr.skip(2), usize::MAX as int) {
            Some(end) => index <= end,
            None => false,
        }
    } else {
        match first_occurrence(expr, ".."@) {
            Some(at) => {
                let start = match unsigned_value(expr.take(at), usize::MAX as int) {
                    Some(n) => n,
                    None => 0,
                };
                let rest = expr.skip(at + 2);
                if rest.len() == 0 {
                    index >= start
                } else {
                    match unsigned_value(rest, usize::MAX as int) {
                        Some(end) => start <= index <= end,
                        None => false,
                    }
                }
            },
            None => match unsigned_value(expr, usize::MAX as int) {
                Some(n) => index == n,
                None => false,
            },
        }
    }
}

/// Whether a cell has a test.
pub open spec fn has_test(cell: CellModel) -> bool {
    cell.data() is Some && cell.data()->0.test is Some
}

/// Whether a cell has a fixture.
pub open spec fn has_fixtures(cell: CellModel) -> bool {
    cell.data() is Some && cell.data()->0.fixtures is Some && cell.data()->0.fixtures->0.len() > 0
}

/// Whether a cell has a diff.
pub open spec fn has_diff(cell: CellModel) -> bool {
    cell.data() is Some && cell.data()->0.diff is Some
}

/// Whether one of the diagnostics has the given kind.
pub open spec fn some_kind(diagnostics: Seq<DiagnosticModel>, name: Seq<char>) -> bool {
    exists|i: int|
        0 <= i < diagnostics.len() && kind_name((#[trigger] diagnostics[i]).kind) == name
}

/// Whether one of the diagnostics has the given severity.
pub open spec fn some_severity(diagnostics: Seq<DiagnosticModel>, name: Seq<char>) -> bool {
    exists|i: int|
        0 <= i < diagnostics.len() && severity_name((#[trigger] diagnostics[i]).severity) == name
}

/// Whether a cell satisfies `key` with one value.
pub open spec fn key_matches(
    key: FilterKey,
    nb: NotebookModel,
    cell: CellModel,
    index: int,
    value: Seq<char>,
) -> bool {
    match key {
        FilterKey::Cell => cell.id == value,
        FilterKey::Index => index_matches(index, value),
        FilterKey::Test => null_matches(has_test(cell), value),
        FilterKey::Fixtures => null_matches(has_fixtures(cell), value),
        FilterKey::Diff => null_matches(has_diff(cell), value),
        FilterKey::StatusValid => value == if cell_diagnostics(nb, index).len() == 0 {
            "true"@
        } else {
            "false"@
        },
        FilterKey::DiagnosticsType => some_kind(cell_diagnostics(nb, index), value),
        FilterKey::DiagnosticsSeverity => some_severity(cell_diagnostics(nb, index), value),
    }
}

/// Whether a cell matches a filter: one of its values does.
pub open spec fn filter_matches(
    filter: FilterModel,
    nb: NotebookModel,
    cell: CellModel,
    index: int,
) -> bool {
    exists|i: int|
        0 <= i < filter.values.len() && key_matches(
            filter.key,
            nb,
            cell,
            index,
            #[trigger] filter.values[i],
        )
}

/// Whether a cell matches every filter.
pub open spec fn all_match(
    filters: Seq<FilterModel>,
    nb: NotebookModel,
    cell: CellModel,
    index: int,
) -> bool {
    forall|i: int| 0 <= i < filters.len() ==> filter_matches(#[trigger] filters[i], nb, cell, index)
}

/// Matches `null` and `not null` against whether a value is there.
pub fn match_null_or_not(has_value: bool, expr: &str) -> (matched: bool)
    ensures
        matched == null_matches(has_value, expr@),
{
    proof {
        reveal_strlit("null");
        reveal_strlit("not null");
        assert("null"@.len() != "not null"@.len());
    }
    if same_text(expr, "null") {
        !has_value
    } else if same_text(expr, "not null") {
        has_value
    } else {
        false
    }
}

/// Matches a position against `n`, `n..m`, `n..` or `..m`.
pub fn match_index(index: usize, expr: &str) -> (matched: bool)
    ensures
        matched == index_matches(index as int, expr@),
{
    proof {
        reveal_strlit("..");
    }
    if let Some(rest) = strip_prefix(expr, "..") {
        return match parse_usize(rest.as_str()) {
            Some(end) => index <= end,
            None => false,
        };
    }
    let chars: Vec<char> = chars_of(expr);
    if let Some(at) = find_text(expr, "..") {
        let first: String = text_between(&chars, 0, at);
        let rest: String = text_between(&chars, at + 2, chars.len());
        assert(first@ == expr@.take(at as int));
        assert(rest@ == expr@.skip(at + 2));
        let start: usize = match parse_usize(first.as_str()) {
            Some(n) => n,
            None => 0,
        };
        if chars.len() == at + 2 {
            return index >= start;
        }
        return match parse_usize(rest.as_str()) {
            Some(end) => index >= start && index <= end,
            None => false,
        };
    }
    match parse_usize(expr) {
        Some(n) => index == n,
        None => false,
    }
}

/// Whether one of the diagnostics has the given kind.
fn any_kind(status: &CellStatus, name: &str) -> (found: bool)
    ensures
        found == some_kind(diagnostic_models(status.diagnostics@), name@),
{
    let ghost models = diagnostic_models(status.diagnostics@);
    let mut i: usize = 0;
    while i < status.diagnostics.len()
        invariant
            i <= status.diagnostics.len(),
            models == diagnostic_models(status.diagnostics@),
            forall|k: int| 0 <= k < i ==> kind_name((#[trigger] models[k]).kind) != name@,
        decreases status.diagnostics.len() - i,
    {
        assert(models[i as int] == status.diagnostics@[i as int]@);
        if same_text(status.diagnostics[i].kind.to_string().as_str(), name) {
            return true;
        }
        i += 1;
    }
    false
}

/// Whether one of the diagnostics has the given severity.
fn any_severity(status: &CellStatus, name: &str) -> (found: bool)
    ensures
        found == some_severity(diagnostic_models(status.diagnostics@), name@),
{
    let ghost models = diagnostic_models(status.diagnostics@);
    let mut i: usize = 0;
    while i < status.diagnostics.len()
        invariant
            i <= status.diagnostics.len(),
            models == diagnostic_models(status.diagnostics@),
            forall|k: int| 0 <= k < i ==> severity_name((#[trigger] models[k]).severity) != name@,
        decreases status.diagnostics.len() - i,
    {
        assert(models[i as int] == status.diagnostics@[i as int]@);
        if same_text(status.diagnostics[i].severity.to_string().as_str(), name) {
            return true;
        }
        i += 1;
    }
    false
}

impl FilterKey {
    /// Whether a cell satisfies this key with one value.
    pub fn matches(&self, nb: &Notebook, cell: &Cell, index: usize, value: &str) -> (matched: bool)
        requires
            index < nb.cells.len(),
        ensures
            matched == key_matches(*self, nb@, cell@, index as int, value@),
    {
        match self {
            FilterKey::Cell => same_text(cell.cell_id_str(), value),
            FilterKey::Index => match_index(index, value),
            FilterKey::Test => {
                let has_test: bool = match cell.nota_bene() {
                    Some(data) => data.test.is_some(),
                    None => false,
                };
                match_null_or_not(has_test, value)
            },
            FilterKey::Fixtures => {
                let has_fixtures: bool = match cell.nota_bene() {
                    Some(data) => match data.fixtures {
                        Some(map) => fixture_count(&map) > 0,
                        None => false,
                    },
                    None => false,
                };
                match_null_or_not(has_fixtures, value)
            },
            FilterKey::Diff => {
                let has_diff: bool = match cell.nota_bene() {
                    Some(data) => data.diff.is_some(),
                    None => false,
                };
                match_null_or_not(has_diff, value)
            },
            FilterKey::StatusValid => {
                let status: CellStatus = compute_cell_diagnostics(nb, index);
                if status.valid {
                    same_text("true", value)
                } else {
                    same_text("false", value)
                }
            },
            FilterKey::DiagnosticsType => any_kind(&compute_cell_diagnostics(nb, index), value),
            FilterKey::DiagnosticsSeverity => any_severity(
                &compute_cell_diagnostics(nb, index),
                value,
            ),
        }
    }
}

impl Filter {
    /// Whether `cell`, which stands at `index` in `nb`, matches this filter.
    pub fn matches(&self, nb: &Notebook, cell: &Cell, index: usize) -> (matched: bool)
        requires
            index < nb.cells.len(),
        ensures
            matched == filter_matches(self@, nb@, cell@, index as int),
    {
        let ghost values = self@.values;
        let mut i: usize = 0;
        while i < self.values.len()
            invariant
                i <= self.values.len(),
                index < nb.cells.len(),
                values == self@.values,
                forall|k: int|
                    0 <= k < i ==> !key_matches(
                        self.key,
                        nb@,
                        cell@,
                        index as int,
                        #[trigger] values[k],
                    ),
            decreases self.values.len() - i,
        {
            assert(values[i as int] == self.values@[i as int]@);
            if self.key.matches(nb, cell, index, self.values[i].as_str()) {
                return true;
            }
            i += 1;
        }
        false
    }
}

/// Whether `cell`, which stands at `index` in `nb`, matches every filter.
pub fn cell_matches_all(filters: &[Filter], nb: &Notebook, cell: &Cell, index: usize) -> (matched:
    bool)
    requires
        index < nb.cells.len(),
    ensures
        matched == all_match(filter_models(filters@), nb@, cell@, index as int),
{
    let ghost models = filter_models(filters@);
    let mut i: usize = 0;
    while i < filters.len()
        invariant
            i <= filters.len(),
            index < nb.cells.len(),
            models == filter_models(filters@),
            forall|k: int|
                0 <= k < i ==> filter_matches(#[trigger] models[k], nb@, cell@, index as int),
        decreases filters.len() - i,
    {
        assert(models[i as int] == filters@[i as int]@);
        if !filters[i].matches(nb, cell, index) {
            return false;
        }
        i += 1;
    }
    true
}

// ---------------------------------------------------------------------------
// What filters promise
// ---------------------------------------------------------------------------

/// More filters pick no more cells: what matches all of them matches each part
/// of them, and the other way round.
pub proof fn filters_combine_with_and(
    some: Seq<FilterModel>,
    others: Seq<FilterModel>,
    nb: NotebookModel,
    cell: CellModel,
    index: int,
)
    ensures
        all_match(some + others, nb, cell, index) <==> all_match(some, nb, cell, index)
            && all_match(others, nb, cell, index),
{
    let all = some + others;
    if all_match(all, nb, cell, index) {
        assert forall|i: int| 0 <= i < some.len() implies filter_matches(
            #[trigger] some[i],
            nb,
            cell,
            index,
        ) by {
            assert(all[i] == some[i]);
        }
        assert forall|i: int| 0 <= i < others.len() implies filter_matches(
            #[trigger] others[i],
            nb,
            cell,
            index,
        ) by {
            assert(all[some.len() + i] == others[i]);
        }
    }
    if all_match(some, nb, cell, index) && all_match(others, nb, cell, index) {
        assert forall|i: int| 0 <= i < all.len() implies filter_matches(
            #[trigger] all[i],
            nb,
            cell,
            index,
        ) by {
            if i < some.len() {
                assert(all[i] == some[i]);
            } else {
                assert(all[i] == others[i - some.len()]);
            }
        }
    }
}

/// More values in a filter pick more cells: a cell matches them all together
/// exactly when it matches one part or the other.
pub proof fn values_combine_with_or(
    key: FilterKey,
    some: Seq<Seq<char>>,
    others: Seq<Seq<char>>,
    nb: NotebookModel,
    cell: CellModel,
    index: int,
)
    ensures
        filter_matches(FilterModel { key, values: some + others }, nb, cell, index)
            <==> filter_matches(FilterModel { key, values: some }, nb, cell, index)
            || filter_matches(FilterModel { key, values: others }, nb, cell, index),
{
    let all = FilterModel { key, values: some + others };
    if filter_matches(all, nb, cell, index) {
        let i = choose|i: int|
            0 <= i < all.values.len() && key_matches(
                key,
                nb,
                cell,
                index,
                #[trigger] all.values[i],
            );
        if i < some.len() {
            assert((FilterModel { key, values: some }).values[i] == all.values[i]);
        } else {
            assert((FilterModel { key, values: others }).values[i - some.len()] == all.values[i]);
        }
    }
    let first = FilterModel { key, values: some };
    if filter_matches(first, nb, cell, index) {
        let i = choose|i: int|
            0 <= i < first.values.len() && key_matches(
                first.key,
                nb,
                cell,
                index,
                #[trigger] first.values[i],
            );
        assert(all.values[i] == first.values[i]);
    }
    let second = FilterModel { key, values: others };
    if filter_matches(second, nb, cell, index) {
        let i = choose|i: int|
            0 <= i < second.values.len() && key_matches(
                second.key,
                nb,
                cell,
                index,
                #[trigger] second.values[i],
            );
        assert(all.values[some.len() + i] == second.values[i]);
    }
}

} // verus!
