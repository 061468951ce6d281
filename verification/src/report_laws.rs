//! What the report on a cell to be repaired says.
use vstd::prelude::*;

use crate::diagnostics::{cell_diagnostics, kind_name, DiagnosticModel, DiagnosticType};
use crate::metadata::DataModel;
use crate::notebook::NotebookModel;
use crate::repair::{
    ancestor_messages, brief_hint, diff_text, existing_metadata, failed_count, first_invalid,
    kind_names, kind_section, kind_sections, kinds_among, ordered_fixtures, printed_or,
    repair_report, report_start, result_text, subtest_line, texts_if, wants_any_brief, wants_brief,
};
use crate::repair_texts::{
    ABOUT_ANCESTORS, ABOUT_CONFLICT, ABOUT_DIFF, ABOUT_FIXTURES, ABOUT_METADATA, ABOUT_REVIEW,
    ABOUT_TEST, ANCESTOR_HELP, ANCESTOR_UPDATE, CONFLICT_BRIEF, CONFLICT_HELP, CREATE_BRIEF,
    FILTER_HELP, MISSING_HELP, NEVER_ACCEPTED, NEXT_CELL, OMIT_FIELDS, REVIEW_HELP, REVIEW_UPDATE,
};
use crate::save_laws::decimal_has_value;
use crate::test_runner::{SubtestModel, TestResultModel};
use crate::text::{begins_with, concatenated, decimal, is_digit, joined, occurs_in, stands_at};

verus! {

// ---------------------------------------------------------------------------
// Parts of a report
// ---------------------------------------------------------------------------

/// Pieces of two lists put together.
pub proof fn concatenated_sum(first: Seq<Seq<char>>, second: Seq<Seq<char>>)
    ensures
        concatenated(first + second) == concatenated(first) + concatenated(second),
    decreases second.len(),
{
    if second.len() == 0 {
        assert(first + second =~= first);
        assert(concatenated(first) + concatenated(second) =~= concatenated(first));
    } else {
        concatenated_sum(first, second.drop_last());
        assert((first + second).drop_last() =~= first + second.drop_last());
        assert(concatenated(first + second) =~= concatenated(first) + concatenated(second));
    }
}

/// What stands between two texts occurs in the whole.
pub proof fn middle_occurs(before: Seq<char>, part: Seq<char>, after: Seq<char>)
    ensures
        occurs_in(before + part + after, part),
{
    let whole = before + part + after;
    let at = before.len() as int;
    assert(whole.subrange(at, at + part.len()) =~= part);
    assert(stands_at(whole, part, at));
}

/// What stands between two lists of pieces occurs in the whole.
proof fn pieces_occur(before: Seq<Seq<char>>, part: Seq<Seq<char>>, after: Seq<Seq<char>>)
    ensures
        occurs_in(concatenated(before + part + after), concatenated(part)),
{
    concatenated_sum(before + part, after);
    concatenated_sum(before, part);
    middle_occurs(concatenated(before), concatenated(part), concatenated(after));
}

/// What occurs in a part occurs in the whole.
pub proof fn occurs_in_whole(whole: Seq<char>, part: Seq<char>, piece: Seq<char>)
    requires
        occurs_in(whole, part),
        occurs_in(part, piece),
    ensures
        occurs_in(whole, piece),
{
    let at = choose|at: int| stands_at(whole, part, at);
    let inner = choose|inner: int| stands_at(part, piece, inner);
    assert(whole.subrange(at + inner, at + inner + piece.len()) =~= piece) by {
        assert(part == whole.subrange(at, at + part.len()));
        assert(piece == part.subrange(inner, inner + piece.len()));
    }
    assert(stands_at(whole, piece, at + inner));
}

/// The kinds among diagnostics are those that occur, each once.
pub proof fn kinds_are_those_that_occur(diagnostics: Seq<DiagnosticModel>)
    ensures
        forall|kind: DiagnosticType| #[trigger]
            kinds_among(diagnostics).contains(kind) <==> exists|i: int|
                0 <= i < diagnostics.len() && (#[trigger] diagnostics[i]).kind == kind,
        kinds_among(diagnostics).no_duplicates(),
    decreases diagnostics.len(),
{
    let kinds = kinds_among(diagnostics);
    if diagnostics.len() > 0 {
        let less = diagnostics.drop_last();
        let front = kinds_among(less);
        let last = diagnostics.last();
        kinds_are_those_that_occur(less);
        assert forall|kind: DiagnosticType| #[trigger] kinds.contains(kind) <==> exists|i: int|
            0 <= i < diagnostics.len() && (#[trigger] diagnostics[i]).kind == kind by {
            assert(front.contains(kind) <==> exists|i: int|
                0 <= i < less.len() && (#[trigger] less[i]).kind == kind);
            if kinds.contains(kind) {
                let k = choose|k: int| 0 <= k < kinds.len() && kinds[k] == kind;
                if k < front.len() {
                    assert(front[k] == kind);
                    assert(front.contains(kind));
                    let i = choose|i: int| 0 <= i < less.len() && (#[trigger] less[i]).kind == kind;
                    assert(diagnostics[i].kind == kind);
                } else {
                    assert(diagnostics[diagnostics.len() - 1].kind == kind);
                }
            }
            if exists|i: int|
                0 <= i < diagnostics.len() && (#[trigger] diagnostics[i]).kind == kind {
                let i = choose|i: int|
                    0 <= i < diagnostics.len() && (#[trigger] diagnostics[i]).kind == kind;
                if i < less.len() {
                    assert(less[i].kind == kind);
                    assert(front.contains(kind));
                }
                if front.contains(kind) {
                    let k = choose|k: int| 0 <= k < front.len() && front[k] == kind;
                    assert(kinds[k] == kind);
                } else {
                    assert(kinds[kinds.len() - 1] == kind);
                }
            }
        }
    } else {
        assert forall|kind: DiagnosticType| #[trigger] kinds.contains(kind) <==> exists|i: int|
            0 <= i < diagnostics.len() && (#[trigger] diagnostics[i]).kind == kind by {}
    }
}

/// Whether wishes about details are about different kinds.
pub open spec fn wishes_differ(details: Seq<(Seq<char>, Seq<char>)>) -> bool {
    forall|i: int, j: int|
        0 <= i < j < details.len() ==> (#[trigger] details[i]).0 != (#[trigger] details[j]).0
}

/// A kind is brief if and only if this is wished for.
pub proof fn brief_is_as_wished(details: Seq<(Seq<char>, Seq<char>)>, name: Seq<char>)
    requires
        wishes_differ(details),
    ensures
        wants_brief(details, name) <==> details.contains((name, "brief"@)),
    decreases details.len(),
{
    if details.len() > 0 {
        let rest = details.drop_first();
        assert forall|i: int, j: int| 0 <= i < j < rest.len() implies (#[trigger] rest[i]).0 != (
        #[trigger] rest[j]).0 by {
            assert(rest[i] == details[i + 1]);
            assert(rest[j] == details[j + 1]);
        }
        brief_is_as_wished(rest, name);
        let wish = (name, "brief"@);
        if rest.contains(wish) {
            let i = choose|i: int| 0 <= i < rest.len() && rest[i] == wish;
            assert(details[i + 1] == wish);
            assert(details[0].0 != details[i + 1].0);
        }
        if details.contains(wish) {
            let i = choose|i: int| 0 <= i < details.len() && details[i] == wish;
            if i > 0 {
                assert(rest[i - 1] == wish);
                assert(details[0].0 != details[i].0);
            }
        }
        if details[0] == wish {
            assert(details.contains(wish));
        }
    }
}

/// Where the instructions for a kind stand among all.
proof fn kind_section_occurs(
    kinds: Seq<DiagnosticType>,
    kind: DiagnosticType,
    details: Seq<(Seq<char>, Seq<char>)>,
    path: Seq<char>,
    cell_id: Seq<char>,
    data: Option<DataModel>,
    test_result: Seq<char>,
    diagnostics: Seq<DiagnosticModel>,
)
    requires
        kinds.contains(kind),
    ensures
        occurs_in(
            concatenated(
                kind_sections(kinds, details, path, cell_id, data, test_result, diagnostics),
            ),
            concatenated(
                kind_section(
                    kind,
                    wants_brief(details, kind_name(kind)),
                    path,
                    cell_id,
                    data,
                    test_result,
                    diagnostics,
                ),
            ),
        ),
    decreases kinds.len(),
{
    let front = kinds.drop_last();
    let before = kind_sections(front, details, path, cell_id, data, test_result, diagnostics);
    let own = kind_section(
        kinds.last(),
        wants_brief(details, kind_name(kinds.last())),
        path,
        cell_id,
        data,
        test_result,
        diagnostics,
    );
    let none = Seq::<Seq<char>>::empty();
    if kinds.last() == kind {
        pieces_occur(before, own, none);
        assert(before + own + none =~= before + own);
    } else {
        let k = choose|k: int| 0 <= k < kinds.len() && kinds[k] == kind;
        assert(front[k] == kind);
        kind_section_occurs(front, kind, details, path, cell_id, data, test_result, diagnostics);
        pieces_occur(none, before, own);
        assert(none + before + own =~= before + own);
        occurs_in_whole(
            concatenated(before + own),
            concatenated(before),
            concatenated(
                kind_section(
                    kind,
                    wants_brief(details, kind_name(kind)),
                    path,
                    cell_id,
                    data,
                    test_result,
                    diagnostics,
                ),
            ),
        );
    }
}

/// Whether a cell has a diagnostic of a kind.
pub open spec fn has_kind(nb: NotebookModel, index: int, kind: DiagnosticType) -> bool {
    exists|i: int|
        0 <= i < cell_diagnostics(nb, index).len() && (#[trigger] cell_diagnostics(
            nb,
            index,
        )[i]).kind == kind
}

/// The report holds the instructions for every kind of diagnostics of the cell.
proof fn report_holds_instructions(
    nb: NotebookModel,
    index: int,
    path: Seq<char>,
    details: Seq<(Seq<char>, Seq<char>)>,
    test_result: Seq<char>,
    kind: DiagnosticType,
)
    requires
        wishes_differ(details),
        has_kind(nb, index, kind),
    ensures
        occurs_in(
            repair_report(nb, index, path, details, test_result),
            concatenated(
                kind_section(
                    kind,
                    details.contains((kind_name(kind), "brief"@)),
                    path,
                    nb.cells[index].id,
                    nb.cells[index].data(),
                    test_result,
                    cell_diagnostics(nb, index),
                ),
            ),
        ),
{
    let cell = nb.cells[index];
    let data = cell.data();
    let diagnostics = cell_diagnostics(nb, index);
    let kinds = kinds_among(diagnostics);
    let names = kind_names(kinds);
    kinds_are_those_that_occur(diagnostics);
    brief_is_as_wished(details, kind_name(kind));
    assert(kinds.contains(kind));
    let before = report_start(index as nat, path, cell.id, cell.text(), names) + texts_if(
        data is Some,
        existing_metadata(data->0),
    ) + texts_if(
        crate::repair::has_some_test(data),
        seq!["## Test result\n\n"@, test_result, "\n\n"@],
    );
    let middle = kind_sections(kinds, details, path, cell.id, data, test_result, diagnostics);
    let after = seq![NEXT_CELL@] + texts_if(
        !wants_any_brief(details),
        seq![brief_hint(names)],
    ) + seq![FILTER_HELP@];
    pieces_occur(before, middle, after);
    assert(before + middle + after =~= before + middle + seq![NEXT_CELL@] + texts_if(
        !wants_any_brief(details),
        seq![brief_hint(names)],
    ) + seq![FILTER_HELP@]);
    kind_section_occurs(kinds, kind, details, path, cell.id, data, test_result, diagnostics);
    occurs_in_whole(
        repair_report(nb, index, path, details, test_result),
        concatenated(middle),
        concatenated(
            kind_section(
                kind,
                details.contains((kind_name(kind), "brief"@)),
                path,
                cell.id,
                data,
                test_result,
                diagnostics,
            ),
        ),
    );
}

/// The cell that is repaired next is the first code cell with a diagnostic; if
/// there is none, no code cell has one.
pub proof fn first_invalid_cell_is_next(nb: NotebookModel, from: int)
    requires
        0 <= from <= nb.cells.len(),
    ensures
        ({
            let next = first_invalid(nb, from);
            &&& from <= next <= nb.cells.len()
            &&& next < nb.cells.len() ==> nb.cells[next].is_code() && cell_diagnostics(
                nb,
                next,
            ).len() > 0
            &&& forall|i: int|
                from <= i < next && (#[trigger] nb.cells[i]).is_code() ==> cell_diagnostics(
                    nb,
                    i,
                ).len() == 0
        }),
    decreases nb.cells.len() - from,
{
    if from < nb.cells.len() && !(nb.cells[from].is_code() && cell_diagnostics(nb, from).len()
        > 0) {
        first_invalid_cell_is_next(nb, from + 1);
    }
}

// ---------------------------------------------------------------------------
// Commands
// ---------------------------------------------------------------------------

/// The command that accepts a cell of a notebook, in a block of its own.
pub open spec fn accept_block(path: Seq<char>, cell_id: Seq<char>) -> Seq<char> {
    "```bash\nnota-bene accept "@ + path + " --filter cell:"@ + cell_id + "\n```\n\n"@
}

/// The command that tests a cell of a notebook, in a block of its own.
pub open spec fn test_block(path: Seq<char>, cell_id: Seq<char>) -> Seq<char> {
    "```bash\nnota-bene test "@ + path + " --filter cell:"@ + cell_id + "\n```\n\n"@
}

/// The command that updates a cell of a notebook, in a block of its own.
pub open spec fn update_block(path: Seq<char>, cell_id: Seq<char>) -> Seq<char> {
    "```bash\nnota-bene update "@ + path + " --data '{\n  \"cell_id\": \""@ + cell_id
        + "\",\n  <only include fields that need changing>\n}'\n```\n\n"@
}

/// Whether the text of a test result says that the test passed.
pub open spec fn tells_of_success(test_result: Seq<char>) -> bool {
    begins_with(test_result, "All "@) || occurs_in(test_result, "passed"@)
}

// ---------------------------------------------------------------------------
// Instructions
// ---------------------------------------------------------------------------

/// The report on a cell that needs review says that the test passes, and gives
/// the command to accept the cell, if the result tells of success; else it says
/// that the test is failing, and gives the commands to update, test and accept.
/// It does so in short if this is wished for.
pub proof fn review_goes_by_the_result(
    nb: NotebookModel,
    index: int,
    path: Seq<char>,
    details: Seq<(Seq<char>, Seq<char>)>,
    test_result: Seq<char>,
)
    requires
        wishes_differ(details),
        has_kind(nb, index, DiagnosticType::NeedsReview),
    ensures
        ({
            let id = nb.cells[index].id;
            let instructions = match (
                details.contains(("needs_review"@, "brief"@)),
                tells_of_success(test_result),
            ) {
                (true, true) => seq![
                    "## Needs review\n\n"@,
                    "Test passes. If the metadata still looks correct for the current source, accept. If you make any changes, re-run the test before accepting.\n\n"@,
                    test_block(path, id),
                    accept_block(path, id),
                    REVIEW_HELP@,
                ],
                (true, false) => seq![
                    "## Needs review\n\n"@,
                    "Test failing. Update fixtures/diff/test, re-run the test, then accept once passing.\n\n"@,
                    update_block(path, id),
                    test_block(path, id),
                    accept_block(path, id),
                    REVIEW_HELP@,
                ],
                (false, true) => seq![
                    "## Needs review — instructions\n\n"@,
                    ABOUT_REVIEW@,
                    "The test still passes. If the metadata looks correct for the current source, accept the cell:\n\n"@,
                    accept_block(path, id),
                    REVIEW_UPDATE@,
                    update_block(path, id),
                    test_block(path, id),
                    accept_block(path, id),
                ],
                (false, false) => seq![
                    "## Needs review — instructions\n\n"@,
                    ABOUT_REVIEW@,
                    "The test is failing. Update the metadata as needed, re-run the test to confirm it passes, then accept:\n\n"@,
                    update_block(path, id),
                    test_block(path, id),
                    accept_block(path, id),
                ],
            };
            occurs_in(
                repair_report(nb, index, path, details, test_result),
                concatenated(instructions),
            )
        }),
{
    let id = nb.cells[index].id;
    report_holds_instructions(nb, index, path, details, test_result, DiagnosticType::NeedsReview);
    let brief = details.contains(("needs_review"@, "brief"@));
    let section = kind_section(
        DiagnosticType::NeedsReview,
        brief,
        path,
        id,
        nb.cells[index].data(),
        test_result,
        cell_diagnostics(nb, index),
    );
    match (brief, tells_of_success(test_result)) {
        (true, true) => assert(section =~= seq![
            "## Needs review\n\n"@,
            "Test passes. If the metadata still looks correct for the current source, accept. If you make any changes, re-run the test before accepting.\n\n"@,
            test_block(path, id),
            accept_block(path, id),
            REVIEW_HELP@,
        ]),
        (true, false) => assert(section =~= seq![
            "## Needs review\n\n"@,
            "Test failing. Update fixtures/diff/test, re-run the test, then accept once passing.\n\n"@,
            update_block(path, id),
            test_block(path, id),
            accept_block(path, id),
            REVIEW_HELP@,
        ]),
        (false, true) => assert(section =~= seq![
            "## Needs review — instructions\n\n"@,
            ABOUT_REVIEW@,
            "The test still passes. If the metadata looks correct for the current source, accept the cell:\n\n"@,
            accept_block(path, id),
            REVIEW_UPDATE@,
            update_block(path, id),
            test_block(path, id),
            accept_block(path, id),
        ]),
        (false, false) => assert(section =~= seq![
            "## Needs review — instructions\n\n"@,
            ABOUT_REVIEW@,
            "The test is failing. Update the metadata as needed, re-run the test to confirm it passes, then accept:\n\n"@,
            update_block(path, id),
            test_block(path, id),
            accept_block(path, id),
        ]),
    }
}

/// The messages about ancestors are those of the diagnostics about them, in
/// their order.
pub open spec fn messages_of(diagnostics: Seq<DiagnosticModel>, kind: DiagnosticType) -> Seq<
    Seq<char>,
>
    decreases diagnostics.len(),
{
    if diagnostics.len() == 0 {
        Seq::empty()
    } else if diagnostics[0].kind == kind {
        seq![diagnostics[0].message] + messages_of(diagnostics.drop_first(), kind)
    } else {
        messages_of(diagnostics.drop_first(), kind)
    }
}

/// Messages of lists put together.
proof fn messages_with_last(diagnostics: Seq<DiagnosticModel>)
    ensures
        ancestor_messages(diagnostics) == messages_of(
            diagnostics,
            DiagnosticType::AncestorModified,
        ),
    decreases diagnostics.len(),
{
    let kind = DiagnosticType::AncestorModified;
    if diagnostics.len() == 1 {
        let rest = diagnostics.drop_first();
        assert(diagnostics.drop_last() =~= Seq::<DiagnosticModel>::empty());
        assert(ancestor_messages(diagnostics.drop_last()) =~= Seq::<Seq<char>>::empty());
        assert(messages_of(rest, kind) =~= Seq::<Seq<char>>::empty());
        assert(ancestor_messages(diagnostics) =~= messages_of(diagnostics, kind));
    } else if diagnostics.len() > 1 {
        let rest = diagnostics.drop_first();
        let front = diagnostics.drop_last();
        let middle = rest.drop_last();
        assert(front.drop_first() =~= middle);
        messages_with_last(rest);
        messages_with_last(front);
        messages_with_last(middle);
        assert(rest.last() == diagnostics.last());
        assert(ancestor_messages(diagnostics) =~= messages_of(diagnostics, kind));
    }
}

/// The report on a cell with changed ancestors names each of them, and says
/// that the test passes if the result tells of success, else that it is failing.
pub proof fn ancestors_go_by_the_result(
    nb: NotebookModel,
    index: int,
    path: Seq<char>,
    details: Seq<(Seq<char>, Seq<char>)>,
    test_result: Seq<char>,
)
    requires
        wishes_differ(details),
        has_kind(nb, index, DiagnosticType::AncestorModified),
    ensures
        ({
            let id = nb.cells[index].id;
            let changed = messages_of(
                cell_diagnostics(nb, index),
                DiagnosticType::AncestorModified,
            ).map_values(|message: Seq<char>| "- "@ + message + "\n"@);
            let rest = match (
                details.contains(("ancestor_modified"@, "brief"@)),
                tells_of_success(test_result),
            ) {
                (true, true) => seq![
                    "Test passes. If the ancestor changes don't affect this cell, accept. If you make any changes, re-run the test before accepting.\n\n"@,
                    test_block(path, id),
                    accept_block(path, id),
                    ANCESTOR_HELP@,
                ],
                (true, false) => seq![
                    "Test failing. Update metadata to account for upstream changes, re-run the test, then accept once passing.\n\n"@,
                    update_block(path, id),
                    test_block(path, id),
                    accept_block(path, id),
                    ANCESTOR_HELP@,
                ],
                (false, true) => seq![
                    ABOUT_ANCESTORS@,
                    "The test still passes despite ancestor changes. If the upstream changes don't affect this cell's behavior, accept it:\n\n"@,
                    accept_block(path, id),
                    ANCESTOR_UPDATE@,
                    update_block(path, id),
                    test_block(path, id),
                    accept_block(path, id),
                ],
                (false, false) => seq![
                    ABOUT_ANCESTORS@,
                    "The test is failing, likely due to changes in preceding cells. Update the fixtures or test to account for the new upstream state, re-run the test to confirm it passes, then accept:\n\n"@,
                    update_block(path, id),
                    test_block(path, id),
                    accept_block(path, id),
                ],
            };
            occurs_in(
                repair_report(nb, index, path, details, test_result),
                concatenated(
                    seq!["## Ancestor modified\n\n"@, "Changed ancestors:\n"@] + changed + seq![
                        "\n"@,
                    ] + rest,
                ),
            )
        }),
{
    let id = nb.cells[index].id;
    let diagnostics = cell_diagnostics(nb, index);
    let kind = DiagnosticType::AncestorModified;
    messages_with_last(diagnostics);
    report_holds_instructions(nb, index, path, details, test_result, kind);
    let brief = details.contains(("ancestor_modified"@, "brief"@));
    let section = kind_section(
        kind,
        brief,
        path,
        id,
        nb.cells[index].data(),
        test_result,
        diagnostics,
    );
    let head = seq!["## Ancestor modified\n\n"@, "Changed ancestors:\n"@] + messages_of(
        diagnostics,
        kind,
    ).map_values(|message: Seq<char>| "- "@ + message + "\n"@) + seq!["\n"@];
    match (brief, tells_of_success(test_result)) {
        (true, true) => assert(section =~= head + seq![
            "Test passes. If the ancestor changes don't affect this cell, accept. If you make any changes, re-run the test before accepting.\n\n"@,
            test_block(path, id),
            accept_block(path, id),
            ANCESTOR_HELP@,
        ]),
        (true, false) => assert(section =~= head + seq![
            "Test failing. Update metadata to account for upstream changes, re-run the test, then accept once passing.\n\n"@,
            update_block(path, id),
            test_block(path, id),
            accept_block(path, id),
            ANCESTOR_HELP@,
        ]),
        (false, true) => assert(section =~= head + seq![
            ABOUT_ANCESTORS@,
            "The test still passes despite ancestor changes. If the upstream changes don't affect this cell's behavior, accept it:\n\n"@,
            accept_block(path, id),
            ANCESTOR_UPDATE@,
            update_block(path, id),
            test_block(path, id),
            accept_block(path, id),
        ]),
        (false, false) => assert(section =~= head + seq![
            ABOUT_ANCESTORS@,
            "The test is failing, likely due to changes in preceding cells. Update the fixtures or test to account for the new upstream state, re-run the test to confirm it passes, then accept:\n\n"@,
            update_block(path, id),
            test_block(path, id),
            accept_block(path, id),
        ]),
    }
}

/// The report on a cell with a test that was never accepted asks to accept it if
/// the result tells of success, else to mend it first.
pub proof fn unaccepted_goes_by_the_result(
    nb: NotebookModel,
    index: int,
    path: Seq<char>,
    details: Seq<(Seq<char>, Seq<char>)>,
    test_result: Seq<char>,
)
    requires
        wishes_differ(details),
        has_kind(nb, index, DiagnosticType::Missing),
        nb.cells[index].data() matches Some(data) && data.test is Some,
    ensures
        ({
            let id = nb.cells[index].id;
            let instructions = if tells_of_success(test_result) {
                seq![
                    "## Not yet accepted\n\n"@,
                    NEVER_ACCEPTED@,
                    "The test passes. Accept the cell to stamp it as valid:\n\n"@,
                    accept_block(path, id),
                ]
            } else {
                seq![
                    "## Not yet accepted\n\n"@,
                    NEVER_ACCEPTED@,
                    "The test is failing. Fix the metadata, re-run the test, then accept:\n\n"@,
                    update_block(path, id),
                    test_block(path, id),
                    accept_block(path, id),
                ]
            };
            occurs_in(
                repair_report(nb, index, path, details, test_result),
                concatenated(instructions),
            )
        }),
{
    let id = nb.cells[index].id;
    let kind = DiagnosticType::Missing;
    report_holds_instructions(nb, index, path, details, test_result, kind);
    let section = kind_section(
        kind,
        details.contains(("missing"@, "brief"@)),
        path,
        id,
        nb.cells[index].data(),
        test_result,
        cell_diagnostics(nb, index),
    );
    if tells_of_success(test_result) {
        assert(section =~= seq![
            "## Not yet accepted\n\n"@,
            NEVER_ACCEPTED@,
            "The test passes. Accept the cell to stamp it as valid:\n\n"@,
            accept_block(path, id),
        ]);
    } else {
        assert(section =~= seq![
            "## Not yet accepted\n\n"@,
            NEVER_ACCEPTED@,
            "The test is failing. Fix the metadata, re-run the test, then accept:\n\n"@,
            update_block(path, id),
            test_block(path, id),
            accept_block(path, id),
        ]);
    }
}

/// A text, or nothing.
pub open spec fn only_if(condition: bool, pieces: Seq<Seq<char>>) -> Seq<Seq<char>> {
    if condition {
        pieces
    } else {
        Seq::empty()
    }
}

/// The report on a cell without a test says what it lacks: everything without
/// metadata, else the fixtures if there are none, the diff if there is none, and
/// the test. It explains what is lacking, or gives the commands in short.
pub proof fn lacking_is_said(
    nb: NotebookModel,
    index: int,
    path: Seq<char>,
    details: Seq<(Seq<char>, Seq<char>)>,
    test_result: Seq<char>,
)
    requires
        wishes_differ(details),
        has_kind(nb, index, DiagnosticType::Missing),
        nb.cells[index].data() matches Some(data) ==> data.test is None,
    ensures
        ({
            let id = nb.cells[index].id;
            let data = nb.cells[index].data();
            let no_fixtures = data matches Some(d) ==> (d.fixtures is None
                || d.fixtures->0.len() == 0);
            let no_diff = data matches Some(d) ==> d.diff is None;
            let lacking = if data is None {
                seq![
                    "## Missing metadata\n\n"@,
                    "This cell has no nota-bene metadata at all.\n\n"@,
                ]
            } else {
                seq![
                    "## Incomplete metadata\n\n"@,
                    "This cell has some nota-bene metadata but is missing:\n"@,
                ] + only_if(
                    no_fixtures,
                    seq![
                        "- `fixtures` (if external resources or side effects are involved)\n"@,
                    ],
                ) + only_if(
                    no_diff,
                    seq!["- `diff` (if the cell source needs patching to use fixtures)\n"@],
                ) + seq!["- `test` — **required**\n"@, "\n"@]
            };
            let template = crate::repair::update_template(path, id);
            let steps = if details.contains(("missing"@, "brief"@)) {
                seq![
                    CREATE_BRIEF@,
                    template,
                    "\nThen run the test to confirm it passes:\n\n"@,
                    test_block(path, id),
                    "Once passing, accept:\n\n"@,
                    accept_block(path, id),
                    MISSING_HELP@,
                ]
            } else {
                seq![ABOUT_METADATA@] + only_if(
                    no_fixtures,
                    seq!["### Fixtures\n\n"@, ABOUT_FIXTURES@],
                ) + only_if(no_diff, seq!["### Diff\n\n"@, ABOUT_DIFF@]) + seq![
                    "### Test\n\n"@,
                    ABOUT_TEST@,
                    "### Commands\n\n"@,
                    template,
                    OMIT_FIELDS@,
                    test_block(path, id),
                    "Once the test passes, accept the cell:\n\n"@,
                    accept_block(path, id),
                ]
            };
            occurs_in(
                repair_report(nb, index, path, details, test_result),
                concatenated(lacking + steps),
            )
        }),
{
    let id = nb.cells[index].id;
    let data = nb.cells[index].data();
    let kind = DiagnosticType::Missing;
    report_holds_instructions(nb, index, path, details, test_result, kind);
    let brief = details.contains(("missing"@, "brief"@));
    let section = kind_section(
        kind,
        brief,
        path,
        id,
        data,
        test_result,
        cell_diagnostics(nb, index),
    );
    let no_fixtures = data matches Some(d) ==> (d.fixtures is None || d.fixtures->0.len() == 0);
    let no_diff = data matches Some(d) ==> d.diff is None;
    assert(no_fixtures == !crate::repair::has_some_fixtures(data));
    assert(no_diff == !crate::repair::has_some_diff(data));
    assert(!crate::repair::has_some_test(data));
    let lacking = if data is None {
        seq!["## Missing metadata\n\n"@, "This cell has no nota-bene metadata at all.\n\n"@]
    } else {
        seq![
            "## Incomplete metadata\n\n"@,
            "This cell has some nota-bene metadata but is missing:\n"@,
        ] + only_if(
            no_fixtures,
            seq!["- `fixtures` (if external resources or side effects are involved)\n"@],
        ) + only_if(
            no_diff,
            seq!["- `diff` (if the cell source needs patching to use fixtures)\n"@],
        ) + seq!["- `test` — **required**\n"@, "\n"@]
    };
    assert(crate::repair::lacking_section(data) =~= lacking);
    let template = crate::repair::update_template(path, id);
    if brief {
        assert(section =~= lacking + seq![
            CREATE_BRIEF@,
            template,
            "\nThen run the test to confirm it passes:\n\n"@,
            test_block(path, id),
            "Once passing, accept:\n\n"@,
            accept_block(path, id),
            MISSING_HELP@,
        ]);
    } else {
        let steps = seq![ABOUT_METADATA@] + only_if(
            no_fixtures,
            seq!["### Fixtures\n\n"@, ABOUT_FIXTURES@],
        ) + only_if(no_diff, seq!["### Diff\n\n"@, ABOUT_DIFF@]) + seq![
            "### Test\n\n"@,
            ABOUT_TEST@,
            "### Commands\n\n"@,
            template,
            OMIT_FIELDS@,
            test_block(path, id),
            "Once the test passes, accept the cell:\n\n"@,
            accept_block(path, id),
        ];
        assert(crate::repair::creating_detailed(data, path, id) =~= steps);
        assert(section =~= lacking + steps);
    }
}

/// The report on a cell whose diff does not apply shows the diff, and how to
/// replace it.
pub proof fn broken_diff_is_shown(
    nb: NotebookModel,
    index: int,
    path: Seq<char>,
    details: Seq<(Seq<char>, Seq<char>)>,
    test_result: Seq<char>,
    diff: Seq<char>,
)
    requires
        wishes_differ(details),
        has_kind(nb, index, DiagnosticType::DiffConflict),
        nb.cells[index].data() matches Some(data) && data.diff == Some(diff),
    ensures
        ({
            let id = nb.cells[index].id;
            let brief = details.contains(("diff_conflict"@, "brief"@));
            occurs_in(
                repair_report(nb, index, path, details, test_result),
                concatenated(
                    seq![
                        "## Diff conflict\n\n"@,
                        "Stored diff (broken):\n```diff\n"@ + diff + "\n```\n\n"@,
                        if brief {
                            CONFLICT_BRIEF@
                        } else {
                            ABOUT_CONFLICT@
                        },
                        "```bash\nnota-bene update "@ + path + " --data '{\n  \"cell_id\": \""@
                            + id
                            + "\",\n  \"diff\": \"<output of generate_diff, or null to remove>\"\n}'\n```\n\n"@,
                        "Then run the test to confirm it passes:\n\n"@,
                        test_block(path, id),
                        "Once passing, accept:\n\n"@,
                        accept_block(path, id),
                    ] + only_if(brief, seq![CONFLICT_HELP@]),
                ),
            )
        }),
{
    let id = nb.cells[index].id;
    let kind = DiagnosticType::DiffConflict;
    report_holds_instructions(nb, index, path, details, test_result, kind);
    let brief = details.contains(("diff_conflict"@, "brief"@));
    let section = kind_section(
        kind,
        brief,
        path,
        id,
        nb.cells[index].data(),
        test_result,
        cell_diagnostics(nb, index),
    );
    assert(section =~= seq![
        "## Diff conflict\n\n"@,
        "Stored diff (broken):\n```diff\n"@ + diff + "\n```\n\n"@,
        if brief {
            CONFLICT_BRIEF@
        } else {
            ABOUT_CONFLICT@
        },
        "```bash\nnota-bene update "@ + path + " --data '{\n  \"cell_id\": \""@ + id
            + "\",\n  \"diff\": \"<output of generate_diff, or null to remove>\"\n}'\n```\n\n"@,
        "Then run the test to confirm it passes:\n\n"@,
        test_block(path, id),
        "Once passing, accept:\n\n"@,
        accept_block(path, id),
    ] + only_if(brief, seq![CONFLICT_HELP@]));
}

// ---------------------------------------------------------------------------
// The cell and what it has
// ---------------------------------------------------------------------------

/// Two pieces that stand next to each other occur in the whole.
proof fn neighbours_occur(all: Seq<Seq<char>>, at: int)
    requires
        0 <= at,
        at + 1 < all.len(),
    ensures
        occurs_in(concatenated(all), all[at] + all[at + 1]),
{
    let pair = seq![all[at], all[at + 1]];
    pieces_occur(all.take(at), pair, all.skip(at + 2));
    assert(all.take(at) + pair + all.skip(at + 2) =~= all);
    two_pieces(all[at], all[at + 1]);
}

/// Everything in a report behind what is said of the cell itself.
spec fn report_rest(
    nb: NotebookModel,
    index: int,
    path: Seq<char>,
    details: Seq<(Seq<char>, Seq<char>)>,
    test_result: Seq<char>,
) -> Seq<Seq<char>> {
    let cell = nb.cells[index];
    let diagnostics = cell_diagnostics(nb, index);
    let kinds = kinds_among(diagnostics);
    kind_sections(kinds, details, path, cell.id, cell.data(), test_result, diagnostics) + seq![
        NEXT_CELL@,
    ] + texts_if(!wants_any_brief(details), seq![brief_hint(kind_names(kinds))]) + seq![
        FILTER_HELP@,
    ]
}

/// A report as a list of pieces.
spec fn report_pieces(
    nb: NotebookModel,
    index: int,
    path: Seq<char>,
    details: Seq<(Seq<char>, Seq<char>)>,
    test_result: Seq<char>,
) -> Seq<Seq<char>> {
    let cell = nb.cells[index];
    let data = cell.data();
    let names = kind_names(kinds_among(cell_diagnostics(nb, index)));
    report_start(index as nat, path, cell.id, cell.text(), names) + (texts_if(
        data is Some,
        existing_metadata(data->0),
    ) + (texts_if(
        crate::repair::has_some_test(data),
        seq!["## Test result\n\n"@, test_result, "\n\n"@],
    ) + report_rest(nb, index, path, details, test_result)))
}

/// A report is made of its pieces.
proof fn report_of_pieces(
    nb: NotebookModel,
    index: int,
    path: Seq<char>,
    details: Seq<(Seq<char>, Seq<char>)>,
    test_result: Seq<char>,
)
    ensures
        repair_report(nb, index, path, details, test_result) == concatenated(
            report_pieces(nb, index, path, details, test_result),
        ),
{
    let cell = nb.cells[index];
    let data = cell.data();
    let diagnostics = cell_diagnostics(nb, index);
    let kinds = kinds_among(diagnostics);
    let names = kind_names(kinds);
    let sections = kind_sections(kinds, details, path, cell.id, data, test_result, diagnostics);
    let hint = texts_if(!wants_any_brief(details), seq![brief_hint(names)]);
    assert(report_pieces(nb, index, path, details, test_result) =~= report_start(
        index as nat,
        path,
        cell.id,
        cell.text(),
        names,
    ) + texts_if(data is Some, existing_metadata(data->0)) + texts_if(
        crate::repair::has_some_test(data),
        seq!["## Test result\n\n"@, test_result, "\n\n"@],
    ) + sections + seq![NEXT_CELL@] + hint + seq![FILTER_HELP@]);
}

/// The report names the cell, its position and the kinds of its diagnostics,
/// and shows its source.
pub proof fn report_shows_the_cell(
    nb: NotebookModel,
    index: int,
    path: Seq<char>,
    details: Seq<(Seq<char>, Seq<char>)>,
    test_result: Seq<char>,
)
    requires
        0 <= index < nb.cells.len(),
    ensures
        ({
            let cell = nb.cells[index];
            let report = repair_report(nb, index, path, details, test_result);
            let names = kinds_among(cell_diagnostics(nb, index)).map_values(
                |kind: DiagnosticType| kind_name(kind),
            );
            &&& begins_with(
                report,
                "Cell `"@ + cell.id + "` at index "@ + decimal(index as nat) + " in `"@ + path
                    + "` has diagnostics: "@ + joined(names, ", "@) + "\n\n"@,
            )
            &&& occurs_in(report, "## Cell source\n\n```python\n"@ + cell.text())
        }),
{
    let cell = nb.cells[index];
    let names = kind_names(kinds_among(cell_diagnostics(nb, index)));
    let start = report_start(index as nat, path, cell.id, cell.text(), names);
    let all = report_pieces(nb, index, path, details, test_result);
    let report = repair_report(nb, index, path, details, test_result);
    report_of_pieces(nb, index, path, details, test_result);
    assert(all[0] == start[0]);
    assert(all[7] == start[7]);
    assert(all[8] == start[8]);
    neighbours_occur(all, 7);
    crate::text::concatenated_front(all[0], all.skip(1));
    assert(seq![all[0]] + all.skip(1) =~= all);
    assert(report.take(start[0].len() as int) =~= start[0]);
}

/// The report on a cell with metadata shows its diff, its test and, if there is
/// one, the result of the test; it says where there is none of them.
pub proof fn report_shows_the_metadata(
    nb: NotebookModel,
    index: int,
    path: Seq<char>,
    details: Seq<(Seq<char>, Seq<char>)>,
    test_result: Seq<char>,
    data: DataModel,
)
    requires
        0 <= index < nb.cells.len(),
        nb.cells[index].data() == Some(data),
    ensures
        ({
            let report = repair_report(nb, index, path, details, test_result);
            &&& occurs_in(
                report,
                "## Existing diff\n\n"@ + match data.diff {
                    Some(diff) => "```diff\n"@ + diff + "\n```\n\n"@,
                    None => "None\n\n"@,
                },
            )
            &&& occurs_in(
                report,
                "## Existing test\n\n"@ + match data.test {
                    Some(test) => "Name: "@ + test.name + "\n```python\n"@ + test.source
                        + "\n```\n\n"@,
                    None => "None\n\n"@,
                },
            )
            &&& occurs_in(
                report,
                "## Existing fixtures\n\n"@ + match data.fixtures {
                    Some(entries) => if entries.len() == 0 {
                        "None\n\n"@
                    } else {
                        "```json\n"@ + printed_or(
                            crate::json::ordered_text(ordered_fixtures(entries)),
                            "{}"@,
                        ) + "\n```\n\n"@
                    },
                    None => "None\n\n"@,
                },
            )
            &&& data.test is Some ==> occurs_in(report, "## Test result\n\n"@ + test_result)
        }),
{
    let cell = nb.cells[index];
    let names = kind_names(kinds_among(cell_diagnostics(nb, index)));
    let start = report_start(index as nat, path, cell.id, cell.text(), names);
    let lines = existing_metadata(data);
    let all = report_pieces(nb, index, path, details, test_result);
    let n = start.len() as int;
    report_of_pieces(nb, index, path, details, test_result);
    assert(lines.len() == 6);
    assert(all[n] == lines[0]);
    assert(all[n + 1] == lines[1]);
    assert(all[n + 2] == lines[2]);
    assert(all[n + 3] == lines[3]);
    assert(all[n + 4] == lines[4]);
    assert(all[n + 5] == lines[5]);
    neighbours_occur(all, n);
    neighbours_occur(all, n + 2);
    neighbours_occur(all, n + 4);
    if data.test is Some {
        assert(all[n + 6] == "## Test result\n\n"@);
        assert(all[n + 7] == test_result);
        neighbours_occur(all, n + 6);
    }
}

/// One piece.
proof fn single_piece(piece: Seq<char>)
    ensures
        concatenated(seq![piece]) == piece,
{
    assert(seq![piece].drop_last() =~= Seq::<Seq<char>>::empty());
    assert(concatenated(seq![piece].drop_last()) =~= Seq::<char>::empty());
    assert(concatenated(seq![piece]) =~= Seq::<char>::empty() + piece);
}

/// Two pieces.
proof fn two_pieces(first: Seq<char>, second: Seq<char>)
    ensures
        concatenated(seq![first, second]) == first + second,
{
    single_piece(first);
    assert(seq![first, second].drop_last() =~= seq![first]);
}

// ---------------------------------------------------------------------------
// Results
// ---------------------------------------------------------------------------

/// A word does not occur in two texts put together, if it occurs in neither and
/// the second begins with a character that is not in it.
proof fn word_not_across(first: Seq<char>, second: Seq<char>, word: Seq<char>)
    requires
        !occurs_in(first, word),
        !occurs_in(second, word),
        second.len() == 0 || !word.contains(second[0]),
    ensures
        !occurs_in(first + second, word),
{
    let whole = first + second;
    if occurs_in(whole, word) {
        let at = choose|at: int| stands_at(whole, word, at);
        let n = first.len();
        if at + word.len() <= n {
            assert(first.subrange(at, at + word.len()) =~= whole.subrange(at, at + word.len()));
            assert(stands_at(first, word, at));
        } else if at >= n {
            assert(second.subrange(at - n, at - n + word.len()) =~= whole.subrange(
                at,
                at + word.len(),
            ));
            assert(stands_at(second, word, at - n));
        } else {
            assert(whole.subrange(at, at + word.len())[n - at] == second[0]);
            assert(word[n - at] == second[0]);
        }
    }
}

/// The same, if the first ends with a character that is not in the word.
proof fn word_not_behind(first: Seq<char>, second: Seq<char>, word: Seq<char>)
    requires
        !occurs_in(first, word),
        !occurs_in(second, word),
        first.len() > 0,
        !word.contains(first.last()),
        word.len() > 0,
    ensures
        !occurs_in(first + second, word),
{
    let whole = first + second;
    if occurs_in(whole, word) {
        let at = choose|at: int| stands_at(whole, word, at);
        let n = first.len();
        if at + word.len() <= n {
            assert(first.subrange(at, at + word.len()) =~= whole.subrange(at, at + word.len()));
            assert(stands_at(first, word, at));
        } else if at >= n {
            assert(second.subrange(at - n, at - n + word.len()) =~= whole.subrange(
                at,
                at + word.len(),
            ));
            assert(stands_at(second, word, at - n));
        } else {
            assert(whole.subrange(at, at + word.len())[n - 1 - at] == first.last());
            assert(word[n - 1 - at] == first.last());
        }
    }
}

/// A text without the first letter of a word does not hold the word.
proof fn letter_missing(text: Seq<char>, word: Seq<char>)
    requires
        word.len() > 0,
        !text.contains(word[0]),
    ensures
        !occurs_in(text, word),
{
    if occurs_in(text, word) {
        let at = choose|at: int| stands_at(text, word, at);
        assert(text.subrange(at, at + word.len())[0] == text[at]);
    }
}

/// Whether what a test says of itself does not hold the word `passed`.
pub open spec fn speaks_plainly(subtest: SubtestModel) -> bool {
    !occurs_in(subtest.name, "passed"@) && (subtest.error matches Some(error) ==> !occurs_in(
        error,
        "passed"@,
    ))
}

/// The line about a part of a test does not hold the word `passed`.
proof fn plain_line(subtest: SubtestModel)
    requires
        speaks_plainly(subtest),
    ensures
        !occurs_in(subtest_line(subtest), "passed"@),
        subtest_line(subtest).len() > 0,
        subtest_line(subtest)[0] == '\n',
{
    reveal_strlit("passed");
    reveal_strlit("\n  - ");
    reveal_strlit(" ✓");
    reveal_strlit(" ✗ — ");
    reveal_strlit("(no detail)");
    let word = "passed"@;
    let head = "\n  - "@;
    letter_missing(head, word);
    letter_missing(" ✓"@, word);
    letter_missing(" ✗ — "@, word);
    letter_missing("(no detail)"@, word);
    assert(head.last() == ' ');
    word_not_behind(head, subtest.name, word);
    if subtest.passed {
        word_not_across(head + subtest.name, " ✓"@, word);
    } else {
        let error = match subtest.error {
            Some(error) => error,
            None => "(no detail)"@,
        };
        assert(" ✗ — "@.last() == ' ');
        word_not_behind(" ✗ — "@, error, word);
        let tail = " ✗ — "@ + error;
        assert(tail[0] == ' ');
        word_not_across(head + subtest.name, tail, word);
        assert(subtest_line(subtest) =~= head + subtest.name + tail);
    }
}

/// The lines about the parts of a test do not hold the word `passed`.
proof fn plain_lines(subtests: Seq<SubtestModel>)
    requires
        forall|i: int| 0 <= i < subtests.len() ==> speaks_plainly(#[trigger] subtests[i]),
    ensures
        ({
            let text = concatenated(
                subtests.map_values(|subtest: SubtestModel| subtest_line(subtest)),
            );
            &&& !occurs_in(text, "passed"@)
            &&& text.len() == 0 || text[0] == '\n'
        }),
    decreases subtests.len(),
{
    reveal_strlit("passed");
    let lines = subtests.map_values(|subtest: SubtestModel| subtest_line(subtest));
    if subtests.len() == 0 {
        letter_missing(concatenated(lines), "passed"@);
    } else {
        let front = subtests.drop_last();
        assert forall|i: int| 0 <= i < front.len() implies speaks_plainly(#[trigger] front[i]) by {
            assert(front[i] == subtests[i]);
        }
        plain_lines(front);
        assert(speaks_plainly(subtests[subtests.len() - 1]));
        plain_line(subtests.last());
        let before = front.map_values(|subtest: SubtestModel| subtest_line(subtest));
        assert(lines.drop_last() =~= before);
        assert(lines.last() == subtest_line(subtests.last()));
        word_not_across(concatenated(before), lines.last(), "passed"@);
        if concatenated(before).len() > 0 {
            assert(concatenated(lines)[0] == concatenated(before)[0]);
        } else {
            assert(concatenated(lines)[0] == lines.last()[0]);
        }
    }
}

/// The number of failed parts is zero if and only if all passed.
proof fn none_failed(subtests: Seq<SubtestModel>)
    ensures
        failed_count(subtests) == 0 <==> forall|i: int|
            0 <= i < subtests.len() ==> (#[trigger] subtests[i]).passed,
        failed_count(subtests) <= subtests.len(),
    decreases subtests.len(),
{
    if subtests.len() > 0 {
        let front = subtests.drop_last();
        none_failed(front);
        if failed_count(subtests) == 0 {
            assert forall|i: int| 0 <= i < subtests.len() implies (#[trigger] subtests[i]).passed by {
                if i < front.len() {
                    assert(front[i].passed);
                }
            }
        } else if forall|i: int| 0 <= i < subtests.len() ==> (#[trigger] subtests[i]).passed {
            assert(subtests[subtests.len() - 1].passed);
            assert forall|i: int| 0 <= i < front.len() implies (#[trigger] front[i]).passed by {
                assert(front[i] == subtests[i]);
            }
        }
    }
}

/// A number holds no letters.
proof fn digits_are_no_letters(n: nat)
    ensures
        !decimal(n).contains('p'),
{
    decimal_has_value(n);
    if decimal(n).contains('p') {
        let i = choose|i: int| 0 <= i < decimal(n).len() && decimal(n)[i] == 'p';
        assert(is_digit(decimal(n)[i]));
    }
}

/// The text of the result of a test that ran tells of success if and only if
/// every part of it passed. Neither the names of the parts nor their errors hold
/// the word `passed`, which would count as well.
pub proof fn result_tells_of_success(result: TestResultModel)
    requires
        result matches TestResultModel::Completed { subtests, .. } && forall|i: int|
            0 <= i < subtests.len() ==> speaks_plainly(#[trigger] subtests[i]),
    ensures
        tells_of_success(result_text(result)) <==> forall|i: int|
            0 <= i < result->subtests.len() ==> (#[trigger] result->subtests[i]).passed,
{
    let subtests = result->subtests;
    let text = result_text(result);
    let failed = failed_count(subtests);
    none_failed(subtests);
    let lines = concatenated(subtests.map_values(|subtest: SubtestModel| subtest_line(subtest)));
    if failed == 0 {
        reveal_strlit("All ");
        assert(text.take(4) =~= "All "@);
    } else {
        reveal_strlit("passed");
        reveal_strlit("FAILED — ");
        reveal_strlit(" of ");
        reveal_strlit(" subtests failed:");
        reveal_strlit("All ");
        plain_lines(subtests);
        digits_are_no_letters(failed);
        digits_are_no_letters(subtests.len());
        let a = "FAILED — "@;
        let b = decimal(failed);
        let c = " of "@;
        let d = decimal(subtests.len());
        let e = " subtests failed:"@;
        let first = a + b + c + d + e;
        assert(!a.contains('p'));
        assert(!c.contains('p'));
        assert(!e.contains('p'));
        letter_missing(a, "passed"@);
        letter_missing(b, "passed"@);
        letter_missing(c, "passed"@);
        letter_missing(d, "passed"@);
        letter_missing(e, "passed"@);
        assert(a.last() == ' ');
        word_not_behind(a, b, "passed"@);
        word_not_across(a + b, c, "passed"@);
        assert((a + b + c).last() == ' ');
        word_not_behind(a + b + c, d, "passed"@);
        word_not_across(a + b + c + d, e, "passed"@);
        word_not_across(first, lines, "passed"@);
        assert(text == first + lines);
        if begins_with(text, "All "@) {
            assert(text.take(4)[0] == 'A');
            assert(text[0] == a[0]);
        }
    }
}

/// The report on a cell that needs review, made for a test that ran, says that
/// the test passes if every part of it passed, and else that it is failing.
pub proof fn review_tells_passing_from_failing(
    nb: NotebookModel,
    index: int,
    path: Seq<char>,
    result: TestResultModel,
)
    requires
        has_kind(nb, index, DiagnosticType::NeedsReview),
        result matches TestResultModel::Completed { subtests, .. } && forall|i: int|
            0 <= i < subtests.len() ==> speaks_plainly(#[trigger] subtests[i]),
    ensures
        ({
            let report = repair_report(nb, index, path, Seq::empty(), result_text(result));
            let id = nb.cells[index].id;
            if forall|i: int|
                0 <= i < result->subtests.len() ==> (#[trigger] result->subtests[i]).passed {
                occurs_in(
                    report,
                    "The test still passes. If the metadata looks correct for the current source, accept the cell:\n\n"@
                        + accept_block(path, id),
                )
            } else {
                occurs_in(
                    report,
                    "The test is failing. Update the metadata as needed, re-run the test to confirm it passes, then accept:\n\n"@
                        + update_block(path, id),
                )
            }
        }),
{
    let id = nb.cells[index].id;
    let text = result_text(result);
    let report = repair_report(nb, index, path, Seq::empty(), text);
    let none = Seq::<(Seq<char>, Seq<char>)>::empty();
    result_tells_of_success(result);
    review_goes_by_the_result(nb, index, path, none, text);
    assert(!none.contains(("needs_review"@, "brief"@)));
    let head = seq!["## Needs review — instructions\n\n"@, ABOUT_REVIEW@];
    if tells_of_success(text) {
        let said = "The test still passes. If the metadata looks correct for the current source, accept the cell:\n\n"@;
        let rest = seq![
            REVIEW_UPDATE@,
            update_block(path, id),
            test_block(path, id),
            accept_block(path, id),
        ];
        two_pieces(said, accept_block(path, id));
        pieces_occur(head, seq![said, accept_block(path, id)], rest);
        let all = seq![
            "## Needs review — instructions\n\n"@,
            ABOUT_REVIEW@,
            said,
            accept_block(path, id),
            REVIEW_UPDATE@,
            update_block(path, id),
            test_block(path, id),
            accept_block(path, id),
        ];
        assert(head + seq![said, accept_block(path, id)] + rest =~= all);
        occurs_in_whole(report, concatenated(all), said + accept_block(path, id));
    } else {
        let said = "The test is failing. Update the metadata as needed, re-run the test to confirm it passes, then accept:\n\n"@;
        let rest = seq![test_block(path, id), accept_block(path, id)];
        two_pieces(said, update_block(path, id));
        pieces_occur(head, seq![said, update_block(path, id)], rest);
        let all = seq![
            "## Needs review — instructions\n\n"@,
            ABOUT_REVIEW@,
            said,
            update_block(path, id),
            test_block(path, id),
            accept_block(path, id),
        ];
        assert(head + seq![said, update_block(path, id)] + rest =~= all);
        occurs_in_whole(report, concatenated(all), said + update_block(path, id));
    }
}

/// A line occurs among those one after the other.
proof fn line_occurs(lines: Seq<Seq<char>>, at: int)
    requires
        0 <= at < lines.len(),
    ensures
        occurs_in(concatenated(lines), lines[at]),
{
    let before = lines.take(at);
    let after = lines.skip(at + 1);
    assert(lines =~= before + seq![lines[at]] + after);
    pieces_occur(before, seq![lines[at]], after);
    let alone = seq![lines[at]];
    assert(alone.drop_last() =~= Seq::<Seq<char>>::empty());
    assert(concatenated(alone) == concatenated(alone.drop_last()) + alone.last());
    assert(concatenated(alone) =~= lines[at]);
}

/// The result of a test tells of each part: its name with a mark that it
/// passed, or with one that it failed and why.
pub proof fn result_tells_of_every_part(result: TestResultModel, at: int)
    requires
        result is Completed,
        0 <= at < result->subtests.len(),
    ensures
        ({
            let subtest = result->subtests[at];
            let text = result_text(result);
            &&& subtest.passed ==> occurs_in(text, "\n  - "@ + subtest.name + " ✓"@)
            &&& !subtest.passed ==> occurs_in(
                text,
                "\n  - "@ + subtest.name + " ✗ — "@ + match subtest.error {
                    Some(error) => error,
                    None => "(no detail)"@,
                },
            )
        }),
{
    let subtests = result->subtests;
    let lines = subtests.map_values(|subtest: SubtestModel| subtest_line(subtest));
    let failed = failed_count(subtests);
    let first = if failed == 0 {
        "All "@ + decimal(subtests.len()) + " subtests passed:"@
    } else {
        "FAILED — "@ + decimal(failed) + " of "@ + decimal(subtests.len()) + " subtests failed:"@
    };
    line_occurs(lines, at);
    middle_occurs(first, concatenated(lines), Seq::empty());
    assert(first + concatenated(lines) + Seq::<char>::empty() =~= result_text(result));
    occurs_in_whole(result_text(result), concatenated(lines), lines[at]);
    assert(lines[at] == subtest_line(subtests[at]));
}

/// The result of a test that could not be run tells of the phase, of what went
/// wrong and of the traceback.
pub proof fn result_tells_of_the_error(result: TestResultModel)
    requires
        result is Error,
    ensures
        occurs_in(result_text(result), "`"@ + result->error.phase + "`"@),
        occurs_in(result_text(result), result->error.detail),
        result->error.traceback matches Some(traceback) ==> occurs_in(
            result_text(result),
            traceback,
        ),
{
    reveal_strlit("`");
    reveal_strlit("ERROR in phase `");
    reveal_strlit("`: ");
    let error = result->error;
    let text = result_text(result);
    let first = "ERROR in phase `"@ + error.phase + "`: "@ + error.detail;
    let rest = match error.traceback {
        Some(traceback) => "\n\nTraceback:\n```\n"@ + traceback + "\n```"@,
        None => Seq::empty(),
    };
    assert(text =~= first + rest);
    let named = "`"@ + error.phase + "`"@;
    assert(text =~= "ERROR in phase "@ + named + (": "@ + error.detail + rest)) by {
        reveal_strlit("ERROR in phase ");
        reveal_strlit(": ");
    }
    middle_occurs("ERROR in phase "@, named, ": "@ + error.detail + rest);
    assert(text =~= ("ERROR in phase `"@ + error.phase + "`: "@) + error.detail + rest);
    middle_occurs("ERROR in phase `"@ + error.phase + "`: "@, error.detail, rest);
    if let Some(traceback) = error.traceback {
        assert(text =~= (first + "\n\nTraceback:\n```\n"@) + traceback + "\n```"@);
        middle_occurs(first + "\n\nTraceback:\n```\n"@, traceback, "\n```"@);
    }
}

/// What is said about a diff holds the diff, the cell and the notebook.
pub proof fn shown_diff_is_the_diff(cell_id: Seq<char>, path: Seq<char>, diff: Seq<char>)
    ensures
        occurs_in(diff_text(cell_id, path, diff), "```diff\n"@ + diff + "\n```"@),
        occurs_in(diff_text(cell_id, path, diff), "`"@ + cell_id + "` in `"@ + path + "`"@),
{
    reveal_strlit("Unified diff for cell `");
    reveal_strlit("Unified diff for cell ");
    reveal_strlit("`");
    reveal_strlit("` in `");
    reveal_strlit("`:\n\n```diff\n");
    reveal_strlit("`:\n\n");
    reveal_strlit(":\n\n```diff\n");
    reveal_strlit("```diff\n");
    reveal_strlit("\n```");
    reveal_strlit(
        "\n```\n\nPass this diff string as the `\"diff\"` value in:\n```bash\nnota-bene update ",
    );
    reveal_strlit(
        "\n\nPass this diff string as the `\"diff\"` value in:\n```bash\nnota-bene update ",
    );
    let text = diff_text(cell_id, path, diff);
    let start = "Unified diff for cell `"@ + cell_id + "` in `"@ + path;
    let close =
        "\n```\n\nPass this diff string as the `\"diff\"` value in:\n```bash\nnota-bene update "@;
    let rest = path + " --data '{\"cell_id\": \""@ + cell_id
        + "\", \"diff\": \"<diff above>\"}'\n             \n```"@;
    assert(text =~= start + "`:\n\n```diff\n"@ + diff + close + rest);
    let shown = "```diff\n"@ + diff + "\n```"@;
    let behind =
        "\n\nPass this diff string as the `\"diff\"` value in:\n```bash\nnota-bene update "@ + rest;
    assert("`:\n\n```diff\n"@ =~= "`:\n\n"@ + "```diff\n"@);
    assert(close + rest =~= "\n```"@ + behind);
    assert(text =~= (start + "`:\n\n"@) + shown + behind);
    middle_occurs(start + "`:\n\n"@, shown, behind);
    let named = "`"@ + cell_id + "` in `"@ + path + "`"@;
    assert("Unified diff for cell `"@ =~= "Unified diff for cell "@ + "`"@);
    assert("`:\n\n```diff\n"@ =~= "`"@ + ":\n\n```diff\n"@);
    assert(text =~= "Unified diff for cell "@ + named + (":\n\n```diff\n"@ + diff + close + rest));
    middle_occurs("Unified diff for cell "@, named, ":\n\n```diff\n"@ + diff + close + rest);
}

/// A report ends with what to do next. How to ask for less is said there unless
/// some kind is wished to be brief, with the first kind as the example.
pub proof fn hint_goes_by_the_wishes(
    nb: NotebookModel,
    index: int,
    path: Seq<char>,
    details: Seq<(Seq<char>, Seq<char>)>,
    test_result: Seq<char>,
)
    requires
        0 <= index < nb.cells.len(),
    ensures
        ({
            let report = repair_report(nb, index, path, details, test_result);
            let kinds = kinds_among(cell_diagnostics(nb, index));
            let brief = exists|i: int|
                0 <= i < details.len() && (#[trigger] details[i]).1 == "brief"@;
            let hint = brief_hint(kind_names(kinds));
            let end = if brief {
                NEXT_CELL@ + FILTER_HELP@
            } else {
                NEXT_CELL@ + hint + FILTER_HELP@
            };
            &&& end.len() <= report.len()
            &&& report.skip(report.len() - end.len()) == end
            &&& kinds.len() > 0 ==> occurs_in(
                hint,
                "`detail_level: {\""@ + kind_name(kinds[0]) + "\": \"brief\"}`"@,
            )
        }),
{
    let cell = nb.cells[index];
    let data = cell.data();
    let diagnostics = cell_diagnostics(nb, index);
    let kinds = kinds_among(diagnostics);
    let names = kind_names(kinds);
    let hint = brief_hint(names);
    let start = report_start(index as nat, path, cell.id, cell.text(), names) + texts_if(
        data is Some,
        existing_metadata(data->0),
    ) + texts_if(
        crate::repair::has_some_test(data),
        seq!["## Test result\n\n"@, test_result, "\n\n"@],
    ) + kind_sections(kinds, details, path, cell.id, data, test_result, diagnostics);
    let wished = texts_if(!wants_any_brief(details), seq![hint]);
    let next = seq![NEXT_CELL@];
    let last = seq![FILTER_HELP@];
    concatenated_sum(start, next);
    concatenated_sum(start + next, wished);
    concatenated_sum(start + next + wished, last);
    single_piece(NEXT_CELL@);
    single_piece(FILTER_HELP@);
    single_piece(hint);
    let report = repair_report(nb, index, path, details, test_result);
    let before = concatenated(start);
    assert(report == before + NEXT_CELL@ + concatenated(wished) + FILTER_HELP@);
    if wants_any_brief(details) {
        let end = NEXT_CELL@ + FILTER_HELP@;
        assert(concatenated(wished) =~= Seq::<char>::empty());
        assert(report =~= before + end);
        assert(report.skip(report.len() - end.len()) =~= end);
    } else {
        let end = NEXT_CELL@ + hint + FILTER_HELP@;
        assert(report =~= before + end);
        assert(report.skip(report.len() - end.len()) =~= end);
    }
    if kinds.len() > 0 {
        hint_names_a_kind(names);
        assert(names[0] == kind_name(kinds[0]));
    }
}

/// The example of how to ask for less.
proof fn hint_names_a_kind(names: Seq<Seq<char>>)
    requires
        names.len() > 0,
    ensures
        occurs_in(brief_hint(names), "`detail_level: {\""@ + names[0] + "\": \"brief\"}`"@),
{
    let all =
        "\nOn subsequent calls, you may pass `detail_level` with `\"brief\"` for diagnostic types you've already seen, to reduce context. For example: `detail_level: {\""@;
    let first =
        "\nOn subsequent calls, you may pass `detail_level` with `\"brief\"` for diagnostic types you've already seen, to reduce context. For example: "@;
    reveal_strlit(
        "\nOn subsequent calls, you may pass `detail_level` with `\"brief\"` for diagnostic types you've already seen, to reduce context. For example: `detail_level: {\"",
    );
    reveal_strlit(
        "\nOn subsequent calls, you may pass `detail_level` with `\"brief\"` for diagnostic types you've already seen, to reduce context. For example: ",
    );
    reveal_strlit("`detail_level: {\"");
    reveal_strlit("\": \"brief\"}`\n");
    reveal_strlit("\": \"brief\"}`");
    reveal_strlit("\n");
    assert(all =~= first + "`detail_level: {\""@);
    assert("\": \"brief\"}`\n"@ =~= "\": \"brief\"}`"@ + "\n"@);
    let part = "`detail_level: {\""@ + names[0] + "\": \"brief\"}`"@;
    assert(brief_hint(names) =~= first + part + "\n"@);
    middle_occurs(first, part, "\n"@);
}

} // verus!
