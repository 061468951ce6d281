//! What holds between making an editor notebook and applying it.
use vstd::prelude::*;
use vstd::utf8::{
    encode_utf8, encode_utf8_decode_utf8, encode_utf8_first_scalar, encode_utf8_valid_utf8,
    is_char_boundary, pop_first_scalar,
};

use crate::edit::{editor_metadata, fixture_text, is_editor_notebook, test_text};
use crate::fixtures::FixtureModel;
use crate::json::{member_index_unique, member_of_with_member, without_member, JsonModel};
use crate::metadata::{shas_json, ShaModel, METADATA_KEY};
use crate::metadata_laws::shas_read_back;
use crate::notebook::NotebookModel;
use crate::save::{
    body_is_text, changed_conflicts, conflicts, deleted_conflicts, first_line, fixture_header,
    header_count, header_of, inserted_conflicts, is_header_line, kept_shas, parsed_fixture,
    parsed_test, sha_conflicts, text_from, without_skip_line,
};
use crate::sha_laws::{cell_ids_differ, common_ids_all, entry_index_unique};
use crate::shas::{ids_of, recorded_sha, snapshot};
use crate::text::{
    after_prefix, bare_lines, decimal, digits_value, first_index, first_index_is_first, is_digit,
    is_white, signed_decimal, signed_value, trimmed, trimmed_end, trimmed_start, whole_lines,
};

verus! {

/// The bytes of two texts put together are the bytes of the first and those of
/// the second.
pub proof fn encoded_together(a: Seq<char>, b: Seq<char>)
    ensures
        encode_utf8(a + b) == encode_utf8(a) + encode_utf8(b),
    decreases a.len(),
{
    if a.len() == 0 {
        assert(a + b =~= b);
        assert(encode_utf8(a) + encode_utf8(b) =~= encode_utf8(b));
    } else {
        encoded_together(a.drop_first(), b);
        assert((a + b).drop_first() =~= a.drop_first() + b);
        assert((a + b)[0] == a[0]);
        assert(encode_utf8(a + b) =~= encode_utf8(a) + encode_utf8(b));
    }
}

/// The end of a text is a boundary between characters of a longer one.
proof fn end_is_boundary(a: Seq<char>, b: Seq<char>)
    ensures
        is_char_boundary(encode_utf8(a + b), encode_utf8(a).len() as int),
    decreases a.len(),
{
    encode_utf8_valid_utf8(a + b);
    if a.len() > 0 {
        encoded_together(a, b);
        end_is_boundary(a.drop_first(), b);
        encode_utf8_first_scalar(a + b);
        encode_utf8_first_scalar(a);
        assert((a + b).drop_first() =~= a.drop_first() + b);
        assert(pop_first_scalar(encode_utf8(a + b)) =~= encode_utf8(a.drop_first() + b));
    }
}

/// The text behind the bytes of its beginning.
proof fn text_behind(a: Seq<char>, b: Seq<char>)
    ensures
        text_from(a + b, encode_utf8(a).len() as int) == b,
{
    encoded_together(a, b);
    encode_utf8_decode_utf8(b);
    let bytes = encode_utf8(a + b);
    let at = encode_utf8(a).len() as int;
    assert(bytes.subrange(at, bytes.len() as int) =~= encode_utf8(b));
    if encode_utf8(b).len() == 0 {
        encode_utf8_decode_utf8(b);
        assert(encode_utf8(b) =~= Seq::<u8>::empty());
        encode_utf8_decode_utf8(Seq::<char>::empty());
        assert(encode_utf8(Seq::<char>::empty()) =~= Seq::<u8>::empty());
    }
}

/// Whether a text is one line without white space at its ends.
pub open spec fn is_neat(s: Seq<char>) -> bool {
    &&& !s.contains('\n')
    &&& trimmed(s) == s
}

/// Trimming drops a space in front.
proof fn trimmed_after_space(s: Seq<char>)
    requires
        trimmed(s) == s,
    ensures
        trimmed(" "@ + s) == s,
{
    reveal_strlit(" ");
    let spaced = " "@ + s;
    assert(spaced.drop_first() =~= s);
    assert(trimmed_start(spaced) == trimmed_start(s));
}

/// Trimming takes nothing from a text without white space at its ends.
proof fn trimmed_has_no_white(s: Seq<char>)
    requires
        trimmed(s) == s,
        s.len() > 0,
    ensures
        !is_white(s[0]),
        !is_white(s.last()),
{
    trimmed_start_shrinks(s);
    trimmed_end_shrinks(trimmed_start(s));
    if is_white(s[0]) {
        trimmed_start_shrinks(s.drop_first());
    }
    if is_white(s.last()) {
        assert(trimmed_start(s).len() == s.len());
        trimmed_end_shrinks(s.drop_last());
    }
}

proof fn trimmed_start_shrinks(s: Seq<char>)
    ensures
        trimmed_start(s).len() <= s.len(),
        trimmed_start(s).len() == s.len() ==> trimmed_start(s) == s,
    decreases s.len(),
{
    if s.len() > 0 && is_white(s[0]) {
        trimmed_start_shrinks(s.drop_first());
    }
}

proof fn trimmed_end_shrinks(s: Seq<char>)
    ensures
        trimmed_end(s).len() <= s.len(),
        trimmed_end(s).len() == s.len() ==> trimmed_end(s) == s,
    decreases s.len(),
{
    if s.len() > 0 && is_white(s.last()) {
        trimmed_end_shrinks(s.drop_last());
    }
}

/// A line in front of a text is its first line.
pub proof fn lines_after_line(line: Seq<char>, rest: Seq<char>)
    requires
        !line.contains('\n'),
        line.len() == 0 || line.last() != '\r',
    ensures
        bare_lines(line + "\n"@ + rest) == seq![line] + bare_lines(rest),
        first_index(line + "\n"@ + rest, '\n') == line.len(),
{
    reveal_strlit("\n");
    let s = line + "\n"@ + rest;
    first_index_is_first(s, '\n');
    let at = first_index(s, '\n');
    assert(s[line.len() as int] == '\n');
    if at < line.len() {
        assert(s[at] == line[at]);
        assert(line.contains('\n'));
    }
    assert(s.take(at + 1) =~= line + "\n"@);
    assert(s.skip(at + 1) =~= rest);
    let first = line + "\n"@;
    assert(first.drop_last() =~= line);
    assert(whole_lines(s) == seq![first] + whole_lines(rest));
    assert(bare_lines(s) =~= seq![line] + bare_lines(rest));
}

/// A text without a line feed is its only line.
proof fn lines_of_line(line: Seq<char>)
    requires
        !line.contains('\n'),
        line.len() > 0,
    ensures
        bare_lines(line) == seq![line],
        first_index(line, '\n') == line.len(),
{
    first_index_is_first(line, '\n');
    let at = first_index(line, '\n');
    if at < line.len() {
        assert(line.contains('\n'));
    }
    assert(bare_lines(line) =~= seq![line]);
}

/// The digits of a number stand for it.
pub proof fn decimal_has_value(n: nat)
    ensures
        digits_value(decimal(n)) == Some(n as int),
        decimal(n).len() > 0,
        forall|i: int| 0 <= i < decimal(n).len() ==> is_digit(#[trigger] decimal(n)[i]),
    decreases n,
{
    if n >= 10 {
        decimal_has_value(n / 10);
        assert(decimal(n).drop_last() =~= decimal(n / 10));
    }
}

/// Reading a printed number gives it back.
pub proof fn signed_decimal_reads_back(n: int)
    requires
        i64::MIN <= n <= i64::MAX,
    ensures
        signed_value(signed_decimal(n)) == Some(n),
        is_neat(signed_decimal(n)),
        signed_decimal(n).len() > 0,
{
    let s = signed_decimal(n);
    if n < 0 {
        decimal_has_value((-n) as nat);
        assert(s.skip(1) =~= decimal((-n) as nat));
        assert(s.last() == decimal((-n) as nat).last());
    } else {
        decimal_has_value(n as nat);
    }
    assert(!is_white(s[0]));
    assert(is_digit(s.last()));
    assert(!is_white(s.last()));
    assert(trimmed(s) == s);
    assert(!s.contains('\n')) by {
        if s.contains('\n') {
            let i = choose|i: int| 0 <= i < s.len() && s[i] == '\n';
            if n < 0 {
                assert(i == 0 || s[i] == decimal((-n) as nat)[i - 1]);
            }
        }
    }
}

/// A header line and its bytes.
proof fn header_line_parts(prefix: Seq<char>, value: Seq<char>)
    requires
        is_neat(value),
        prefix == "# fixture: "@ || prefix == "# description: "@ || prefix == "# priority: "@,
    ensures
        !(prefix + value).contains('\n'),
        (prefix + value).last() != '\r',
        is_header_line(prefix + value),
        prefix == "# fixture: "@ ==> after_prefix(prefix + value, "# fixture:"@) == Some(
            " "@ + value,
        ),
        prefix == "# description: "@ ==> after_prefix(prefix + value, "# fixture:"@) is None
            && after_prefix(prefix + value, "# description:"@) == Some(" "@ + value),
        prefix == "# priority: "@ ==> after_prefix(prefix + value, "# fixture:"@) is None
            && after_prefix(prefix + value, "# description:"@) is None && after_prefix(
            prefix + value,
            "# priority:"@,
        ) == Some(" "@ + value),
{
    reveal_strlit("# fixture: ");
    reveal_strlit("# description: ");
    reveal_strlit("# priority: ");
    reveal_strlit("# fixture:");
    reveal_strlit("# description:");
    reveal_strlit("# priority:");
    reveal_strlit(" ");
    let line = prefix + value;
    if value.len() > 0 {
        trimmed_has_no_white(value);
        assert(line.last() == value.last());
    }
    assert(!line.contains('\n')) by {
        if line.contains('\n') {
            let i = choose|i: int| 0 <= i < line.len() && line[i] == '\n';
            if i >= prefix.len() {
                assert(value[i - prefix.len()] == '\n');
                assert(value.contains('\n'));
            }
        }
    }
    if prefix == "# fixture: "@ {
        assert(line.take("# fixture:"@.len() as int) =~= "# fixture:"@);
        assert(line.skip("# fixture:"@.len() as int) =~= " "@ + value);
    } else if prefix == "# description: "@ {
        assert(line[2] == 'd');
        assert(line.take("# description:"@.len() as int) =~= "# description:"@);
        assert(line.skip("# description:"@.len() as int) =~= " "@ + value);
        assert(line.take("# fixture:"@.len() as int)[2] == 'd');
    } else {
        assert(line[2] == 'p');
        assert(line.take("# priority:"@.len() as int) =~= "# priority:"@);
        assert(line.skip("# priority:"@.len() as int) =~= " "@ + value);
        assert(line.take("# fixture:"@.len() as int)[2] == 'p');
        if line.len() >= "# description:"@.len() {
            assert(line.take("# description:"@.len() as int)[2] == 'p');
        }
    }
}

/// The lines at the head of the source of a fixture cell.
spec fn fixture_heads(name: Seq<char>, fixture: FixtureModel) -> Seq<Seq<char>> {
    seq![
        "# fixture: "@ + name,
        "# description: "@ + fixture.description,
        "# priority: "@ + signed_decimal(fixture.priority as int),
    ]
}

/// The head of the source of a fixture cell is made of its first three lines.
proof fn fixture_text_has_head(name: Seq<char>, fixture: FixtureModel)
    requires
        is_neat(name),
        is_neat(fixture.description),
        !is_header_line(first_line(fixture.source)),
    ensures
        fixture_header(fixture_text(name, fixture)) == header_of(fixture_heads(name, fixture)),
{
    let text = fixture_text(name, fixture);
    let heads = fixture_heads(name, fixture);
    let first = heads[0];
    let second = heads[1];
    let third = heads[2];
    signed_decimal_reads_back(fixture.priority as int);
    header_line_parts("# fixture: "@, name);
    header_line_parts("# description: "@, fixture.description);
    header_line_parts("# priority: "@, signed_decimal(fixture.priority as int));
    let tail = if fixture.source.len() == 0 {
        third
    } else {
        third + "\n"@ + fixture.source
    };
    assert(text =~= first + "\n"@ + (second + "\n"@ + tail)) by {
        reveal_strlit("\n");
        reveal_strlit("\n# description: ");
        reveal_strlit("\n# priority: ");
        reveal_strlit("# description: ");
        reveal_strlit("# priority: ");
        assert("\n# description: "@ =~= "\n"@ + "# description: "@);
        assert("\n# priority: "@ =~= "\n"@ + "# priority: "@);
    }
    lines_after_line(first, second + "\n"@ + tail);
    lines_after_line(second, tail);
    let rest = bare_lines(fixture.source);
    if fixture.source.len() == 0 {
        assert(third.len() > 0) by {
            reveal_strlit("# priority: ");
        }
        lines_of_line(third);
        assert(rest =~= Seq::<Seq<char>>::empty());
    } else {
        lines_after_line(third, fixture.source);
    }
    let all = heads + rest;
    assert(bare_lines(text) =~= all);
    let one = all.drop_first();
    let two = one.drop_first();
    assert(all[0] == first);
    assert(one[0] == second);
    assert(two[0] == third);
    assert(two.drop_first() =~= rest);
    assert(header_count(rest) == 0);
    assert(header_count(two) == 1);
    assert(header_count(one) == 2);
    assert(all.take(3) =~= heads);
}

/// The source of a fixture cell reads back as the name and the fixture that it
/// was made of, if name and description are single lines without white space
/// at their ends and the source does not begin with a header line of its own.
pub proof fn fixture_text_reads_back(
    name: Seq<char>,
    fixture: FixtureModel,
    parent: Seq<char>,
    position: nat,
)
    requires
        is_neat(name),
        is_neat(fixture.description),
        !is_header_line(first_line(fixture.source)),
    ensures
        parsed_fixture(fixture_text(name, fixture), parent, position) == (name, fixture),
        body_is_text(fixture_text(name, fixture)),
{
    let text = fixture_text(name, fixture);
    let heads = fixture_heads(name, fixture);
    let first = heads[0];
    let second = heads[1];
    let third = heads[2];
    fixture_text_has_head(name, fixture);
    signed_decimal_reads_back(fixture.priority as int);
    header_of_three(
        name,
        fixture.description,
        signed_decimal(fixture.priority as int),
        heads,
    );
    let head = first + "\n"@ + second + "\n"@ + third + "\n"@;
    assert(encode_utf8("\n"@).len() == 1) by {
        reveal_strlit("\n");
        assert("\n"@.drop_first() =~= Seq::<char>::empty());
        assert(encode_utf8("\n"@.drop_first()) =~= Seq::<u8>::empty());
    }
    encoded_together(first, "\n"@);
    encoded_together(first + "\n"@, second);
    encoded_together(first + "\n"@ + second, "\n"@);
    encoded_together(first + "\n"@ + second + "\n"@, third);
    encoded_together(first + "\n"@ + second + "\n"@ + third, "\n"@);
    assert(header_of(heads).bytes == encode_utf8(head).len());
    assert(first + "\n"@ + second + "\n"@ + third =~= "# fixture: "@ + name
        + "\n# description: "@ + fixture.description + "\n# priority: "@ + signed_decimal(
        fixture.priority as int,
    )) by {
        reveal_strlit("\n");
        reveal_strlit("\n# description: ");
        reveal_strlit("\n# priority: ");
        reveal_strlit("# description: ");
        reveal_strlit("# priority: ");
        assert("\n# description: "@ =~= "\n"@ + "# description: "@);
        assert("\n# priority: "@ =~= "\n"@ + "# priority: "@);
    }
    if fixture.source.len() == 0 {
        assert(text + "\n"@ == head);
        encoded_together(text, "\n"@);
        assert(fixture.source =~= Seq::<char>::empty());
    } else {
        assert(text == head + fixture.source);
        text_behind(head, fixture.source);
        end_is_boundary(head, fixture.source);
    }
}

/// What the three lines of a head say.
proof fn header_of_three(
    name: Seq<char>,
    description: Seq<char>,
    priority: Seq<char>,
    heads: Seq<Seq<char>>,
)
    requires
        is_neat(name),
        is_neat(description),
        is_neat(priority),
        heads == seq![
            "# fixture: "@ + name,
            "# description: "@ + description,
            "# priority: "@ + priority,
        ],
    ensures
        header_of(heads).name == Some(name),
        header_of(heads).description == description,
        header_of(heads).priority == signed_value(priority),
        header_of(heads).bytes == encode_utf8(heads[0]).len() + 1 + encode_utf8(heads[1]).len() + 1
            + encode_utf8(heads[2]).len() + 1,
{
    header_line_parts("# fixture: "@, name);
    header_line_parts("# description: "@, description);
    header_line_parts("# priority: "@, priority);
    trimmed_after_space(name);
    trimmed_after_space(description);
    trimmed_after_space(priority);
    let two = heads.drop_last();
    let one = two.drop_last();
    assert(heads.last() == heads[2]);
    assert(two.last() == heads[1]);
    assert(one.last() == heads[0]);
    assert(one.drop_last() =~= Seq::<Seq<char>>::empty());
    assert(header_of(one.drop_last()).bytes == 0);
    assert(header_of(one).name == Some(name));
    assert(header_of(two).description == description);
}

/// The source of a test cell reads back as the name and the source that it was
/// made of, if the name is a single line, not empty, without white space at
/// its ends.
pub proof fn test_text_reads_back(name: Seq<char>, source: Seq<char>)
    requires
        is_neat(name),
        name.len() > 0,
    ensures
        parsed_test(test_text(name, source)) == (name, source),
{
    let text = test_text(name, source);
    reveal_strlit("%%nb_skip\n");
    reveal_strlit("%%nb_skip\n# test: ");
    reveal_strlit("# test:");
    reveal_strlit("\n");
    trimmed_has_no_white(name);
    let body = if source.len() == 0 {
        name
    } else {
        name + "\n"@ + source
    };
    let rest = "# test: "@ + body;
    reveal_strlit("# test: ");
    assert("%%nb_skip\n# test: "@ =~= "%%nb_skip\n"@ + "# test: "@);
    assert(text =~= "%%nb_skip\n"@ + rest);
    assert(text.take("%%nb_skip\n"@.len() as int) =~= "%%nb_skip\n"@);
    assert(text.skip("%%nb_skip\n"@.len() as int) =~= rest);
    assert(without_skip_line(text) == rest);
    reveal_strlit(" ");
    let after = " "@ + body;
    assert(rest.take("# test:"@.len() as int) =~= "# test:"@);
    assert(rest.skip("# test:"@.len() as int) =~= after);
    assert(after.drop_first() =~= body);
    assert(body[0] == name[0]);
    assert(trimmed_start(body) == body);
    assert(trimmed_start(after) == body);
    let named = "# test: "@ + name;
    assert(!named.contains('\n')) by {
        if named.contains('\n') {
            let i = choose|i: int| 0 <= i < named.len() && named[i] == '\n';
            assert(i >= 8);
            assert(name[i - 8] == '\n');
        }
    }
    if source.len() == 0 {
        lines_of_line(name);
        assert(rest =~= named);
        lines_of_line(named);
        assert(source =~= Seq::<char>::empty());
    } else {
        lines_after_line(name, source);
        assert((seq![name] + bare_lines(source))[0] == name);
        assert(rest =~= named + "\n"@ + source);
        assert(named.last() == name.last());
        lines_after_line(named, source);
        assert(rest.skip(named.len() as int + 1) =~= source);
    }
}

// ---------------------------------------------------------------------------
// Conflicts
// ---------------------------------------------------------------------------

/// Whether no two entries are about the same cell.
pub open spec fn entry_ids_differ(entries: Seq<ShaModel>) -> bool {
    forall|i: int, j: int|
        0 <= i < j < entries.len() ==> (#[trigger] entries[i]).cell_id != (
        #[trigger] entries[j]).cell_id
}

/// No message about deleted cells means that every kept cell is there.
proof fn nothing_deleted(stored: Seq<ShaModel>, current: Seq<Seq<char>>)
    ensures
        deleted_conflicts(stored, current).len() == 0 <==> forall|i: int|
            0 <= i < stored.len() ==> current.contains((#[trigger] stored[i]).cell_id),
    decreases stored.len(),
{
    if stored.len() > 0 {
        let front = stored.drop_last();
        nothing_deleted(front, current);
        assert(stored[stored.len() - 1] == stored.last());
        if deleted_conflicts(stored, current).len() == 0 {
            assert forall|i: int| 0 <= i < stored.len() implies current.contains(
                (#[trigger] stored[i]).cell_id,
            ) by {
                if i < front.len() {
                    assert(front[i] == stored[i]);
                }
            }
        } else if forall|i: int|
            0 <= i < stored.len() ==> current.contains((#[trigger] stored[i]).cell_id) {
            assert forall|i: int| 0 <= i < front.len() implies current.contains(
                (#[trigger] front[i]).cell_id,
            ) by {
                assert(front[i] == stored[i]);
            }
        }
    }
}

/// No message about inserted cells means that every cell was kept.
proof fn nothing_inserted(current: Seq<Seq<char>>, stored: Seq<Seq<char>>)
    ensures
        inserted_conflicts(current, stored).len() == 0 <==> forall|i: int|
            0 <= i < current.len() ==> stored.contains(#[trigger] current[i]),
    decreases current.len(),
{
    if current.len() > 0 {
        let front = current.drop_last();
        nothing_inserted(front, stored);
        assert(current[current.len() - 1] == current.last());
        if inserted_conflicts(current, stored).len() == 0 {
            assert forall|i: int| 0 <= i < current.len() implies stored.contains(
                #[trigger] current[i],
            ) by {
                if i < front.len() {
                    assert(front[i] == current[i]);
                }
            }
        } else if forall|i: int|
            0 <= i < current.len() ==> stored.contains(#[trigger] current[i]) {
            assert forall|i: int| 0 <= i < front.len() implies stored.contains(
                #[trigger] front[i],
            ) by {
                assert(front[i] == current[i]);
            }
        }
    }
}

/// Whether the fingerprint of a cell, if it is there, is the given one.
spec fn still_agrees(current: Seq<ShaModel>, entry: ShaModel) -> bool {
    match recorded_sha(current, entry.cell_id) {
        Some(sha) => sha == entry.sha,
        None => true,
    }
}

/// No message about changed cells means that no fingerprint changed.
proof fn nothing_changed(stored: Seq<ShaModel>, current: Seq<ShaModel>)
    ensures
        changed_conflicts(stored, current).len() == 0 <==> forall|i: int|
            0 <= i < stored.len() ==> still_agrees(current, #[trigger] stored[i]),
    decreases stored.len(),
{
    if stored.len() > 0 {
        let front = stored.drop_last();
        nothing_changed(front, current);
        assert(stored[stored.len() - 1] == stored.last());
        if changed_conflicts(stored, current).len() == 0 {
            assert forall|i: int| 0 <= i < stored.len() implies still_agrees(
                current,
                #[trigger] stored[i],
            ) by {
                if i < front.len() {
                    assert(front[i] == stored[i]);
                }
            }
        } else if forall|i: int|
            0 <= i < stored.len() ==> still_agrees(current, #[trigger] stored[i]) {
            assert forall|i: int| 0 <= i < front.len() implies still_agrees(
                current,
                #[trigger] front[i],
            ) by {
                assert(front[i] == stored[i]);
            }
        }
    }
}

/// The fingerprints of a list of distinct cells are found again.
proof fn own_sha_is_recorded(entries: Seq<ShaModel>, at: int)
    requires
        entry_ids_differ(entries),
        0 <= at < entries.len(),
    ensures
        recorded_sha(entries, entries[at].cell_id) == Some(entries[at].sha),
        ids_of(entries).contains(entries[at].cell_id),
{
    assert forall|i: int| 0 <= i < at implies (#[trigger] entries[i]).cell_id
        != entries[at].cell_id by {
        assert(entries[at].cell_id == entries[at].cell_id);
    }
    entry_index_unique(entries, entries[at].cell_id, at);
    assert(ids_of(entries)[at] == entries[at].cell_id);
}

/// The fingerprints that an editor notebook keeps are those of the source that
/// it was made from.
pub proof fn editor_keeps_snapshot(
    source: NotebookModel,
    editor: NotebookModel,
    source_path: Seq<char>,
)
    requires
        is_editor_notebook(editor, source, source_path),
    ensures
        kept_shas(editor) == Some(snapshot(source)),
{
    let kept = snapshot(source);
    let fields = seq![
        ("source_path"@, JsonModel::Text(source_path)),
        ("source_shas"@, shas_json(kept)),
    ];
    let members = seq![("editor"@, JsonModel::Object(fields))];
    member_of_with_member(
        without_member(source.additional, METADATA_KEY@),
        METADATA_KEY@,
        editor_metadata(source, source_path),
        METADATA_KEY@,
    );
    member_index_unique(members, "editor"@, 0);
    reveal_strlit("source_path");
    reveal_strlit("source_shas");
    assert("source_path"@[7] != "source_shas"@[7]);
    member_index_unique(fields, "source_shas"@, 1);
    shas_read_back(kept);
}

/// An editor notebook has no conflict with the source that it was made from,
/// if the ids of the cells differ.
pub proof fn unchanged_source_has_no_conflicts(
    source: NotebookModel,
    editor: NotebookModel,
    source_path: Seq<char>,
)
    requires
        is_editor_notebook(editor, source, source_path),
        cell_ids_differ(source),
    ensures
        conflicts(source, editor).len() == 0,
{
    let current = snapshot(source);
    let ids = ids_of(current);
    editor_keeps_snapshot(source, editor, source_path);
    assert(entry_ids_differ(current)) by {
        assert forall|i: int, j: int| 0 <= i < j < current.len() implies (
        #[trigger] current[i]).cell_id != (#[trigger] current[j]).cell_id by {
            assert(source.cells[i].id != source.cells[j].id);
        }
    }
    assert forall|i: int| 0 <= i < current.len() implies ids.contains(
        (#[trigger] current[i]).cell_id,
    ) && still_agrees(current, current[i]) by {
        own_sha_is_recorded(current, i);
    }
    assert forall|i: int| 0 <= i < ids.len() implies ids.contains(#[trigger] ids[i]) by {
        assert(ids[i] == current[i].cell_id);
    }
    nothing_deleted(current, ids);
    nothing_inserted(ids, ids);
    nothing_changed(current, current);
}

/// Without a conflict the source is as it was: the fingerprints that the editor
/// notebook keeps, if it keeps any, are those of the source, if no cell is
/// named twice.
pub proof fn no_conflict_means_unchanged(source: NotebookModel, editor: NotebookModel)
    requires
        conflicts(source, editor).len() == 0,
        kept_shas(editor) matches Some(stored) ==> entry_ids_differ(stored),
        cell_ids_differ(source),
    ensures
        kept_shas(editor) matches Some(stored) ==> stored == snapshot(source),
{
    if let Some(stored) = kept_shas(editor) {
        no_change_means_same(source, stored);
    }
}

/// Fingerprints that do not conflict with a source are its own.
proof fn no_change_means_same(source: NotebookModel, stored: Seq<ShaModel>)
    requires
        sha_conflicts(stored, snapshot(source)).len() == 0,
        entry_ids_differ(stored),
        cell_ids_differ(source),
    ensures
        stored == snapshot(source),
{
    let current = snapshot(source);
    let stored_ids = ids_of(stored);
    let ids = ids_of(current);
    let gone = deleted_conflicts(stored, ids);
    let come = inserted_conflicts(ids, stored_ids);
    assert((gone + come).len() == gone.len() + come.len());
    nothing_deleted(stored, ids);
    nothing_inserted(ids, stored_ids);
    nothing_changed(stored, current);
    assert forall|i: int| 0 <= i < stored_ids.len() implies ids.contains(
        #[trigger] stored_ids[i],
    ) by {
        assert(stored_ids[i] == stored[i].cell_id);
    }
    common_ids_all(ids, stored_ids);
    common_ids_all(stored_ids, ids);
    assert(ids == stored_ids);
    assert(entry_ids_differ(current)) by {
        assert forall|i: int, j: int| 0 <= i < j < current.len() implies (
        #[trigger] current[i]).cell_id != (#[trigger] current[j]).cell_id by {
            assert(source.cells[i].id != source.cells[j].id);
        }
    }
    assert(stored.len() == stored_ids.len() == current.len());
    assert forall|i: int| 0 <= i < stored.len() implies stored[i] == current[i] by {
        assert(stored_ids[i] == stored[i].cell_id);
        assert(ids[i] == current[i].cell_id);
        own_sha_is_recorded(current, i);
        assert(still_agrees(current, stored[i]));
    }
    assert(stored =~= current);
}

} // verus!
