//! Bringing the changes of an editor notebook back into its source.
use vstd::prelude::*;
use vstd::utf8::{decode_utf8, encode_utf8, is_char_boundary};

use crate::diff_utils::{compute_diff, diff_between};
use crate::edit::source_after_diff;
use crate::fixtures::{
    fixture_entries, insert_fixture, named_fixtures, new_fixtures, with_fixture, Fixture,
    FixtureMap, FixtureModel,
};
use crate::json::{member, Json, JsonModel};
use crate::metadata::{
    addressed, is_writable, optional_fixtures_json, optional_test_json, optional_text_json,
    read_shas, sha_models, shas_of, with_optional_field, without_field, writable, NotaBeneView,
    ShaEntry, ShaModel, TestMeta, TestModel, METADATA_KEY,
};
use crate::metadata_laws::{optional_field_is_writable, with_field_is_writable};
use crate::notebook::{
    cell_models, clear_editor_meta, nested_text, Cell, CellExt, CellModel, Notebook, NotebookModel,
};
use crate::sha_laws::sha_ignores_recorded_shas;
use crate::shas::{
    cell_message, common_ids, compute_snapshot, entry_ids, find_common_ids, find_entry,
    first_entries, ids_of, recorded_sha, snapshot, with_shas,
};
use crate::text::{
    after_prefix, bare_lines, begins_with, chars_of, decimal, decimal_text, find_from, first_index,
    is_blank, join, joined, list_contains, parse_i64, same_list, same_text, signed_value,
    split_lines, strip_prefix, text_between, text_is, text_view, texts, trim, trim_start,
    trimmed, trimmed_start,
};

verus! {

broadcast use {crate::json::array_view, crate::json::object_view};

// ---------------------------------------------------------------------------
// Conflicts
// ---------------------------------------------------------------------------

/// The fingerprints that an editor notebook keeps of its source, unless they are
/// absent or malformed.
pub open spec fn kept_shas(editor: NotebookModel) -> Option<Seq<ShaModel>> {
    match member(editor.additional, METADATA_KEY@) {
        Some(JsonModel::Object(members)) => match member(members, "editor"@) {
            Some(JsonModel::Object(fields)) => match member(fields, "source_shas"@) {
                Some(json) => shas_of(json),
                None => None,
            },
            _ => None,
        },
        _ => None,
    }
}

/// The messages for the cells that are gone from the source.
pub open spec fn deleted_conflicts(stored: Seq<ShaModel>, current: Seq<Seq<char>>) -> Seq<Seq<char>>
    decreases stored.len(),
{
    if stored.len() == 0 {
        Seq::empty()
    } else {
        let front = deleted_conflicts(stored.drop_last(), current);
        let id = stored.last().cell_id;
        if current.contains(id) {
            front
        } else {
            front.push("cell '"@ + id + "' was deleted from the source notebook"@)
        }
    }
}

/// The messages for the cells that are new in the source.
pub open spec fn inserted_conflicts(current: Seq<Seq<char>>, stored: Seq<Seq<char>>) -> Seq<
    Seq<char>,
>
    decreases current.len(),
{
    if current.len() == 0 {
        Seq::empty()
    } else {
        let front = inserted_conflicts(current.drop_last(), stored);
        let id = current.last();
        if stored.contains(id) {
            front
        } else {
            front.push("cell '"@ + id + "' was inserted into the source notebook"@)
        }
    }
}

/// The messages for the cells that are not what they were.
pub open spec fn changed_conflicts(stored: Seq<ShaModel>, current: Seq<ShaModel>) -> Seq<Seq<char>>
    decreases stored.len(),
{
    if stored.len() == 0 {
        Seq::empty()
    } else {
        let front = changed_conflicts(stored.drop_last(), current);
        let entry = stored.last();
        match recorded_sha(current, entry.cell_id) {
            Some(sha) => if sha != entry.sha {
                front.push("cell '"@ + entry.cell_id + "' source changed since `edit` was run"@)
            } else {
                front
            },
            None => front,
        }
    }
}

/// Everything that changed between two lists of fingerprints. The order is
/// looked at only where no cell came or went, the content only where the order
/// is the same too.
pub open spec fn sha_conflicts(stored: Seq<ShaModel>, current: Seq<ShaModel>) -> Seq<Seq<char>> {
    let moved = deleted_conflicts(stored, ids_of(current)) + inserted_conflicts(
        ids_of(current),
        ids_of(stored),
    );
    if moved.len() > 0 {
        moved
    } else if common_ids(ids_of(current), ids_of(stored)) != common_ids(
        ids_of(stored),
        ids_of(current),
    ) {
        seq!["cell ordering changed in the source notebook"@]
    } else {
        changed_conflicts(stored, current)
    }
}

/// Everything that changed in the source since the editor notebook was made;
/// nothing if the editor notebook keeps no fingerprints.
pub open spec fn conflicts(source: NotebookModel, editor: NotebookModel) -> Seq<Seq<char>> {
    match kept_shas(editor) {
        Some(stored) => sha_conflicts(stored, snapshot(source)),
        None => Seq::empty(),
    }
}

/// What is said when the source has changed.
pub open spec fn conflict_message(errors: Seq<Seq<char>>) -> Seq<char> {
    "Cannot apply: source notebook has changed since `edit` was run:\n  "@ + joined(errors, "\n  "@)
        + "\n\nUse `nota-bene edit --continue --force` to discard source changes and apply anyway."@
}

/// The fingerprints that an editor notebook keeps of its source.
fn read_kept_shas(editor: &Notebook) -> (shas: Option<Vec<ShaEntry>>)
    ensures
        match shas {
            Some(entries) => kept_shas(editor@) == Some(sha_models(entries@)),
            None => kept_shas(editor@) is None,
        },
{
    if let Some(Json::Object(members)) = editor.metadata.additional.get(METADATA_KEY) {
        if let Some(Json::Object(fields)) = members.get("editor") {
            if let Some(json) = fields.get("source_shas") {
                return read_shas(json);
            }
        }
    }
    None
}

/// The messages for the cells that are gone from the source.
fn find_deleted_conflicts(stored: &Vec<ShaEntry>, current: &Vec<String>) -> (errors: Vec<String>)
    ensures
        texts(errors@) == deleted_conflicts(sha_models(stored@), texts(current@)),
{
    let ghost all = sha_models(stored@);
    let mut errors: Vec<String> = Vec::new();
    let mut i: usize = 0;
    assert(texts(errors@) =~= deleted_conflicts(all.take(0), texts(current@)));
    while i < stored.len()
        invariant
            i <= stored.len(),
            all == sha_models(stored@),
            texts(errors@) == deleted_conflicts(all.take(i as int), texts(current@)),
        decreases stored.len() - i,
    {
        let ghost done = texts(errors@);
        assert(all.take(i + 1).drop_last() =~= all.take(i as int));
        assert(all.take(i + 1).last() == stored@[i as int]@);
        if !list_contains(current, stored[i].cell_id.as_str()) {
            let message: String = cell_message(
                "cell '",
                stored[i].cell_id.as_str(),
                "' was deleted from the source notebook",
            );
            errors.push(message);
            assert(texts(errors@) =~= done.push(message@));
        }
        i += 1;
    }
    assert(all.take(i as int) =~= all);
    errors
}

/// The messages for the cells that are new in the source.
fn find_inserted_conflicts(current: &Vec<String>, stored: &Vec<String>) -> (errors: Vec<String>)
    ensures
        texts(errors@) == inserted_conflicts(texts(current@), texts(stored@)),
{
    let ghost all = texts(current@);
    let mut errors: Vec<String> = Vec::new();
    let mut i: usize = 0;
    assert(texts(errors@) =~= inserted_conflicts(all.take(0), texts(stored@)));
    while i < current.len()
        invariant
            i <= current.len(),
            all == texts(current@),
            texts(errors@) == inserted_conflicts(all.take(i as int), texts(stored@)),
        decreases current.len() - i,
    {
        let ghost done = texts(errors@);
        assert(all.take(i + 1).drop_last() =~= all.take(i as int));
        assert(all.take(i + 1).last() == current@[i as int]@);
        if !list_contains(stored, current[i].as_str()) {
            let message: String = cell_message(
                "cell '",
                current[i].as_str(),
                "' was inserted into the source notebook",
            );
            errors.push(message);
            assert(texts(errors@) =~= done.push(message@));
        }
        i += 1;
    }
    assert(all.take(i as int) =~= all);
    errors
}

/// The messages for the cells that are not what they were.
fn find_changed_conflicts(stored: &Vec<ShaEntry>, current: &Vec<ShaEntry>) -> (errors: Vec<String>)
    ensures
        texts(errors@) == changed_conflicts(sha_models(stored@), sha_models(current@)),
{
    let ghost all = sha_models(stored@);
    let ghost now = sha_models(current@);
    let mut errors: Vec<String> = Vec::new();
    let mut i: usize = 0;
    assert(texts(errors@) =~= changed_conflicts(all.take(0), now));
    while i < stored.len()
        invariant
            i <= stored.len(),
            all == sha_models(stored@),
            now == sha_models(current@),
            texts(errors@) == changed_conflicts(all.take(i as int), now),
        decreases stored.len() - i,
    {
        let ghost done = texts(errors@);
        assert(all.take(i + 1).drop_last() =~= all.take(i as int));
        assert(all.take(i + 1).last() == stored@[i as int]@);
        let at: usize = find_entry(current, stored[i].cell_id.as_str());
        if at < current.len() && !same_text(current[at].sha.as_str(), stored[i].sha.as_str()) {
            let message: String = cell_message(
                "cell '",
                stored[i].cell_id.as_str(),
                "' source changed since `edit` was run",
            );
            errors.push(message);
            assert(texts(errors@) =~= done.push(message@));
        }
        i += 1;
    }
    assert(all.take(i as int) =~= all);
    errors
}

/// Compares the fingerprints that the editor notebook keeps with the source as
/// it is. Gives an error message if any cell has changed, moved, come or gone.
/// An editor notebook without fingerprints is not compared.
pub fn check_conflicts(source: &Notebook, editor: &Notebook) -> (outcome: Result<(), String>)
    ensures
        match outcome {
            Ok(_) => conflicts(source@, editor@).len() == 0,
            Err(message) => conflicts(source@, editor@).len() > 0 && message@ == conflict_message(
                conflicts(source@, editor@),
            ),
        },
{
    let stored: Vec<ShaEntry> = match read_kept_shas(editor) {
        Some(entries) => entries,
        None => return Ok(()),
    };
    let current: Vec<ShaEntry> = compute_snapshot(source);
    let stored_ids: Vec<String> = entry_ids(&stored);
    let current_ids: Vec<String> = entry_ids(&current);
    let mut errors: Vec<String> = find_deleted_conflicts(&stored, &current_ids);
    let mut inserted: Vec<String> = find_inserted_conflicts(&current_ids, &stored_ids);
    let ghost first = texts(errors@);
    let ghost second = texts(inserted@);
    errors.append(&mut inserted);
    assert(texts(errors@) =~= first + second);
    assert(texts(errors@).len() == errors@.len());
    if errors.len() == 0 {
        let current_order: Vec<String> = find_common_ids(&current_ids, &stored_ids);
        let stored_order: Vec<String> = find_common_ids(&stored_ids, &current_ids);
        if !same_list(&current_order, &stored_order) {
            errors.push("cell ordering changed in the source notebook".to_owned());
            assert(texts(errors@) =~= seq!["cell ordering changed in the source notebook"@]);
        } else {
            errors = find_changed_conflicts(&stored, &current);
        }
    }
    assert(texts(errors@) == conflicts(source@, editor@));
    assert(texts(errors@).len() == errors@.len());
    if errors.len() == 0 {
        Ok(())
    } else {
        let mut message: String =
            "Cannot apply: source notebook has changed since `edit` was run:\n  ".to_owned();
        message.append(join(&errors, "\n  ").as_str());
        message.append(
            "\n\nUse `nota-bene edit --continue --force` to discard source changes and apply anyway.",
        );
        Err(message)
    }
}

// ---------------------------------------------------------------------------
// Fixture cells
// ---------------------------------------------------------------------------

/// What the lines at the head of a fixture cell say.
pub struct FixtureHeader {
    pub name: Option<Seq<char>>,
    pub description: Seq<char>,
    pub priority: Option<int>,
    /// The bytes that the lines take, each with a line feed.
    pub bytes: nat,
}

/// Whether a line belongs to the head of a fixture cell.
pub open spec fn is_header_line(line: Seq<char>) -> bool {
    begins_with(line, "# fixture:"@) || begins_with(line, "# description:"@) || begins_with(
        line,
        "# priority:"@,
    )
}

/// The number of lines of the head of a fixture cell.
pub open spec fn header_count(lines: Seq<Seq<char>>) -> int
    decreases lines.len(),
{
    if lines.len() == 0 || !is_header_line(lines[0]) {
        0
    } else {
        1 + header_count(lines.drop_first())
    }
}

/// What the lines of a head say; the last line about a thing counts.
pub open spec fn header_of(lines: Seq<Seq<char>>) -> FixtureHeader
    decreases lines.len(),
{
    if lines.len() == 0 {
        FixtureHeader { name: None, description: Seq::empty(), priority: None, bytes: 0 }
    } else {
        let before = header_of(lines.drop_last());
        let line = lines.last();
        let bytes = before.bytes + encode_utf8(line).len() + 1;
        match after_prefix(line, "# fixture:"@) {
            Some(rest) => FixtureHeader { name: Some(trimmed(rest)), bytes, ..before },
            None => match after_prefix(line, "# description:"@) {
                Some(rest) => FixtureHeader { description: trimmed(rest), bytes, ..before },
                None => match after_prefix(line, "# priority:"@) {
                    Some(rest) => FixtureHeader {
                        priority: signed_value(trimmed(rest)),
                        bytes,
                        ..before
                    },
                    None => before,
                },
            },
        }
    }
}

/// What the head of a fixture cell says.
pub open spec fn fixture_header(source: Seq<char>) -> FixtureHeader {
    let lines = bare_lines(source);
    header_of(lines.take(header_count(lines)))
}

/// Whether the body of a fixture cell begins between two characters. It does
/// unless a carriage return stands at the end of a line of the head.
pub open spec fn body_is_text(source: Seq<char>) -> bool {
    let at = fixture_header(source).bytes as int;
    at >= encode_utf8(source).len() || is_char_boundary(encode_utf8(source), at)
}

/// The text from a byte offset on; empty past the end.
pub open spec fn text_from(source: Seq<char>, at: int) -> Seq<char> {
    let bytes = encode_utf8(source);
    if at < bytes.len() {
        decode_utf8(bytes.subrange(at, bytes.len() as int))
    } else {
        Seq::empty()
    }
}

/// The name and the fixture that a fixture cell stands for. Without a name of
/// its own it is named after its cell and its position; without a priority the
/// position counts.
pub open spec fn parsed_fixture(source: Seq<char>, parent: Seq<char>, position: nat) -> (
    Seq<char>,
    FixtureModel,
) {
    let header = fixture_header(source);
    (
        match header.name {
            Some(name) => name,
            None => "fixture_"@ + parent + "_"@ + decimal(position),
        },
        FixtureModel {
            description: header.description,
            priority: match header.priority {
                Some(priority) => priority as i64,
                None => position as i64,
            },
            source: text_from(source, header.bytes as int),
        },
    )
}

/// What the lines at the head of a fixture cell were found to say.
#[derive(Debug)]
pub struct HeaderParts {
    pub name: Option<String>,
    pub description: String,
    pub priority: Option<i64>,
    /// Where the body begins; `None` if no text is as long.
    pub offset: Option<usize>,
}

impl HeaderParts {
    /// Whether this is what a head says.
    pub open spec fn says(&self, header: FixtureHeader) -> bool {
        &&& text_view(self.name) == header.name
        &&& self.description@ == header.description
        &&& match self.priority {
            Some(p) => header.priority == Some(p as int),
            None => header.priority is None,
        }
        &&& match self.offset {
            Some(at) => at == header.bytes,
            None => header.bytes > usize::MAX,
        }
    }
}

/// The offset behind a line that begins at an offset.
fn offset_behind(offset: Option<usize>, line: &str) -> (behind: Option<usize>)
    ensures
        match offset {
            Some(at) => if at + encode_utf8(line@).len() + 1 <= usize::MAX {
                behind == Some((at + encode_utf8(line@).len() + 1) as usize)
            } else {
                behind is None
            },
            None => behind is None,
        },
{
    let bytes: &[u8] = line.as_bytes();
    match offset {
        Some(at) => match at.checked_add(bytes.len()) {
            Some(end) => end.checked_add(1),
            None => None,
        },
        None => None,
    }
}

/// Reads the head of a fixture cell.
fn read_header(source: &str) -> (parts: HeaderParts)
    ensures
        parts.says(fixture_header(source@)),
{
    let lines: Vec<String> = split_lines(source);
    let ghost all = texts(lines@);
    let mut parts: HeaderParts = HeaderParts {
        name: None,
        description: String::new(),
        priority: None,
        offset: Some(0),
    };
    let mut i: usize = 0;
    assert(all.skip(0) =~= all);
    assert(all.take(0) =~= Seq::<Seq<char>>::empty());
    loop
        invariant_except_break
            i <= lines.len(),
            all == texts(lines@),
            header_count(all) == i + header_count(all.skip(i as int)),
            parts.says(header_of(all.take(i as int))),
        ensures
            parts.says(header_of(all.take(header_count(all)))),
        decreases lines.len() - i,
    {
        if i == lines.len() {
            break ;
        }
        let line: &str = lines[i].as_str();
        let ghost upto = all.take(i + 1);
        proof {
            assert(all.skip(i as int)[0] == line@);
            assert(all.skip(i as int).drop_first() =~= all.skip(i + 1));
            assert(upto.drop_last() =~= all.take(i as int));
            assert(upto.last() == line@);
        }
        if let Some(rest) = strip_prefix(line, "# fixture:") {
            parts.name = Some(trim(rest.as_str()));
        } else if let Some(rest) = strip_prefix(line, "# description:") {
            parts.description = trim(rest.as_str());
        } else if let Some(rest) = strip_prefix(line, "# priority:") {
            parts.priority = parse_i64(trim(rest.as_str()).as_str());
        } else {
            break ;
        }
        parts.offset = offset_behind(parts.offset, line);
        i += 1;
    }
    parts
}

/// Whether the body of a fixture cell begins between two characters.
fn has_text_body(source: &str) -> (found: bool)
    ensures
        found == body_is_text(source@),
{
    let parts: HeaderParts = read_header(source);
    let bytes: &[u8] = source.as_bytes();
    let length: usize = bytes.len();
    match parts.offset {
        Some(at) => at >= length || source.is_char_boundary(at),
        None => true,
    }
}

/// Reads a fixture cell.
pub fn parse_fixture_cell(cell: &Cell, parent_cell_id: &str, position: usize) -> (parsed: (
    String,
    Fixture,
))
    requires
        body_is_text(cell@.text()),
    ensures
        (parsed.0@, parsed.1@) == parsed_fixture(cell@.text(), parent_cell_id@, position as nat),
{
    let source: String = cell.source_str();
    let parts: HeaderParts = read_header(source.as_str());
    let HeaderParts { name, description, priority, offset } = parts;
    let all_bytes: &[u8] = source.as_str().as_bytes();
    let length: usize = all_bytes.len();
    let at: usize = match offset {
        Some(at) => at,
        None => length,
    };
    let body: String = if at < length {
        let (_, rest): (&str, &str) = source.as_str().split_at(at);
        proof {
            vstd::utf8::encode_utf8_decode_utf8(rest@);
        }
        rest.to_owned()
    } else {
        String::new()
    };
    let final_name: String = match name {
        Some(n) => n,
        None => {
            let mut made: String = "fixture_".to_owned();
            made.append(parent_cell_id);
            made.append("_");
            made.append(decimal_text(position).as_str());
            made
        },
    };
    let final_priority: i64 = match priority {
        Some(p) => p,
        None => position as i64,
    };
    (final_name, Fixture { description, priority: final_priority, source: body })
}

// ---------------------------------------------------------------------------
// Test cells
// ---------------------------------------------------------------------------

/// The source of a test cell without the line that keeps it from running.
pub open spec fn without_skip_line(source: Seq<char>) -> Seq<char> {
    match after_prefix(source, "%%nb_skip\n"@) {
        Some(rest) => rest,
        None => if source == "%%nb_skip"@ {
            Seq::empty()
        } else {
            source
        },
    }
}

/// The first line of a text; empty if there is none.
pub open spec fn first_line(s: Seq<char>) -> Seq<char> {
    if bare_lines(s).len() > 0 {
        bare_lines(s)[0]
    } else {
        Seq::empty()
    }
}

/// What stands behind the first line feed of a text.
pub open spec fn after_first_line(s: Seq<char>) -> Seq<char> {
    let at = first_index(s, '\n');
    if at < s.len() {
        s.skip(at + 1)
    } else {
        Seq::empty()
    }
}

/// The name and the source of the test that a test cell stands for.
pub open spec fn parsed_test(source: Seq<char>) -> (Seq<char>, Seq<char>) {
    let rest = without_skip_line(source);
    match after_prefix(rest, "# test:"@) {
        Some(after) => (
            trimmed(first_line(trimmed_start(after))),
            after_first_line(rest),
        ),
        None => ("<unnamed>"@, rest),
    }
}

/// Reads the source of a test cell.
pub fn parse_test_source(source: String) -> (parsed: (String, String))
    ensures
        (parsed.0@, parsed.1@) == parsed_test(source@),
{
    let rest: String = match strip_prefix(source.as_str(), "%%nb_skip\n") {
        Some(after) => after,
        None => {
            if same_text(source.as_str(), "%%nb_skip") {
                String::new()
            } else {
                source
            }
        },
    };
    match strip_prefix(rest.as_str(), "# test:") {
        Some(after) => {
            let start: String = trim_start(after.as_str());
            let lines: Vec<String> = split_lines(start.as_str());
            assert(texts(lines@).len() == lines@.len());
            let name: String = if lines.len() > 0 {
                assert(texts(lines@)[0] == lines@[0]@);
                trim(lines[0].as_str())
            } else {
                assert(trimmed(Seq::<char>::empty()) == Seq::<char>::empty());
                String::new()
            };
            let chars: Vec<char> = chars_of(rest.as_str());
            let at: usize = find_from(&chars, '\n', 0);
            assert(chars@.skip(0) =~= chars@);
            let body: String = if at < chars.len() {
                assert(chars@.subrange(at + 1, chars@.len() as int) =~= chars@.skip(at + 1));
                text_between(&chars, at + 1, chars.len())
            } else {
                String::new()
            };
            (name, body)
        },
        None => ("<unnamed>".to_owned(), rest),
    }
}

// ---------------------------------------------------------------------------
// Sections
// ---------------------------------------------------------------------------

/// What the editor notebook says about one cell of the source.
#[derive(Debug)]
pub struct Section {
    pub cell_id: String,
    pub fixtures: Vec<(String, Fixture)>,
    pub patched_source: String,
    pub test_name: Option<String>,
    pub test_source: Option<String>,
}

/// What a section holds.
pub struct SectionModel {
    pub cell_id: Seq<char>,
    pub fixtures: Seq<(Seq<char>, FixtureModel)>,
    pub patched_source: Seq<char>,
    pub test_name: Option<Seq<char>>,
    pub test_source: Option<Seq<char>>,
}

impl View for Section {
    type V = SectionModel;

    open spec fn view(&self) -> SectionModel {
        SectionModel {
            cell_id: self.cell_id@,
            fixtures: named_fixtures(self.fixtures@),
            patched_source: self.patched_source@,
            test_name: text_view(self.test_name),
            test_source: text_view(self.test_source),
        }
    }
}

/// What a list of sections holds.
pub open spec fn section_models(sections: Seq<Section>) -> Seq<SectionModel> {
    sections.map_values(|section: Section| section@)
}

/// A section that is being read.
#[derive(Debug)]
pub struct SectionBuilder {
    pub cell_id: String,
    pub fixtures: Vec<(String, Fixture)>,
    pub patched_source: Option<String>,
    pub test_name: Option<String>,
    pub test_source: Option<String>,
}

/// What a section that is being read holds.
pub struct BuilderModel {
    pub cell_id: Seq<char>,
    pub fixtures: Seq<(Seq<char>, FixtureModel)>,
    pub patched_source: Option<Seq<char>>,
    pub test_name: Option<Seq<char>>,
    pub test_source: Option<Seq<char>>,
}

impl View for SectionBuilder {
    type V = BuilderModel;

    open spec fn view(&self) -> BuilderModel {
        BuilderModel {
            cell_id: self.cell_id@,
            fixtures: named_fixtures(self.fixtures@),
            patched_source: text_view(self.patched_source),
            test_name: text_view(self.test_name),
            test_source: text_view(self.test_source),
        }
    }
}

/// A section at its beginning.
pub open spec fn new_section(cell_id: Seq<char>) -> BuilderModel {
    BuilderModel {
        cell_id,
        fixtures: Seq::empty(),
        patched_source: None,
        test_name: None,
        test_source: None,
    }
}

/// A section with the fixture that a cell stands for; a blank one does not
/// count.
pub open spec fn with_fixture_cell(section: BuilderModel, source: Seq<char>) -> BuilderModel {
    let parsed = parsed_fixture(source, section.cell_id, section.fixtures.len());
    if trimmed(parsed.1.source).len() == 0 {
        section
    } else {
        BuilderModel { fixtures: section.fixtures.push(parsed), ..section }
    }
}

/// A section with the test that a cell stands for.
pub open spec fn with_test_cell(section: BuilderModel, source: Seq<char>) -> BuilderModel {
    BuilderModel {
        test_name: Some(parsed_test(source).0),
        test_source: Some(parsed_test(source).1),
        ..section
    }
}

/// A section that has been read.
pub open spec fn finished(section: BuilderModel) -> SectionModel {
    SectionModel {
        cell_id: section.cell_id,
        fixtures: section.fixtures,
        patched_source: match section.patched_source {
            Some(source) => source,
            None => Seq::empty(),
        },
        test_name: section.test_name,
        test_source: section.test_source,
    }
}

impl SectionBuilder {
    /// A section at its beginning.
    pub fn new(cell_id: String) -> (builder: Self)
        ensures
            builder@ == new_section(cell_id@),
    {
        let fixtures: Vec<(String, Fixture)> = Vec::new();
        assert(named_fixtures(fixtures@) =~= Seq::<(Seq<char>, FixtureModel)>::empty());
        SectionBuilder {
            cell_id,
            fixtures,
            patched_source: None,
            test_name: None,
            test_source: None,
        }
    }

    /// Adds the fixture that a cell stands for, unless it is blank.
    pub fn add_fixture(&mut self, cell: &Cell)
        requires
            body_is_text(cell@.text()),
        ensures
            final(self)@ == with_fixture_cell(old(self)@, cell@.text()),
    {
        let ghost before = named_fixtures(self.fixtures@);
        assert(before.len() == self.fixtures@.len());
        let (name, fixture): (String, Fixture) = parse_fixture_cell(
            cell,
            self.cell_id.as_str(),
            self.fixtures.len(),
        );
        if !is_blank(fixture.source.as_str()) {
            let ghost entry = (name@, fixture@);
            self.fixtures.push((name, fixture));
            assert(named_fixtures(self.fixtures@) =~= before.push(entry));
        }
    }

    /// Sets the patched source.
    pub fn set_patched_source(&mut self, src: String)
        ensures
            final(self)@ == (BuilderModel { patched_source: Some(src@), ..old(self)@ }),
    {
        self.patched_source = Some(src);
    }

    /// Sets the test that a cell stands for.
    pub fn set_test(&mut self, cell: &Cell)
        ensures
            final(self)@ == with_test_cell(old(self)@, cell@.text()),
    {
        let (name, body): (String, String) = parse_test_source(cell.source_str());
        self.test_name = Some(name);
        self.test_source = Some(body);
    }

    /// The section that has been read.
    pub fn finish(self) -> (section: Section)
        ensures
            section@ == finished(self@),
    {
        Section {
            cell_id: self.cell_id,
            fixtures: self.fixtures,
            patched_source: match self.patched_source {
                Some(source) => source,
                None => String::new(),
            },
            test_name: self.test_name,
            test_source: self.test_source,
        }
    }
}

// ---------------------------------------------------------------------------
// Reading the editor notebook
// ---------------------------------------------------------------------------

/// How far an editor notebook has been read.
pub struct ReadState {
    pub done: Seq<SectionModel>,
    pub current: Option<BuilderModel>,
    pub warnings: Seq<Seq<char>>,
}

/// What is said of a second test cell in a section.
pub open spec fn extra_test_warning(section_id: Seq<char>) -> Seq<char> {
    "section '"@ + section_id + "' has multiple test cells; only the last one will be used"@
}

/// What is said of a cell in a section that is no code.
pub open spec fn ignored_cell_warning(cell_id: Seq<char>, section_id: Seq<char>) -> Seq<char> {
    "non-code cell '"@ + cell_id + "' inside section '"@ + section_id + "' will be ignored"@
}

/// The role of a cell in an editor notebook.
pub open spec fn editor_role_of(cell: CellModel) -> Option<Seq<char>> {
    nested_text(cell.additional, "editor"@, "role"@)
}

/// What a cell is taken for.
pub enum CellUse {
    /// It is passed over.
    Nothing,
    /// It begins a section.
    Header,
    Fixture,
    Source,
    Test,
    /// It is no code, and a section is being read.
    Ignored,
}

/// What a cell is taken for, by its role and by what has been read before. In a
/// section, code without a known role is a fixture before the source and a test
/// behind it, if there is none yet.
pub open spec fn use_of(current: Option<BuilderModel>, cell: CellModel) -> CellUse {
    let role = editor_role_of(cell);
    if role == Some("setup"@) {
        CellUse::Nothing
    } else if role == Some("section-header"@) {
        CellUse::Header
    } else if current is None {
        CellUse::Nothing
    } else if role == Some("fixture"@) {
        CellUse::Fixture
    } else if role == Some("patched-source"@) || role == Some("source"@) {
        CellUse::Source
    } else if role == Some("test"@) {
        CellUse::Test
    } else if !cell.is_code() {
        CellUse::Ignored
    } else if current->0.patched_source is None {
        CellUse::Fixture
    } else if current->0.test_source is None {
        CellUse::Test
    } else {
        CellUse::Nothing
    }
}

/// The sections that are read, with the one that is being read.
pub open spec fn with_current(
    done: Seq<SectionModel>,
    current: Option<BuilderModel>,
) -> Seq<SectionModel> {
    match current {
        Some(section) => done.push(finished(section)),
        None => done,
    }
}

/// How far an editor notebook has been read after one more cell.
pub open spec fn read_cell(state: ReadState, cell: CellModel) -> ReadState {
    match use_of(state.current, cell) {
        CellUse::Nothing => state,
        CellUse::Header => ReadState {
            done: with_current(state.done, state.current),
            current: Some(
                new_section(
                    match nested_text(cell.additional, "editor"@, "cell_id"@) {
                        Some(id) => id,
                        None => cell.id,
                    },
                ),
            ),
            ..state
        },
        CellUse::Fixture => ReadState {
            current: Some(with_fixture_cell(state.current->0, cell.text())),
            ..state
        },
        CellUse::Source => ReadState {
            current: Some(
                BuilderModel { patched_source: Some(cell.text()), ..state.current->0 },
            ),
            ..state
        },
        CellUse::Test => ReadState {
            current: Some(with_test_cell(state.current->0, cell.text())),
            warnings: if state.current->0.test_source is Some {
                state.warnings.push(extra_test_warning(state.current->0.cell_id))
            } else {
                state.warnings
            },
            ..state
        },
        CellUse::Ignored => ReadState {
            warnings: state.warnings.push(
                ignored_cell_warning(cell.id, state.current->0.cell_id),
            ),
            ..state
        },
    }
}

/// How far an editor notebook has been read after the given cells.
pub open spec fn read_cells(cells: Seq<CellModel>) -> ReadState
    decreases cells.len(),
{
    if cells.len() == 0 {
        ReadState { done: Seq::empty(), current: None, warnings: Seq::empty() }
    } else {
        read_cell(read_cells(cells.drop_last()), cells.last())
    }
}

/// The sections of an editor notebook.
pub open spec fn sections_of(editor: NotebookModel) -> Seq<SectionModel> {
    let state = read_cells(editor.cells);
    with_current(state.done, state.current)
}

/// What is said while an editor notebook is read.
pub open spec fn reading_warnings(editor: NotebookModel) -> Seq<Seq<char>> {
    read_cells(editor.cells).warnings
}

/// Whether the body of every cell before a position that is taken for a fixture
/// is text.
pub open spec fn readable_to(editor: NotebookModel, end: int) -> bool {
    forall|i: int|
        0 <= i < end && use_of(
            read_cells(editor.cells.take(i)).current,
            #[trigger] editor.cells[i],
        ) is Fixture ==> body_is_text(editor.cells[i].text())
}

/// Whether the body of every cell that is taken for a fixture is text.
pub open spec fn readable(editor: NotebookModel) -> bool {
    readable_to(editor, editor.cells.len() as int)
}

/// One more cell can be read.
proof fn one_more_readable(editor: NotebookModel, end: int)
    requires
        0 <= end < editor.cells.len(),
        readable_to(editor, end),
        use_of(read_cells(editor.cells.take(end)).current, editor.cells[end]) is Fixture
            ==> body_is_text(editor.cells[end].text()),
    ensures
        readable_to(editor, end + 1),
{
}

/// A fixture without a text for a body keeps the notebook from being read.
proof fn one_unreadable(editor: NotebookModel, at: int)
    requires
        0 <= at < editor.cells.len(),
        use_of(read_cells(editor.cells.take(at)).current, editor.cells[at]) is Fixture,
        !body_is_text(editor.cells[at].text()),
    ensures
        !readable(editor),
{
}

/// Finds what a cell is taken for.
fn find_use(current: &Option<SectionBuilder>, cell: &Cell) -> (found: CellUse)
    ensures
        found == use_of(
            match *current {
                Some(b) => Some(b@),
                None => None,
            },
            cell@,
        ),
{
    let role: Option<String> = cell.editor_role();
    if text_is(&role, "setup") {
        return CellUse::Nothing;
    }
    if text_is(&role, "section-header") {
        return CellUse::Header;
    }
    match current {
        None => CellUse::Nothing,
        Some(section) => {
            if text_is(&role, "fixture") {
                CellUse::Fixture
            } else if text_is(&role, "patched-source") || text_is(&role, "source") {
                CellUse::Source
            } else if text_is(&role, "test") {
                CellUse::Test
            } else if !cell.is_code() {
                CellUse::Ignored
            } else if section.patched_source.is_none() {
                CellUse::Fixture
            } else if section.test_source.is_none() {
                CellUse::Test
            } else {
                CellUse::Nothing
            }
        },
    }
}

/// Reads the sections of an editor notebook, with what there is to say about
/// them; nothing if the body of a fixture is no text.
pub fn read_sections(editor: &Notebook) -> (read: Option<(Vec<Section>, Vec<String>)>)
    ensures
        match read {
            Some(parsed) => readable(editor@) && section_models(parsed.0@) == sections_of(editor@)
                && texts(parsed.1@) == reading_warnings(editor@),
            None => !readable(editor@),
        },
{
    let ghost all = editor@.cells;
    let mut sections: Vec<Section> = Vec::new();
    let mut current: Option<SectionBuilder> = None;
    let mut warnings: Vec<String> = Vec::new();
    let mut i: usize = 0;
    assert(section_models(sections@) =~= read_cells(all.take(0)).done);
    assert(texts(warnings@) =~= read_cells(all.take(0)).warnings);
    while i < editor.cells.len()
        invariant
            i <= editor.cells.len(),
            all == editor@.cells,
            readable_to(editor@, i as int),
            section_models(sections@) == read_cells(all.take(i as int)).done,
            texts(warnings@) == read_cells(all.take(i as int)).warnings,
            match current {
                Some(b) => read_cells(all.take(i as int)).current == Some(b@),
                None => read_cells(all.take(i as int)).current is None,
            },
        decreases editor.cells.len() - i,
    {
        let cell: &Cell = &editor.cells[i];
        let ghost state = read_cells(all.take(i as int));
        proof {
            assert(all.take(i + 1).drop_last() =~= all.take(i as int));
            assert(all.take(i + 1).last() == cell@);
            assert(all[i as int] == cell@);
        }
        let found: CellUse = find_use(&current, cell);
        if let CellUse::Fixture = found {
            if !has_text_body(cell.source_str().as_str()) {
                proof {
                    one_unreadable(editor@, i as int);
                }
                return None;
            }
        }
        proof {
            one_more_readable(editor@, i as int);
        }
        match found {
            CellUse::Nothing => {},
            CellUse::Header => {
                let ghost done = section_models(sections@);
                if let Some(section) = current {
                    let ended: Section = section.finish();
                    sections.push(ended);
                    assert(section_models(sections@) =~= done.push(ended@));
                }
                let cell_id: String = match cell.editor_cell_id() {
                    Some(id) => id,
                    None => cell.cell_id_str().to_owned(),
                };
                current = Some(SectionBuilder::new(cell_id));
            },
            CellUse::Fixture => {
                if let Some(mut section) = current {
                    section.add_fixture(cell);
                    current = Some(section);
                }
            },
            CellUse::Source => {
                if let Some(mut section) = current {
                    section.set_patched_source(cell.source_str());
                    current = Some(section);
                }
            },
            CellUse::Test => {
                if let Some(mut section) = current {
                    if section.test_source.is_some() {
                        let ghost said = texts(warnings@);
                        let warning: String = cell_message(
                            "section '",
                            section.cell_id.as_str(),
                            "' has multiple test cells; only the last one will be used",
                        );
                        warnings.push(warning);
                        assert(texts(warnings@) =~= said.push(warning@));
                    }
                    section.set_test(cell);
                    current = Some(section);
                }
            },
            CellUse::Ignored => {
                if let Some(section) = &current {
                    let ghost said = texts(warnings@);
                    let mut warning: String = "non-code cell '".to_owned();
                    warning.append(cell.cell_id_str());
                    warning.append("' inside section '");
                    warning.append(section.cell_id.as_str());
                    warning.append("' will be ignored");
                    warnings.push(warning);
                    assert(texts(warnings@) =~= said.push(warning@));
                }
            },
        }
        i += 1;
    }
    assert(all.take(i as int) =~= all);
    let ghost done = section_models(sections@);
    if let Some(section) = current {
        let ended: Section = section.finish();
        sections.push(ended);
        assert(section_models(sections@) =~= done.push(ended@));
    }
    Some((sections, warnings))
}

/// Reads the sections of an editor notebook, with what there is to say about
/// them.
pub fn parse_sections(editor: &Notebook) -> (parsed: (Vec<Section>, Vec<String>))
    requires
        readable(editor@),
    ensures
        section_models(parsed.0@) == sections_of(editor@),
        texts(parsed.1@) == reading_warnings(editor@),
{
    match read_sections(editor) {
        Some(parsed) => parsed,
        None => (Vec::new(), Vec::new()),
    }
}

// ---------------------------------------------------------------------------
// Applying sections
// ---------------------------------------------------------------------------

/// The position of the first cell with the given id, or the number of cells.
pub open spec fn cell_index_of(cells: Seq<CellModel>, cell_id: Seq<char>) -> int
    decreases cells.len(),
{
    if cells.len() == 0 || cells[0].id == cell_id {
        0
    } else {
        1 + cell_index_of(cells.drop_first(), cell_id)
    }
}

/// The fixtures of a section by name; of those with the same name the last one
/// counts.
pub open spec fn collected_fixtures(fixtures: Seq<(Seq<char>, FixtureModel)>) -> Seq<
    (Seq<char>, FixtureModel),
>
    decreases fixtures.len(),
{
    if fixtures.len() == 0 {
        Seq::empty()
    } else {
        with_fixture(
            collected_fixtures(fixtures.drop_last()),
            fixtures.last().0,
            fixtures.last().1,
        )
    }
}

/// The fixtures that a section sets: none if it has none.
pub open spec fn section_fixtures(section: SectionModel) -> Option<
    Seq<(Seq<char>, FixtureModel)>,
> {
    if section.fixtures.len() == 0 {
        None
    } else {
        Some(collected_fixtures(section.fixtures))
    }
}

/// The test that a section sets: none if it is blank.
pub open spec fn section_test(section: SectionModel) -> Option<TestModel> {
    match section.test_source {
        Some(source) => if trimmed(source).len() == 0 {
            None
        } else {
            Some(
                TestModel {
                    name: match section.test_name {
                        Some(name) => name,
                        None => "<unnamed>"@,
                    },
                    source,
                },
            )
        },
        None => None,
    }
}

/// The free-form metadata of a cell after a section is applied to it, but for
/// the recorded fingerprints.
pub open spec fn edited_additional(cell: CellModel, section: SectionModel) -> Seq<
    (Seq<char>, JsonModel),
> {
    let cleared = without_field(cell.additional, "editor"@);
    let fixtures = with_optional_field(
        cleared,
        "fixtures"@,
        optional_fixtures_json(section_fixtures(section)),
    );
    let diff = with_optional_field(
        fixtures,
        "diff"@,
        optional_text_json(diff_between(cell.text(), section.patched_source)),
    );
    let test = with_optional_field(diff, "test"@, optional_test_json(section_test(section)));
    if cell.data() is Some {
        addressed(test)
    } else {
        test
    }
}

/// A cell after a section is applied to it: fixtures, diff and test are those
/// of the section.
pub open spec fn edited_cell(cell: CellModel, section: SectionModel) -> CellModel {
    CellModel { additional: edited_additional(cell, section), ..cell }
}

/// The cells after one section is applied to them.
pub open spec fn with_section(cells: Seq<CellModel>, section: SectionModel) -> Seq<CellModel> {
    let at = cell_index_of(cells, section.cell_id);
    if at < cells.len() {
        cells.update(at, edited_cell(cells[at], section))
    } else {
        cells
    }
}

/// The cells after the sections are applied to them, one after the other.
pub open spec fn with_sections(cells: Seq<CellModel>, sections: Seq<SectionModel>) -> Seq<CellModel>
    decreases sections.len(),
{
    if sections.len() == 0 {
        cells
    } else {
        with_section(with_sections(cells, sections.drop_last()), sections.last())
    }
}

/// Whether a section is about the cell at `index`.
pub open spec fn is_named(cells: Seq<CellModel>, sections: Seq<SectionModel>, index: int) -> bool {
    exists|k: int|
        0 <= k < sections.len() && cell_index_of(cells, (#[trigger] sections[k]).cell_id) == index
}

/// The cell at `index` after it was reviewed: if a section is about it and it
/// has metadata, the fingerprints of the cells up to it are recorded in it.
pub open spec fn reviewed_cell(
    nb: NotebookModel,
    sections: Seq<SectionModel>,
    index: int,
) -> CellModel {
    let cell = nb.cells[index];
    if is_named(nb.cells, sections, index) && cell.data() is Some {
        with_shas(cell, snapshot(nb).take(index + 1))
    } else {
        cell
    }
}

/// The notebook after the cells that sections are about were reviewed.
pub open spec fn reviewed(nb: NotebookModel, sections: Seq<SectionModel>) -> NotebookModel {
    NotebookModel {
        cells: Seq::new(nb.cells.len(), |i: int| reviewed_cell(nb, sections, i)),
        ..nb
    }
}

/// What is said of sections whose cell is not in the source.
pub open spec fn section_warnings(cells: Seq<CellModel>, sections: Seq<SectionModel>) -> Seq<
    Seq<char>,
>
    decreases sections.len(),
{
    if sections.len() == 0 {
        Seq::empty()
    } else {
        let front = section_warnings(cells, sections.drop_last());
        let id = sections.last().cell_id;
        if cell_index_of(cells, id) < cells.len() {
            front
        } else {
            front.push(
                "section cell_id '"@ + id + "' not found in source notebook; skipping"@,
            )
        }
    }
}

/// Whether the metadata of every cell that a section is about can be written
/// to.
pub open spec fn sections_writable(cells: Seq<CellModel>, sections: Seq<SectionModel>) -> bool {
    forall|i: int|
        0 <= i < sections.len() && cell_index_of(cells, (#[trigger] sections[i]).cell_id)
            < cells.len() ==> writable(cells[cell_index_of(cells, sections[i].cell_id)].additional)
}

/// Finds out whether the metadata of every cell that a section is about can be
/// written to.
fn can_write_sections(cells: &Vec<Cell>, sections: &Vec<Section>) -> (writable_all: bool)
    ensures
        writable_all == sections_writable(cell_models(cells@), section_models(sections@)),
{
    let ghost all = section_models(sections@);
    let ghost models = cell_models(cells@);
    let mut i: usize = 0;
    while i < sections.len()
        invariant
            i <= sections.len(),
            all == section_models(sections@),
            models == cell_models(cells@),
            sections_writable(models, all.take(i as int)),
        decreases sections.len() - i,
    {
        let section: &Section = &sections[i];
        assert(all[i as int] == section@);
        let at: usize = find_cell(cells, section.cell_id.as_str());
        if at < cells.len() {
            assert(models[at as int] == cells@[at as int]@);
            if !is_writable(cells[at].additional()) {
                assert(!sections_writable(models, all));
                return false;
            }
        }
        proof {
            let done = all.take(i as int);
            let more = all.take(i + 1);
            assert forall|k: int|
                0 <= k < more.len() && cell_index_of(models, (#[trigger] more[k]).cell_id)
                    < models.len() implies writable(
                models[cell_index_of(models, more[k].cell_id)].additional,
            ) by {
                if k < i {
                    assert(done[k] == more[k]);
                }
            }
        }
        i += 1;
    }
    assert(all.take(i as int) =~= all);
    true
}

/// `cell_index_of` is the first position of its id.
pub proof fn cell_index_is_first(cells: Seq<CellModel>, cell_id: Seq<char>)
    ensures
        0 <= cell_index_of(cells, cell_id) <= cells.len(),
        cell_index_of(cells, cell_id) < cells.len() ==> cells[cell_index_of(cells, cell_id)].id
            == cell_id,
        forall|i: int| 0 <= i < cell_index_of(cells, cell_id) ==> (#[trigger] cells[i]).id != cell_id,
    decreases cells.len(),
{
    if cells.len() > 0 && cells[0].id != cell_id {
        let rest = cells.drop_first();
        cell_index_is_first(rest, cell_id);
        assert forall|i: int| 0 <= i < cell_index_of(cells, cell_id) implies (
        #[trigger] cells[i]).id != cell_id by {
            if i > 0 {
                assert(rest[i - 1] == cells[i]);
            }
        }
    }
}

/// Cells with the same ids have the same positions.
pub proof fn same_cell_index(cells: Seq<CellModel>, others: Seq<CellModel>, cell_id: Seq<char>)
    requires
        cells.len() == others.len(),
        forall|i: int| 0 <= i < cells.len() ==> (#[trigger] cells[i]).id == others[i].id,
    ensures
        cell_index_of(cells, cell_id) == cell_index_of(others, cell_id),
    decreases cells.len(),
{
    if cells.len() > 0 {
        assert(cells[0].id == others[0].id);
        let rest = cells.drop_first();
        let other_rest = others.drop_first();
        assert forall|i: int| 0 <= i < rest.len() implies (#[trigger] rest[i]).id
            == other_rest[i].id by {
            assert(rest[i] == cells[i + 1]);
        }
        same_cell_index(rest, other_rest, cell_id);
    }
}

/// Applying a section leaves metadata writable.
pub proof fn edited_is_writable(cell: CellModel, section: SectionModel)
    requires
        writable(cell.additional),
    ensures
        writable(without_field(cell.additional, "editor"@)),
        writable(edited_cell(cell, section).additional),
{
    optional_field_is_writable(cell.additional, "editor"@, None);
    let cleared = without_field(cell.additional, "editor"@);
    let fixtures_value = optional_fixtures_json(section_fixtures(section));
    optional_field_is_writable(cleared, "fixtures"@, fixtures_value);
    let fixtures = with_optional_field(cleared, "fixtures"@, fixtures_value);
    let diff_value = optional_text_json(diff_between(cell.text(), section.patched_source));
    optional_field_is_writable(fixtures, "diff"@, diff_value);
    let diff = with_optional_field(fixtures, "diff"@, diff_value);
    let test_value = optional_test_json(section_test(section));
    optional_field_is_writable(diff, "test"@, test_value);
    let test = with_optional_field(diff, "test"@, test_value);
    with_field_is_writable(test, crate::metadata::nb_members(test));
}

/// Finds the first cell with the given id.
fn find_cell(cells: &Vec<Cell>, cell_id: &str) -> (at: usize)
    ensures
        at == cell_index_of(cell_models(cells@), cell_id@),
        at <= cells.len(),
{
    let ghost models = cell_models(cells@);
    let mut i: usize = 0;
    assert(models.skip(0) =~= models);
    while i < cells.len() && !same_text(cells[i].cell_id_str(), cell_id)
        invariant
            i <= cells.len(),
            models == cell_models(cells@),
            cell_index_of(models, cell_id@) == i + cell_index_of(models.skip(i as int), cell_id@),
        decreases cells.len() - i,
    {
        assert(models.skip(i as int)[0] == cells@[i as int]@);
        assert(models.skip(i as int).drop_first() =~= models.skip(i + 1));
        i += 1;
    }
    proof {
        if i < cells@.len() {
            assert(models.skip(i as int)[0] == cells@[i as int]@);
        }
    }
    i
}

/// The fixtures of a section by name.
fn collect_fixtures(fixtures: &Vec<(String, Fixture)>) -> (map: FixtureMap)
    ensures
        fixture_entries(map) == collected_fixtures(named_fixtures(fixtures@)),
{
    let ghost all = named_fixtures(fixtures@);
    let mut map: FixtureMap = new_fixtures();
    let mut i: usize = 0;
    assert(all.take(0) =~= Seq::<(Seq<char>, FixtureModel)>::empty());
    while i < fixtures.len()
        invariant
            i <= fixtures.len(),
            all == named_fixtures(fixtures@),
            fixture_entries(map) == collected_fixtures(all.take(i as int)),
        decreases fixtures.len() - i,
    {
        assert(all.take(i + 1).drop_last() =~= all.take(i as int));
        assert(all.take(i + 1).last() == all[i as int]);
        insert_fixture(&mut map, fixtures[i].0.clone(), fixtures[i].1.clone());
        i += 1;
    }
    assert(all.take(i as int) =~= all);
    map
}

/// Whether the diff that a section sets leads from the source of the cell to the
/// patched source of the section.
pub open spec fn leads_to_patch(cell: CellModel, section: SectionModel) -> bool {
    source_after_diff(cell.text(), diff_between(cell.text(), section.patched_source))
        == section.patched_source
}

/// Whether the diffs that sections set lead from the sources of the cells to
/// their patched sources.
pub open spec fn lead_to_patches(cells: Seq<CellModel>, sections: Seq<SectionModel>) -> bool {
    forall|k: int|
        0 <= k < sections.len() && cell_index_of(cells, (#[trigger] sections[k]).cell_id)
            < cells.len() ==> leads_to_patch(
            cells[cell_index_of(cells, sections[k].cell_id)],
            sections[k],
        )
}

/// Applies a section to its cell.
fn apply_section(cell: &mut Cell, section: &Section)
    requires
        writable(old(cell)@.additional),
    ensures
        final(cell)@ == edited_cell(old(cell)@, section@),
        leads_to_patch(old(cell)@, section@),
{
    let ghost before = cell@;
    proof {
        edited_is_writable(before, section@);
    }
    let original: String = cell.source_str();
    let had_metadata: bool = cell.nota_bene().is_some();
    clear_editor_meta(cell);
    let fixtures: Option<FixtureMap> = if section.fixtures.len() > 0 {
        Some(collect_fixtures(&section.fixtures))
    } else {
        None
    };
    assert(crate::metadata::fixtures_view(fixtures) == section_fixtures(section@));
    let diff: Option<String> = compute_diff(original.as_str(), section.patched_source.as_str());
    let test: Option<TestMeta> = match &section.test_source {
        Some(source) => {
            if is_blank(source.as_str()) {
                None
            } else {
                Some(
                    TestMeta {
                        name: match &section.test_name {
                            Some(name) => name.clone(),
                            None => "<unnamed>".to_owned(),
                        },
                        source: source.clone(),
                    },
                )
            }
        },
        None => None,
    };
    assert(crate::metadata::test_view(test) == section_test(section@));
    proof {
        let cleared = without_field(before.additional, "editor"@);
        let fixtures_value = optional_fixtures_json(section_fixtures(section@));
        optional_field_is_writable(cleared, "fixtures"@, fixtures_value);
        let with_fixtures = with_optional_field(cleared, "fixtures"@, fixtures_value);
        let diff_value = optional_text_json(diff_between(before.text(), section@.patched_source));
        optional_field_is_writable(with_fixtures, "diff"@, diff_value);
        let with_diff = with_optional_field(with_fixtures, "diff"@, diff_value);
        optional_field_is_writable(
            with_diff,
            "test"@,
            optional_test_json(section_test(section@)),
        );
    }
    let mut view: NotaBeneView<'_> = cell.nota_bene_mut();
    view.set_fixtures(fixtures);
    view.set_diff(diff);
    view.set_test(test);
    if had_metadata {
        view.mark_addressed();
    }
    assert(cell@.additional == edited_additional(before, section@));
}

/// The notebook after the sections of an editor notebook are applied to it.
pub open spec fn written_notebook(source: NotebookModel, editor: NotebookModel) -> NotebookModel {
    NotebookModel { cells: with_sections(source.cells, sections_of(editor)), ..source }
}

/// The notebook after the changes of an editor notebook are applied to it: its
/// sections are applied, and the cells that they are about are reviewed.
pub open spec fn edited_notebook(source: NotebookModel, editor: NotebookModel) -> NotebookModel {
    reviewed(written_notebook(source, editor), sections_of(editor))
}

/// Applying sections changes neither the number of cells nor their ids and
/// sources, and leaves metadata writable.
pub proof fn sections_keep_cells(
    cells: Seq<CellModel>,
    sections: Seq<SectionModel>,
    count: int,
)
    requires
        0 <= count <= sections.len(),
        sections_writable(cells, sections),
    ensures
        ({
            let after = with_sections(cells, sections.take(count));
            &&& after.len() == cells.len()
            &&& forall|i: int|
                0 <= i < cells.len() ==> (#[trigger] after[i]).id == cells[i].id && after[i].source
                    == cells[i].source
            &&& forall|i: int| 0 <= i < cells.len() && writable(cells[i].additional) ==> writable(
                (#[trigger] after[i]).additional,
            )
        }),
    decreases count,
{
    let upto = sections.take(count);
    if count > 0 {
        let front = sections.take(count - 1);
        assert(upto.drop_last() =~= front);
        sections_keep_cells(cells, sections, count - 1);
        let before = with_sections(cells, front);
        let section = sections[count - 1];
        assert(upto.last() == section);
        same_cell_index(before, cells, section.cell_id);
        let at = cell_index_of(before, section.cell_id);
        cell_index_is_first(before, section.cell_id);
        if at < before.len() {
            assert(writable(cells[at].additional));
            assert(writable(before[at].additional));
            edited_is_writable(before[at], section);
        }
    }
}

/// Cells with the same ids are named by the same sections.
pub proof fn same_cells_named(
    cells: Seq<CellModel>,
    others: Seq<CellModel>,
    sections: Seq<SectionModel>,
    index: int,
)
    requires
        cells.len() == others.len(),
        forall|i: int| 0 <= i < cells.len() ==> (#[trigger] cells[i]).id == others[i].id,
    ensures
        is_named(cells, sections, index) == is_named(others, sections, index),
{
    assert forall|k: int| 0 <= k < sections.len() implies cell_index_of(
        cells,
        (#[trigger] sections[k]).cell_id,
    ) == cell_index_of(others, sections[k].cell_id) by {
        same_cell_index(cells, others, sections[k].cell_id);
    }
}

/// Finds out which cells a section is about.
fn find_named(cells: &Vec<Cell>, sections: &Vec<Section>) -> (named: Vec<bool>)
    ensures
        named.len() == cells.len(),
        forall|i: int|
            0 <= i < cells.len() ==> #[trigger] named@[i] == is_named(
                cell_models(cells@),
                section_models(sections@),
                i,
            ),
{
    let ghost models = cell_models(cells@);
    let ghost all = section_models(sections@);
    let mut named: Vec<bool> = Vec::new();
    let mut i: usize = 0;
    while i < cells.len()
        invariant
            i <= cells.len(),
            named.len() == i,
            forall|j: int| 0 <= j < i ==> !(#[trigger] named@[j]),
        decreases cells.len() - i,
    {
        named.push(false);
        i += 1;
    }
    let mut k: usize = 0;
    while k < sections.len()
        invariant
            k <= sections.len(),
            named.len() == cells.len(),
            models == cell_models(cells@),
            all == section_models(sections@),
            forall|j: int|
                0 <= j < cells.len() ==> #[trigger] named@[j] == is_named(
                    models,
                    all.take(k as int),
                    j,
                ),
        decreases sections.len() - k,
    {
        let ghost was = named@;
        assert(all[k as int] == sections@[k as int]@);
        let at: usize = find_cell(cells, sections[k].cell_id.as_str());
        if at < named.len() {
            named.set(at, true);
        }
        proof {
            let done = all.take(k as int);
            let more = all.take(k + 1);
            assert forall|j: int| 0 <= j < cells.len() implies #[trigger] named@[j] == is_named(
                models,
                more,
                j,
            ) by {
                assert(was[j] == is_named(models, done, j));
                if is_named(models, done, j) {
                    let m = choose|m: int|
                        0 <= m < done.len() && cell_index_of(models, (#[trigger] done[m]).cell_id)
                            == j;
                    assert(more[m] == done[m]);
                }
                if j == at {
                    assert(more[k as int] == all[k as int]);
                }
                if is_named(models, more, j) && j != at {
                    let m = choose|m: int|
                        0 <= m < more.len() && cell_index_of(models, (#[trigger] more[m]).cell_id)
                            == j;
                    assert(m < k);
                    assert(done[m] == more[m]);
                }
            }
        }
        k += 1;
    }
    assert(all.take(k as int) =~= all);
    named
}

/// Records the fingerprints of the notebook in the cells that sections are about
/// and that have metadata.
fn review_cells(nb: &mut Notebook, sections: &Vec<Section>)
    requires
        forall|i: int|
            0 <= i < old(nb)@.cells.len() && is_named(
                old(nb)@.cells,
                section_models(sections@),
                i,
            ) ==> writable((#[trigger] old(nb)@.cells[i]).additional),
    ensures
        final(nb)@ == reviewed(old(nb)@, section_models(sections@)),
{
    let ghost before = nb@;
    let ghost all = section_models(sections@);
    let ghost wanted = reviewed(before, all).cells;
    let named: Vec<bool> = find_named(&nb.cells, sections);
    let shas: Vec<ShaEntry> = compute_snapshot(nb);
    let ghost recorded = sha_models(shas@);
    assert(recorded.len() == shas@.len());
    let mut i: usize = 0;
    assert(nb@.cells =~= wanted.take(0) + before.cells.skip(0));
    while i < nb.cells.len()
        invariant
            i <= nb.cells.len(),
            nb.cells.len() == before.cells.len(),
            named.len() == before.cells.len(),
            forall|j: int|
                0 <= j < before.cells.len() ==> #[trigger] named@[j] == is_named(
                    before.cells,
                    all,
                    j,
                ),
            forall|j: int|
                0 <= j < before.cells.len() && is_named(before.cells, all, j) ==> writable(
                    (#[trigger] before.cells[j]).additional,
                ),
            wanted == reviewed(before, all).cells,
            recorded == snapshot(before),
            recorded == sha_models(shas@),
            recorded.len() == shas.len(),
            nb@ == (NotebookModel {
                cells: wanted.take(i as int) + before.cells.skip(i as int),
                ..before
            }),
        decreases nb.cells.len() - i,
    {
        let ghost now = nb@.cells;
        assert(now[i as int] == before.cells[i as int]);
        assert(nb.cells@[i as int]@ == before.cells[i as int]);
        if named[i] && nb.cells[i].nota_bene().is_some() {
            let mine: Vec<ShaEntry> = first_entries(&shas, i + 1);
            let cell: &mut Cell = &mut nb.cells[i];
            cell.nota_bene_mut().set_shas(mine);
            assert(nb@.cells =~= now.update(i as int, wanted[i as int]));
        }
        assert(nb@.cells =~= wanted.take(i + 1) + before.cells.skip(i + 1));
        i += 1;
    }
    assert(nb@.cells =~= wanted);
}

/// Applies the changes of an editor notebook to its source, and gives back what
/// there is to say about them. The fingerprints of the source as it then is are
/// recorded in every cell that a section was applied to and that has metadata:
/// going through the editor is the review. It never fails.
pub fn apply_editor_to_source(source: &mut Notebook, editor: &Notebook) -> (outcome: Result<
    Vec<String>,
    String,
>)
    requires
        readable(editor@),
        sections_writable(old(source)@.cells, sections_of(editor@)),
    ensures
        final(source)@ == edited_notebook(old(source)@, editor@),
        snapshot(final(source)@) == snapshot(written_notebook(old(source)@, editor@)),
        lead_to_patches(old(source)@.cells, sections_of(editor@)),
        outcome matches Ok(warnings) && texts(warnings@) == reading_warnings(editor@)
            + section_warnings(old(source)@.cells, sections_of(editor@)),
{
    let ghost before = source@;
    let (sections, mut warnings): (Vec<Section>, Vec<String>) = parse_sections(editor);
    let ghost said = texts(warnings@);
    let ghost all = section_models(sections@);
    let mut i: usize = 0;
    assert(with_sections(before.cells, all.take(0)) =~= before.cells);
    assert(texts(warnings@) =~= said + section_warnings(before.cells, all.take(0)));
    while i < sections.len()
        invariant
            i <= sections.len(),
            all == section_models(sections@),
            sections_writable(before.cells, all),
            source@ == (NotebookModel {
                cells: with_sections(before.cells, all.take(i as int)),
                ..before
            }),
            texts(warnings@) == said + section_warnings(before.cells, all.take(i as int)),
            lead_to_patches(before.cells, all.take(i as int)),
        decreases sections.len() - i,
    {
        let section: &Section = &sections[i];
        let ghost now = source@.cells;
        proof {
            assert(all.take(i + 1).drop_last() =~= all.take(i as int));
            assert(all.take(i + 1).last() == section@);
            assert(all[i as int] == section@);
            sections_keep_cells(before.cells, all, i as int);
            same_cell_index(now, before.cells, section@.cell_id);
        }
        let at: usize = find_cell(&source.cells, section.cell_id.as_str());
        if at < source.cells.len() {
            assert(now[at as int] == source.cells@[at as int]@);
            let ghost after = edited_cell(now[at as int], section@);
            let cell: &mut Cell = &mut source.cells[at];
            apply_section(cell, section);
            assert(now[at as int].text() == before.cells[at as int].text());
            assert(source@.cells =~= now.update(at as int, after));
        } else {
            let ghost was = texts(warnings@);
            let warning: String = cell_message(
                "section cell_id '",
                section.cell_id.as_str(),
                "' not found in source notebook; skipping",
            );
            warnings.push(warning);
            assert(texts(warnings@) =~= was.push(warning@));
            assert(was.push(warning@) =~= said + section_warnings(
                before.cells,
                all.take(i + 1),
            ));
        }
        i += 1;
    }
    assert(all.take(i as int) =~= all);
    proof {
        review_keeps_snapshot(before, editor@);
    }
    review_cells(source, &sections);
    Ok(warnings)
}

/// The metadata of the cells that sections are about stays writable, and the
/// review changes no fingerprint of the notebook.
pub proof fn review_keeps_snapshot(source: NotebookModel, editor: NotebookModel)
    requires
        sections_writable(source.cells, sections_of(editor)),
    ensures
        snapshot(edited_notebook(source, editor)) == snapshot(written_notebook(source, editor)),
        forall|i: int|
            0 <= i < source.cells.len() && is_named(
                written_notebook(source, editor).cells,
                sections_of(editor),
                i,
            ) ==> writable(
                (#[trigger] written_notebook(source, editor).cells[i]).additional,
            ),
        written_notebook(source, editor).cells.len() == source.cells.len(),
{
    let written = written_notebook(source, editor);
    let sections = sections_of(editor);
    let after = edited_notebook(source, editor);
    let count = sections.len() as int;
    assert(sections.take(count) =~= sections);
    sections_keep_cells(source.cells, sections, count);
    assert forall|i: int|
        0 <= i < source.cells.len() && is_named(written.cells, sections, i) implies writable(
        (#[trigger] written.cells[i]).additional,
    ) by {
        same_cells_named(written.cells, source.cells, sections, i);
        let k = choose|k: int|
            0 <= k < sections.len() && cell_index_of(
                source.cells,
                (#[trigger] sections[k]).cell_id,
            ) == i;
        assert(writable(source.cells[i].additional));
    }
    assert forall|i: int| 0 <= i < source.cells.len() implies #[trigger] snapshot(after)[i]
        == snapshot(written)[i] by {
        let cell = written.cells[i];
        if is_named(written.cells, sections, i) && cell.data() is Some {
            assert(writable(written.cells[i].additional));
            sha_ignores_recorded_shas(cell, snapshot(written).take(i + 1));
        }
    }
    assert(snapshot(after) =~= snapshot(written));
}

/// Whether the changes of an editor notebook can be applied to a source.
pub open spec fn can_apply_editor(source: NotebookModel, editor: NotebookModel) -> bool {
    readable(editor) && sections_writable(source.cells, sections_of(editor))
}

/// Finds out whether the changes of an editor notebook can be applied to a
/// source.
pub fn check_editor(source: &Notebook, editor: &Notebook) -> (possible: bool)
    ensures
        possible == can_apply_editor(source@, editor@),
{
    match read_sections(editor) {
        Some((sections, _)) => can_write_sections(&source.cells, &sections),
        None => false,
    }
}

} // verus!
