//! The editor notebook: a notebook made from the source notebook, in which
//! fixtures, patched sources and tests stand as cells of their own.
use vstd::prelude::*;

use crate::cells::{
    all_fit, code_template, fit_together, fits, make_code_cell, make_new_code_cell, make_note_cell,
    note_template, role_fields, role_only, tag, tagged_metadata, CellTemplate,
};
use crate::diff_utils::{
    apply_diff, check_reversible, patched_text, reconstruct_original, reconstructed_text,
    reversible_diff,
};
use crate::fixtures::{
    by_priority, fixture_count, fixtures_by_priority, named_fixtures, Fixture, FixtureModel,
};
use crate::json::{with_member, without_member, Json, JsonMap, JsonModel};
use crate::metadata::{
    shas_json, write_pair, write_shas, write_single, DataModel, NotaBeneData, ShaEntry,
    METADATA_KEY,
};
use crate::notebook::{cell_models, Cell, CellExt, CellModel, Metadata, Notebook, NotebookModel};
use crate::shas::{cell_state, compute_snapshot, snapshot, state_of, CellState, CellStateModel};
use crate::text::{
    copy_texts, decimal, decimal_text, join, joined, signed_decimal, signed_decimal_text, texts,
};

pub use crate::cells::split_source;

verus! {

broadcast use {crate::json::array_view, crate::json::object_view};

// ---------------------------------------------------------------------------
// Texts
// ---------------------------------------------------------------------------

/// The source of the setup cell.
pub const SETUP_SOURCE: &'static str = "import nota_bene\nnota_bene.register_nb_skip()";

/// What the header of a cell without metadata says.
pub const NO_TESTS_HINT: &'static str =
    " · No tests\n\nNo tests yet. Edit the source cell below, write a test with `%%nb_skip` / `# test: <name>`, then run `nota-bene edit --continue <notebook>`.";

/// What the header of a valid cell says.
pub const VALID_HINT: &'static str =
    "Tests are up to date. Edit the source or test cells below, then run `nota-bene edit --continue <notebook>`.";

/// What the header of a cell that was never accepted says.
pub const MISSING_HINT: &'static str =
    "Tests exist but have never been validated against the current source (no SHA recorded yet). Review the test cell below, then run `nota-bene edit --continue <notebook>` to lock in the current state.";

/// Why a cell that was never accepted needs review.
pub const MISSING_REASON: &'static str =
    "This cell has no tests or fixtures yet. Add them in the cells below, then run `nota-bene edit --continue` to save.";

/// What the header of a changed cell says.
pub const CHANGED_HINT: &'static str =
    "The source has changed since these tests were saved. Review and update the test cell below, then run `nota-bene edit --continue <notebook>`.";

/// The source of a fixture cell to be filled in.
pub const STUB_SOURCE: &'static str = "# fixture: \n# description: \n# priority: 0";

/// The beginning of a section header.
pub open spec fn header_start(cell_id: Seq<char>, position: nat) -> Seq<char> {
    "---\n## `"@ + cell_id + "` · Cell "@ + decimal(position)
}

/// The header of a cell without metadata.
pub open spec fn plain_header(cell_id: Seq<char>, position: nat) -> Seq<char> {
    header_start(cell_id, position) + NO_TESTS_HINT@
}

/// How the header sums up the state of a cell.
pub open spec fn state_title(state: CellStateModel) -> Seq<char> {
    match state {
        CellStateModel::Valid => "Has tests"@,
        CellStateModel::Missing => "Needs review"@,
        CellStateModel::Changed { .. } => "Needs review"@,
    }
}

/// What the header asks to do in each state.
pub open spec fn state_hint(state: CellStateModel) -> Seq<char> {
    match state {
        CellStateModel::Valid => VALID_HINT@,
        CellStateModel::Missing => MISSING_HINT@,
        CellStateModel::Changed { .. } => CHANGED_HINT@,
    }
}

/// Why a cell is in its state.
pub open spec fn state_reasons(state: CellStateModel) -> Seq<Seq<char>> {
    match state {
        CellStateModel::Valid => Seq::empty(),
        CellStateModel::Missing => seq![MISSING_REASON@],
        CellStateModel::Changed { needs_review, ancestor_modified } => needs_review
            + ancestor_modified,
    }
}

/// The source before a diff was applied, or the source itself if the diff
/// cannot be undone.
pub open spec fn source_before_diff(source: Seq<char>, diff: Seq<char>) -> Seq<char> {
    match reconstructed_text(source, diff) {
        Ok(text) => text,
        Err(_) => source,
    }
}

/// The source after its diff is applied, or the source itself if there is no
/// diff or it does not apply.
pub open spec fn source_after_diff(source: Seq<char>, diff: Option<Seq<char>>) -> Seq<char> {
    match diff {
        Some(d) => match patched_text(source, d) {
            Ok(text) => text,
            Err(_) => source,
        },
        None => source,
    }
}

/// The parts of the header of a cell with metadata: its state, the reasons if
/// there are any, and the source before the diff if there is one.
pub open spec fn header_parts(
    cell: CellModel,
    position: nat,
    data: DataModel,
    state: CellStateModel,
) -> Seq<Seq<char>> {
    let first = header_start(cell.id, position) + " · "@ + state_title(state) + "\n\n"@
        + state_hint(state);
    let why = if state_reasons(state).len() > 0 {
        seq!["**Why:** "@ + joined(state_reasons(state), "; "@)]
    } else {
        Seq::empty()
    };
    let original = match data.diff {
        Some(diff) => seq![
            "**Original source** *(before patch — read only)*\n\n```python\n"@
                + source_before_diff(cell.text(), diff) + "\n```"@,
        ],
        None => Seq::empty(),
    };
    seq![first] + why + original
}

/// The header of a cell with metadata.
pub open spec fn full_header(
    cell: CellModel,
    position: nat,
    data: DataModel,
    state: CellStateModel,
) -> Seq<char> {
    joined(header_parts(cell, position, data, state), "\n\n"@)
}

/// The lines about a fixture, followed by its source if there is any.
pub open spec fn fixture_text(name: Seq<char>, fixture: FixtureModel) -> Seq<char> {
    let header = "# fixture: "@ + name + "\n# description: "@ + fixture.description
        + "\n# priority: "@ + signed_decimal(fixture.priority as int);
    if fixture.source.len() == 0 {
        header
    } else {
        header + "\n"@ + fixture.source
    }
}

/// The line about a test, followed by its source if there is any.
pub open spec fn test_text(name: Seq<char>, source: Seq<char>) -> Seq<char> {
    let header = "%%nb_skip\n# test: "@ + name;
    if source.len() == 0 {
        header
    } else {
        header + "\n"@ + source
    }
}

// ---------------------------------------------------------------------------
// Templates
// ---------------------------------------------------------------------------

/// The fields of the tag of an editor cell that belongs to a cell.
pub open spec fn editor_fields(cell_id: Seq<char>, role: Seq<char>) -> JsonModel {
    JsonModel::Object(
        seq![("cell_id"@, JsonModel::Text(cell_id)), ("role"@, JsonModel::Text(role))],
    )
}

/// The fields of the tag of a fixture cell.
pub open spec fn fixture_fields(cell_id: Seq<char>, name: Seq<char>) -> JsonModel {
    JsonModel::Object(
        seq![
            ("cell_id"@, JsonModel::Text(cell_id)),
            ("fixture_name"@, JsonModel::Text(name)),
            ("role"@, JsonModel::Text("fixture"@)),
        ],
    )
}

/// The setup cell.
pub open spec fn setup_template() -> CellTemplate {
    code_template(None, "editor"@, role_fields("setup"@), SETUP_SOURCE@)
}

/// The header of a section.
pub open spec fn header_template(cell_id: Seq<char>, text: Seq<char>) -> CellTemplate {
    note_template("editor"@, editor_fields(cell_id, "section-header"@), text)
}

/// A cell without metadata: its source and its outputs, under its own id.
pub open spec fn passthrough_template(cell: CellModel) -> CellTemplate {
    CellTemplate {
        id: Some(cell.id),
        additional: tag("editor"@, editor_fields(cell.id, "source"@)),
        source: cell.source,
        body: cell.body,
    }
}

/// The cell of a fixture.
pub open spec fn fixture_template(
    cell_id: Seq<char>,
    name: Seq<char>,
    fixture: FixtureModel,
) -> CellTemplate {
    code_template(None, "editor"@, fixture_fields(cell_id, name), fixture_text(name, fixture))
}

/// The cells of the fixtures in the order in which they run, or one to be
/// filled in if there are none.
pub open spec fn fixture_templates(cell_id: Seq<char>, data: DataModel) -> Seq<CellTemplate> {
    match data.fixtures {
        Some(entries) if entries.len() > 0 => by_priority(entries).map_values(
            |entry: (Seq<char>, FixtureModel)| fixture_template(cell_id, entry.0, entry.1),
        ),
        _ => seq![
            code_template(
                None,
                "editor"@,
                fixture_fields(cell_id, Seq::empty()),
                STUB_SOURCE@,
            ),
        ],
    }
}

/// The source of a cell with its diff applied, under its own id.
pub open spec fn patched_template(cell: CellModel, data: DataModel) -> CellTemplate {
    code_template(
        Some(cell.id),
        "editor"@,
        editor_fields(cell.id, "patched-source"@),
        source_after_diff(cell.text(), data.diff),
    )
}

/// The cell of the test; empty and unnamed if there is none.
pub open spec fn test_template(cell_id: Seq<char>, data: DataModel) -> CellTemplate {
    code_template(
        None,
        "editor"@,
        editor_fields(cell_id, "test"@),
        match data.test {
            Some(test) => test_text(test.name, test.source),
            None => test_text("<unnamed>"@, Seq::empty()),
        },
    )
}

/// The cells of one cell of the source: none for a cell that is no code; a
/// header and the source for one without metadata; else a header, fixtures,
/// the patched source and the test.
pub open spec fn section_templates(nb: NotebookModel, index: int) -> Seq<CellTemplate> {
    let cell = nb.cells[index];
    let position = (index + 1) as nat;
    if !cell.is_code() {
        Seq::empty()
    } else {
        match cell.data() {
            None => seq![
                header_template(cell.id, plain_header(cell.id, position)),
                passthrough_template(cell),
            ],
            Some(data) => seq![
                header_template(
                    cell.id,
                    full_header(cell, position, data, state_of(nb, index)),
                ),
            ] + fixture_templates(cell.id, data) + seq![
                patched_template(cell, data),
                test_template(cell.id, data),
            ],
        }
    }
}

/// The setup cell and the cells of the first `count` cells of the source.
pub open spec fn editor_templates(nb: NotebookModel, count: int) -> Seq<CellTemplate>
    decreases count,
{
    if count <= 0 {
        seq![setup_template()]
    } else {
        editor_templates(nb, count - 1) + section_templates(nb, count - 1)
    }
}

/// What the editor notebook keeps about its source: where it is, and the
/// fingerprints of its cells.
pub open spec fn editor_metadata(nb: NotebookModel, source_path: Seq<char>) -> JsonModel {
    JsonModel::Object(
        seq![
            (
                "editor"@,
                JsonModel::Object(
                    seq![
                        ("source_path"@, JsonModel::Text(source_path)),
                        ("source_shas"@, shas_json(snapshot(nb))),
                    ],
                ),
            ),
        ],
    )
}

/// Whether `editor` is the editor notebook of `source`.
pub open spec fn is_editor_notebook(
    editor: NotebookModel,
    source: NotebookModel,
    source_path: Seq<char>,
) -> bool {
    &&& all_fit(editor.cells, editor_templates(source, source.cells.len() as int))
    &&& editor.standard == source.standard
    &&& editor.additional == with_member(
        without_member(source.additional, METADATA_KEY@),
        METADATA_KEY@,
        editor_metadata(source, source_path),
    )
    &&& editor.nbformat == 4
    &&& editor.nbformat_minor == 5
}

// ---------------------------------------------------------------------------
// Making the cells
// ---------------------------------------------------------------------------

/// The fields of the tag of an editor cell that belongs to a cell.
fn editor_tag(cell_id: &str, role: &str) -> (fields: Json)
    ensures
        fields@ == editor_fields(cell_id@, role@),
{
    write_pair(
        "cell_id",
        Json::Text(cell_id.to_owned()),
        "role",
        Json::Text(role.to_owned()),
    )
}

/// The fields of the tag of a fixture cell.
fn fixture_tag(cell_id: &str, name: &str) -> (fields: Json)
    ensures
        fields@ == fixture_fields(cell_id@, name@),
{
    let map = JsonMap {
        entries: vec![
            ("cell_id".to_owned(), Json::Text(cell_id.to_owned())),
            ("fixture_name".to_owned(), Json::Text(name.to_owned())),
            ("role".to_owned(), Json::Text("fixture".to_owned())),
        ],
    };
    assert(map@ =~= fixture_fields(cell_id@, name@)->Object_0);
    Json::Object(map)
}

/// The setup cell.
pub fn make_setup_cell() -> (cell: Cell)
    ensures
        fits(cell@, setup_template()),
{
    make_new_code_cell("editor", role_only("setup"), SETUP_SOURCE)
}

/// The beginning of a section header.
fn header_start_text(cell_id: &str, position: usize) -> (text: String)
    ensures
        text@ == header_start(cell_id@, position as nat),
{
    let mut text: String = "---\n## `".to_owned();
    text.append(cell_id);
    text.append("` · Cell ");
    text.append(decimal_text(position).as_str());
    text
}

/// The header of a cell without metadata.
pub fn make_section_header_no_tests(cell: &Cell, position: usize) -> (header: Cell)
    ensures
        fits(
            header@,
            header_template(cell@.id, plain_header(cell@.id, position as nat)),
        ),
{
    let cell_id: &str = cell.cell_id_str();
    let mut text: String = header_start_text(cell_id, position);
    text.append(NO_TESTS_HINT);
    make_note_cell("editor", editor_tag(cell_id, "section-header"), text.as_str())
}

/// Whether the diff of a cell, if it has one, can be reversed.
pub open spec fn data_reversible(data: DataModel) -> bool {
    data.diff matches Some(diff) ==> reversible_diff(diff)
}

/// The header of a cell with metadata.
pub fn make_section_header_with_meta(
    cell: &Cell,
    position: usize,
    data: &NotaBeneData,
    state: &CellState,
) -> (header: Cell)
    requires
        data_reversible(data@),
    ensures
        fits(
            header@,
            header_template(cell@.id, full_header(cell@, position as nat, data@, state@)),
        ),
{
    let cell_id: &str = cell.cell_id_str();
    let (title, hint): (&str, &str) = match state {
        CellState::Valid => ("Has tests", VALID_HINT),
        CellState::Missing => ("Needs review", MISSING_HINT),
        CellState::Changed(_) => ("Needs review", CHANGED_HINT),
    };
    let mut reasons: Vec<String> = Vec::new();
    match state {
        CellState::Valid => {},
        CellState::Missing => reasons.push(MISSING_REASON.to_owned()),
        CellState::Changed(changed) => {
            let mut own: Vec<String> = copy_texts(&changed.needs_review);
            let mut ancestors: Vec<String> = copy_texts(&changed.ancestor_modified);
            reasons.append(&mut own);
            reasons.append(&mut ancestors);
        },
    }
    assert(texts(reasons@) =~= state_reasons(state@));
    let mut first: String = header_start_text(cell_id, position);
    first.append(" · ");
    first.append(title);
    first.append("\n\n");
    first.append(hint);
    let mut parts: Vec<String> = Vec::new();
    parts.push(first);
    if reasons.len() > 0 {
        let mut why: String = "**Why:** ".to_owned();
        why.append(join(&reasons, "; ").as_str());
        parts.push(why);
    }
    let ghost so_far = texts(parts@);
    if let Some(diff) = &data.diff {
        let source: String = cell.source_str();
        let original: String = match reconstruct_original(source.as_str(), diff.as_str()) {
            Ok(text) => text,
            Err(_) => source,
        };
        let mut block: String =
            "**Original source** *(before patch — read only)*\n\n```python\n".to_owned();
        block.append(original.as_str());
        block.append("\n```");
        parts.push(block);
    }
    assert(texts(parts@) =~= header_parts(cell@, position as nat, data@, state@));
    let text: String = join(&parts, "\n\n");
    make_note_cell("editor", editor_tag(cell_id, "section-header"), text.as_str())
}

/// A cell without metadata: its source and its outputs, under its own id.
pub fn make_source_cell_passthrough(cell: &Cell) -> (copy: Cell)
    requires
        cell@.is_code(),
    ensures
        fits(copy@, passthrough_template(cell@)),
{
    Cell {
        id: cell.id.clone(),
        metadata: tagged_metadata("editor", editor_tag(cell.cell_id_str(), "source")),
        source: copy_texts(&cell.source),
        body: cell.body.clone(),
    }
}

/// A fixture cell to be filled in. Left as it is it stands for no fixture.
pub fn make_stub_fixture_cell(parent_cell_id: &str) -> (cell: Cell)
    ensures
        fits(
            cell@,
            code_template(
                None,
                "editor"@,
                fixture_fields(parent_cell_id@, Seq::empty()),
                STUB_SOURCE@,
            ),
        ),
{
    proof {
        reveal_strlit("");
        assert(""@ =~= Seq::<char>::empty());
    }
    make_new_code_cell("editor", fixture_tag(parent_cell_id, ""), STUB_SOURCE)
}

/// The cell of a fixture.
pub fn make_fixture_cell(parent_cell_id: &str, name: &str, fixture: &Fixture) -> (cell: Cell)
    ensures
        fits(cell@, fixture_template(parent_cell_id@, name@, fixture@)),
{
    let mut text: String = "# fixture: ".to_owned();
    text.append(name);
    text.append("\n# description: ");
    text.append(fixture.description.as_str());
    text.append("\n# priority: ");
    text.append(signed_decimal_text(fixture.priority).as_str());
    if !fixture.source.as_str().is_empty() {
        text.append("\n");
        text.append(fixture.source.as_str());
    }
    make_new_code_cell("editor", fixture_tag(parent_cell_id, name), text.as_str())
}

/// The source of a cell with its diff applied, under the id of the cell.
pub fn make_patched_source_cell(cell: &Cell, source: &str) -> (patched: Cell)
    ensures
        fits(
            patched@,
            code_template(
                Some(cell@.id),
                "editor"@,
                editor_fields(cell@.id, "patched-source"@),
                source@,
            ),
        ),
{
    make_code_cell(
        cell.id.clone(),
        "editor",
        editor_tag(cell.cell_id_str(), "patched-source"),
        source,
    )
}

/// The cell of a test.
pub fn make_test_cell(cell_id: &str, test_name: &str, test_source: &str) -> (cell: Cell)
    ensures
        fits(
            cell@,
            code_template(
                None,
                "editor"@,
                editor_fields(cell_id@, "test"@),
                test_text(test_name@, test_source@),
            ),
        ),
{
    let mut text: String = "%%nb_skip\n# test: ".to_owned();
    text.append(test_name);
    if !test_source.is_empty() {
        text.append("\n");
        text.append(test_source);
    }
    make_new_code_cell("editor", editor_tag(cell_id, "test"), text.as_str())
}

/// The source of a cell with its diff applied, or the source itself if there is
/// no diff or it does not apply.
pub fn apply_stored_diff(source: String, diff: &Option<String>) -> (patched: String)
    ensures
        patched@ == source_after_diff(source@, crate::text::text_view(*diff)),
{
    match diff {
        Some(d) => match apply_diff(source.as_str(), d.as_str()) {
            Ok(text) => text,
            Err(_) => source,
        },
        None => source,
    }
}

/// Whether the diff of a code cell, if it has one, can be reversed.
pub open spec fn cell_reversible(cell: CellModel) -> bool {
    cell.is_code() ==> (cell.data() matches Some(data) ==> data_reversible(data))
}

/// Whether the diffs of all code cells can be reversed.
pub open spec fn diffs_reversible(nb: NotebookModel) -> bool {
    forall|i: int| 0 <= i < nb.cells.len() ==> cell_reversible(#[trigger] nb.cells[i])
}

/// Finds out whether the diffs of all code cells can be reversed.
pub fn check_diffs(nb: &Notebook) -> (reversible: bool)
    ensures
        reversible == diffs_reversible(nb@),
{
    let mut i: usize = 0;
    while i < nb.cells.len()
        invariant
            i <= nb.cells.len(),
            forall|k: int| 0 <= k < i ==> cell_reversible(#[trigger] nb@.cells[k]),
        decreases nb.cells.len() - i,
    {
        let cell: &Cell = &nb.cells[i];
        assert(nb@.cells[i as int] == cell@);
        if cell.is_code() {
            if let Some(data) = cell.nota_bene() {
                if let Some(diff) = &data.diff {
                    if !check_reversible(diff.as_str()) {
                        assert(!cell_reversible(nb@.cells[i as int]));
                        return false;
                    }
                }
            }
        }
        i += 1;
    }
    true
}

/// The cells of one cell of the source.
fn make_section(source: &Notebook, index: usize) -> (cells: Vec<Cell>)
    requires
        index < source.cells.len(),
        cell_reversible(source@.cells[index as int]),
    ensures
        all_fit(cell_models(cells@), section_templates(source@, index as int)),
{
    let mut cells: Vec<Cell> = Vec::new();
    let cell: &Cell = &source.cells[index];
    assert(source@.cells[index as int] == cell@);
    let position: usize = index + 1;
    if !cell.is_code() {
        return cells;
    }
    match cell.nota_bene() {
        None => {
            cells.push(make_section_header_no_tests(cell, position));
            cells.push(make_source_cell_passthrough(cell));
        },
        Some(data) => {
            let state: CellState = cell_state(source, index);
            let ghost first = header_template(
                cell@.id,
                full_header(cell@, position as nat, data@, state@),
            );
            cells.push(make_section_header_with_meta(cell, position, &data, &state));
            let ghost head = cell_models(cells@);
            assert(all_fit(head, seq![first]));
            let mut middle: Vec<Cell> = Vec::new();
            let ghost wanted = fixture_templates(cell@.id, data@);
            match &data.fixtures {
                Some(map) if fixture_count(map) > 0 => {
                    let sorted: Vec<(String, Fixture)> = fixtures_by_priority(map);
                    let ghost entries = named_fixtures(sorted@);
                    let mut k: usize = 0;
                    while k < sorted.len()
                        invariant
                            k <= sorted.len(),
                            middle.len() == k,
                            entries == named_fixtures(sorted@),
                            forall|j: int|
                                0 <= j < k ==> fits(
                                    #[trigger] middle@[j]@,
                                    fixture_template(cell@.id, entries[j].0, entries[j].1),
                                ),
                        decreases sorted.len() - k,
                    {
                        let ghost entry = entries[k as int];
                        assert(entry == (sorted@[k as int].0@, sorted@[k as int].1@));
                        middle.push(
                            make_fixture_cell(
                                cell.cell_id_str(),
                                sorted[k].0.as_str(),
                                &sorted[k].1,
                            ),
                        );
                        k += 1;
                    }
                    assert forall|j: int| 0 <= j < middle@.len() implies fits(
                        #[trigger] cell_models(middle@)[j],
                        wanted[j],
                    ) by {
                        assert(fits(
                            middle@[j]@,
                            fixture_template(cell@.id, entries[j].0, entries[j].1),
                        ));
                    }
                },
                _ => {
                    middle.push(make_stub_fixture_cell(cell.cell_id_str()));
                },
            }
            assert(all_fit(cell_models(middle@), wanted));
            let ghost between = cell_models(middle@);
            cells.append(&mut middle);
            assert(cell_models(cells@) =~= head + between);
            proof {
                fit_together(head, seq![first], between, wanted);
            }
            let ghost most = cell_models(cells@);
            let patched: String = apply_stored_diff(cell.source_str(), &data.diff);
            let ghost last = seq![
                patched_template(cell@, data@),
                test_template(cell@.id, data@),
            ];
            let mut tail: Vec<Cell> = Vec::new();
            tail.push(make_patched_source_cell(cell, patched.as_str()));
            match &data.test {
                Some(test) => {
                    tail.push(
                        make_test_cell(
                            cell.cell_id_str(),
                            test.name.as_str(),
                            test.source.as_str(),
                        ),
                    );
                },
                None => {
                    proof {
                        reveal_strlit("");
                        assert(""@ =~= Seq::<char>::empty());
                    }
                    tail.push(make_test_cell(cell.cell_id_str(), "<unnamed>", ""));
                },
            }
            let ghost end = cell_models(tail@);
            assert(all_fit(end, last));
            cells.append(&mut tail);
            assert(cell_models(cells@) =~= most + end);
            proof {
                fit_together(most, seq![first] + wanted, end, last);
            }
        },
    }
    cells
}

/// Makes the editor notebook of a notebook. `source_path` is kept in it, so
/// that the source can be found again. It never fails.
pub fn build_editor_notebook(source: &Notebook, source_path: &str) -> (made: Result<
    Notebook,
    String,
>)
    requires
        diffs_reversible(source@),
    ensures
        made matches Ok(editor) && is_editor_notebook(editor@, source@, source_path@),
{
    let mut cells: Vec<Cell> = Vec::new();
    cells.push(make_setup_cell());
    let mut index: usize = 0;
    while index < source.cells.len()
        invariant
            index <= source.cells.len(),
            diffs_reversible(source@),
            all_fit(cell_models(cells@), editor_templates(source@, index as int)),
        decreases source.cells.len() - index,
    {
        let mut section: Vec<Cell> = make_section(source, index);
        let ghost done = cell_models(cells@);
        let ghost added = cell_models(section@);
        cells.append(&mut section);
        assert(cell_models(cells@) =~= done + added);
        proof {
            fit_together(
                done,
                editor_templates(source@, index as int),
                added,
                section_templates(source@, index as int),
            );
        }
        index += 1;
    }
    let mut metadata: Metadata = source.metadata.clone();
    metadata.additional.remove(METADATA_KEY);
    let shas: Vec<ShaEntry> = compute_snapshot(source);
    let editor: Json = write_single(
        "editor",
        write_pair(
            "source_path",
            Json::Text(source_path.to_owned()),
            "source_shas",
            write_shas(&shas),
        ),
    );
    metadata.additional.insert(METADATA_KEY.to_owned(), editor);
    Ok(Notebook { metadata, nbformat: 4, nbformat_minor: 5, cells })
}

/// Makes the editor notebook of a notebook; nothing if the diff of one of its
/// code cells cannot be reversed.
pub fn open_editor_notebook(source: &Notebook, source_path: &str) -> (made: Option<Notebook>)
    ensures
        match made {
            Some(editor) => diffs_reversible(source@) && is_editor_notebook(
                editor@,
                source@,
                source_path@,
            ),
            None => !diffs_reversible(source@),
        },
{
    if !check_diffs(source) {
        return None;
    }
    match build_editor_notebook(source, source_path) {
        Ok(editor) => Some(editor),
        Err(_) => None,
    }
}

} // verus!
