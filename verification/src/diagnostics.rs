//! What is wrong with a cell: its own content, and its state within the
//! notebook.
use vstd::prelude::*;

use crate::diff_utils::{apply_diff, patched_text};
use crate::json::JsonModel;
use crate::metadata::METADATA_KEY;
use crate::metadata_laws::{shas_field_reads_back, well_formed};
use crate::notebook::{Cell, CellExt, CellModel, Notebook, NotebookModel};
use crate::sha_laws::{accepting_makes_valid, cell_ids_differ};
use crate::shas::{
    accepted, cell_state, sha_subject, snapshot, state_of, CellState, CellStateModel,
};
use crate::text::texts;

verus! {

/// The kinds of diagnostics.
#[derive(Debug, Clone, Copy, PartialEq, Eq, Structural)]
pub enum DiagnosticType {
    /// A code cell without metadata, or never accepted.
    Missing,
    /// The cell itself changed since it was accepted.
    NeedsReview,
    /// A preceding cell was modified, deleted, inserted or moved.
    AncestorModified,
    /// The diff does not apply to the source of the cell.
    DiffConflict,
    /// A field of the metadata is missing or has a bad value.
    InvalidField,
}

/// The name of a kind of diagnostics.
pub open spec fn kind_name(kind: DiagnosticType) -> Seq<char> {
    match kind {
        DiagnosticType::Missing => "missing"@,
        DiagnosticType::NeedsReview => "needs_review"@,
        DiagnosticType::AncestorModified => "ancestor_modified"@,
        DiagnosticType::DiffConflict => "diff_conflict"@,
        DiagnosticType::InvalidField => "invalid_field"@,
    }
}

impl DiagnosticType {
    /// The name of the kind.
    pub fn to_string(&self) -> (name: String)
        ensures
            name@ == kind_name(*self),
    {
        match self {
            DiagnosticType::Missing => "missing".to_owned(),
            DiagnosticType::NeedsReview => "needs_review".to_owned(),
            DiagnosticType::AncestorModified => "ancestor_modified".to_owned(),
            DiagnosticType::DiffConflict => "diff_conflict".to_owned(),
            DiagnosticType::InvalidField => "invalid_field".to_owned(),
        }
    }
}

/// How serious a diagnostic is.
#[derive(Debug, Clone, Copy, PartialEq, Eq, Structural)]
pub enum Severity {
    Error,
    Warning,
}

/// The name of a severity.
pub open spec fn severity_name(severity: Severity) -> Seq<char> {
    match severity {
        Severity::Error => "error"@,
        Severity::Warning => "warning"@,
    }
}

impl Severity {
    /// The name of the severity.
    pub fn to_string(&self) -> (name: String)
        ensures
            name@ == severity_name(*self),
    {
        match self {
            Severity::Error => "error".to_owned(),
            Severity::Warning => "warning".to_owned(),
        }
    }
}

/// One thing that is wrong with a cell, and the field it is about.
#[derive(Debug, PartialEq)]
pub struct Diagnostic {
    pub kind: DiagnosticType,
    pub severity: Severity,
    pub message: String,
    pub field: String,
}

/// What a diagnostic holds.
pub struct DiagnosticModel {
    pub kind: DiagnosticType,
    pub severity: Severity,
    pub message: Seq<char>,
    pub field: Seq<char>,
}

impl View for Diagnostic {
    type V = DiagnosticModel;

    open spec fn view(&self) -> DiagnosticModel {
        DiagnosticModel {
            kind: self.kind,
            severity: self.severity,
            message: self.message@,
            field: self.field@,
        }
    }
}

impl Clone for Diagnostic {
    fn clone(&self) -> (copy: Self)
        ensures
            copy == *self,
    {
        Diagnostic {
            kind: self.kind,
            severity: self.severity,
            message: self.message.clone(),
            field: self.field.clone(),
        }
    }
}

/// What a list of diagnostics holds.
pub open spec fn diagnostic_models(list: Seq<Diagnostic>) -> Seq<DiagnosticModel> {
    list.map_values(|diagnostic: Diagnostic| diagnostic@)
}

/// A copy of a list of diagnostics.
pub fn copy_diagnostics(list: &Vec<Diagnostic>) -> (copy: Vec<Diagnostic>)
    ensures
        copy@ == list@,
{
    let mut copy: Vec<Diagnostic> = Vec::new();
    let mut i: usize = 0;
    while i < list.len()
        invariant
            i <= list.len(),
            copy@ == list@.take(i as int),
        decreases list.len() - i,
    {
        copy.push(list[i].clone());
        i += 1;
    }
    copy
}

/// Whether a cell is valid, and what is wrong with it if it is not.
#[derive(Debug, PartialEq)]
pub struct CellStatus {
    pub valid: bool,
    pub diagnostics: Vec<Diagnostic>,
}

// ---------------------------------------------------------------------------
// Diagnostics of a cell
// ---------------------------------------------------------------------------

/// The message for a diff that does not apply.
pub const CONFLICT_MESSAGE: &'static str =
    "diff does not apply cleanly to the current source. Regenerate the diff or update the source to match.";

/// The message for a cell without tests.
pub const MISSING_MESSAGE: &'static str =
    "This cell has no tests or fixtures. Use the `repair_nota_bene` MCP tool for guided setup, or run `nota-bene update` to add fixtures and a test, then `nota-bene accept` to baseline it.";

/// The diagnostics of the content of a cell: a diff that does not apply to the
/// source.
pub open spec fn own_diagnostics(cell: CellModel) -> Seq<DiagnosticModel> {
    match cell.data() {
        Some(data) => match data.diff {
            Some(diff) => if patched_text(cell.text(), diff) is Err {
                seq![
                    DiagnosticModel {
                        kind: DiagnosticType::DiffConflict,
                        severity: Severity::Error,
                        message: CONFLICT_MESSAGE@,
                        field: "diff"@,
                    },
                ]
            } else {
                Seq::empty()
            },
            None => Seq::empty(),
        },
        None => Seq::empty(),
    }
}

/// A warning for each reason.
pub open spec fn warnings(kind: DiagnosticType, reasons: Seq<Seq<char>>) -> Seq<DiagnosticModel> {
    reasons.map_values(
        |reason: Seq<char>|
            DiagnosticModel { kind, severity: Severity::Warning, message: reason, field: "shas"@ },
    )
}

/// The diagnostics of the state of a cell.
pub open spec fn diagnostics_of_state(state: CellStateModel) -> Seq<DiagnosticModel> {
    match state {
        CellStateModel::Valid => Seq::empty(),
        CellStateModel::Missing => seq![
            DiagnosticModel {
                kind: DiagnosticType::Missing,
                severity: Severity::Error,
                message: MISSING_MESSAGE@,
                field: "shas"@,
            },
        ],
        CellStateModel::Changed { needs_review, ancestor_modified } => warnings(
            DiagnosticType::NeedsReview,
            needs_review,
        ) + warnings(DiagnosticType::AncestorModified, ancestor_modified),
    }
}

/// The diagnostics of the state of a cell within its notebook.
pub open spec fn state_diagnostics(nb: NotebookModel, cell_index: int) -> Seq<DiagnosticModel> {
    diagnostics_of_state(state_of(nb, cell_index))
}

/// All diagnostics of a cell.
pub open spec fn cell_diagnostics(nb: NotebookModel, cell_index: int) -> Seq<DiagnosticModel> {
    state_diagnostics(nb, cell_index) + own_diagnostics(nb.cells[cell_index])
}

/// Computes the diagnostics of the content of a cell. They depend on the source
/// and the metadata of the cell alone.
pub fn compute_own_diagnostics(cell: &Cell) -> (diagnostics: Vec<Diagnostic>)
    ensures
        diagnostic_models(diagnostics@) == own_diagnostics(cell@),
{
    let mut diagnostics: Vec<Diagnostic> = Vec::new();
    if let Some(data) = cell.nota_bene() {
        if let Some(diff) = data.diff {
            let source: String = cell.source_str();
            if apply_diff(source.as_str(), diff.as_str()).is_err() {
                diagnostics.push(
                    Diagnostic {
                        kind: DiagnosticType::DiffConflict,
                        severity: Severity::Error,
                        message: CONFLICT_MESSAGE.to_owned(),
                        field: "diff".to_owned(),
                    },
                );
            }
        }
    }
    assert(diagnostic_models(diagnostics@) =~= own_diagnostics(cell@));
    diagnostics
}

/// A warning for each reason.
fn warn(kind: DiagnosticType, reasons: Vec<String>) -> (diagnostics: Vec<Diagnostic>)
    ensures
        diagnostic_models(diagnostics@) == warnings(kind, texts(reasons@)),
{
    let mut diagnostics: Vec<Diagnostic> = Vec::new();
    let mut i: usize = 0;
    while i < reasons.len()
        invariant
            i <= reasons.len(),
            diagnostics.len() == i,
            forall|k: int|
                0 <= k < i ==> #[trigger] diagnostics@[k]@ == (DiagnosticModel {
                    kind,
                    severity: Severity::Warning,
                    message: reasons@[k]@,
                    field: "shas"@,
                }),
        decreases reasons.len() - i,
    {
        diagnostics.push(
            Diagnostic {
                kind,
                severity: Severity::Warning,
                message: reasons[i].clone(),
                field: "shas".to_owned(),
            },
        );
        i += 1;
    }
    assert(diagnostic_models(diagnostics@) =~= warnings(kind, texts(reasons@)));
    diagnostics
}

/// Computes the diagnostics of the state of a cell within its notebook. They
/// depend on the other cells too.
pub fn compute_state_diagnostics(nb: &Notebook, cell_index: usize) -> (diagnostics: Vec<Diagnostic>)
    requires
        cell_index < nb.cells.len(),
    ensures
        diagnostic_models(diagnostics@) == state_diagnostics(nb@, cell_index as int),
{
    let mut diagnostics: Vec<Diagnostic> = Vec::new();
    match cell_state(nb, cell_index) {
        CellState::Valid => {},
        CellState::Missing => {
            diagnostics.push(
                Diagnostic {
                    kind: DiagnosticType::Missing,
                    severity: Severity::Error,
                    message: MISSING_MESSAGE.to_owned(),
                    field: "shas".to_owned(),
                },
            );
        },
        CellState::Changed(changed) => {
            let mut own: Vec<Diagnostic> = warn(DiagnosticType::NeedsReview, changed.needs_review);
            let mut ancestors: Vec<Diagnostic> = warn(
                DiagnosticType::AncestorModified,
                changed.ancestor_modified,
            );
            let ghost first = own@;
            let ghost second = ancestors@;
            diagnostics.append(&mut own);
            diagnostics.append(&mut ancestors);
            assert(diagnostic_models(diagnostics@) =~= diagnostic_models(first)
                + diagnostic_models(second));
        },
    }
    assert(diagnostic_models(diagnostics@) =~= state_diagnostics(nb@, cell_index as int));
    diagnostics
}

/// Computes all diagnostics of the cell at `cell_index`: those of its state,
/// then those of its content. The cell is valid if there are none.
pub fn compute_cell_diagnostics(nb: &Notebook, cell_index: usize) -> (status: CellStatus)
    requires
        cell_index < nb.cells.len(),
    ensures
        diagnostic_models(status.diagnostics@) == cell_diagnostics(nb@, cell_index as int),
        status.valid == (cell_diagnostics(nb@, cell_index as int).len() == 0),
{
    let mut diagnostics: Vec<Diagnostic> = compute_state_diagnostics(nb, cell_index);
    let mut own: Vec<Diagnostic> = compute_own_diagnostics(&nb.cells[cell_index]);
    let ghost first = diagnostics@;
    let ghost second = own@;
    diagnostics.append(&mut own);
    assert(diagnostic_models(diagnostics@) =~= diagnostic_models(first) + diagnostic_models(second));
    assert(nb@.cells[cell_index as int] == nb.cells@[cell_index as int]@);
    let valid: bool = diagnostics.len() == 0;
    CellStatus { valid, diagnostics }
}

// ---------------------------------------------------------------------------
// What diagnostics promise
// ---------------------------------------------------------------------------

/// After a cell is accepted nothing is wrong with its state: what is left are
/// the diagnostics of its content, which accepting does not change.
pub proof fn accepting_leaves_own_diagnostics(nb: NotebookModel, cell_index: int)
    requires
        0 <= cell_index < nb.cells.len(),
        cell_ids_differ(nb),
        nb.cells[cell_index].data() is Some,
        well_formed(nb.cells[cell_index].additional),
    ensures
        cell_diagnostics(accepted(nb, cell_index), cell_index) == own_diagnostics(
            nb.cells[cell_index],
        ),
{
    accepting_makes_valid(nb, cell_index);
    let cell = nb.cells[cell_index];
    let shas = snapshot(nb).take(cell_index + 1);
    shas_field_reads_back(cell.additional, shas);
    let after = accepted(nb, cell_index).cells[cell_index];
    assert(after.data() is Some) by {
        crate::json::member_of_with_member(
            cell.additional,
            METADATA_KEY@,
            JsonModel::Object(
                crate::json::with_member(
                    crate::metadata::nb_members(cell.additional),
                    "shas"@,
                    crate::metadata::shas_json(shas),
                ),
            ),
            METADATA_KEY@,
        );
    }
    assert(own_diagnostics(after) == own_diagnostics(cell));
    assert(Seq::<DiagnosticModel>::empty() + own_diagnostics(cell) =~= own_diagnostics(cell));
}

/// The diagnostics of the content of a cell are the same for all cells that
/// are fingerprinted by the same things, as long as their metadata is well
/// formed.
pub proof fn own_diagnostics_follow_fingerprint(cell: CellModel, other: CellModel)
    requires
        sha_subject(cell) == sha_subject(other),
        well_formed(cell.additional),
        well_formed(other.additional),
    ensures
        own_diagnostics(cell) == own_diagnostics(other),
{
    let ours = crate::metadata::nb_members(cell.additional);
    let theirs = crate::metadata::nb_members(other.additional);
    let subject = sha_subject(cell)->Object_0;
    let other_subject = sha_subject(other)->Object_0;
    assert(subject[0] == other_subject[0]);
    assert(subject[1] == other_subject[1]);
    assert(crate::json::without_member(Seq::<(Seq<char>, JsonModel)>::empty(), "shas"@)
        =~= Seq::empty());
    assert(crate::json::without_member(ours, "shas"@) == crate::json::without_member(
        theirs,
        "shas"@,
    ));
    reveal_strlit("diff");
    reveal_strlit("shas");
    assert("diff"@[0] != "shas"@[0]);
    crate::json::member_of_without_member(ours, "shas"@, "diff"@);
    crate::json::member_of_without_member(theirs, "shas"@, "diff"@);
    let empty = Seq::<(Seq<char>, JsonModel)>::empty();
    assert(crate::json::member(empty, "diff"@) is None);
}

} // verus!
