//! What the notebooks that are made keep of their source.
use vstd::prelude::*;

use crate::edit::is_editor_notebook;
use crate::json::{member, member_of_with_member, member_of_without_member, without_member};
use crate::metadata::METADATA_KEY;
use crate::notebook::NotebookModel;
use crate::test_runner::is_test_notebook;

verus! {

/// The notebook that runs a test has the kernel, the language and all other
/// metadata of its source, but nothing under the library's own key.
pub proof fn test_notebook_keeps_the_metadata(
    made: NotebookModel,
    source: NotebookModel,
    target: int,
    key: Seq<char>,
)
    requires
        is_test_notebook(made, source, target),
    ensures
        made.standard == source.standard,
        key != METADATA_KEY@ ==> member(made.additional, key) == member(source.additional, key),
        member(made.additional, METADATA_KEY@) is None,
        made.nbformat == 4 && made.nbformat_minor == 5,
{
    member_of_without_member(source.additional, METADATA_KEY@, key);
    member_of_without_member(source.additional, METADATA_KEY@, METADATA_KEY@);
}

/// So has the notebook for the editor, but for what is kept under that key.
pub proof fn editor_notebook_keeps_the_metadata(
    editor: NotebookModel,
    source: NotebookModel,
    source_path: Seq<char>,
    key: Seq<char>,
)
    requires
        is_editor_notebook(editor, source, source_path),
        key != METADATA_KEY@,
    ensures
        editor.standard == source.standard,
        member(editor.additional, key) == member(source.additional, key),
        editor.nbformat == 4 && editor.nbformat_minor == 5,
{
    let others = without_member(source.additional, METADATA_KEY@);
    member_of_without_member(source.additional, METADATA_KEY@, key);
    member_of_with_member(
        others,
        METADATA_KEY@,
        crate::edit::editor_metadata(source, source_path),
        key,
    );
}

} // verus!
