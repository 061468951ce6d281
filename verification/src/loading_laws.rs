//! Which notebooks are read.
use vstd::prelude::*;

use crate::format::{
    executed_in, loaded_notebook, notebook_error_text, parsed_notebook, ExecutedErrorModel,
    LoadErrorModel, ParsedNotebook,
};
use crate::notebook::NotebookModel;

verus! {

/// A notebook is loaded only in the current format, and an error names the file:
/// the same for every one in an older format; for a text that is no notebook,
/// with the cause.
pub proof fn only_current_notebooks_are_loaded(
    content: Seq<char>,
    hint: Seq<char>,
    ids: Seq<Seq<char>>,
)
    ensures
        loaded_notebook(content, hint, ids) is Ok ==> parsed_notebook(content, ids) matches Ok(
            ParsedNotebook::Current(_),
        ),
        parsed_notebook(content, ids) matches Ok(parsed) && !(parsed is Current)
            ==> loaded_notebook(content, hint, ids) == Err::<NotebookModel, LoadErrorModel>(
            LoadErrorModel::NotCurrent { hint },
        ),
        parsed_notebook(content, ids) matches Err(error) ==> loaded_notebook(content, hint, ids)
            == Err::<NotebookModel, LoadErrorModel>(
            LoadErrorModel::Parse { hint, cause: notebook_error_text(error) },
        ),
{
}

/// What a run left is read as the same text is loaded, where that is in the
/// current format.
pub proof fn executed_notebooks_are_read_alike(
    content: Seq<char>,
    hint: Seq<char>,
    ids: Seq<Seq<char>>,
    more_ids: Seq<Seq<char>>,
)
    ensures
        loaded_notebook(content, hint, ids) matches Ok(nb) ==> executed_in(content, ids, more_ids)
            == Ok::<NotebookModel, ExecutedErrorModel>(nb),
        parsed_notebook(content, ids) matches Ok(parsed) && parsed is Current && executed_in(
            content,
            ids,
            more_ids,
        ) is Ok ==> loaded_notebook(content, hint, ids) is Ok,
{
}

} // verus!
