//! The texts that guide through the repair of a notebook.
use vstd::prelude::*;

verus! {

/// What is said where no diff is needed.
pub const NO_DIFF_NEEDED: &'static str =
    "The patched source is identical to the current cell source. No diff needed.\nYou can omit the `diff` field in `nota-bene update`.";

/// What stands for the result of a cell without a test.
pub const NO_TEST_RESULT: &'static str =
    "No test defined for this cell.";

/// The first part of the rule about testing and accepting.
pub const WORKFLOW_TEST: &'static str =
    "> **Workflow**: After making changes with `nota-bene update`, always run the tests to verify the cell works correctly before accepting:\n> ```bash\n";

/// The second part of the rule about testing and accepting.
pub const WORKFLOW_ACCEPT: &'static str =
    "> Only call `accept` once the tests pass and you are satisfied the cell is fully ready. `accept` stamps the SHA snapshot — after this, the cell will no longer be flagged. The accept command is:\n> ```bash\n";

/// What to do after a cell is repaired.
pub const NEXT_CELL: &'static str =
    "Then call `repair_nota_bene` again to continue to the next cell.\n";

/// Where filters are explained.
pub const FILTER_HELP: &'static str =
    "\nFor full filter syntax used in the commands above, run: `nota-bene docs filters`\n";

/// Why a cell with metadata counts as missing.
pub const NEVER_ACCEPTED: &'static str =
    "This cell has nota-bene metadata but has never been accepted. The `shas` field is empty, so it will always appear as `missing` until accepted.\n\n";

/// What to do if the test of such a cell passes.
pub const ACCEPT_NOW: &'static str =
    "The test passes. Accept the cell to stamp it as valid:\n\n";

/// What to do if the test of such a cell fails.
pub const FIX_AND_ACCEPT: &'static str =
    "The test is failing. Fix the metadata, re-run the test, then accept:\n\n";

/// What is said of a cell with incomplete metadata.
pub const SOME_METADATA: &'static str =
    "This cell has some nota-bene metadata but is missing:\n";

/// What is said where fixtures are missing.
pub const LACKS_FIXTURES: &'static str =
    "- `fixtures` (if external resources or side effects are involved)\n";

/// What is said where a diff is missing.
pub const LACKS_DIFF: &'static str =
    "- `diff` (if the cell source needs patching to use fixtures)\n";

/// What is said where a test is missing.
pub const LACKS_TEST: &'static str =
    "- `test` — **required**\n";

/// What is said of a cell without metadata.
pub const NO_METADATA: &'static str =
    "This cell has no nota-bene metadata at all.\n\n";

/// How to create metadata, in short.
pub const CREATE_BRIEF: &'static str =
    "Create the missing fields. Fixtures are needed only if the cell has external resources or side effects. A diff is needed only to reroute the cell to use fixtures.\n\n";

/// How to get the full instructions for missing metadata.
pub const MISSING_HELP: &'static str =
    "Call with `detail_level: {\"missing\": \"detailed\"}` for full instructions.\n\n";

/// What the metadata is for.
pub const ABOUT_METADATA: &'static str =
    "nota-bene attaches test infrastructure to each cell so that hundreds of parallel kernels can quickly recreate the notebook state up to any cell and run isolated tests.\n\n";

/// What fixtures are for.
pub const ABOUT_FIXTURES: &'static str =
    "Fixtures create deterministic mock data and controlled side effects that replace real resources (files, databases, APIs). They must be lightweight (KB not GB) so test kernels spin up fast.\n\nA fixture is NOT needed if:\n- The cell's data was already initialized by a previous cell\n- The cell has no external side effects or resource dependencies\n\nEach fixture has a name (the key), and an object with:\n- `description`: What this fixture sets up and why\n- `priority`: Integer (lower runs first)\n- `source`: Python code that creates the mock data/resources\n\n";

/// What a diff is for.
pub const ABOUT_DIFF: &'static str =
    "A minimal patch that reroutes the cell to use fixtures instead of real resources. For example, replacing a CSV file path with a temp file created by the fixture. The diff should change as little as possible — the goal is to test the user's actual code, not rewritten code. A diff is NOT needed if the cell doesn't reference any external resources that fixtures replace.\n\nDo NOT write a unified diff by hand. Instead:\n1. Produce the full patched cell source with your intended changes\n2. Call `generate_diff` with that patched source to get the correct diff\n3. Use the returned diff string in `nota-bene update`\n\n";

/// What a test is for.
pub const ABOUT_TEST: &'static str =
    "Python code with subtests that verify the cell behaves correctly. Use `nota_bene.subtest(\"name\")` as a context manager to define each subtest. Each subtest should cover a specific condition or edge case the cell handles.\n\n";

/// Which fields can be left out.
pub const OMIT_FIELDS: &'static str =
    "\nIf no fixtures or diff are needed, omit those fields entirely and only provide the test.\n\nThen run the test to confirm it passes:\n\n";

/// How to review a cell whose test passes, in short.
pub const REVIEW_PASSING_BRIEF: &'static str =
    "Test passes. If the metadata still looks correct for the current source, accept. If you make any changes, re-run the test before accepting.\n\n";

/// How to review a cell whose test fails, in short.
pub const REVIEW_FAILING_BRIEF: &'static str =
    "Test failing. Update fixtures/diff/test, re-run the test, then accept once passing.\n\n";

/// How to get the full instructions for a review.
pub const REVIEW_HELP: &'static str =
    "Call with `detail_level: {\"needs_review\": \"detailed\"}` for full instructions.\n\n";

/// What a review is about.
pub const ABOUT_REVIEW: &'static str =
    "The cell source or metadata has changed since the last accept. Review whether the existing fixtures, diff, and test still make sense for the current cell source.\n\nRemember:\n- Fixtures provide deterministic mock data (KB not GB)\n- The diff should be minimal — only reroute to use fixtures\n- Tests should cover the specific behaviors of THIS cell\n\n";

/// How to review a cell whose test passes.
pub const REVIEW_PASSING: &'static str =
    "The test still passes. If the metadata looks correct for the current source, accept the cell:\n\n";

/// How to update a cell whose test passes.
pub const REVIEW_UPDATE: &'static str =
    "If you need to update the metadata first, make your changes, then re-run the test to confirm it still passes before accepting:\n\n";

/// How to review a cell whose test fails.
pub const REVIEW_FAILING: &'static str =
    "The test is failing. Update the metadata as needed, re-run the test to confirm it passes, then accept:\n\n";

/// What to do about changed ancestors if the test passes, in short.
pub const ANCESTOR_PASSING_BRIEF: &'static str =
    "Test passes. If the ancestor changes don't affect this cell, accept. If you make any changes, re-run the test before accepting.\n\n";

/// What to do about changed ancestors if the test fails, in short.
pub const ANCESTOR_FAILING_BRIEF: &'static str =
    "Test failing. Update metadata to account for upstream changes, re-run the test, then accept once passing.\n\n";

/// How to get the full instructions for changed ancestors.
pub const ANCESTOR_HELP: &'static str =
    "Call with `detail_level: {\"ancestor_modified\": \"detailed\"}` for full instructions.\n\n";

/// What changed ancestors mean.
pub const ABOUT_ANCESTORS: &'static str =
    "Preceding cells have changed, which may affect this cell's execution context. The fixtures and diff may need updating if the upstream data shape or control flow changed.\n\n";

/// What to do about changed ancestors if the test passes.
pub const ANCESTOR_PASSING: &'static str =
    "The test still passes despite ancestor changes. If the upstream changes don't affect this cell's behavior, accept it:\n\n";

/// How to update a cell after its ancestors changed.
pub const ANCESTOR_UPDATE: &'static str =
    "If you need to update the metadata to account for upstream changes, do so, then re-run the test to confirm it passes before accepting:\n\n";

/// What to do about changed ancestors if the test fails.
pub const ANCESTOR_FAILING: &'static str =
    "The test is failing, likely due to changes in preceding cells. Update the fixtures or test to account for the new upstream state, re-run the test to confirm it passes, then accept:\n\n";

/// How to mend a diff, in short.
pub const CONFLICT_BRIEF: &'static str =
    "Produce the patched cell source with your intended changes, call `generate_diff` to get the correct diff, then update. Or remove the diff if no longer needed.\n\n";

/// How to mend a diff.
pub const ABOUT_CONFLICT: &'static str =
    "The cell source has changed and the stored diff can no longer be applied. The diff's only purpose is to reroute code to use fixture-provided resources (e.g., swap a file path, redirect an API call to a mock). It should change as little as possible.\n\nDo NOT write a unified diff by hand. Instead:\n1. Produce the full patched cell source with your intended changes\n2. Call `generate_diff` to compute the correct unified diff\n3. Pass the returned diff string to `nota-bene update`\n\nOr set `diff` to null if a diff is no longer needed.\n\n";

/// How to get the full instructions for a diff that does not apply.
pub const CONFLICT_HELP: &'static str =
    "Call with `detail_level: {\"diff_conflict\": \"detailed\"}` for full instructions.\n\n";

/// How the fields of the metadata are formed.
pub const ABOUT_FIELDS: &'static str =
    "One or more nota-bene metadata fields have validation errors. Fix the invalid fields using the update command.\n\nValid field formats:\n- `fixtures`: object keyed by name, each with `description` (string), `priority` (integer), `source` (string)\n- `diff`: string (unified diff) or null\n- `test`: object with `name` (string) and `source` (string), or null\n\n";

/// How to get the full instructions for invalid fields.
pub const FIELD_HELP: &'static str =
    "Call with `detail_level: {\"invalid_field\": \"detailed\"}` for format reference.\n\n";

} // verus!
