//! Test metadata for Jupyter notebooks.

pub mod applying_laws;
pub mod cells;
pub mod commands;
pub mod commands_laws;
pub mod diagnostic_cache;
pub mod diagnostics;
pub mod diff_laws;
pub mod diff_utils;
pub mod edit;
pub mod editor_laws;
pub mod filter;
pub mod filter_laws;
pub mod fixtures;
pub mod form_laws;
pub mod format;
pub mod frame_laws;
pub mod json;
pub mod json_path;
pub mod layout_laws;
pub mod loading_laws;
pub mod lsp;
pub mod metadata;
pub mod metadata_laws;
pub mod notebook;
pub mod notebook_json;
pub mod notebook_laws;
pub mod outcome_laws;
pub mod placement_laws;
pub mod reading_laws;
pub mod repair;
pub mod repair_texts;
pub mod report_laws;
pub mod round_trip_laws;
pub mod runner_laws;
pub mod save;
pub mod save_laws;
pub mod sha_laws;
pub mod shas;
pub mod staleness_laws;
pub mod test_runner;
pub mod text;
pub mod text_laws;
pub mod unified_diff;
pub mod update;
pub mod update_laws;
pub mod updating_laws;
pub mod view;
pub mod view_laws;
