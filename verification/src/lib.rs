//! The verified core of a terminal file finder, shell-history picker and grep front end.
//!
//! Everything that decides, computes or lays out text stands here with a contract.
//! The program around it reads the terminal, the file system and the environment,
//! hands plain values in, and writes the strings that come back.

pub mod ansi;
pub mod files;
pub mod grep;
pub mod history;
pub mod history_engine;
pub mod history_search;
pub mod layout;
pub mod lines;
pub mod order;
pub mod paths;
pub mod picker;
pub mod query;
pub mod render;
pub mod screen;
pub mod selection;
pub mod text;
pub mod types;

pub use files::{
    file_search_options, file_search_view, frecency_badge, frecency_db_name, git_kind,
    history_db_name, project_key, FileHit, FileSearchOptions, GitStatus,
};
pub use grep::{
    format_grep_context, format_grep_match, grep_cli_mode, grep_cli_result, grep_options,
    grep_report, grep_search_settings, search_root, GrepFile, GrepHit, GrepSettings, MissingParent,
};
pub use history::{
    dedupe_history_entries, load_history_commands, parse_history_content, parse_history_direction,
    read_history_fallback, sanitize_history_display,
};
pub use history_engine::HistorySearchEngine;
pub use layout::{fuzzy_match_indices, truncate, truncate_path};
pub use lines::{file_line, history_line};
pub use paths::{cache_dir, runtime_dir};
pub use picker::{Action, KeyInput, KeyPress, Picker, SearchResults, UiEvent};
pub use query::{file_query, grep_query};
pub use render::{can_render, cleanup, render, RenderError, TerminalUi};
pub use selection::{
    clamp_selected, ensure_selection_visible, move_selection_down, move_selection_up,
    selected_label,
};
pub use types::{
    Badge, FileMatch, FileSearchView, GitKind, GrepCliMatch, GrepCliMode, GrepCliOptions,
    GrepCliResult, HistoryDirection, HistoryMatch, HistorySearchView, PickerMode,
};
