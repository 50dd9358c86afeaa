//! The values that pass between the searches, the screen and the program.

use std::path::PathBuf;
use vstd::prelude::*;

verus! {

/// `std::path::PathBuf`, carried through and never looked into.
#[verifier::external_type_specification]
#[verifier::external_body]
pub struct ExPathBuf(PathBuf);

/// Cloning a `PathBuf` gives the same path.
pub assume_specification[ <PathBuf as Clone>::clone ](path: &PathBuf) -> (r: PathBuf)
    ensures
        r == *path,
;

/// What the picker lists.
#[derive(Debug, Clone, Copy, PartialEq, Eq)]
pub enum PickerMode {
    Files,
    History,
}

/// The order in which history entries are listed.
#[derive(Debug, Clone, Copy, PartialEq, Eq)]
pub enum HistoryDirection {
    Backward,
    Forward,
}

/// What git says of a file, reduced to what the list shows.
#[derive(Debug, Clone, Copy, PartialEq, Eq)]
pub enum GitKind {
    Clean,
    Modified,
    Added,
    Deleted,
    Renamed,
}

/// The mark of a file that was often or lately used.
#[derive(Debug, Clone, PartialEq, Eq)]
pub struct Badge {
    pub icon: &'static str,
    pub score: i32,
}

/// One file in the list.
#[derive(Debug, Clone)]
pub struct FileMatch {
    pub path: PathBuf,
    pub relative_path: String,
    pub file_name: String,
    pub git: GitKind,
    pub badge: Option<Badge>,
}

/// The list of files for a query.
#[derive(Debug, Clone)]
pub struct FileSearchView {
    pub matches: Vec<FileMatch>,
    pub total_matched: usize,
    pub loaded: usize,
    pub root_display: String,
}

/// One history entry in the list.
#[derive(Debug, Clone)]
pub struct HistoryMatch {
    pub command: String,
    pub display: String,
    pub match_ranges: Vec<(usize, usize)>,
}

/// The model of a `HistoryMatch`.
#[verifier::ext_equal]
pub struct HistoryMatchView {
    pub command: Seq<char>,
    pub display: Seq<char>,
    pub match_ranges: Seq<(usize, usize)>,
}

impl View for HistoryMatch {
    type V = HistoryMatchView;

    open spec fn view(&self) -> HistoryMatchView {
        HistoryMatchView {
            command: self.command@,
            display: self.display@,
            match_ranges: self.match_ranges@,
        }
    }
}

/// The list of history entries for a query.
#[derive(Debug, Clone)]
pub struct HistorySearchView {
    pub matches: Vec<HistoryMatch>,
    pub total_matched: usize,
}

impl View for HistorySearchView {
    type V = Seq<HistoryMatchView>;

    open spec fn view(&self) -> Seq<HistoryMatchView> {
        self.matches@.map_values(|m: HistoryMatch| m@)
    }
}

/// How a grep pattern is read.
#[derive(Debug, Clone, Copy, PartialEq, Eq)]
pub enum GrepCliMode {
    PlainText,
    Regex,
    Fuzzy,
}

/// What a grep run is asked to do.
#[derive(Debug, Clone)]
pub struct GrepCliOptions {
    pub base_path: PathBuf,
    pub query: String,
    pub mode: GrepCliMode,
    pub smart_case: bool,
    pub before_context: usize,
    pub after_context: usize,
    pub max_file_size: u64,
    pub max_matches_per_file: usize,
    pub page_limit: usize,
}

/// One matching line of a grep run.
#[derive(Debug, Clone, PartialEq, Eq)]
pub struct GrepCliMatch {
    pub path: String,
    pub line_number: u64,
    pub col: usize,
    pub line_content: String,
    pub match_ranges: Vec<(usize, usize)>,
    pub context_before: Vec<String>,
    pub context_after: Vec<String>,
}

/// The outcome of a grep run.
#[derive(Debug, Clone)]
pub struct GrepCliResult {
    pub matches: Vec<GrepCliMatch>,
    pub total_files: usize,
    pub total_files_searched: usize,
    pub files_with_matches: usize,
}

} // verus!
