use fff_tui::grep::{can_print, context_count, count_paths, MAX_FILE_SIZE};
use fff_tui::{
    format_grep_context, format_grep_match, grep_cli_mode, grep_cli_result, grep_options,
    grep_report, grep_search_settings, search_root, GrepCliMatch, GrepCliMode,
    GrepCliOptions, GrepFile, GrepHit, GrepSettings, MissingParent,
};
use std::path::PathBuf;

fn strings(items: &[&str]) -> Vec<String> {
    items.iter().map(|item| item.to_string()).collect()
}

fn found(path: &str, line_number: u64, line: &str) -> GrepCliMatch {
    GrepCliMatch {
        path: path.to_string(),
        line_number,
        col: 0,
        line_content: line.to_string(),
        match_ranges: vec![(0, 1)],
        context_before: Vec::new(),
        context_after: Vec::new(),
    }
}

fn hit(file_index: usize, line_number: u64) -> GrepHit {
    GrepHit {
        file_index,
        line_number,
        col: 2,
        line_content: format!("line {}", line_number),
        match_byte_offsets: vec![(0, 4), (5, u32::MAX)],
        context_before: strings(&["above"]),
        context_after: strings(&["below", "further"]),
    }
}

fn files(list: &[(&str, bool)]) -> Vec<GrepFile> {
    list.iter()
        .map(|(path, is_target)| GrepFile {
            relative_path: path.to_string(),
            is_target: *is_target,
        })
        .collect()
}

#[test]
fn grep_mode_prefers_fuzzy_over_fixed_strings() {
    assert_eq!(grep_cli_mode(false, false), GrepCliMode::Regex);
    assert_eq!(grep_cli_mode(true, false), GrepCliMode::PlainText);
    assert_eq!(grep_cli_mode(true, true), GrepCliMode::Fuzzy);
}

#[test]
fn formats_grep_output_like_rg() {
    assert_eq!(
        format_grep_match("src/main.rs", 42, 4, "let value = 1;"),
        "src/main.rs:42:5:let value = 1;"
    );
    assert_eq!(
        format_grep_context("src/main.rs", 41, "fn main() {"),
        "src/main.rs-41-fn main() {"
    );
}

#[test]
fn numbers_are_printed_in_full() {
    assert_eq!(
        format_grep_match("", u64::MAX, usize::MAX - 1, ""),
        format!(":{}:{}:", u64::MAX, usize::MAX)
    );
    assert_eq!(format_grep_context("a", 0, ""), "a-0-");
}

#[test]
fn context_of_one_side_comes_first() {
    assert_eq!(context_count(Some(3), Some(5)), 3);
    assert_eq!(context_count(None, Some(5)), 5);
    assert_eq!(context_count(Some(0), Some(5)), 0);
    assert_eq!(context_count(None, None), 0);
}

#[test]
fn arguments_make_options() {
    let options = grep_options(
        "pattern".to_string(),
        PathBuf::from("dir"),
        true,
        false,
        Some(2),
        None,
        Some(7),
        11,
        13,
        true,
    );
    assert_eq!(options.query, "pattern");
    assert_eq!(options.base_path, PathBuf::from("dir"));
    assert_eq!(options.mode, GrepCliMode::PlainText);
    assert_eq!((options.before_context, options.after_context), (2, 7));
    assert_eq!((options.max_matches_per_file, options.page_limit), (11, 13));
    assert_eq!(options.max_file_size, MAX_FILE_SIZE);
    assert_eq!(MAX_FILE_SIZE, 10 * 1024 * 1024);
    assert!(options.smart_case);
}

#[test]
fn a_search_begins_with_the_first_file_and_takes_its_time() {
    let options = GrepCliOptions {
        base_path: PathBuf::from("dir"),
        query: "pattern".to_string(),
        mode: GrepCliMode::Fuzzy,
        smart_case: true,
        before_context: 1,
        after_context: 2,
        max_file_size: 3,
        max_matches_per_file: 4,
        page_limit: 5,
    };
    assert_eq!(
        grep_search_settings(&options),
        GrepSettings {
            max_file_size: 3,
            max_matches_per_file: 4,
            smart_case: true,
            file_offset: 0,
            page_limit: 5,
            mode: GrepCliMode::Fuzzy,
            time_budget_ms: 0,
            before_context: 1,
            after_context: 2,
            classify_definitions: false,
            trim_whitespace: false,
        }
    );
}

#[test]
fn one_file_that_was_asked_for_has_one_path() {
    let file = |path: &str, is_target: bool| GrepFile { relative_path: path.to_string(), is_target };
    let files = vec![file("a", false), file("b", true), file("c", false)];
    let hits = vec![hit(0, 1), hit(1, 2), hit(2, 3), hit(1, 4)];
    let result = grep_cli_result(hits, &files, true, 3, 3);
    assert_eq!(result.matches.iter().map(|m| m.path.as_str()).collect::<Vec<_>>(), vec!["b", "b"]);
    assert_eq!(result.files_with_matches, 1);
    let none = grep_cli_result(vec![hit(0, 1)], &files, true, 3, 3);
    assert!(none.matches.is_empty());
    assert_eq!(none.files_with_matches, 0);
}

#[test]
fn a_file_is_searched_in_its_directory() {
    let path = || PathBuf::from("/a/b");
    let parent = || Some(PathBuf::from("/a"));
    assert_eq!(search_root(path(), false, parent()), Ok((path(), None)));
    assert_eq!(
        search_root(path(), true, parent()),
        Ok((PathBuf::from("/a"), Some(path())))
    );
    assert_eq!(search_root(path(), true, None), Err(MissingParent));
}

#[test]
fn every_match_is_reported_without_a_target() {
    let list = files(&[("a", false), ("b", true)]);
    let result = grep_cli_result(vec![hit(1, 4), hit(0, 9), hit(1, 6)], &list, false, 8, 5);
    assert_eq!((result.total_files, result.total_files_searched), (8, 5));
    assert_eq!(result.files_with_matches, 2);
    let seen: Vec<(&str, u64)> =
        result.matches.iter().map(|m| (m.path.as_str(), m.line_number)).collect();
    assert_eq!(seen, vec![("b", 4), ("a", 9), ("b", 6)]);
    assert_eq!(result.matches[0].line_content, "line 4");
    assert_eq!(result.matches[0].col, 2);
    assert_eq!(result.matches[0].match_ranges, vec![(0, 4), (5, u32::MAX as usize)]);
    assert_eq!(result.matches[0].context_before, strings(&["above"]));
    assert_eq!(result.matches[0].context_after, strings(&["below", "further"]));
}

#[test]
fn only_matches_in_the_target_are_reported() {
    let list = files(&[("a", false), ("b", true)]);
    let result = grep_cli_result(vec![hit(1, 4), hit(0, 9), hit(1, 6)], &list, true, 8, 5);
    let seen: Vec<(&str, u64)> =
        result.matches.iter().map(|m| (m.path.as_str(), m.line_number)).collect();
    assert_eq!(seen, vec![("b", 4), ("b", 6)]);
    assert_eq!(result.files_with_matches, 1);
    assert!(grep_cli_result(vec![hit(0, 1)], &list, true, 1, 1).matches.is_empty());
}

#[test]
fn files_are_counted_once() {
    let matches = vec![found("a", 1, "x"), found("b", 1, "x"), found("a", 2, "x")];
    assert_eq!(count_paths(&matches), 2);
    assert_eq!(count_paths(&Vec::new()), 0);
}

#[test]
fn matches_stand_under_their_file() {
    let matches = vec![found("a", 3, "one"), found("a", 5, "two"), found("b", 1, "three")];
    assert_eq!(
        grep_report(&matches, false),
        "a\na:3:1:one\na:5:1:two\n\nb\nb:1:1:three\n"
    );
    assert_eq!(grep_report(&Vec::new(), true), "");
}

#[test]
fn a_file_that_comes_back_has_a_heading_again() {
    let matches = vec![found("a", 3, "x"), found("b", 5, "y"), found("a", 1, "z")];
    assert_eq!(
        grep_report(&matches, false),
        "a\na:3:1:x\n\nb\nb:5:1:y\n\na\na:1:1:z\n"
    );
}

#[test]
fn context_is_numbered_around_the_match() {
    let mut item = found("a", 10, "hit");
    item.col = 6;
    item.context_before = strings(&["eight", "nine"]);
    item.context_after = strings(&["eleven", "twelve"]);
    assert_eq!(
        grep_report(&vec![item], false),
        "a\na-8-eight\na-9-nine\na:10:7:hit\na-11-eleven\na-12-twelve\n"
    );
}

#[test]
fn context_before_the_first_line_is_numbered_from_zero() {
    let mut item = found("a", 1, "hit");
    item.context_before = strings(&["x", "y", "z"]);
    assert_eq!(grep_report(&vec![item], false), "a\na-0-x\na-1-y\na-2-z\na:1:1:hit\n");
}

#[test]
fn colors_mark_paths_numbers_and_matches() {
    let mut item = found("a", 2, "hit");
    item.context_before = strings(&["up"]);
    item.context_after = strings(&["down"]);
    assert_eq!(
        grep_report(&vec![item], true),
        "\x1b[32m\x1b[1ma\x1b[0m\n\
         \x1b[33m1-\x1b[0m\x1b[38;5;244mup\x1b[0m\n\
         \x1b[33m\x1b[1m2\x1b[0m:\x1b[30m\x1b[48;5;228mh\x1b[0mit\n\
         \x1b[33m3-\x1b[0m\x1b[38;5;244mdown\x1b[0m\n"
    );
}

#[test]
fn numbers_that_run_out_cannot_be_printed() {
    let mut item = found("a", u64::MAX, "hit");
    assert!(can_print(&vec![item.clone()], false));
    item.context_after = strings(&["x"]);
    assert!(!can_print(&vec![item.clone()], true));
    item.context_after = Vec::new();
    item.col = usize::MAX;
    assert!(!can_print(&vec![item.clone()], false));
    assert!(can_print(&vec![item], true));
}
