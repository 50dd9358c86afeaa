use fff_tui::ansi::visible_width;
use fff_tui::{file_line, history_line, Badge, FileMatch, GitKind, HistoryMatch};

fn file(path: &str, git: GitKind, badge: Option<Badge>) -> FileMatch {
    FileMatch {
        path: format!("/root/{}", path).into(),
        relative_path: path.to_string(),
        file_name: path.to_string(),
        git,
        badge,
    }
}

fn entry(display: &str, match_ranges: Vec<(usize, usize)>) -> HistoryMatch {
    HistoryMatch { command: display.to_string(), display: display.to_string(), match_ranges }
}

#[test]
fn a_file_row_shows_mark_path_and_badge() {
    let item = file("src/main.rs", GitKind::Modified, Some(Badge { icon: "✨", score: 4 }));
    assert_eq!(
        file_line(&item, "", false, 40),
        "  \x1b[33mM\x1b[0m \x1b[38;5;244msrc/\x1b[0m\x1b[1mmain.rs\x1b[0m \x1b[33m✨4\x1b[0m"
    );
}

#[test]
fn a_file_row_marks_what_the_query_matches() {
    let item = file("src/a.rs", GitKind::Clean, None);
    assert_eq!(
        file_line(&item, "sA", false, 40),
        "  \x1b[38;5;244m·\x1b[0m \x1b[38;5;244m\x1b[1m\x1b[36ms\x1b[0m\x1b[38;5;244mrc/\x1b[0m\x1b[1m\x1b[1m\x1b[36ma\x1b[0m\x1b[1m.rs\x1b[0m"
    );
}

#[test]
fn the_selected_file_row_carries_its_style() {
    let item = file("b", GitKind::Deleted, None);
    assert_eq!(
        file_line(&item, "b", true, 40),
        "\x1b[48;5;238m\x1b[38;5;230m\x1b[48;5;238m\x1b[38;5;111m> \x1b[31mD \x1b[1m\x1b[48;5;238m\x1b[38;5;111m\x1b[1mb\x1b[1m\x1b[0m"
    );
}

#[test]
fn a_file_row_is_cut_to_its_width() {
    let item = file(
        "a/very/long/directory/name.rs",
        GitKind::Added,
        Some(Badge { icon: "•", score: 1 }),
    );
    for width in 7..50 {
        for selected in [false, true] {
            assert!(visible_width(&file_line(&item, "nam", selected, width)) <= width);
        }
    }
    assert_eq!(
        file_line(&item, "", false, 17),
        "  \x1b[36mA\x1b[0m \x1b[38;5;244ma/v\x1b[0m\x1b[1mname.rs\x1b[0m \x1b[33m•1\x1b[0m"
    );
    assert_eq!(
        file_line(&item, "", false, 0),
        "  \x1b[36mA\x1b[0m \x1b[1m\x1b[0m \x1b[33m•1\x1b[0m"
    );
}

#[test]
fn the_last_slash_ends_the_directory() {
    let item = file("a/b/", GitKind::Clean, None);
    assert_eq!(
        file_line(&item, "", false, 20),
        "  \x1b[38;5;244m·\x1b[0m \x1b[38;5;244ma/b/\x1b[0m\x1b[1m\x1b[0m"
    );
}

#[test]
fn a_history_row_shows_the_command() {
    let item = entry("git log", vec![(0, 1), (4, 5)]);
    assert_eq!(
        history_line(&item, false, 40),
        "  \x1b[1m\x1b[36mg\x1b[0mit \x1b[1m\x1b[36ml\x1b[0mog\x1b[0m"
    );
    assert_eq!(
        history_line(&entry("ls", vec![]), true, 40),
        "\x1b[48;5;238m\x1b[38;5;230m\x1b[48;5;238m\x1b[38;5;111m> ls\x1b[0m"
    );
}

#[test]
fn a_history_row_is_cut_to_its_width() {
    let item = entry("git commit --amend", vec![(0, 1), (17, 18)]);
    assert_eq!(
        history_line(&item, false, 10),
        "  \x1b[1m\x1b[36mg\x1b[0mit c...\x1b[0m"
    );
    for width in 2..30 {
        for selected in [false, true] {
            assert!(visible_width(&history_line(&item, selected, width)) <= width);
        }
    }
    assert_eq!(history_line(&item, false, 1), "  \x1b[0m");
}
