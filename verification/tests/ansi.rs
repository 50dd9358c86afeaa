use fff_tui::ansi::{
    apply_indices_highlight, apply_match_ranges, badge_text, git_icon, highlight_grep_ranges,
    visible_width, BOLD, GRAY,
};
use fff_tui::{Badge, FileMatch, GitKind};

fn file(badge: Option<Badge>) -> FileMatch {
    FileMatch {
        path: "/r/a".into(),
        relative_path: "a".to_string(),
        file_name: "a".to_string(),
        git: GitKind::Clean,
        badge,
    }
}

#[test]
fn control_sequences_have_no_width() {
    assert_eq!(visible_width(""), 0);
    assert_eq!(visible_width("abc"), 3);
    assert_eq!(visible_width("\x1b[1mabc\x1b[0m"), 3);
    assert_eq!(visible_width("\x1b[48;5;238m\x1b[38;5;230m> "), 2);
    assert_eq!(visible_width("é🪿"), 2);
}

#[test]
fn broken_control_sequences_are_passed_over() {
    assert_eq!(visible_width("\x1b"), 0);
    assert_eq!(visible_width("a\x1bb"), 2);
    assert_eq!(visible_width("\x1b["), 0);
    assert_eq!(visible_width("\x1b[12;3"), 0);
    assert_eq!(visible_width("\x1b\x1b[1mx"), 1);
    assert_eq!(visible_width("\x1b[?25lx"), 1);
}

#[test]
fn places_are_marked() {
    assert_eq!(
        apply_indices_highlight("abc", &vec![1], false, GRAY),
        "\x1b[38;5;244ma\x1b[1m\x1b[36mb\x1b[0m\x1b[38;5;244mc\x1b[0m"
    );
    assert_eq!(
        apply_indices_highlight("abc", &vec![0, 2], true, BOLD),
        "\x1b[1m\x1b[48;5;238m\x1b[38;5;111m\x1b[1ma\x1b[1mb\x1b[48;5;238m\x1b[38;5;111m\x1b[1mc\x1b[1m"
    );
}

#[test]
fn without_places_the_base_style_is_all() {
    assert_eq!(apply_indices_highlight("abc", &vec![], false, BOLD), "\x1b[1mabc\x1b[0m");
    assert_eq!(apply_indices_highlight("abc", &vec![], true, BOLD), "\x1b[1mabc");
    assert_eq!(apply_indices_highlight("abc", &vec![17], false, ""), "abc\x1b[0m");
}

#[test]
fn ranges_are_marked() {
    assert_eq!(
        apply_match_ranges("abcd", &vec![(1, 3)], false, ""),
        "a\x1b[1m\x1b[36mb\x1b[0m\x1b[1m\x1b[36mc\x1b[0md\x1b[0m"
    );
    assert_eq!(apply_match_ranges("ab", &vec![(1, 1), (2, 1)], true, ""), "ab");
    assert_eq!(
        apply_match_ranges("ab", &vec![(1, usize::MAX)], true, ""),
        "a\x1b[48;5;238m\x1b[38;5;111m\x1b[1mb"
    );
}

#[test]
fn marking_leaves_the_width_as_it_is() {
    let marked = apply_indices_highlight("src/main.rs", &vec![0, 4, 9], false, GRAY);
    assert_eq!(visible_width(&marked), 11);
    let marked = apply_match_ranges("src/main.rs", &vec![(2, 6)], true, "");
    assert_eq!(visible_width(&marked), 11);
    let marked = highlight_grep_ranges("let é = 1;", &vec![(4, 5)], true);
    assert_eq!(visible_width(&marked), 10);
}

#[test]
fn byte_ranges_mark_whole_characters() {
    assert_eq!(
        highlight_grep_ranges("aéb", &vec![(2, 3)], true),
        "a\x1b[30m\x1b[48;5;228mé\x1b[0mb"
    );
    assert_eq!(
        highlight_grep_ranges("aéb", &vec![(0, 1), (3, 4)], true),
        "\x1b[30m\x1b[48;5;228ma\x1b[0mé\x1b[30m\x1b[48;5;228mb\x1b[0m"
    );
    assert_eq!(highlight_grep_ranges("abc", &vec![(1, 1)], true), "abc");
    assert_eq!(highlight_grep_ranges("abc", &vec![(0, 3)], false), "abc");
    assert_eq!(highlight_grep_ranges("abc", &vec![], true), "abc");
}

#[test]
fn git_marks_have_colors() {
    assert_eq!(git_icon(GitKind::Modified, false), "\x1b[33mM\x1b[0m");
    assert_eq!(git_icon(GitKind::Added, false), "\x1b[36mA\x1b[0m");
    assert_eq!(git_icon(GitKind::Deleted, false), "\x1b[31mD\x1b[0m");
    assert_eq!(git_icon(GitKind::Renamed, true), "\x1b[35mR");
    assert_eq!(git_icon(GitKind::Clean, true), "\x1b[38;5;244m·");
}

#[test]
fn badges_show_icon_and_score() {
    let flame = file(Some(Badge { icon: "🔥", score: 12 }));
    assert_eq!(badge_text(&flame, false), "\x1b[31m🔥12\x1b[0m");
    assert_eq!(badge_text(&flame, true), "\x1b[48;5;238m\x1b[38;5;111m🔥12");
    let star = file(Some(Badge { icon: "⭐", score: -3 }));
    assert_eq!(badge_text(&star, false), "\x1b[33m⭐-3\x1b[0m");
    let least = file(Some(Badge { icon: "•", score: i32::MIN }));
    assert_eq!(badge_text(&least, false), "\x1b[33m•-2147483648\x1b[0m");
    assert_eq!(badge_text(&file(None), false), "");
}
