use fff_tui::layout::subsequence_indices;
use fff_tui::{fuzzy_match_indices, truncate, truncate_path};

#[test]
fn fuzzy_indices_follow_subsequence_order() {
    let indices = fuzzy_match_indices("ci/filter.nix", "cfilt");
    assert_eq!(indices, vec![0, 3, 4, 5, 6]);
}

#[test]
fn fuzzy_indices_fail_when_query_is_not_subsequence() {
    assert!(fuzzy_match_indices("abc", "az").is_empty());
}

#[test]
fn fuzzy_indices_ignore_case() {
    assert_eq!(fuzzy_match_indices("README.md", "rd"), vec![0, 3]);
    assert_eq!(fuzzy_match_indices("readme", "RM"), vec![0, 4]);
    assert_eq!(fuzzy_match_indices("ÉTÉ", "éé"), vec![0, 2]);
    assert!(subsequence_indices("README.md", "rd").is_empty());
}

#[test]
fn fuzzy_indices_of_an_empty_query_are_none() {
    assert!(fuzzy_match_indices("abc", "").is_empty());
    assert!(fuzzy_match_indices("", "a").is_empty());
    assert!(subsequence_indices("abc", "").is_empty());
}

#[test]
fn fuzzy_indices_lie_as_far_left_as_they_can() {
    assert_eq!(subsequence_indices("abab", "ab"), vec![0, 1]);
    assert_eq!(subsequence_indices("aabb", "ab"), vec![0, 2]);
    assert_eq!(subsequence_indices("abc", "abc"), vec![0, 1, 2]);
    assert!(subsequence_indices("abc", "abcd").is_empty());
    assert!(subsequence_indices("ba", "ab").is_empty());
}

#[test]
fn truncates_long_base_without_dir() {
    let (dir, base) = truncate_path("foo/", "very-long-file-name.rs", 8);
    assert_eq!(dir, "");
    assert_eq!(base, "very-...");
}

#[test]
fn a_directory_makes_room_for_the_name() {
    assert_eq!(
        truncate_path("some/directory/", "main.rs", 14),
        ("some...".to_string(), "main.rs".to_string())
    );
    assert_eq!(
        truncate_path("src/", "main.rs", 11),
        ("src/".to_string(), "main.rs".to_string())
    );
    assert_eq!(
        truncate_path("src/", "main.rs", 10),
        ("src".to_string(), "main.rs".to_string())
    );
    assert_eq!(
        truncate_path("src/", "main.rs", 7),
        (String::new(), "main.rs".to_string())
    );
}

#[test]
fn path_lengths_are_counted_in_bytes() {
    assert_eq!(
        truncate_path("éé/", "a", 5),
        ("éé/".to_string(), "a".to_string())
    );
    assert_eq!(
        truncate_path("ééééé/", "a", 5),
        ("é...".to_string(), "a".to_string())
    );
    assert_eq!(
        truncate_path("", "ééé", 4),
        (String::new(), "ééé".to_string())
    );
}

#[test]
fn a_cut_path_is_no_wider_than_asked_for() {
    for width in 0..30 {
        let (dir, base) = truncate_path("crates/é/src/", "lib_名前.rs", width);
        assert!(dir.chars().count() + base.chars().count() <= width);
    }
}

#[test]
fn truncate_marks_the_cut_where_there_is_room() {
    assert_eq!(truncate("abcdef", 6), "abcdef");
    assert_eq!(truncate("abcdef", 5), "ab...");
    assert_eq!(truncate("abcdef", 4), "a...");
    assert_eq!(truncate("abcdef", 3), "abc");
    assert_eq!(truncate("abcdef", 1), "a");
    assert_eq!(truncate("abcdef", 0), "");
    assert_eq!(truncate("", 0), "");
    assert_eq!(truncate("éééééé", 5), "éé...");
}

#[test]
fn truncating_twice_changes_nothing() {
    let once = truncate("a long line of text", 9);
    assert_eq!(once, "a long...");
    assert_eq!(once.chars().count(), 9);
    assert_eq!(truncate(&once, 9), once);
}
