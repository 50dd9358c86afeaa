use fff_tui::history_engine::{can_search, list_matches, MAX_HISTORY_MATCHES};
use fff_tui::history_search::{
    can_ask_for, combine_matches, fuzzy_parts, has_uppercase, history_fuzzy_config,
    history_fuzzy_matches, max_typos, rank_matches, read_hits, try_history_fuzzy_matches, FuzzyHit,
    HistoryFuzzyMatch,
};
use fff_tui::order::sort;
use fff_tui::query::QueryText;
use fff_tui::HistorySearchEngine;

fn strings(items: &[&str]) -> Vec<String> {
    items.iter().map(|item| item.to_string()).collect()
}

fn engine(items: &[&str]) -> HistorySearchEngine {
    HistorySearchEngine::new(strings(items)).unwrap()
}

fn entry(index: usize, score: u16, indices: &[usize]) -> HistoryFuzzyMatch {
    HistoryFuzzyMatch { index, score, indices: indices.to_vec() }
}

fn hit(index: u32, score: u16, indices: &[usize]) -> FuzzyHit {
    FuzzyHit { index, score, indices: indices.to_vec() }
}

#[test]
fn history_search_uses_fff_fuzzy_candidates() {
    let engine = HistorySearchEngine::new(vec![
        "git status".to_string(),
        "git checkout main".to_string(),
        "cargo test".to_string(),
    ])
    .unwrap();

    let view = engine.search("gc").unwrap();

    assert_eq!(view.total_matched, 3);
    assert_eq!(
        view.matches
            .iter()
            .map(|item| item.command.as_str())
            .collect::<Vec<_>>(),
        vec!["git checkout main", "cargo test", "git status"]
    );
    assert_eq!(view.matches[0].match_ranges, vec![(0, 1), (4, 5)]);
}

#[test]
fn history_search_uses_fff_ranking() {
    let engine = HistorySearchEngine::new(vec![
        "git checkout main".to_string(),
        "git commit".to_string(),
        "git clone".to_string(),
    ])
    .unwrap();

    let view = engine.search("gc").unwrap();

    assert_eq!(
        view.matches
            .iter()
            .map(|item| item.command.as_str())
            .collect::<Vec<_>>(),
        vec!["git checkout main", "git commit", "git clone"]
    );
}

#[test]
fn history_search_keeps_fff_typo_tolerance() {
    let engine = HistorySearchEngine::new(vec!["git status".to_string()]).unwrap();

    let view = engine.search("gz").unwrap();

    assert_eq!(view.total_matched, 1);
    assert_eq!(view.matches[0].command, "git status");
    assert!(!view.matches[0].match_ranges.is_empty());
}

#[test]
fn history_search_handles_long_commands() {
    let long = format!("{} module token", "a".repeat(700));
    let engine = HistorySearchEngine::new(vec![long.clone()]).unwrap();

    let view = engine.search("mod").unwrap();

    assert_eq!(view.total_matched, 1);
    assert_eq!(view.matches[0].command, long);
}

#[test]
fn an_empty_query_lists_everything() {
    let view = engine(&["ls", "a\nb", "ls"]).search("").unwrap();
    assert_eq!(view.total_matched, 3);
    let commands: Vec<&str> = view.matches.iter().map(|item| item.command.as_str()).collect();
    let displays: Vec<&str> = view.matches.iter().map(|item| item.display.as_str()).collect();
    assert_eq!(commands, vec!["ls", "a\nb", "ls"]);
    assert_eq!(displays, vec!["ls", "a ↩ b", "ls"]);
    assert!(view.matches.iter().all(|item| item.match_ranges.is_empty()));
}

#[test]
fn an_empty_query_is_not_bounded() {
    let commands: Vec<String> = (0..5003).map(|i| format!("cmd{}", i)).collect();
    let engine = HistorySearchEngine::new(commands).unwrap();
    assert_eq!(engine.search("").unwrap().total_matched, 5003);
}

#[test]
fn one_character_lists_the_history_up_to_the_bound() {
    let commands: Vec<String> = (0..5003).map(|i| format!("cmd{}", i)).collect();
    let engine = HistorySearchEngine::new(commands).unwrap();
    let view = engine.search("x").unwrap();
    assert_eq!(view.total_matched, MAX_HISTORY_MATCHES);
    assert_eq!(view.matches[0].command, "cmd0");
    assert_eq!(view.matches[4999].command, "cmd4999");
    assert!(view.matches[17].match_ranges.is_empty());
}

#[test]
fn words_narrow_the_list() {
    let engine = engine(&["git commit -m message", "git status", "cargo build"]);
    let view = engine.search("git commit").unwrap();
    assert_eq!(view.matches[0].command, "git commit -m message");
    assert!(view.total_matched <= 3);
    assert_eq!(view.total_matched, view.matches.len());
}

#[test]
fn constraints_are_no_text() {
    let engine = engine(&["cargo", "xy"]);
    assert_eq!(engine.search("*.rs cargo").unwrap().matches[0].command, "cargo");
    assert_eq!(engine.search("*.rs").unwrap().total_matched, 2);
}

#[test]
fn words_that_match_nothing_leave_nothing() {
    let engine = engine(&["ab", "cd"]);
    let view = engine.search("wwwwwwww xxxxxxxx").unwrap();
    assert_eq!(view.total_matched, 0);
    assert!(view.matches.is_empty());
}

#[test]
fn every_shown_entry_is_a_command_listed_once() {
    let commands = ["git status", "git\nstash", "cargo test", "git stash pop"];
    let view = engine(&commands).search("gist").unwrap();
    let mut seen: Vec<&str> = Vec::new();
    for item in &view.matches {
        assert!(commands.contains(&item.command.as_str()));
        assert!(!seen.contains(&item.command.as_str()));
        seen.push(item.command.as_str());
    }
    assert!(view.matches.len() <= commands.len());
}

#[test]
fn what_cannot_be_asked_for_is_not_searched() {
    let engine = engine(&["ls"]);
    assert!(engine.try_search(&"a".repeat(5000)).is_none());
    assert_eq!(engine.try_search("").unwrap().total_matched, 1);
    assert_eq!(engine.try_search("ls").unwrap().total_matched, 1);
}

#[test]
fn an_empty_line_cannot_be_asked_for_a_short_word() {
    let lines = strings(&["", "ls"]);
    assert!(!can_search(&lines, "ab", &QueryText::Text("ab".to_string())));
    assert!(can_search(&lines, "abc", &QueryText::Text("abc".to_string())));
    assert!(can_search(&lines, "a", &QueryText::Text("a".to_string())));
    let long = strings(&["y".repeat(600).as_str()]);
    assert!(can_search(&long, "ab", &QueryText::Text("ab".to_string())));
    assert!(!can_search(&long, "ab", &QueryText::Text("y".repeat(601))));
    assert!(can_search(&long, "ab", &QueryText::Text("z".repeat(601))));
    assert!(can_search(&long, "ab", &QueryText::Text("y".repeat(603))));
}

#[test]
fn a_gap_can_be_too_wide_for_its_penalty() {
    let gap = |bytes: usize| strings(&[format!("a{}b", "y".repeat(bytes)).as_str()]);
    let ab = QueryText::Text("Ab".to_string());
    assert!(can_search(&gap(65531), "Ab", &ab));
    for bytes in 65532..=65536 {
        assert!(!can_search(&gap(bytes), "Ab", &ab));
    }
    assert!(can_search(&gap(65537), "Ab", &ab));
    assert!(can_search(&gap(70000), "Ab", &ab));
    assert!(can_search(&gap(65532), "yb", &QueryText::Text("yb".to_string())));
    assert!(can_search(&gap(65532), "b", &QueryText::Text("bb".to_string())));
}

#[test]
fn a_word_that_misses_too_much_is_not_walked() {
    let line = format!("a{}bzzzz", "y".repeat(65532));
    let lines = vec![line.as_str()];
    let two = history_fuzzy_config(2, false);
    assert!(!can_ask_for("ab", &lines, &two));
    assert!(!can_ask_for("ab12", &lines, &two));
    assert!(can_ask_for("ab123", &lines, &two));
    assert!(can_ask_for("aB1Y23", &lines, &two));
    assert!(!can_ask_for("ab123", &lines, &history_fuzzy_config(3, false)));
    let view = engine(&[line.as_str(), "ab123"]).try_search("ab123").unwrap();
    assert_eq!(view.total_matched, 1);
    assert_eq!(view.matches[0].command, "ab123");
}

#[test]
fn a_later_word_is_asked_of_the_lines_found_so_far() {
    let wide = format!("a{}b", "y".repeat(65532));
    let lines = strings(&[wide.as_str(), "cargo ab"]);
    let words = QueryText::Parts(strings(&["cargo", "ab"]));
    assert!(!can_search(&lines, "cargo ab", &words));
    let found = try_history_fuzzy_matches(&lines, "cargo ab", &words).unwrap();
    assert_eq!(found.iter().map(|m| m.index).collect::<Vec<_>>(), vec![1]);
    let searched = history_fuzzy_matches(&lines, "cargo ab", &words);
    assert_eq!(searched.iter().map(|m| m.index).collect::<Vec<_>>(), vec![1]);

    let view = engine(&[wide.as_str(), "cargo ab"]).try_search("cargo ab").unwrap();
    assert_eq!(view.total_matched, 1);
    assert_eq!(view.matches[0].command, "cargo ab");

    let found_wide = format!("cargo a{}b", "y".repeat(65527));
    assert!(engine(&[found_wide.as_str()]).try_search("cargo ab").is_none());
}

#[test]
fn a_long_later_word_is_asked_of_the_lines_found_so_far() {
    let line = "y".repeat(600);
    let long = "y".repeat(601);
    let words = QueryText::Parts(vec!["cargo".to_string(), long.clone()]);
    let lines = strings(&[line.as_str(), "cargo build"]);
    assert!(!can_search(&lines, "cargo", &words));
    assert!(try_history_fuzzy_matches(&lines, "cargo", &words).unwrap().is_empty());
    let swapped = QueryText::Parts(vec!["yy".to_string(), long]);
    assert!(try_history_fuzzy_matches(&lines, "cargo", &swapped).is_none());
}

#[test]
fn no_word_is_asked_for_once_nothing_is_left() {
    let lines = strings(&["cargo build"]);
    let endless = "a".repeat(5000);
    let after_two = QueryText::Parts(vec![
        "cargo".to_string(),
        "wwwwwwww".to_string(),
        endless.clone(),
    ]);
    assert!(!can_search(&lines, "cargo", &after_two));
    assert!(try_history_fuzzy_matches(&lines, "cargo", &after_two).unwrap().is_empty());
    let after_one = QueryText::Parts(vec!["wwwwwwww".to_string(), endless]);
    assert!(try_history_fuzzy_matches(&lines, "cargo", &after_one).is_none());
}

#[test]
fn very_long_commands_are_searched() {
    let long = format!("{} module token", "a".repeat(70000));
    let view = engine(&[long.as_str(), "cargo mod"]).try_search("mod").unwrap();
    assert_eq!(view.total_matched, 2);
}

#[test]
fn words_of_one_byte_are_not_matched() {
    let parts = QueryText::Parts(strings(&["a", "bc", "é", ""]));
    assert_eq!(fuzzy_parts(&parts), vec!["bc", "é"]);
    assert!(fuzzy_parts(&QueryText::Text("a".to_string())).is_empty());
    assert_eq!(fuzzy_parts(&QueryText::Text("ab".to_string())), vec!["ab"]);
    assert!(fuzzy_parts(&QueryText::Empty).is_empty());
}

#[test]
fn nothing_to_match_finds_every_line() {
    let lines = strings(&["ls", "pwd"]);
    let found = history_fuzzy_matches(&lines, "a", &QueryText::Text("a".to_string()));
    let seen: Vec<(usize, u16, usize)> =
        found.iter().map(|m| (m.index, m.score, m.indices.len())).collect();
    assert_eq!(seen, vec![(0, 0, 0), (1, 0, 0)]);
}

#[test]
fn found_lines_stand_by_rank() {
    let lines = strings(&["cargo test", "git checkout", "git commit", "git log"]);
    let query = QueryText::Parts(strings(&["git", "co"]));
    let found = history_fuzzy_matches(&lines, "git co", &query);
    assert!(!found.is_empty());
    for pair in found.windows(2) {
        assert!(
            pair[0].score > pair[1].score
                || pair[0].score == pair[1].score && pair[0].index < pair[1].index
        );
    }
}

#[test]
fn a_further_word_finds_nothing_new() {
    let lines = strings(&["cargo test", "git checkout", "git commit", "git log", "ls"]);
    let one = history_fuzzy_matches(&lines, "git co", &QueryText::Parts(strings(&["git"])));
    let two = history_fuzzy_matches(&lines, "git co", &QueryText::Parts(strings(&["git", "co"])));
    assert!(two.len() <= one.len());
    for found in &two {
        assert!(one.iter().any(|other| other.index == found.index));
    }
}

#[test]
fn one_typo_for_every_four_bytes() {
    assert_eq!(max_typos(""), 2);
    assert_eq!(max_typos("abcdefgh"), 2);
    assert_eq!(max_typos("abcdefghijkl"), 3);
    assert_eq!(max_typos("   abcdefghijkl   "), 3);
    assert_eq!(max_typos(&"a".repeat(27)), 6);
    assert_eq!(max_typos(&"a".repeat(400)), 6);
    assert_eq!(max_typos(&"a".repeat(65536)), 2);
    assert_eq!(max_typos("éééééé"), 3);
}

#[test]
fn case_counts_only_with_a_capital() {
    assert!(!has_uppercase(&vec!["abc", "1_é"]));
    assert!(has_uppercase(&vec!["abc", "dEf"]));
    assert!(has_uppercase(&vec!["É"]));
    assert!(!has_uppercase(&vec![]));
    let plain = history_fuzzy_config(3, false);
    assert_eq!(plain.max_typos, 3);
    assert!(!plain.sort);
    assert_eq!((plain.capitalization_bonus, plain.matching_case_bonus), (0, 0));
    let upper = history_fuzzy_config(2, true);
    assert_eq!((upper.capitalization_bonus, upper.matching_case_bonus), (8, 4));
}

#[test]
fn hits_are_read_with_ascending_places() {
    let found = read_hits(vec![hit(3, 40, &[9, 2, 5]), hit(0, 7, &[])]);
    assert_eq!(found.len(), 2);
    assert_eq!((found[0].index, found[0].score), (3, 40));
    assert_eq!(found[0].indices, vec![2, 5, 9]);
    assert_eq!((found[1].index, found[1].score), (0, 7));
}

#[test]
fn a_further_word_averages_the_scores() {
    let previous = vec![entry(4, 30, &[1]), entry(9, 65535, &[2, 3])];
    let combined = combine_matches(&previous, &vec![hit(1, 65535, &[7]), hit(0, 11, &[8])], 3);
    assert_eq!(combined.len(), 2);
    assert_eq!((combined[0].index, combined[0].score), (9, 43690));
    assert_eq!(combined[0].indices, vec![2, 3]);
    assert_eq!((combined[1].index, combined[1].score), (4, 13));
    let capped = combine_matches(&previous, &vec![hit(1, 65535, &[])], 1);
    assert_eq!(capped[0].score, 65535);
}

#[test]
fn ranking_puts_better_scores_and_earlier_entries_first() {
    let ranked = rank_matches(vec![entry(5, 1, &[]), entry(2, 9, &[]), entry(1, 1, &[])]);
    let order: Vec<usize> = ranked.iter().map(|m| m.index).collect();
    assert_eq!(order, vec![2, 1, 5]);
}

#[test]
fn found_entries_are_listed_with_single_ranges() {
    let commands = strings(&["a\nb", "c"]);
    let lines = strings(&["a ↩ b", "c"]);
    let view = list_matches(
        &commands,
        &lines,
        &vec![entry(1, 5, &[0]), entry(0, 3, &[0, 4]), entry(7, 1, &[])],
    );
    assert_eq!(view.total_matched, 3);
    assert_eq!(view.matches[0].command, "c");
    assert_eq!(view.matches[0].match_ranges, vec![(0, 1)]);
    assert_eq!(view.matches[1].command, "a\nb");
    assert_eq!(view.matches[1].display, "a ↩ b");
    assert_eq!(view.matches[1].match_ranges, vec![(0, 1), (4, 5)]);
    assert_eq!(view.matches[2].command, "");
    assert_eq!(view.matches[2].display, "");
}

#[test]
fn numbers_are_sorted() {
    assert_eq!(sort(vec![3usize, 1, 2, 3, 0]), vec![0, 1, 2, 3, 3]);
    assert_eq!(sort(Vec::<usize>::new()), Vec::<usize>::new());
}
