use fff_search::FuzzyQuery;
use fff_tui::query::{fuzzy_text, QueryText};
use fff_tui::{file_query, grep_query};

#[test]
fn a_file_query_has_constraints_text_and_location() {
    let query = file_query("*.rs picker:12");
    assert_eq!(query.raw_query, "*.rs picker:12");
    assert_eq!(query.constraints.len(), 1);
    assert_eq!(query.fuzzy_query, FuzzyQuery::Text("picker"));
    assert!(query.location.is_some());
}

#[test]
fn a_file_query_of_constraints_has_no_text() {
    let query = file_query("*.rs");
    assert_eq!(query.constraints.len(), 1);
    assert_eq!(query.fuzzy_query, FuzzyQuery::Empty);
    assert_eq!(file_query("").fuzzy_query, FuzzyQuery::Empty);
}

#[test]
fn a_grep_query_reads_no_location_and_fewer_globs() {
    let query = grep_query("localhost:8080");
    assert_eq!(query.fuzzy_query, FuzzyQuery::Text("localhost:8080"));
    assert!(query.location.is_none());
    assert!(file_query("localhost:8080").location.is_some());
    let query = grep_query("arr[0] *.rs");
    assert_eq!(query.constraints.len(), 1);
    assert_eq!(query.fuzzy_query, FuzzyQuery::Text("arr[0]"));
    assert_eq!(file_query("arr[0] *.rs").constraints.len(), 2);
}

#[test]
fn the_fuzzy_text_is_what_is_left() {
    assert!(matches!(fuzzy_text("*.rs cargo"), QueryText::Text(word) if word == "cargo"));
    assert!(matches!(fuzzy_text("git log"), QueryText::Parts(parts) if parts == ["git", "log"]));
    assert!(matches!(fuzzy_text("*.rs"), QueryText::Empty));
}

#[test]
fn a_plain_word_is_its_own_text() {
    for word in ["a", "git", "Cargo2", "42"] {
        assert!(matches!(fuzzy_text(word), QueryText::Text(text) if text == word));
        assert_eq!(file_query(word).fuzzy_query, FuzzyQuery::Text(word));
    }
}
