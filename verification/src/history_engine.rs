//! The shell-history picker's search: commands in, a ranked list out.

use crate::history;
use crate::history_search;
use crate::history_search::{
    fuzzy_parts, has_uppercase, history_fuzzy_config, history_fuzzy_matches, line_fits, max_typos,
    try_history_fuzzy_matches, word_fits, FuzzyHitView, HistoryFuzzyMatch, HistoryFuzzyMatchView,
};
use crate::query;
use crate::query::{fuzzy_text, QueryText, QueryTextView};
use crate::text;
use crate::types::{HistoryMatch, HistoryMatchView, HistorySearchView};
use vstd::prelude::*;

verus! {

/// `anyhow::Error`, the error of the program's engines. Searching a history
/// never makes one.
#[verifier::external_type_specification]
#[verifier::external_body]
pub struct ExAnyhowError(anyhow::Error);

/// The most entries that a search hands out.
pub const MAX_HISTORY_MATCHES: usize = 5000;

/// The lines on which commands are shown.
pub open spec fn displays(commands: Seq<Seq<char>>) -> Seq<Seq<char>> {
    commands.map_values(|command: Seq<char>| history::one_line(command))
}

/// A text of a list, or the empty one where the list is too short.
pub open spec fn nth_or_empty(list: Seq<Seq<char>>, index: int) -> Seq<char> {
    if 0 <= index < list.len() {
        list[index]
    } else {
        Seq::empty()
    }
}

/// The ranges that hold one character each.
pub open spec fn single_ranges(indices: Seq<usize>) -> Seq<(usize, usize)> {
    indices.map_values(|i: usize| (i, (i + 1) as usize))
}

/// A found entry as the list shows it.
pub open spec fn entry_of(
    commands: Seq<Seq<char>>,
    lines: Seq<Seq<char>>,
    hit: HistoryFuzzyMatchView,
) -> HistoryMatchView {
    HistoryMatchView {
        command: nth_or_empty(commands, hit.index as int),
        display: nth_or_empty(lines, hit.index as int),
        match_ranges: single_ranges(hit.indices),
    }
}

/// The first entries of a list, as many as a search hands out.
pub open spec fn first_matches(hits: Seq<HistoryFuzzyMatchView>) -> Seq<HistoryFuzzyMatchView> {
    if hits.len() > MAX_HISTORY_MATCHES {
        hits.take(MAX_HISTORY_MATCHES as int)
    } else {
        hits
    }
}

/// The found entries as the list shows them.
pub open spec fn listed(
    commands: Seq<Seq<char>>,
    lines: Seq<Seq<char>>,
    hits: Seq<HistoryFuzzyMatchView>,
) -> Seq<HistoryMatchView> {
    first_matches(hits).map_values(|h: HistoryFuzzyMatchView| entry_of(commands, lines, h))
}

/// Every command as the list shows it where nothing was asked for.
pub open spec fn every_entry(commands: Seq<Seq<char>>) -> Seq<HistoryMatchView> {
    commands.map_values(
        |command: Seq<char>|
            HistoryMatchView {
                command,
                display: history::one_line(command),
                match_ranges: Seq::<(usize, usize)>::empty(),
            },
    )
}

/// A copy of a text of a list, or the empty one where the list is too short.
fn clone_nth(list: &Vec<String>, index: usize) -> (r: String)
    ensures
        r@ == nth_or_empty(text::string_views(list@), index as int),
{
    if index < list.len() {
        list[index].as_str().to_owned()
    } else {
        let r = String::new();
        assert(r@ =~= Seq::<char>::empty());
        r
    }
}

/// The ranges that hold one character each.
fn ranges_of(indices: &Vec<usize>) -> (r: Vec<(usize, usize)>)
    requires
        forall|k: int| 0 <= k < indices@.len() ==> (#[trigger] indices@[k]) < usize::MAX,
    ensures
        r@ == single_ranges(indices@),
{
    let mut r: Vec<(usize, usize)> = Vec::new();
    let mut i: usize = 0;
    while i < indices.len()
        invariant
            i <= indices@.len(),
            r@.len() == i,
            forall|k: int| 0 <= k < indices@.len() ==> (#[trigger] indices@[k]) < usize::MAX,
            forall|j: int| 0 <= j < i ==> (#[trigger] r@[j]) == single_ranges(indices@)[j],
        decreases indices@.len() - i,
    {
        r.push((indices[i], indices[i] + 1));
        i = i + 1;
    }
    assert(r@ =~= single_ranges(indices@));
    r
}

/// The list that found entries make.
pub fn list_matches(
    commands: &Vec<String>,
    display_lines: &Vec<String>,
    hits: &Vec<HistoryFuzzyMatch>,
) -> (r: HistorySearchView)
    requires
        forall|i: int, k: int|
            0 <= i < hits@.len() && 0 <= k < hits@[i].indices@.len() ==> (
            #[trigger] hits@[i].indices@[k]) < usize::MAX,
    ensures
        r@ == listed(
            text::string_views(commands@),
            text::string_views(display_lines@),
            history_search::found_views(hits@),
        ),
        r.total_matched == r@.len(),
{
    let ghost want = listed(
        text::string_views(commands@),
        text::string_views(display_lines@),
        history_search::found_views(hits@),
    );
    let count: usize = if hits.len() > MAX_HISTORY_MATCHES {
        MAX_HISTORY_MATCHES
    } else {
        hits.len()
    };
    let mut matches: Vec<HistoryMatch> = Vec::new();
    let mut i: usize = 0;
    while i < count
        invariant
            i <= count <= hits@.len(),
            count == want.len(),
            matches@.len() == i,
            want == listed(
                text::string_views(commands@),
                text::string_views(display_lines@),
                history_search::found_views(hits@),
            ),
            forall|i: int, k: int|
                0 <= i < hits@.len() && 0 <= k < hits@[i].indices@.len() ==> (
                #[trigger] hits@[i].indices@[k]) < usize::MAX,
            forall|j: int| 0 <= j < i ==> (#[trigger] matches@[j])@ == want[j],
        decreases count - i,
    {
        let hit = &hits[i];
        assert(first_matches(history_search::found_views(hits@))[i as int] == hit@);
        assert forall|k: int| 0 <= k < hit.indices@.len() implies (#[trigger] hit.indices@[k])
            < usize::MAX by {
            assert(hits@[i as int].indices@[k] < usize::MAX);
        }
        let entry = HistoryMatch {
            command: clone_nth(commands, hit.index),
            display: clone_nth(display_lines, hit.index),
            match_ranges: ranges_of(&hit.indices),
        };
        matches.push(entry);
        i = i + 1;
    }
    let r = HistorySearchView { total_matched: matches.len(), matches };
    assert(r@ =~= want);
    r
}

/// Whether the matcher can be asked for a later part in every line that is not
/// blank.
fn lines_fit(needle: &str, typos: u16, lines: &Vec<String>) -> (r: bool)
    ensures
        r == forall|i: int|
            0 <= i < lines@.len() && (#[trigger] text::string_views(lines@)[i]).len() > 0
                ==> history_search::text_fits(
                needle@,
                typos as int,
                text::string_views(lines@)[i],
            ),
{
    let mut i: usize = 0;
    while i < lines.len()
        invariant
            i <= lines@.len(),
            forall|j: int|
                0 <= j < i && (#[trigger] text::string_views(lines@)[j]).len() > 0
                    ==> history_search::text_fits(
                    needle@,
                    typos as int,
                    text::string_views(lines@)[j],
                ),
        decreases lines@.len() - i,
    {
        assert(text::string_views(lines@)[i as int] == lines@[i as int]@);
        if !lines[i].as_str().is_empty() && !line_fits(needle, typos, lines[i].as_str()) {
            return false;
        }
        i = i + 1;
    }
    true
}

/// Whether the matcher can be asked for the fuzzy text of a query in every line
/// that may come to it.
pub fn can_search(display_lines: &Vec<String>, query: &str, fuzzy_query: &QueryText) -> (r: bool)
    ensures
        r == history_search::fits_every_line(
            text::string_views(display_lines@),
            query@,
            fuzzy_query@,
        ),
        r ==> history_search::is_searchable(
            text::string_views(display_lines@),
            query@,
            fuzzy_query@,
        ),
{
    let ghost lines = text::string_views(display_lines@);
    let parts = fuzzy_parts(fuzzy_query);
    let ghost words = history_search::slice_views(parts@);
    if parts.is_empty() {
        return true;
    }
    let typos: u16 = max_typos(query);
    let upper: bool = has_uppercase(&parts);
    if display_lines.len() > 0xffff_ffff || parts.len() > 0xffff_ffff {
        return false;
    }
    let scoring = history_fuzzy_config(typos, upper);
    let first: &str = parts[0];
    assert(words[0] == parts@[0]@);
    let mut i: usize = 0;
    while i < display_lines.len()
        invariant
            i <= display_lines@.len(),
            lines == text::string_views(display_lines@),
            words == history_search::matched_parts(fuzzy_query@),
            words.len() > 0,
            typos as int == history_search::typo_budget(query@),
            first@ == words[0],
            forall|j: int|
                0 <= j < i ==> history_search::text_fits(
                    first@,
                    typos as int,
                    #[trigger] lines[j],
                ),
        decreases display_lines@.len() - i,
    {
        if !line_fits(first, typos, display_lines[i].as_str()) {
            assert(!history_search::text_fits(words[0], typos as int, lines[i as int]));
            return false;
        }
        i = i + 1;
    }
    let mut k: usize = 0;
    while k < parts.len()
        invariant
            k <= parts@.len(),
            lines == text::string_views(display_lines@),
            words == history_search::slice_views(parts@),
            words == history_search::matched_parts(fuzzy_query@),
            words.len() > 0,
            upper == history_search::any_capital(words),
            scoring == history_search::scoring_for(typos as int, upper, false),
            typos as int == history_search::typo_budget(query@),
            forall|l: int|
                0 <= l < k ==> history_search::needle_fits(
                    text::byte_count(#[trigger] words[l]),
                    scoring.capitalization_bonus,
                    scoring.matching_case_bonus,
                ),
            forall|j: int, l: int|
                0 <= j < lines.len() && 1 <= l < k && (#[trigger] lines[j]).len() > 0
                    ==> history_search::text_fits(
                    #[trigger] words[l],
                    typos as int,
                    lines[j],
                ),
        decreases parts@.len() - k,
    {
        assert(words[k as int] == parts@[k as int]@);
        let needle: usize = text::byte_len(parts[k]);
        if !word_fits(needle, &scoring) {
            return false;
        }
        if k > 0 && !lines_fit(parts[k], typos, display_lines) {
            let ghost j = choose|j: int|
                0 <= j < lines.len() && (#[trigger] lines[j]).len() > 0
                    && !history_search::text_fits(words[k as int], typos as int, lines[j]);
            assert(!history_search::text_fits(words[k as int], typos as int, lines[j]));
            return false;
        }
        k = k + 1;
    }
    proof {
        history_search::law_fitting_query_is_searchable(lines, query@, fuzzy_query@);
    }
    true
}

/// Whether a list is what a search for a query may show. An empty query shows
/// every command. Another shows the first of the entries that its fuzzy text
/// finds, by rank.
pub open spec fn may_show(
    commands: Seq<Seq<char>>,
    query: Seq<char>,
    shown: Seq<HistoryMatchView>,
) -> bool {
    if query.len() == 0 {
        shown == every_entry(commands)
    } else {
        may_list(commands, query, query::parsed_query(query).text, shown)
    }
}

/// Whether a search for the fuzzy text of a query may find these entries.
pub open spec fn may_have_found(
    commands: Seq<Seq<char>>,
    query: Seq<char>,
    query_text: QueryTextView,
    hits: Seq<HistoryFuzzyMatchView>,
) -> bool {
    &&& history_search::is_search_result(displays(commands), query, query_text, hits)
    &&& history_search::well_found(displays(commands), hits)
    &&& history_search::matched_parts(query_text).len() > 0 ==> history_search::is_ranked(hits)
}

/// Whether a list shows what a search for the fuzzy text of a query may find.
pub open spec fn may_list(
    commands: Seq<Seq<char>>,
    query: Seq<char>,
    query_text: QueryTextView,
    shown: Seq<HistoryMatchView>,
) -> bool {
    exists|hits: Seq<HistoryFuzzyMatchView>|
        {
            &&& #[trigger] may_have_found(commands, query, query_text, hits)
            &&& shown == listed(commands, displays(commands), hits)
        }
}

/// Whether a query can be searched for in these commands, whatever the matcher
/// finds on the way.
pub open spec fn can_ask(commands: Seq<Seq<char>>, query: Seq<char>) -> bool {
    query.len() > 0 ==> history_search::is_searchable(
        displays(commands),
        query,
        query::parsed_query(query).text,
    )
}

/// Whether a query is one ASCII letter or digit.
pub open spec fn is_single_letter(query: Seq<char>) -> bool {
    query.len() == 1 && query::is_plain_word(query)
}

/// The history as it stands, up to the bound.
pub open spec fn first_entries(commands: Seq<Seq<char>>) -> Seq<HistoryMatchView> {
    every_entry(commands).take(
        if commands.len() > MAX_HISTORY_MATCHES {
            MAX_HISTORY_MATCHES as int
        } else {
            commands.len() as int
        },
    )
}

/// One ASCII letter or digit is too short to be matched.
proof fn lemma_single_letter_is_short(query: Seq<char>)
    requires
        is_single_letter(query),
    ensures
        history_search::matched_parts(QueryTextView::Text(query)).len() == 0,
{
    assert(query =~= Seq::<char>::empty().push(query[0]));
    text::lemma_byte_count_push(Seq::<char>::empty(), query[0]);
    assert(text::byte_count(Seq::<char>::empty()) == 0);
}

/// Whether the lengths of the lines are machine numbers.
pub open spec fn lines_measured(lines: Seq<Seq<char>>) -> bool {
    forall|i: int| 0 <= i < lines.len() ==> text::byte_count(#[trigger] lines[i]) <= usize::MAX
}

/// Searches a list of commands.
pub struct HistorySearchEngine {
    commands: Vec<String>,
    display_lines: Vec<String>,
}

impl View for HistorySearchEngine {
    type V = Seq<Seq<char>>;

    /// The commands.
    closed spec fn view(&self) -> Seq<Seq<char>> {
        text::string_views(self.commands@)
    }
}

impl HistorySearchEngine {
    /// Each command has its display line, which is no longer than a string can be.
    #[verifier::type_invariant]
    spec fn has_lines(self) -> bool {
        &&& text::string_views(self.display_lines@) == displays(
            text::string_views(self.commands@),
        )
        &&& lines_measured(text::string_views(self.display_lines@))
    }

    /// An engine for these commands.
    pub fn new(commands: Vec<String>) -> (r: Result<HistorySearchEngine, anyhow::Error>)
        ensures
            r is Ok,
            r->Ok_0@ == text::string_views(commands@),
    {
        let ghost want = displays(text::string_views(commands@));
        let mut display_lines: Vec<String> = Vec::new();
        let mut i: usize = 0;
        while i < commands.len()
            invariant
                i <= commands@.len(),
                display_lines@.len() == i,
                want == displays(text::string_views(commands@)),
                forall|j: int| 0 <= j < i ==> (#[trigger] display_lines@[j])@ == want[j],
                forall|j: int| 0 <= j < i ==> text::byte_count(#[trigger] want[j]) <= usize::MAX,
            decreases commands@.len() - i,
        {
            let line = history::sanitize_history_display(commands[i].as_str());
            let _length: usize = text::byte_len(line.as_str());
            assert(text::byte_count(want[i as int]) == _length);
            display_lines.push(line);
            i = i + 1;
        }
        assert(text::string_views(display_lines@) =~= want);
        Ok(HistorySearchEngine { commands, display_lines })
    }

    /// Every command, in order.
    fn list_all(&self) -> (r: HistorySearchView)
        ensures
            r@ == every_entry(self@),
            r.total_matched == r@.len(),
    {
        proof {
            use_type_invariant(self);
        }
        let ghost want = every_entry(self@);
        let mut matches: Vec<HistoryMatch> = Vec::new();
        let mut i: usize = 0;
        assert(self.display_lines@.len() == self.commands@.len()) by {
            assert(text::string_views(self.display_lines@).len() == self.display_lines@.len());
        }
        while i < self.commands.len()
            invariant
                i <= self.commands@.len(),
                self.display_lines@.len() == self.commands@.len(),
                matches@.len() == i,
                want == every_entry(self@),
                want.len() == self.commands@.len(),
                text::string_views(self.display_lines@) == displays(
                    text::string_views(self.commands@),
                ),
                forall|j: int| 0 <= j < i ==> (#[trigger] matches@[j])@ == want[j],
            decreases self.commands@.len() - i,
        {
            assert(text::string_views(self.display_lines@)[i as int]
                == self.display_lines@[i as int]@);
            let entry = HistoryMatch {
                command: self.commands[i].as_str().to_owned(),
                display: self.display_lines[i].as_str().to_owned(),
                match_ranges: Vec::new(),
            };
            assert(entry@ =~= want[i as int]);
            matches.push(entry);
            i = i + 1;
        }
        let r = HistorySearchView { total_matched: matches.len(), matches };
        assert(r@ =~= want);
        r
    }

    /// The entries that a query finds.
    pub fn search(&self, query: &str) -> (r: Result<HistorySearchView, anyhow::Error>)
        requires
            can_ask(self@, query@),
        ensures
            r is Ok,
            may_show(self@, query@, r->Ok_0@),
            r->Ok_0.total_matched == r->Ok_0@.len(),
            is_single_letter(query@) ==> r->Ok_0@ == first_entries(self@),
            query::is_plain_word(query@) ==> query::parsed_query(query@).text
                == QueryTextView::Text(query@),
    {
        if query.is_empty() {
            return Ok(self.list_all());
        }
        let fuzzy_query = fuzzy_text(query);
        let view = self.search_text(query, &fuzzy_query);
        proof {
            if is_single_letter(query@) {
                lemma_single_letter_is_short(query@);
                assert(self@.len() == self.commands.len());
                law_short_query_lists_history(self@, query@, view@);
            }
        }
        Ok(view)
    }

    /// The entries that the fuzzy text of a query finds.
    pub fn search_text(&self, query: &str, fuzzy_query: &QueryText) -> (r: HistorySearchView)
        requires
            history_search::is_searchable(displays(self@), query@, fuzzy_query@),
        ensures
            may_list(self@, query@, fuzzy_query@, r@),
            r.total_matched == r@.len(),
    {
        proof {
            use_type_invariant(self);
        }
        let hits = history_fuzzy_matches(&self.display_lines, query, fuzzy_query);
        assert(may_have_found(self@, query@, fuzzy_query@, history_search::found_views(hits@)));
        self.list_hits(&hits)
    }

    /// The entries that the fuzzy text of a query finds, or nothing where the
    /// search comes to a part of it that the matcher cannot be asked for.
    pub fn try_search_text(&self, query: &str, fuzzy_query: &QueryText) -> (r: Option<
        HistorySearchView,
    >)
        ensures
            r is None ==> !history_search::is_searchable(displays(self@), query@, fuzzy_query@),
            r is Some ==> may_list(self@, query@, fuzzy_query@, r->Some_0@),
            r is Some ==> r->Some_0.total_matched == r->Some_0@.len(),
    {
        proof {
            use_type_invariant(self);
        }
        match try_history_fuzzy_matches(&self.display_lines, query, fuzzy_query) {
            Some(hits) => {
                assert(may_have_found(
                    self@,
                    query@,
                    fuzzy_query@,
                    history_search::found_views(hits@),
                ));
                Some(self.list_hits(&hits))
            },
            None => None,
        }
    }

    /// Found entries as the list shows them.
    fn list_hits(&self, hits: &Vec<HistoryFuzzyMatch>) -> (r: HistorySearchView)
        requires
            history_search::well_found(displays(self@), history_search::found_views(hits@)),
        ensures
            r@ == listed(self@, displays(self@), history_search::found_views(hits@)),
            r.total_matched == r@.len(),
    {
        proof {
            use_type_invariant(self);
            lemma_positions_fit(displays(self@), history_search::found_views(hits@));
            assert forall|i: int, k: int|
                0 <= i < hits@.len() && 0 <= k < hits@[i].indices@.len() implies (
            #[trigger] hits@[i].indices@[k]) < usize::MAX by {
                assert(history_search::found_views(hits@)[i].indices[k] < usize::MAX);
            }
        }
        list_matches(&self.commands, &self.display_lines, hits)
    }

    /// The entries that a query finds, or nothing where the search comes to a
    /// part of the query that the matcher cannot be asked for in the lines found
    /// so far.
    pub fn try_search(&self, query: &str) -> (r: Option<HistorySearchView>)
        ensures
            r is None ==> !can_ask(self@, query@),
            r is Some ==> may_show(self@, query@, r->Some_0@),
            r is Some ==> r->Some_0.total_matched == r->Some_0@.len(),
            is_single_letter(query@) ==> r is Some && r->Some_0@ == first_entries(self@),
            query::is_plain_word(query@) ==> query::parsed_query(query@).text
                == QueryTextView::Text(query@),
    {
        proof {
            use_type_invariant(self);
        }
        let fuzzy_query = fuzzy_text(query);
        if query.is_empty() || can_search(&self.display_lines, query, &fuzzy_query) {
            return match self.search(query) {
                Ok(view) => Some(view),
                Err(_) => None,
            };
        }
        let r = self.try_search_text(query, &fuzzy_query);
        proof {
            if is_single_letter(query@) {
                lemma_single_letter_is_short(query@);
            }
        }
        r
    }
}

/// The positions at which entries matched leave room for one more.
proof fn lemma_positions_fit(lines: Seq<Seq<char>>, hits: Seq<HistoryFuzzyMatchView>)
    requires
        lines_measured(lines),
        history_search::well_found(lines, hits),
    ensures
        forall|i: int, k: int|
            0 <= i < hits.len() && 0 <= k < hits[i].indices.len() ==> (
            #[trigger] hits[i].indices[k]) < usize::MAX,
{
    assert forall|i: int, k: int| 0 <= i < hits.len() && 0 <= k < hits[i].indices.len() implies (
    #[trigger] hits[i].indices[k]) < usize::MAX by {
        let line = lines[hits[i].index as int];
        assert(hits[i].indices[k] < history_search::place_limit(line));
    }
}

/// Whether the entries of a list are commands at different places, each with
/// its display line.
pub open spec fn is_selection(
    commands: Seq<Seq<char>>,
    shown: Seq<HistoryMatchView>,
    places: Seq<usize>,
) -> bool {
    &&& places.len() == shown.len()
    &&& places.no_duplicates()
    &&& forall|i: int|
        0 <= i < shown.len() ==> {
            &&& (#[trigger] places[i]) < commands.len()
            &&& shown[i].command == commands[places[i] as int]
            &&& shown[i].display == history::one_line(commands[places[i] as int])
        }
}

/// Whatever the matcher finds, a search shows commands of the history and
/// nothing else, each at most once, with the line that displays it.
pub proof fn law_search_selects_commands(
    commands: Seq<Seq<char>>,
    query: Seq<char>,
    shown: Seq<HistoryMatchView>,
)
    requires
        commands.len() <= usize::MAX,
        may_show(commands, query, shown),
    ensures
        exists|places: Seq<usize>| #[trigger] is_selection(commands, shown, places),
        shown.len() <= commands.len(),
{
    let places = if query.len() == 0 {
        Seq::new(commands.len(), |i: int| i as usize)
    } else {
        let hits = choose|hits: Seq<HistoryFuzzyMatchView>|
            {
                &&& #[trigger] may_have_found(
                    commands,
                    query,
                    query::parsed_query(query).text,
                    hits,
                )
                &&& shown == listed(commands, displays(commands), hits)
            };
        first_matches(hits).map_values(|h: HistoryFuzzyMatchView| h.index)
    };
    if query.len() > 0 {
        let hits = choose|hits: Seq<HistoryFuzzyMatchView>|
            {
                &&& #[trigger] may_have_found(
                    commands,
                    query,
                    query::parsed_query(query).text,
                    hits,
                )
                &&& shown == listed(commands, displays(commands), hits)
            };
        assert forall|i: int| 0 <= i < shown.len() implies {
            &&& (#[trigger] places[i]) < commands.len()
            &&& shown[i].command == commands[places[i] as int]
            &&& shown[i].display == history::one_line(commands[places[i] as int])
        } by {
            assert(first_matches(hits)[i] == hits[i]);
            assert(hits[i].index < displays(commands).len());
        }
        assert forall|i: int, j: int|
            0 <= i < places.len() && 0 <= j < places.len() && i != j implies places[i]
            != places[j] by {
            assert(first_matches(hits)[i] == hits[i]);
            assert(first_matches(hits)[j] == hits[j]);
            if i < j {
                assert(hits[i].index != hits[j].index);
            } else {
                assert(hits[j].index != hits[i].index);
            }
        }
    }
    assert(is_selection(commands, shown, places));
    lemma_distinct_below(places, commands.len());
}

/// Different numbers below a bound are no more than the bound.
proof fn lemma_distinct_below(places: Seq<usize>, bound: nat)
    requires
        places.no_duplicates(),
        forall|i: int| 0 <= i < places.len() ==> (#[trigger] places[i]) < bound,
    ensures
        places.len() <= bound,
    decreases bound,
{
    if bound == 0 {
        if places.len() > 0 {
            assert(places[0] < 0);
        }
    } else if places.contains((bound - 1) as usize) {
        let k = places.index_of((bound - 1) as usize);
        let rest = places.remove(k);
        assert forall|i: int| 0 <= i < rest.len() implies (#[trigger] rest[i]) < bound - 1 by {
            let at = if i < k {
                i
            } else {
                i + 1
            };
            assert(rest[i] == places[at]);
            assert(places[at] != places[k]);
        }
        lemma_distinct_below(rest, (bound - 1) as nat);
    } else {
        assert forall|i: int| 0 <= i < places.len() implies (#[trigger] places[i]) < bound
            - 1 by {
            assert(places.contains(places[i]));
        }
        lemma_distinct_below(places, (bound - 1) as nat);
    }
}

/// A search for a query that is not empty shows a bounded number of entries.
pub proof fn law_search_is_bounded(
    commands: Seq<Seq<char>>,
    query: Seq<char>,
    shown: Seq<HistoryMatchView>,
)
    requires
        query.len() > 0,
        may_show(commands, query, shown),
    ensures
        shown.len() <= MAX_HISTORY_MATCHES,
{
}

/// A query without a part long enough to be matched shows the history as it
/// stands, up to the bound.
pub proof fn law_short_query_lists_history(
    commands: Seq<Seq<char>>,
    query: Seq<char>,
    shown: Seq<HistoryMatchView>,
)
    requires
        commands.len() <= usize::MAX,
        history_search::matched_parts(query::parsed_query(query).text).len() == 0,
        query.len() > 0,
        may_show(commands, query, shown),
    ensures
        shown == first_entries(commands),
{
    let hits = choose|hits: Seq<HistoryFuzzyMatchView>|
        {
            &&& #[trigger] may_have_found(
                    commands,
                    query,
                    query::parsed_query(query).text,
                    hits,
                )
            &&& shown == listed(commands, displays(commands), hits)
        };
    assert(hits == history_search::every_line(displays(commands)));
    assert forall|i: int| 0 <= i < shown.len() implies #[trigger] shown[i] == every_entry(
        commands,
    )[i] by {
        assert(first_matches(hits)[i] == hits[i]);
        assert(shown[i].match_ranges =~= Seq::<(usize, usize)>::empty());
    }
    assert(shown =~= first_entries(commands));
}

/// A search for a query shows what the search for its words comes to, up to five
/// thousand entries: each the command at its place with the line that displays
/// it, and each character that matched as a range of its own.
pub proof fn law_search_shows_what_is_found(
    engine: &HistorySearchEngine,
    query: &str,
    view: HistorySearchView,
    fuzzy_query: QueryText,
    parts: Vec<&str>,
    typos: u16,
) -> (r: (
    Seq<HistoryFuzzyMatchView>,
    Seq<Seq<FuzzyHitView>>,
    Seq<Seq<HistoryFuzzyMatchView>>,
))
    requires
        call_ensures(HistorySearchEngine::search, (engine, query), Ok(view)) || call_ensures(
            HistorySearchEngine::try_search,
            (engine, query),
            Some(view),
        ),
        call_ensures(fuzzy_text, (query,), fuzzy_query),
        call_ensures(fuzzy_parts, (&fuzzy_query,), parts),
        call_ensures(max_typos, (query,), typos),
        query@.len() > 0,
    ensures
        parts@.len() > 0 ==> history_search::comes_of(
            Seq::new(engine@.len(), |i: int| history::one_line(engine@[i])),
            Seq::new(parts@.len(), |i: int| parts@[i]@),
            typos as int,
            r.0,
            r.1,
            r.2,
        ),
        parts@.len() == 0 ==> r.0.len() == engine@.len() && forall|i: int|
            0 <= i < r.0.len() ==> (#[trigger] r.0[i]).index == i as usize && r.0[i].indices.len()
                == 0,
        view.total_matched == view.matches@.len(),
        view.matches@.len() == if r.0.len() > 5000 {
            5000
        } else {
            r.0.len()
        },
        forall|i: int|
            0 <= i < view.matches@.len() ==> {
                let entry = #[trigger] view.matches@[i];
                &&& r.0[i].index < engine@.len()
                &&& entry.command@ == engine@[r.0[i].index as int]
                &&& entry.display@ == history::one_line(entry.command@)
                &&& entry.match_ranges@.len() == r.0[i].indices.len()
                &&& forall|k: int|
                    0 <= k < entry.match_ranges@.len() ==> (#[trigger] entry.match_ranges@[k]).0
                        == r.0[i].indices[k] && (r.0[i].indices[k] < usize::MAX
                        ==> entry.match_ranges@[k].1 == r.0[i].indices[k] + 1)
            },
{
    let commands = engine@;
    let lines = displays(commands);
    let words = Seq::new(parts@.len(), |i: int| parts@[i]@);
    assert(Seq::new(engine@.len(), |i: int| history::one_line(engine@[i])) =~= lines);
    assert(words =~= history_search::slice_views(parts@));
    let found = choose|hits: Seq<HistoryFuzzyMatchView>|
        {
            &&& #[trigger] may_have_found(
                commands,
                query@,
                query::parsed_query(query@).text,
                hits,
            )
            &&& view@ == listed(commands, lines, hits)
        };
    assert(view@.len() == view.matches@.len());
    assert forall|i: int| 0 <= i < view.matches@.len() implies {
        let entry = #[trigger] view.matches@[i];
        &&& found[i].index < commands.len()
        &&& entry.command@ == commands[found[i].index as int]
        &&& entry.display@ == history::one_line(entry.command@)
        &&& entry.match_ranges@.len() == found[i].indices.len()
        &&& forall|k: int|
            0 <= k < entry.match_ranges@.len() ==> (#[trigger] entry.match_ranges@[k]).0
                == found[i].indices[k] && (found[i].indices[k] < usize::MAX
                ==> entry.match_ranges@[k].1 == found[i].indices[k] + 1)
    } by {
        assert(view@[i] == view.matches@[i]@);
        assert(first_matches(found)[i] == found[i]);
        assert(view@[i] == entry_of(commands, lines, found[i]));
        assert(found[i].index < lines.len());
    }
    if parts@.len() == 0 {
        assert forall|i: int| 0 <= i < found.len() implies (#[trigger] found[i]).index == i as usize
            && found[i].indices.len() == 0 by {}
        (found, Seq::empty(), Seq::empty())
    } else {
        let steps = history_search::lemma_search_comes_of_steps(
            lines,
            query@,
            fuzzy_query@,
            typos as int,
            found,
        );
        (found, steps.0, steps.1)
    }
}

/// An empty query shows every command, in order and with nothing marked.
pub proof fn law_empty_query_shows_everything(
    engine: &HistorySearchEngine,
    query: &str,
    view: HistorySearchView,
)
    requires
        call_ensures(HistorySearchEngine::search, (engine, query), Ok(view)) || call_ensures(
            HistorySearchEngine::try_search,
            (engine, query),
            Some(view),
        ),
        query@.len() == 0,
    ensures
        view.matches@.len() == engine@.len(),
        view.total_matched == engine@.len(),
        forall|i: int|
            0 <= i < view.matches@.len() ==> {
                let entry = #[trigger] view.matches@[i];
                &&& entry.command@ == engine@[i]
                &&& entry.display@ == history::one_line(engine@[i])
                &&& entry.match_ranges@.len() == 0
            },
{
    assert(view@.len() == view.matches@.len());
    assert forall|i: int| 0 <= i < view.matches@.len() implies {
        let entry = #[trigger] view.matches@[i];
        &&& entry.command@ == engine@[i]
        &&& entry.display@ == history::one_line(engine@[i])
        &&& entry.match_ranges@.len() == 0
    } by {
        assert(view@[i] == view.matches@[i]@);
    }
}

/// An engine holds the commands that it was made for.
pub proof fn law_engine_holds_its_commands(
    commands: Vec<String>,
    r: Result<HistorySearchEngine, anyhow::Error>,
)
    requires
        call_ensures(HistorySearchEngine::new, (commands,), r),
    ensures
        r is Ok,
        r->Ok_0@.len() == commands@.len(),
        forall|i: int| 0 <= i < commands@.len() ==> r->Ok_0@[i] == (#[trigger] commands@[i])@,
{
}

/// A query of words of ordinary length has a result in commands that each show
/// something and are not overlong.
pub proof fn law_ordinary_query_has_a_result(
    engine: &HistorySearchEngine,
    query: &str,
    r: Option<HistorySearchView>,
    fuzzy_query: QueryText,
    parts: Vec<&str>,
)
    requires
        call_ensures(HistorySearchEngine::try_search, (engine, query), r),
        call_ensures(fuzzy_text, (query,), fuzzy_query),
        call_ensures(fuzzy_parts, (&fuzzy_query,), parts),
        engine@.len() <= u32::MAX,
        parts@.len() <= u32::MAX,
        forall|i: int|
            0 <= i < engine@.len() ==> 1 <= text::byte_count(
                history::one_line(#[trigger] engine@[i]),
            ) <= 512,
        forall|k: int|
            0 <= k < parts@.len() ==> text::byte_count((#[trigger] parts@[k])@) <= 2977,
    ensures
        r is Some,
{
    let lines = displays(engine@);
    let words = history_search::matched_parts(fuzzy_query@);
    assert(words == history_search::slice_views(parts@));
    assert(words.len() == parts@.len());
    assert forall|i: int| 0 <= i < lines.len() implies 1 <= text::byte_count(#[trigger] lines[i])
        <= 512 by {
        assert(lines[i] == history::one_line(engine@[i]));
    }
    assert forall|k: int| 0 <= k < words.len() implies text::byte_count(#[trigger] words[k])
        <= 2977 by {
        assert(words[k] == parts@[k]@);
    }
    history_search::lemma_ordinary_lines_fit(lines, query@, fuzzy_query@);
}

} // verus!
