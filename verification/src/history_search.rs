//! Fuzzy search in shell history.

use crate::order;
use crate::order::Ranked;
use crate::query::{QueryText, QueryTextView};
use crate::text;
use vstd::multiset::*;
use vstd::prelude::*;
use vstd::relations::*;
use vstd::seq_lib::*;
use vstd::utf8::*;

verus! {

/// How the matcher scores, as far as the search chooses it.
#[derive(Debug, Clone, Copy)]
pub struct FuzzyConfig {
    pub max_typos: u16,
    pub sort: bool,
    pub capitalization_bonus: u16,
    pub matching_case_bonus: u16,
}

/// One match of the matcher: the text that matched, how well, and at which of
/// its characters.
#[derive(Debug, Clone)]
pub struct FuzzyHit {
    pub index: u32,
    pub score: u16,
    pub indices: Vec<usize>,
}

/// The model of a `FuzzyHit`.
#[verifier::ext_equal]
pub struct FuzzyHitView {
    pub index: u32,
    pub score: u16,
    pub indices: Seq<usize>,
}

impl View for FuzzyHit {
    type V = FuzzyHitView;

    open spec fn view(&self) -> FuzzyHitView {
        FuzzyHitView { index: self.index, score: self.score, indices: self.indices@ }
    }
}

/// The models of a list of matches.
pub open spec fn hit_views(hits: Seq<FuzzyHit>) -> Seq<FuzzyHitView> {
    hits.map_values(|h: FuzzyHit| h@)
}

/// The texts of a list of string slices.
pub open spec fn slice_views(v: Seq<&str>) -> Seq<Seq<char>> {
    v.map_values(|s: &str| s@)
}

/// Whether two bytes are the same but for the case of ASCII letters.
pub open spec fn same_letter(a: u8, b: u8) -> bool {
    a == b || (65 <= a <= 90 && b == a + 32) || (65 <= b <= 90 && a == b + 32)
}

/// Whether the penalty for a gap of this many bytes is a 16-bit number. It is
/// five for the first byte and one for each further one, the latter counted in
/// 16 bits.
pub open spec fn gap_fits(gap: int) -> bool {
    gap == 0 || (gap - 1) % 65536 <= 65530
}

/// Whether the penalties for the gaps in a text are 16-bit numbers, where each
/// byte of the needle is taken at its first place behind the one before it. The
/// byte that is due is waited for since `start`; before the first one there is
/// no gap.
pub open spec fn gaps_fit(
    needle: Seq<u8>,
    text: Seq<u8>,
    start: int,
    at: int,
    is_first: bool,
) -> bool
    decreases text.len() - at,
{
    if needle.len() == 0 || at < 0 || at + needle.len() > text.len() {
        true
    } else if same_letter(text[at], needle.first()) {
        &&& is_first || gap_fits(at - start)
        &&& gaps_fit(needle.drop_first(), text, at + 1, at + 1, false)
    } else {
        gaps_fit(needle, text, start, at + 1, is_first)
    }
}

/// The bytes of a needle that stand nowhere in a text, but for the case of ASCII
/// letters.
pub open spec fn missing(needle: Seq<u8>, text: Seq<u8>) -> Seq<u8> {
    needle.filter(|letter: u8| !occurs(letter, text))
}

/// Whether a byte stands in a text, but for the case of ASCII letters.
pub open spec fn occurs(letter: u8, text: Seq<u8>) -> bool {
    exists|i: int| 0 <= i < text.len() && same_letter(#[trigger] text[i], letter)
}

/// Whether the matcher can be asked for this needle in this text. It cannot
/// where the text is empty and the needle is all typos. A text too long for the
/// full alignment is walked from left to right instead: there it cannot where
/// the needle runs past the end of the text, or where a gap is too wide. The walk
/// is not made where the needle is longer than the text and its typos, nor, with
/// up to two typos, where more of its bytes are missing from the text.
pub open spec fn text_fits(needle: Seq<char>, max_typos: int, text: Seq<char>) -> bool {
    let length = text::byte_count(needle);
    let available = text::byte_count(text);
    &&& text.len() == 0 ==> length > max_typos
    &&& available > 512 ==> {
        ||| length > available + max_typos
        ||| max_typos <= 2 && missing(encode_utf8(needle), encode_utf8(text)).len() > max_typos
        ||| length <= available && gaps_fit(encode_utf8(needle), encode_utf8(text), 0, 0, true)
    }
}

/// The places that the matcher may list in a text: those of its bytes, and, in a
/// text short enough for the full alignment, those up to the next multiple of 16.
pub open spec fn place_limit(text: Seq<char>) -> nat {
    let length = text::byte_count(text);
    if length > 512 {
        length
    } else {
        length + 16
    }
}

/// Whether a needle is short enough for its score to stay within 16 bits.
pub open spec fn needle_fits(
    needle: nat,
    capitalization_bonus: u16,
    matching_case_bonus: u16,
) -> bool {
    needle * (14 + capitalization_bonus as int / 2 + matching_case_bonus) <= 65515
}

/// Whether the matcher can be asked for a needle in a list of texts.
pub open spec fn can_be_asked(
    needle: Seq<char>,
    haystacks: Seq<Seq<char>>,
    config: FuzzyConfig,
) -> bool {
    &&& needle_fits(
        text::byte_count(needle),
        config.capitalization_bonus,
        config.matching_case_bonus,
    )
    &&& haystacks.len() <= u32::MAX
    &&& forall|i: int|
        0 <= i < haystacks.len() ==> text_fits(
            needle,
            config.max_typos as int,
            #[trigger] haystacks[i],
        )
}

/// What `neo_frizbee::match_list_indices` finds: a function of its arguments
/// and of the instruction set that the crate detects at run time, for which
/// `cpu` stands. With three or more typos its prefilter lets more texts pass
/// on some instruction sets than on others.
pub uninterp spec fn frizbee_matches(
    cpu: int,
    needle: Seq<char>,
    haystacks: Seq<Seq<char>>,
    max_typos: u16,
    sort: bool,
    capitalization_bonus: u16,
    matching_case_bonus: u16,
) -> Seq<FuzzyHitView>;

/// `neo_frizbee::match_list_indices` matches one needle against a list of
/// texts. Claimed of every outcome: each match is of one of the texts, never
/// of an empty one, and no text matches twice; sorted matches stand by descending score, then by ascending
/// index, and unsorted ones by ascending index; no character of a text is
/// listed twice, and those listed lie within the text, a short text padded to a
/// multiple of 16 bytes. Which texts match, and how they score, is named and
/// left unsaid. Left out are needles and texts on which the crate panics or a
/// score overflows.
#[verifier::external_body]
pub(crate) fn frizbee_match_list(needle: &str, haystacks: &Vec<&str>, config: &FuzzyConfig) -> (r:
    Vec<FuzzyHit>)
    requires
        needle@.len() > 0,
        config.max_typos > 0,
        config.capitalization_bonus <= 8,
        config.matching_case_bonus <= 4,
        can_be_asked(needle@, slice_views(haystacks@), *config),
    ensures
        exists|cpu: int|
            hit_views(r@) == #[trigger] frizbee_matches(
                cpu,
                needle@,
                slice_views(haystacks@),
                config.max_typos,
                config.sort,
                config.capitalization_bonus,
                config.matching_case_bonus,
            ),
        well_listed(hit_views(r@), slice_views(haystacks@), config.sort),
{
    let scoring = neo_frizbee::Scoring {
        capitalization_bonus: config.capitalization_bonus,
        matching_case_bonus: config.matching_case_bonus,
        ..Default::default()
    };
    let config = neo_frizbee::Config {
        max_typos: Some(config.max_typos),
        sort: config.sort,
        scoring,
    };
    neo_frizbee::match_list_indices(needle, haystacks, &config).into_iter().map(
        |m| FuzzyHit { index: m.index, score: m.score, indices: m.indices },
    ).collect()
}

/// What holds of the matches for a list of texts, whatever the matcher found.
pub open spec fn well_listed(
    hits: Seq<FuzzyHitView>,
    haystacks: Seq<Seq<char>>,
    sort: bool,
) -> bool {
    &&& forall|i: int|
        0 <= i < hits.len() ==> {
            &&& (#[trigger] hits[i]).index < haystacks.len()
            &&& haystacks[hits[i].index as int].len() > 0
            &&& hits[i].indices.no_duplicates()
            &&& forall|k: int|
                0 <= k < hits[i].indices.len() ==> (#[trigger] hits[i].indices[k])
                    < place_limit(haystacks[hits[i].index as int])
        }
    &&& forall|i: int, j: int|
        0 <= i < j < hits.len() ==> if sort {
            (#[trigger] hits[i]).score > (#[trigger] hits[j]).score || hits[i].score
                == hits[j].score && hits[i].index < hits[j].index
        } else {
            hits[i].index < hits[j].index
        }
    &&& forall|i: int, j: int|
        0 <= i < j < hits.len() ==> (#[trigger] hits[i]).index != (#[trigger] hits[j]).index
}

/// One entry that a search found: its place in the history, its score, and the
/// characters of its display line that matched.
#[derive(Debug, Clone)]
pub struct HistoryFuzzyMatch {
    pub index: usize,
    pub score: u16,
    pub indices: Vec<usize>,
}

/// The model of a `HistoryFuzzyMatch`.
#[verifier::ext_equal]
pub struct HistoryFuzzyMatchView {
    pub index: usize,
    pub score: u16,
    pub indices: Seq<usize>,
}

impl View for HistoryFuzzyMatch {
    type V = HistoryFuzzyMatchView;

    open spec fn view(&self) -> HistoryFuzzyMatchView {
        HistoryFuzzyMatchView { index: self.index, score: self.score, indices: self.indices@ }
    }
}

/// The models of a list of found entries.
pub open spec fn found_views(matches: Seq<HistoryFuzzyMatch>) -> Seq<HistoryFuzzyMatchView> {
    matches.map_values(|m: HistoryFuzzyMatch| m@)
}

/// Whether one found entry may stand before another: the better score first,
/// and of equal scores the earlier entry.
pub open spec fn ranks_before(a: HistoryFuzzyMatchView, b: HistoryFuzzyMatchView) -> bool {
    a.score > b.score || a.score == b.score && a.index <= b.index
}

impl Ranked for HistoryFuzzyMatch {
    open spec fn le(self, other: Self) -> bool {
        ranks_before(self@, other@)
    }

    proof fn le_total(x: Self, y: Self) {
    }

    proof fn le_transitive(x: Self, y: Self, z: Self) {
    }

    fn at_most(&self, other: &Self) -> (b: bool) {
        self.score > other.score || self.score == other.score && self.index <= other.index
    }
}

/// The order of numbers.
pub open spec fn number_order() -> spec_fn(usize, usize) -> bool {
    |a: usize, b: usize| a <= b
}

/// Numbers in ascending order.
pub open spec fn ascending(s: Seq<usize>) -> Seq<usize> {
    s.sort_by(number_order())
}

/// What a match of the matcher says of a history entry.
pub open spec fn from_hit(hit: FuzzyHitView) -> HistoryFuzzyMatchView {
    HistoryFuzzyMatchView {
        index: hit.index as usize,
        score: hit.score,
        indices: ascending(hit.indices),
    }
}

/// What the matches of the matcher say of history entries.
pub open spec fn from_hits(hits: Seq<FuzzyHitView>) -> Seq<HistoryFuzzyMatchView> {
    hits.map_values(|h: FuzzyHitView| from_hit(h))
}

/// Sorting by the order of numbers is what `ascending` says.
proof fn lemma_ascending(sorted: Seq<usize>, s: Seq<usize>)
    requires
        order::in_order(sorted),
        sorted.to_multiset() == s.to_multiset(),
    ensures
        sorted == ascending(s),
{
    let leq = number_order();
    s.lemma_sort_by_ensures(leq);
    assert(sorted_by(sorted, leq)) by {
        assert forall|i: int, j: int| 0 <= i < j < sorted.len() implies #[trigger] leq(
            sorted[i],
            sorted[j],
        ) by {
            assert(sorted[i].le(sorted[j]));
        }
    }
    lemma_sorted_unique(sorted, ascending(s), leq);
}

/// What a match of the matcher says of a history entry.
pub fn history_match_from_frizbee(item: FuzzyHit) -> (r: HistoryFuzzyMatch)
    ensures
        r@ == from_hit(item@),
{
    let ghost given = item.indices@;
    let indices = order::sort(item.indices);
    proof {
        lemma_ascending(indices@, given);
    }
    HistoryFuzzyMatch { index: item.index as usize, score: item.score, indices }
}

/// What the matches of the matcher say of history entries.
pub fn read_hits(hits: Vec<FuzzyHit>) -> (r: Vec<HistoryFuzzyMatch>)
    ensures
        found_views(r@) == from_hits(hit_views(hits@)),
{
    let mut r: Vec<HistoryFuzzyMatch> = Vec::new();
    for hit in it: hits
        invariant
            it.seq() == hits@,
            r@.len() == it.index(),
            forall|j: int|
                0 <= j < r@.len() ==> (#[trigger] r@[j])@ == from_hit(hit_views(hits@)[j]),
    {
        r.push(history_match_from_frizbee(hit));
    }
    assert(found_views(r@) =~= from_hits(hit_views(hits@)));
    r
}

/// The score of an entry after one more part of the query has matched it: the
/// two scores together, divided by the number of parts.
pub open spec fn combined_score(previous: u16, part: u16, total_parts: int) -> int {
    let mean = (previous + part) / total_parts;
    if mean > u16::MAX {
        u16::MAX as int
    } else {
        mean
    }
}

/// The entry that one more part of the query has matched. It keeps the
/// characters that the first part matched.
pub open spec fn combined(
    previous: HistoryFuzzyMatchView,
    part: FuzzyHitView,
    total_parts: int,
) -> HistoryFuzzyMatchView {
    HistoryFuzzyMatchView {
        index: previous.index,
        score: combined_score(previous.score, part.score, total_parts) as u16,
        indices: previous.indices,
    }
}

/// The entries that one more part of the query has matched.
pub open spec fn all_combined(
    previous: Seq<HistoryFuzzyMatchView>,
    part: Seq<FuzzyHitView>,
    total_parts: int,
) -> Seq<HistoryFuzzyMatchView> {
    part.map_values(
        |h: FuzzyHitView| combined(previous[h.index as int], h, total_parts),
    )
}

/// The entries that one more part of the query has matched, where the matcher
/// was asked for that part in the entries found before.
pub fn combine_matches(
    previous: &Vec<HistoryFuzzyMatch>,
    part_matches: &Vec<FuzzyHit>,
    total_parts: u32,
) -> (r: Vec<HistoryFuzzyMatch>)
    requires
        total_parts > 0,
        forall|i: int|
            0 <= i < part_matches@.len() ==> (#[trigger] part_matches@[i]).index
                < previous@.len(),
    ensures
        found_views(r@) == all_combined(
            found_views(previous@),
            hit_views(part_matches@),
            total_parts as int,
        ),
{
    let ghost want = all_combined(
        found_views(previous@),
        hit_views(part_matches@),
        total_parts as int,
    );
    let mut r: Vec<HistoryFuzzyMatch> = Vec::new();
    let mut i: usize = 0;
    while i < part_matches.len()
        invariant
            i <= part_matches@.len(),
            r@.len() == i,
            total_parts > 0,
            want == all_combined(
                found_views(previous@),
                hit_views(part_matches@),
                total_parts as int,
            ),
            forall|k: int|
                0 <= k < part_matches@.len() ==> (#[trigger] part_matches@[k]).index
                    < previous@.len(),
            forall|j: int| 0 <= j < r@.len() ==> (#[trigger] r@[j])@ == want[j],
        decreases part_matches@.len() - i,
    {
        let part = &part_matches[i];
        let at: usize = part.index as usize;
        let entry = &previous[at];
        let sum: u32 = entry.score as u32 + part.score as u32;
        let mean: u32 = sum / total_parts;
        let score: u16 = if mean > 65535 {
            65535
        } else {
            mean as u16
        };
        let indices = clone_numbers(&entry.indices);
        proof {
            assert(hit_views(part_matches@)[i as int] == part@);
            assert(found_views(previous@)[at as int] == entry@);
            assert(sum as int / total_parts as int == mean);
        }
        r.push(HistoryFuzzyMatch { index: entry.index, score, indices });
        assert(r@[i as int]@ == want[i as int]);
        i = i + 1;
    }
    assert(found_views(r@) =~= want);
    r
}

/// A copy of a list of numbers.
fn clone_numbers(v: &Vec<usize>) -> (r: Vec<usize>)
    ensures
        r@ == v@,
{
    let r = v.clone();
    assert(r@ =~= v@);
    r
}

/// Whether a part of a query is long enough to be matched.
pub open spec fn is_matched(part: Seq<char>) -> bool {
    text::byte_count(part) >= 2
}

/// The parts of a query that are matched: those of two bytes or more.
pub open spec fn matched_parts(query: QueryTextView) -> Seq<Seq<char>> {
    match query {
        QueryTextView::Text(word) => if is_matched(word) {
            seq![word]
        } else {
            Seq::empty()
        },
        QueryTextView::Parts(parts) => parts.filter(|part: Seq<char>| is_matched(part)),
        QueryTextView::Empty => Seq::empty(),
    }
}

/// The parts of a query that are matched.
pub fn fuzzy_parts(query: &QueryText) -> (r: Vec<&str>)
    ensures
        slice_views(r@) == matched_parts(query@),
{
    let mut r: Vec<&str> = Vec::new();
    assert(slice_views(r@) =~= Seq::<Seq<char>>::empty());
    match query {
        QueryText::Text(word) => {
            if text::byte_len(word.as_str()) >= 2 {
                r.push(word.as_str());
                assert(slice_views(r@) =~= seq![word@]);
            }
        },
        QueryText::Parts(parts) => {
            let ghost all = text::string_views(parts@);
            let ghost wanted = |part: Seq<char>| is_matched(part);
            let mut i: usize = 0;
            proof {
                reveal(Seq::filter);
            }
            assert(all.take(0).filter(wanted) =~= Seq::<Seq<char>>::empty());
            while i < parts.len()
                invariant
                    i <= parts@.len(),
                    all == text::string_views(parts@),
                    wanted == (|part: Seq<char>| is_matched(part)),
                    slice_views(r@) == all.take(i as int).filter(wanted),
                decreases parts@.len() - i,
            {
                proof {
                    reveal(Seq::filter);
                    assert(all.take(i + 1).drop_last() =~= all.take(i as int));
                    assert(all.take(i + 1).last() == parts@[i as int]@);
                }
                let part = parts[i].as_str();
                if text::byte_len(part) >= 2 {
                    let ghost before = r@;
                    r.push(part);
                    assert(slice_views(r@) =~= slice_views(before).push(part@));
                }
                i = i + 1;
            }
            assert(all.take(parts@.len() as int) =~= all);
        },
        QueryText::Empty => {},
    }
    r
}

/// How many typos a query may hold: one for every four bytes of the query
/// without the white space around it, at least two and at most six. The number
/// of bytes is counted in 16 bits.
pub open spec fn typo_budget(query: Seq<char>) -> int {
    let quarter = (text::byte_count(text::trimmed(query)) % 65536) / 4;
    if quarter < 2 {
        2
    } else if quarter > 6 {
        6
    } else {
        quarter as int
    }
}

/// How many typos a query may hold.
pub fn max_typos(query: &str) -> (r: u16)
    ensures
        r == typo_budget(query@),
        2 <= r <= 6,
{
    let quarter: usize = (text::byte_len(query.trim()) % 65536) / 4;
    if quarter < 2 {
        2
    } else if quarter > 6 {
        6
    } else {
        quarter as u16
    }
}

/// Whether a text holds a capital.
pub open spec fn has_capital(part: Seq<char>) -> bool {
    exists|i: int| 0 <= i < part.len() && text::is_uppercase_letter(#[trigger] part[i])
}

/// Whether any of the parts holds a capital.
pub open spec fn any_capital(parts: Seq<Seq<char>>) -> bool {
    exists|i: int| 0 <= i < parts.len() && has_capital(#[trigger] parts[i])
}

/// Whether a text holds a capital.
fn holds_capital(part: &str) -> (r: bool)
    ensures
        r == has_capital(part@),
{
    let chars = text::chars_of(part);
    let mut i: usize = 0;
    while i < chars.len()
        invariant
            i <= chars@.len(),
            chars@ == part@,
            forall|j: int| 0 <= j < i ==> !text::is_uppercase_letter(#[trigger] part@[j]),
        decreases chars@.len() - i,
    {
        if chars[i].is_uppercase() {
            assert(text::is_uppercase_letter(part@[i as int]));
            return true;
        }
        i = i + 1;
    }
    false
}

/// Whether any of the parts holds a capital.
pub fn has_uppercase(parts: &Vec<&str>) -> (r: bool)
    ensures
        r == any_capital(slice_views(parts@)),
{
    let mut i: usize = 0;
    while i < parts.len()
        invariant
            i <= parts@.len(),
            forall|j: int| 0 <= j < i ==> !has_capital(#[trigger] slice_views(parts@)[j]),
        decreases parts@.len() - i,
    {
        assert(slice_views(parts@)[i as int] == parts@[i as int]@);
        if holds_capital(parts[i]) {
            return true;
        }
        i = i + 1;
    }
    false
}

/// How the matcher scores: case counts only where the query holds a capital.
pub fn history_fuzzy_config(max_typos: u16, has_uppercase: bool) -> (r: FuzzyConfig)
    ensures
        r == scoring_for(max_typos as int, has_uppercase, false),
{
    FuzzyConfig {
        max_typos,
        sort: false,
        capitalization_bonus: if has_uppercase {
            8
        } else {
            0
        },
        matching_case_bonus: if has_uppercase {
            4
        } else {
            0
        },
    }
}

/// How the matcher scores: case counts only where the query holds a capital.
pub open spec fn scoring_for(max_typos: int, has_uppercase: bool, sort: bool) -> FuzzyConfig {
    FuzzyConfig {
        max_typos: max_typos as u16,
        sort,
        capitalization_bonus: if has_uppercase {
            8
        } else {
            0
        },
        matching_case_bonus: if has_uppercase {
            4
        } else {
            0
        },
    }
}

/// Whether the matcher may have found these for a needle, on some machine.
pub open spec fn may_find(
    needle: Seq<char>,
    haystacks: Seq<Seq<char>>,
    config: FuzzyConfig,
    found: Seq<FuzzyHitView>,
) -> bool {
    &&& exists|cpu: int|
        found == #[trigger] frizbee_matches(
            cpu,
            needle,
            haystacks,
            config.max_typos,
            config.sort,
            config.capitalization_bonus,
            config.matching_case_bonus,
        )
    &&& well_listed(found, haystacks, config.sort)
}

/// How the matcher scores the first part of a query. Where there is no other,
/// it also sorts.
pub open spec fn first_scoring(parts: Seq<Seq<char>>, typos: int) -> FuzzyConfig {
    scoring_for(typos, any_capital(parts), parts.len() == 1)
}

/// The first step of a search: the first part of the query is matched against
/// every line.
pub open spec fn first_step(
    lines: Seq<Seq<char>>,
    parts: Seq<Seq<char>>,
    typos: int,
    hits: Seq<HistoryFuzzyMatchView>,
) -> bool {
    exists|found: Seq<FuzzyHitView>|
        {
            &&& #[trigger] may_find(
                parts[0],
                lines,
                first_scoring(parts, typos),
                found,
            )
            &&& hits == from_hits(found)
        }
}

/// The lines that a list of found entries stands for.
pub open spec fn lines_of(
    lines: Seq<Seq<char>>,
    hits: Seq<HistoryFuzzyMatchView>,
) -> Seq<Seq<char>> {
    hits.map_values(|h: HistoryFuzzyMatchView| lines[h.index as int])
}

/// How many typos a later part may hold: as many as the query, and no more
/// than it has bytes.
pub open spec fn part_typos(typos: int, part: Seq<char>) -> int {
    if text::byte_count(part) < typos {
        text::byte_count(part) as int
    } else {
        typos
    }
}

/// How the matcher scores a later part of a query.
pub open spec fn later_scoring(
    parts: Seq<Seq<char>>,
    typos: int,
    part: Seq<char>,
) -> FuzzyConfig {
    scoring_for(part_typos(typos, part), any_capital(parts), false)
}

/// A later step of a search: one more part of the query is matched against the
/// lines found before. Where none were found, none are found.
pub open spec fn later_step(
    lines: Seq<Seq<char>>,
    parts: Seq<Seq<char>>,
    part: Seq<char>,
    typos: int,
    previous: Seq<HistoryFuzzyMatchView>,
    hits: Seq<HistoryFuzzyMatchView>,
) -> bool {
    if previous.len() == 0 {
        hits.len() == 0
    } else {
        exists|found: Seq<FuzzyHitView>|
            {
                &&& #[trigger] may_find(
                    part,
                    lines_of(lines, previous),
                    later_scoring(parts, typos, part),
                    found,
                )
                &&& hits == all_combined(previous, found, parts.len() as int)
            }
    }
}

/// Whether a search may have these entries after its first `count` parts.
pub open spec fn after_parts(
    lines: Seq<Seq<char>>,
    parts: Seq<Seq<char>>,
    typos: int,
    count: nat,
    hits: Seq<HistoryFuzzyMatchView>,
) -> bool
    decreases count,
{
    if count <= 1 {
        first_step(lines, parts, typos, hits)
    } else {
        exists|previous: Seq<HistoryFuzzyMatchView>|
            {
                &&& after_parts(lines, parts, typos, (count - 1) as nat, previous)
                &&& #[trigger] later_step(lines, parts, parts[count - 1], typos, previous, hits)
            }
    }
}

/// The entries stand by descending score, and of equal scores the earlier
/// entry first.
pub open spec fn is_ranked(hits: Seq<HistoryFuzzyMatchView>) -> bool {
    forall|i: int, j: int|
        0 <= i < j < hits.len() ==> ranks_before(#[trigger] hits[i], #[trigger] hits[j])
}

/// The same entries, ranked.
pub open spec fn is_ranking_of(
    ranked: Seq<HistoryFuzzyMatchView>,
    hits: Seq<HistoryFuzzyMatchView>,
) -> bool {
    &&& ranked.to_multiset() == hits.to_multiset()
    &&& is_ranked(ranked)
}

/// Every line, in order, with no score.
pub open spec fn every_line(lines: Seq<Seq<char>>) -> Seq<HistoryFuzzyMatchView> {
    Seq::new(
        lines.len(),
        |i: int|
            HistoryFuzzyMatchView { index: i as usize, score: 0, indices: Seq::<usize>::empty() },
    )
}

/// Whether a search for a query may find these entries. A query without a part
/// to match finds every line; one part is matched and sorted by the matcher; of
/// more parts each narrows what the ones before it found, and the rest is
/// ranked.
pub open spec fn is_search_result(
    lines: Seq<Seq<char>>,
    query: Seq<char>,
    query_text: QueryTextView,
    hits: Seq<HistoryFuzzyMatchView>,
) -> bool {
    let parts = matched_parts(query_text);
    let typos = typo_budget(query);
    if parts.len() == 0 {
        hits == every_line(lines)
    } else if parts.len() == 1 {
        first_step(lines, parts, typos, hits)
    } else {
        exists|narrowed: Seq<HistoryFuzzyMatchView>|
            {
                &&& #[trigger] after_parts(lines, parts, typos, parts.len(), narrowed)
                &&& is_ranking_of(hits, narrowed)
            }
    }
}

/// Whether a search that has these entries after its first `count` parts comes
/// to a part that the matcher cannot be asked for in their lines. Once a later
/// part has found nothing, no other is asked for.
pub open spec fn gets_stuck(
    lines: Seq<Seq<char>>,
    parts: Seq<Seq<char>>,
    typos: int,
    count: nat,
    hits: Seq<HistoryFuzzyMatchView>,
) -> bool {
    &&& 1 <= count < parts.len()
    &&& after_parts(lines, parts, typos, count, hits)
    &&& count == 1 || hits.len() > 0
    &&& !can_be_asked(
        parts[count as int],
        lines_of(lines, hits),
        later_scoring(parts, typos, parts[count as int]),
    )
}

/// Whether a search for these parts comes to its end, whatever the matcher finds
/// on the way.
pub open spec fn never_stuck(
    lines: Seq<Seq<char>>,
    parts: Seq<Seq<char>>,
    typos: int,
) -> bool {
    &&& parts.len() <= u32::MAX
    &&& can_be_asked(parts[0], lines, first_scoring(parts, typos))
    &&& forall|count: nat, hits: Seq<HistoryFuzzyMatchView>|
        !(#[trigger] gets_stuck(lines, parts, typos, count, hits))
}

/// Whether a query can be searched for in these lines: the matcher can be asked
/// for its first part in all of them, and for each later part in those that it
/// may have found before.
pub open spec fn is_searchable(
    lines: Seq<Seq<char>>,
    query: Seq<char>,
    query_text: QueryTextView,
) -> bool {
    let parts = matched_parts(query_text);
    parts.len() > 0 ==> never_stuck(lines, parts, typo_budget(query))
}

/// Whether the matcher can be asked for every part of a query in every line that
/// may come to it.
pub open spec fn fits_every_line(
    lines: Seq<Seq<char>>,
    query: Seq<char>,
    query_text: QueryTextView,
) -> bool {
    let parts = matched_parts(query_text);
    parts.len() > 0 ==> parts_fit(lines, parts, typo_budget(query))
}

/// Whether the matcher can be asked for the first of these parts in every line,
/// and for the others in every line that is not blank.
pub open spec fn parts_fit(
    lines: Seq<Seq<char>>,
    parts: Seq<Seq<char>>,
    typos: int,
) -> bool {
    let scoring = scoring_for(typos, any_capital(parts), false);
    &&& lines.len() <= u32::MAX
    &&& parts.len() <= u32::MAX
    &&& forall|k: int|
        0 <= k < parts.len() ==> needle_fits(
            text::byte_count(#[trigger] parts[k]),
            scoring.capitalization_bonus,
            scoring.matching_case_bonus,
        )
    &&& forall|i: int|
        0 <= i < lines.len() ==> text_fits(parts[0], typos, #[trigger] lines[i])
    &&& forall|i: int, k: int|
        0 <= i < lines.len() && 1 <= k < parts.len() && (#[trigger] lines[i]).len() > 0
            ==> text_fits(#[trigger] parts[k], typos, lines[i])
}

/// What holds of the entries that a search found, whatever the matcher found:
/// each is one of the lines, none is listed twice, and the characters that
/// matched stand in ascending order, within the line, a short line padded to a
/// multiple of 16 bytes.
pub open spec fn well_found(lines: Seq<Seq<char>>, hits: Seq<HistoryFuzzyMatchView>) -> bool {
    &&& forall|i: int|
        0 <= i < hits.len() ==> {
            &&& (#[trigger] hits[i]).index < lines.len()
            &&& forall|k: int, l: int|
                0 <= k < l < hits[i].indices.len() ==> #[trigger] hits[i].indices[k]
                    < #[trigger] hits[i].indices[l]
            &&& forall|k: int|
                0 <= k < hits[i].indices.len() ==> (#[trigger] hits[i].indices[k])
                    < place_limit(lines[hits[i].index as int])
        }
    &&& forall|i: int, j: int|
        0 <= i < j < hits.len() ==> (#[trigger] hits[i]).index != (#[trigger] hits[j]).index
}

/// The entries stand in the order of the lines.
spec fn in_line_order(hits: Seq<HistoryFuzzyMatchView>) -> bool {
    forall|i: int, j: int|
        0 <= i < j < hits.len() ==> (#[trigger] hits[i]).index < (#[trigger] hits[j]).index
}

/// Sorting numbers that differ makes them strictly ascending, and adds none.
proof fn lemma_ascending_strict(s: Seq<usize>)
    requires
        s.no_duplicates(),
    ensures
        forall|k: int, l: int|
            0 <= k < l < ascending(s).len() ==> #[trigger] ascending(s)[k] < #[trigger] ascending(
                s,
            )[l],
        forall|k: int| 0 <= k < ascending(s).len() ==> s.contains(#[trigger] ascending(s)[k]),
{
    let leq = number_order();
    let sorted = ascending(s);
    s.lemma_sort_by_ensures(leq);
    s.lemma_multiset_has_no_duplicates();
    sorted.lemma_multiset_has_no_duplicates_conv();
    assert forall|k: int| 0 <= k < sorted.len() implies s.contains(#[trigger] sorted[k]) by {
        assert(sorted.contains(sorted[k]));
    }
    assert forall|k: int, l: int| 0 <= k < l < sorted.len() implies #[trigger] sorted[k]
        < #[trigger] sorted[l] by {
        assert(leq(sorted[k], sorted[l]));
        assert(sorted[k] != sorted[l]);
    }
}

/// What the first step finds is well found.
proof fn lemma_first_step_found(lines: Seq<Seq<char>>, found: Seq<FuzzyHitView>, sort: bool)
    requires
        well_listed(found, lines, sort),
    ensures
        well_found(lines, from_hits(found)),
        !sort ==> in_line_order(from_hits(found)),
        sort ==> is_ranked(from_hits(found)),
        forall|i: int|
            0 <= i < found.len() ==> lines[(#[trigger] from_hits(found)[i]).index as int].len() > 0,
{
    let hits = from_hits(found);
    assert forall|i: int| 0 <= i < hits.len() implies {
        &&& (#[trigger] hits[i]).index < lines.len()
        &&& lines[hits[i].index as int].len() > 0
        &&& forall|k: int, l: int|
            0 <= k < l < hits[i].indices.len() ==> #[trigger] hits[i].indices[k]
                < #[trigger] hits[i].indices[l]
        &&& forall|k: int|
            0 <= k < hits[i].indices.len() ==> (#[trigger] hits[i].indices[k]) < place_limit(
                lines[hits[i].index as int],
            )
    } by {
        assert(hits[i] == from_hit(found[i]));
        lemma_ascending_strict(found[i].indices);
        assert forall|k: int| 0 <= k < hits[i].indices.len() implies (
        #[trigger] hits[i].indices[k]) < place_limit(lines[hits[i].index as int]) by {
            let x = ascending(found[i].indices)[k];
            assert(found[i].indices.contains(x));
        }
    }
    assert forall|i: int, j: int| 0 <= i < j < hits.len() implies (#[trigger] hits[i]).index != (
    #[trigger] hits[j]).index && (!sort ==> hits[i].index < hits[j].index) && (sort ==> ranks_before(
        hits[i],
        hits[j],
    )) by {
        assert(hits[i] == from_hit(found[i]));
        assert(hits[j] == from_hit(found[j]));
    }
}

/// What a later step finds is well found, and stands in the order of the lines.
proof fn lemma_later_step_found(
    lines: Seq<Seq<char>>,
    previous: Seq<HistoryFuzzyMatchView>,
    found: Seq<FuzzyHitView>,
    total_parts: int,
)
    requires
        well_found(lines, previous),
        in_line_order(previous),
        well_listed(found, lines_of(lines, previous), false),
    ensures
        well_found(lines, all_combined(previous, found, total_parts)),
        in_line_order(all_combined(previous, found, total_parts)),
        forall|i: int|
            0 <= i < found.len() ==> lines[(#[trigger] all_combined(
                previous,
                found,
                total_parts,
            )[i]).index as int].len() > 0,
{
    let hits = all_combined(previous, found, total_parts);
    assert forall|i: int| 0 <= i < hits.len() implies {
        &&& (#[trigger] hits[i]).index == previous[found[i].index as int].index
        &&& hits[i].indices == previous[found[i].index as int].indices
        &&& lines[hits[i].index as int].len() > 0
        &&& found[i].index < previous.len()
    } by {
        assert(hits[i] == combined(previous[found[i].index as int], found[i], total_parts));
        assert(lines_of(lines, previous)[found[i].index as int]
            == lines[previous[found[i].index as int].index as int]);
    }
    assert forall|i: int, j: int| 0 <= i < j < hits.len() implies (#[trigger] hits[i]).index < (
    #[trigger] hits[j]).index by {
        assert(found[i].index < found[j].index);
        assert(previous[found[i].index as int].index < previous[found[j].index as int].index);
    }
}

/// A step takes a search from its first `count` parts to one more.
proof fn lemma_one_more_part(
    lines: Seq<Seq<char>>,
    parts: Seq<Seq<char>>,
    typos: int,
    count: nat,
    previous: Seq<HistoryFuzzyMatchView>,
    hits: Seq<HistoryFuzzyMatchView>,
)
    requires
        count >= 1,
        after_parts(lines, parts, typos, count, previous),
        later_step(lines, parts, parts[count as int], typos, previous, hits),
    ensures
        after_parts(lines, parts, typos, (count + 1) as nat, hits),
{
    let next = (count + 1) as nat;
    assert((next - 1) as nat == count);
    assert(later_step(lines, parts, parts[next - 1], typos, previous, hits));
}

/// Once nothing is left, later parts find nothing.
proof fn lemma_nothing_left(
    lines: Seq<Seq<char>>,
    parts: Seq<Seq<char>>,
    typos: int,
    from: nat,
    to: nat,
)
    requires
        1 <= from <= to,
        after_parts(lines, parts, typos, from, Seq::empty()),
    ensures
        after_parts(lines, parts, typos, to, Seq::empty()),
    decreases to - from,
{
    if from < to {
        let none = Seq::<HistoryFuzzyMatchView>::empty();
        assert(later_step(lines, parts, parts[from as int], typos, none, none));
        lemma_one_more_part(lines, parts, typos, from, none, none);
        lemma_nothing_left(lines, parts, typos, (from + 1) as nat, to);
    }
}

/// Lists with the same members have models with the same members.
proof fn lemma_same_members(a: Seq<HistoryFuzzyMatch>, b: Seq<HistoryFuzzyMatch>)
    requires
        a.to_multiset() == b.to_multiset(),
    ensures
        found_views(a).to_multiset() == found_views(b).to_multiset(),
    decreases a.len(),
{
    broadcast use group_to_multiset_ensures;

    assert(a.len() == a.to_multiset().len());
    assert(b.len() == b.to_multiset().len());
    if a.len() == 0 {
        assert(found_views(a) =~= found_views(b));
    } else {
        let x = a.last();
        assert(a[a.len() - 1] == x);
        assert(a.to_multiset().count(x) > 0);
        assert(b.to_multiset().count(x) > 0);
        assert(b.contains(x));
        let k = choose|k: int| 0 <= k < b.len() && b[k] == x;
        let a1 = a.drop_last();
        let b1 = b.remove(k);
        assert(a =~= a1.push(x));
        assert(a1.to_multiset() =~= a.to_multiset().remove(x));
        assert(b1.to_multiset() =~= b.to_multiset().remove(x));
        lemma_same_members(a1, b1);
        assert(found_views(a) =~= found_views(a1).push(x@));
        assert(found_views(b1) =~= found_views(b).remove(k));
        assert(found_views(b)[k] == x@);
        assert(found_views(b).to_multiset() =~= found_views(b1).to_multiset().insert(x@));
        assert(found_views(a).to_multiset() =~= found_views(a1).to_multiset().insert(x@));
    }
}

/// Ranking adds no entry and lists none twice.
proof fn lemma_ranking_found(
    lines: Seq<Seq<char>>,
    ranked: Seq<HistoryFuzzyMatchView>,
    hits: Seq<HistoryFuzzyMatchView>,
)
    requires
        well_found(lines, hits),
        ranked.to_multiset() == hits.to_multiset(),
    ensures
        well_found(lines, ranked),
{
    broadcast use group_to_multiset_ensures;

    assert forall|i: int| 0 <= i < ranked.len() implies hits.contains(#[trigger] ranked[i]) by {
        assert(ranked.contains(ranked[i]));
        assert(ranked.to_multiset().count(ranked[i]) > 0);
    }
    assert(hits.no_duplicates());
    hits.lemma_multiset_has_no_duplicates();
    ranked.lemma_multiset_has_no_duplicates_conv();
    assert forall|i: int, j: int| 0 <= i < j < ranked.len() implies (#[trigger] ranked[i]).index
        != (#[trigger] ranked[j]).index by {
        assert(ranked[i] != ranked[j]);
        assert(hits.contains(ranked[i]));
        assert(hits.contains(ranked[j]));
        let p = choose|p: int| 0 <= p < hits.len() && hits[p] == ranked[i];
        let q = choose|q: int| 0 <= q < hits.len() && hits[q] == ranked[j];
        if p < q {
            assert(hits[p].index != hits[q].index);
        } else {
            assert(hits[q].index != hits[p].index);
        }
    }
    assert forall|i: int| 0 <= i < ranked.len() implies {
        &&& (#[trigger] ranked[i]).index < lines.len()
        &&& forall|k: int, l: int|
            0 <= k < l < ranked[i].indices.len() ==> #[trigger] ranked[i].indices[k]
                < #[trigger] ranked[i].indices[l]
        &&& forall|k: int|
            0 <= k < ranked[i].indices.len() ==> (#[trigger] ranked[i].indices[k])
                < place_limit(lines[ranked[i].index as int])
    } by {
        assert(hits.contains(ranked[i]));
        let p = choose|p: int| 0 <= p < hits.len() && hits[p] == ranked[i];
        assert(hits[p].index < lines.len());
    }
}

/// The entries by rank.
pub fn rank_matches(matches: Vec<HistoryFuzzyMatch>) -> (r: Vec<HistoryFuzzyMatch>)
    ensures
        is_ranking_of(found_views(r@), found_views(matches@)),
{
    let r = order::sort(matches);
    proof {
        lemma_same_members(r@, matches@);
        assert forall|i: int, j: int| 0 <= i < j < found_views(r@).len() implies ranks_before(
            #[trigger] found_views(r@)[i],
            #[trigger] found_views(r@)[j],
        ) by {
            assert(r@[i].le(r@[j]));
        }
    }
    r
}

/// Every line, in order, with no score.
fn all_lines(count: usize) -> (r: Vec<HistoryFuzzyMatch>)
    ensures
        forall|lines: Seq<Seq<char>>|
            lines.len() == count ==> found_views(r@) == #[trigger] every_line(lines),
{
    let mut r: Vec<HistoryFuzzyMatch> = Vec::new();
    let mut i: usize = 0;
    while i < count
        invariant
            i <= count,
            r@.len() == i,
            forall|j: int|
                0 <= j < i ==> (#[trigger] r@[j])@ == (HistoryFuzzyMatchView {
                    index: j as usize,
                    score: 0,
                    indices: Seq::<usize>::empty(),
                }),
        decreases count - i,
    {
        r.push(HistoryFuzzyMatch { index: i, score: 0, indices: Vec::new() });
        i = i + 1;
    }
    assert forall|lines: Seq<Seq<char>>| lines.len() == count implies found_views(r@)
        == #[trigger] every_line(lines) by {
        assert(found_views(r@) =~= every_line(lines));
    }
    r
}

/// The lines as slices.
fn slices_of(lines: &Vec<String>) -> (r: Vec<&str>)
    ensures
        slice_views(r@) == text::string_views(lines@),
{
    let mut r: Vec<&str> = Vec::new();
    let mut i: usize = 0;
    while i < lines.len()
        invariant
            i <= lines@.len(),
            r@.len() == i,
            forall|j: int| 0 <= j < i ==> (#[trigger] r@[j])@ == lines@[j]@,
        decreases lines@.len() - i,
    {
        r.push(lines[i].as_str());
        i = i + 1;
    }
    assert(slice_views(r@) =~= text::string_views(lines@));
    r
}

/// The slices that a list of found entries stands for.
fn slices_found<'a>(lines: &Vec<&'a str>, matches: &Vec<HistoryFuzzyMatch>) -> (r: Vec<&'a str>)
    requires
        well_found(slice_views(lines@), found_views(matches@)),
    ensures
        slice_views(r@) == lines_of(slice_views(lines@), found_views(matches@)),
{
    let mut r: Vec<&'a str> = Vec::new();
    let mut i: usize = 0;
    while i < matches.len()
        invariant
            well_found(slice_views(lines@), found_views(matches@)),
            i <= matches@.len(),
            r@.len() == i,
            forall|j: int|
                0 <= j < i ==> (#[trigger] r@[j])@ == lines_of(
                    slice_views(lines@),
                    found_views(matches@),
                )[j],
        decreases matches@.len() - i,
    {
        assert(found_views(matches@)[i as int] == matches@[i as int]@);
        r.push(lines[matches[i].index]);
        i = i + 1;
    }
    assert(slice_views(r@) =~= lines_of(slice_views(lines@), found_views(matches@)));
    r
}

/// Whether two bytes are the same but for the case of ASCII letters.
fn is_same_letter(a: u8, b: u8) -> (r: bool)
    ensures
        r == same_letter(a, b),
{
    if a == b {
        true
    } else if 65 <= a && a <= 90 {
        b == a + 32
    } else {
        65 <= b && b <= 90 && a == b + 32
    }
}

/// Whether the penalty for a gap of this many bytes is a 16-bit number.
fn is_fitting_gap(gap: usize) -> (r: bool)
    ensures
        r == gap_fits(gap as int),
{
    gap == 0 || (gap - 1) % 65536 <= 65530
}

/// Whether the penalties for the gaps in a text are 16-bit numbers.
fn walk_gaps(needle: &[u8], text: &[u8]) -> (r: bool)
    ensures
        r == gaps_fit(needle@, text@, 0, 0, true),
{
    let mut k: usize = 0;
    let mut start: usize = 0;
    let mut at: usize = 0;
    assert(needle@.skip(0) =~= needle@);
    while k < needle.len() && at < text.len() && needle.len() - k <= text.len() - at
        invariant
            k <= needle@.len(),
            start <= at <= text@.len(),
            gaps_fit(needle@, text@, 0, 0, true) == gaps_fit(
                needle@.skip(k as int),
                text@,
                start as int,
                at as int,
                k == 0,
            ),
        decreases text@.len() - at,
    {
        let ghost rest = needle@.skip(k as int);
        assert(rest.first() == needle@[k as int]);
        assert(rest.drop_first() =~= needle@.skip(k + 1));
        if is_same_letter(text[at], needle[k]) {
            if k > 0 && !is_fitting_gap(at - start) {
                return false;
            }
            k = k + 1;
            start = at + 1;
        }
        at = at + 1;
    }
    true
}

/// Whether a byte stands in a text, but for the case of ASCII letters.
fn has_letter(letter: u8, text: &[u8]) -> (r: bool)
    ensures
        r == occurs(letter, text@),
{
    let mut i: usize = 0;
    while i < text.len()
        invariant
            i <= text@.len(),
            forall|j: int| 0 <= j < i ==> !same_letter(#[trigger] text@[j], letter),
        decreases text@.len() - i,
    {
        if is_same_letter(text[i], letter) {
            return true;
        }
        i = i + 1;
    }
    false
}

/// How many bytes of a needle stand nowhere in a text.
fn count_missing(needle: &[u8], text: &[u8]) -> (r: usize)
    ensures
        r == missing(needle@, text@).len(),
{
    let ghost is_missing = |letter: u8| !occurs(letter, text@);
    let mut count: usize = 0;
    let mut i: usize = 0;
    proof {
        reveal(Seq::filter);
    }
    while i < needle.len()
        invariant
            i <= needle@.len(),
            count <= i,
            is_missing == (|letter: u8| !occurs(letter, text@)),
            count == needle@.take(i as int).filter(is_missing).len(),
        decreases needle@.len() - i,
    {
        proof {
            reveal(Seq::filter);
            assert(needle@.take(i + 1).drop_last() =~= needle@.take(i as int));
        }
        if !has_letter(needle[i], text) {
            count = count + 1;
        }
        i = i + 1;
    }
    assert(needle@.take(needle@.len() as int) =~= needle@);
    count
}

/// Whether the matcher can be asked for a needle in a line.
pub(crate) fn line_fits(needle: &str, typos: u16, line: &str) -> (r: bool)
    ensures
        r == text_fits(needle@, typos as int, line@),
{
    let length: usize = text::byte_len(needle);
    let available: usize = text::byte_len(line);
    if line.is_empty() && length <= typos as usize {
        return false;
    }
    if available <= 512 || length > available && length - available > typos as usize {
        return true;
    }
    if length <= available && walk_gaps(needle.as_bytes(), line.as_bytes()) {
        return true;
    }
    typos <= 2 && count_missing(needle.as_bytes(), line.as_bytes()) > typos as usize
}

/// Whether the score of a needle of this many bytes stays within 16 bits.
pub(crate) fn word_fits(needle: usize, config: &FuzzyConfig) -> (r: bool)
    requires
        config.capitalization_bonus <= 8,
        config.matching_case_bonus <= 4,
    ensures
        r == needle_fits(
            needle as nat,
            config.capitalization_bonus,
            config.matching_case_bonus,
        ),
{
    let each: usize = 14 + config.capitalization_bonus as usize / 2
        + config.matching_case_bonus as usize;
    assert(needle * each <= 65515 <==> needle <= 65515usize / each) by (nonlinear_arith)
        requires
            each > 0,
    ;
    needle <= 65515 / each
}

/// Whether the matcher can be asked for a needle in a list of texts.
pub fn can_ask_for(needle: &str, haystacks: &Vec<&str>, config: &FuzzyConfig) -> (r: bool)
    requires
        config.capitalization_bonus <= 8,
        config.matching_case_bonus <= 4,
    ensures
        r == can_be_asked(needle@, slice_views(haystacks@), *config),
{
    let ghost texts = slice_views(haystacks@);
    if !word_fits(text::byte_len(needle), config) || haystacks.len() > 0xffff_ffff {
        return false;
    }
    let mut i: usize = 0;
    while i < haystacks.len()
        invariant
            i <= haystacks@.len(),
            texts == slice_views(haystacks@),
            forall|j: int|
                0 <= j < i ==> text_fits(
                    needle@,
                    config.max_typos as int,
                    #[trigger] texts[j],
                ),
        decreases haystacks@.len() - i,
    {
        if !line_fits(needle, config.max_typos, haystacks[i]) {
            assert(!text_fits(needle@, config.max_typos as int, texts[i as int]));
            return false;
        }
        i = i + 1;
    }
    true
}

/// Searches the display lines for the fuzzy text of a query, as long as the
/// matcher can be asked for its parts in the lines found so far.
pub fn try_history_fuzzy_matches(
    display_lines: &Vec<String>,
    query: &str,
    fuzzy_query: &QueryText,
) -> (r: Option<Vec<HistoryFuzzyMatch>>)
    ensures
        r is None ==> !is_searchable(
            text::string_views(display_lines@),
            query@,
            fuzzy_query@,
        ),
        r matches Some(found) ==> {
            &&& is_search_result(
                text::string_views(display_lines@),
                query@,
                fuzzy_query@,
                found_views(found@),
            )
            &&& well_found(text::string_views(display_lines@), found_views(found@))
            &&& matched_parts(fuzzy_query@).len() > 0 ==> is_ranked(found_views(found@))
        },
{
    let ghost lines = text::string_views(display_lines@);
    let parts = fuzzy_parts(fuzzy_query);
    let ghost words = slice_views(parts@);
    if parts.is_empty() {
        let r = all_lines(display_lines.len());
        assert(found_views(r@) == every_line(lines));
        return Some(r);
    }
    let typos: u16 = max_typos(query);
    let upper: bool = has_uppercase(&parts);
    let haystacks = slices_of(display_lines);
    let mut config = history_fuzzy_config(typos, upper);
    config.sort = parts.len() == 1;
    assert(words[0] == parts@[0]@);
    proof {
        lemma_parts_nonempty(fuzzy_query@);
    }
    if parts.len() > 0xffff_ffff || !can_ask_for(parts[0], &haystacks, &config) {
        return None;
    }
    let found = frizbee_match_list(parts[0], &haystacks, &config);
    let ghost first = hit_views(found@);
    let mut matches = read_hits(found);
    proof {
        assert(may_find(words[0], lines, first_scoring(words, typos as int), first));
        assert(first_step(lines, words, typos as int, found_views(matches@)));
        lemma_first_step_found(lines, first, config.sort);
    }
    if parts.len() > 1 {
        let total_parts: u32 = parts.len() as u32;
        config.sort = false;
        let mut k: usize = 1;
        while k < parts.len()
            invariant
                1 <= k <= parts@.len(),
                parts@.len() > 1,
                words == slice_views(parts@),
                lines == slice_views(haystacks@),
                k == 1 || matches@.len() > 0,
                2 <= typos,
                total_parts == parts@.len(),
                upper == any_capital(words),
                typos as int == typo_budget(query@),
                words == matched_parts(fuzzy_query@),
                lines == text::string_views(display_lines@),
                config.sort == false,
                config.capitalization_bonus == scoring_for(
                    typos as int,
                    upper,
                    false,
                ).capitalization_bonus,
                config.matching_case_bonus == scoring_for(
                    typos as int,
                    upper,
                    false,
                ).matching_case_bonus,
                forall|i: int| 0 <= i < words.len() ==> is_matched(#[trigger] words[i]),
                after_parts(lines, words, typos as int, k as nat, found_views(matches@)),
                well_found(lines, found_views(matches@)),
                in_line_order(found_views(matches@)),
            decreases parts@.len() - k,
        {
            let part: &str = parts[k];
            assert(words[k as int] == part@);
            assert(is_matched(words[k as int]));
            let length: usize = text::byte_len(part);
            config.max_typos = if length < typos as usize {
                length as u16
            } else {
                typos
            };
            let subset = slices_found(&haystacks, &matches);
            let ghost previous = found_views(matches@);
            proof {
                lemma_word_nonempty(part@);
            }
            assert(config == later_scoring(words, typos as int, words[k as int]));
            if !can_ask_for(part, &subset, &config) {
                assert(gets_stuck(lines, words, typos as int, k as nat, previous));
                return None;
            }
            let part_matches = frizbee_match_list(part, &subset, &config);
            let ghost now = hit_views(part_matches@);
            proof {
                assert(may_find(
                    words[k as int],
                    lines_of(lines, previous),
                    later_scoring(words, typos as int, words[k as int]),
                    now,
                ));
                lemma_later_step_found(lines, previous, now, total_parts as int);
                if previous.len() == 0 && now.len() > 0 {
                    assert(now[0].index < slice_views(subset@).len());
                }
                assert(later_step(
                    lines,
                    words,
                    words[k as int],
                    typos as int,
                    previous,
                    all_combined(previous, now, words.len() as int),
                ));
                lemma_one_more_part(
                    lines,
                    words,
                    typos as int,
                    k as nat,
                    previous,
                    all_combined(previous, now, words.len() as int),
                );
            }
            if part_matches.is_empty() {
                let none: Vec<HistoryFuzzyMatch> = Vec::new();
                proof {
                    let nothing = Seq::<HistoryFuzzyMatchView>::empty();
                    assert(all_combined(previous, now, words.len() as int) =~= nothing);
                    lemma_nothing_left(lines, words, typos as int, (k + 1) as nat, words.len());
                    assert(found_views(none@) =~= nothing);
                    assert(is_ranking_of(nothing, nothing));
                }
                return Some(none);
            }
            proof {
                assert forall|i: int| 0 <= i < part_matches@.len() implies (
                #[trigger] part_matches@[i]).index < matches@.len() by {
                    assert(now[i] == part_matches@[i]@);
                    assert(now[i].index < slice_views(subset@).len());
                }
            }
            matches = combine_matches(&matches, &part_matches, total_parts);
            k = k + 1;
        }
        let ghost narrowed = found_views(matches@);
        matches = rank_matches(matches);
        proof {
            lemma_ranking_found(lines, found_views(matches@), narrowed);
        }
    }
    Some(matches)
}

/// Searches the display lines for the fuzzy text of a query.
pub fn history_fuzzy_matches(
    display_lines: &Vec<String>,
    query: &str,
    fuzzy_query: &QueryText,
) -> (r: Vec<HistoryFuzzyMatch>)
    requires
        is_searchable(text::string_views(display_lines@), query@, fuzzy_query@),
    ensures
        is_search_result(
            text::string_views(display_lines@),
            query@,
            fuzzy_query@,
            found_views(r@),
        ),
        well_found(text::string_views(display_lines@), found_views(r@)),
        matched_parts(fuzzy_query@).len() > 0 ==> is_ranked(found_views(r@)),
{
    try_history_fuzzy_matches(display_lines, query, fuzzy_query).unwrap()
}

/// A text of two bytes or more holds a character.
proof fn lemma_word_nonempty(part: Seq<char>)
    requires
        is_matched(part),
    ensures
        part.len() > 0,
{
}

/// The parts of a query that are matched are those that are long enough.
proof fn lemma_parts_nonempty(query: QueryTextView)
    ensures
        forall|i: int|
            0 <= i < matched_parts(query).len() ==> {
                &&& is_matched(#[trigger] matched_parts(query)[i])
                &&& matched_parts(query)[i].len() > 0
            },
{
    if let QueryTextView::Parts(parts) = query {
        broadcast use group_filter_ensures;

        let wanted = |part: Seq<char>| is_matched(part);
        assert forall|i: int| 0 <= i < matched_parts(query).len() implies {
            &&& is_matched(#[trigger] matched_parts(query)[i])
            &&& matched_parts(query)[i].len() > 0
        } by {
            assert(wanted(parts.filter(wanted)[i]));
            lemma_word_nonempty(parts.filter(wanted)[i]);
        }
    } else {
        assert forall|i: int| 0 <= i < matched_parts(query).len() implies {
            &&& is_matched(#[trigger] matched_parts(query)[i])
            &&& matched_parts(query)[i].len() > 0
        } by {
            lemma_word_nonempty(matched_parts(query)[i]);
        }
    }
}

/// Entries in the order of the lines are no more than the lines.
proof fn lemma_line_order_count(lines: Seq<Seq<char>>, hits: Seq<HistoryFuzzyMatchView>)
    requires
        well_found(lines, hits),
        in_line_order(hits),
    ensures
        hits.len() <= lines.len(),
{
    lemma_line_order_index(hits, hits.len());
    if hits.len() > 0 {
        assert(hits[hits.len() - 1].index < lines.len());
    }
}

/// The place of an entry in the order of the lines is at least its place in the list.
proof fn lemma_line_order_index(hits: Seq<HistoryFuzzyMatchView>, count: nat)
    requires
        in_line_order(hits),
        count <= hits.len(),
    ensures
        forall|i: int| 0 <= i < count ==> i <= (#[trigger] hits[i]).index,
    decreases count,
{
    if count > 0 {
        lemma_line_order_index(hits, (count - 1) as nat);
        if count > 1 {
            assert(hits[count - 2].index < hits[count - 1].index);
        }
    }
}

/// What a search of several parts has on the way is well found, stands in the
/// order of the lines, and holds no blank line.
proof fn lemma_after_parts_found(
    lines: Seq<Seq<char>>,
    parts: Seq<Seq<char>>,
    typos: int,
    count: nat,
    hits: Seq<HistoryFuzzyMatchView>,
)
    requires
        parts.len() > 1,
        count >= 1,
        after_parts(lines, parts, typos, count, hits),
    ensures
        well_found(lines, hits),
        in_line_order(hits),
        forall|i: int|
            0 <= i < hits.len() ==> lines[(#[trigger] hits[i]).index as int].len() > 0,
    decreases count,
{
    if count == 1 {
        let found = choose|found: Seq<FuzzyHitView>|
            {
                &&& #[trigger] may_find(parts[0], lines, first_scoring(parts, typos), found)
                &&& hits == from_hits(found)
            };
        lemma_first_step_found(lines, found, false);
    } else {
        let previous = choose|previous: Seq<HistoryFuzzyMatchView>|
            {
                &&& after_parts(lines, parts, typos, (count - 1) as nat, previous)
                &&& #[trigger] later_step(lines, parts, parts[count - 1], typos, previous, hits)
            };
        lemma_after_parts_found(lines, parts, typos, (count - 1) as nat, previous);
        if previous.len() > 0 {
            let part = parts[count - 1];
            let found = choose|found: Seq<FuzzyHitView>|
                {
                    &&& #[trigger] may_find(
                        part,
                        lines_of(lines, previous),
                        later_scoring(parts, typos, part),
                        found,
                    )
                    &&& hits == all_combined(previous, found, parts.len() as int)
                };
            lemma_later_step_found(lines, previous, found, parts.len() as int);
        }
    }
}

/// A query whose parts the matcher can be asked for in every line can be
/// searched for, whatever its parts find.
pub proof fn law_fitting_query_is_searchable(
    lines: Seq<Seq<char>>,
    query: Seq<char>,
    query_text: QueryTextView,
)
    requires
        fits_every_line(lines, query, query_text),
    ensures
        is_searchable(lines, query, query_text),
{
    let parts = matched_parts(query_text);
    let typos = typo_budget(query);
    if parts.len() > 0 {
        assert forall|count: nat, hits: Seq<HistoryFuzzyMatchView>|
            !(#[trigger] gets_stuck(lines, parts, typos, count, hits)) by {
            if 1 <= count < parts.len() && after_parts(lines, parts, typos, count, hits) {
                let part = parts[count as int];
                let haystacks = lines_of(lines, hits);
                let scoring = later_scoring(parts, typos, part);
                lemma_after_parts_found(lines, parts, typos, count, hits);
                lemma_line_order_count(lines, hits);
                assert forall|i: int| 0 <= i < haystacks.len() implies text_fits(
                    part,
                    scoring.max_typos as int,
                    #[trigger] haystacks[i],
                ) by {
                    let at = hits[i].index as int;
                    assert(haystacks[i] == lines[at]);
                    assert(text_fits(part, typos, lines[at]));
                }
                assert(can_be_asked(part, haystacks, scoring));
            }
        }
    }
}

/// Each further word of a query narrows the search: what is found with it was
/// found without it.
pub proof fn law_words_narrow(
    lines: Seq<Seq<char>>,
    parts: Seq<Seq<char>>,
    typos: int,
    count: nat,
    hits: Seq<HistoryFuzzyMatchView>,
)
    requires
        count >= 1,
        after_parts(lines, parts, typos, (count + 1) as nat, hits),
    ensures
        exists|previous: Seq<HistoryFuzzyMatchView>|
            {
                &&& #[trigger] after_parts(lines, parts, typos, count, previous)
                &&& hits.len() <= previous.len()
                &&& forall|i: int|
                    0 <= i < hits.len() ==> is_among(#[trigger] hits[i], previous)
            },
{
    let next = (count + 1) as nat;
    let previous = choose|previous: Seq<HistoryFuzzyMatchView>|
        {
            &&& after_parts(lines, parts, typos, (next - 1) as nat, previous)
            &&& #[trigger] later_step(lines, parts, parts[next - 1], typos, previous, hits)
        };
    assert((next - 1) as nat == count);
    if previous.len() > 0 {
        let part = parts[next - 1];
        let haystacks = lines_of(lines, previous);
        let scoring = later_scoring(parts, typos, part);
        let found = choose|found: Seq<FuzzyHitView>|
            {
                &&& #[trigger] may_find(part, haystacks, scoring, found)
                &&& hits == all_combined(previous, found, parts.len() as int)
            };
        assert forall|i: int| 0 <= i < hits.len() implies is_among(
            #[trigger] hits[i],
            previous,
        ) by {
            assert(found[i].index < haystacks.len());
            assert(hits[i] == combined(
                previous[found[i].index as int],
                found[i],
                parts.len() as int,
            ));
        }
        lemma_listed_count(found, haystacks);
    }
}

/// Whether a list of found entries holds one of the same line.
pub open spec fn is_among(
    hit: HistoryFuzzyMatchView,
    hits: Seq<HistoryFuzzyMatchView>,
) -> bool {
    exists|k: int| 0 <= k < hits.len() && (#[trigger] hits[k]).index == hit.index
}

/// The matcher lists no more matches than there are texts.
proof fn lemma_listed_count(found: Seq<FuzzyHitView>, haystacks: Seq<Seq<char>>)
    requires
        well_listed(found, haystacks, false),
    ensures
        found.len() <= haystacks.len(),
{
    lemma_listed_index(found, found.len());
    if found.len() > 0 {
        assert(found[found.len() - 1].index < haystacks.len());
    }
}

proof fn lemma_listed_index(found: Seq<FuzzyHitView>, count: nat)
    requires
        count <= found.len(),
        forall|i: int, j: int|
            0 <= i < j < found.len() ==> (#[trigger] found[i]).index < (#[trigger] found[j]).index,
    ensures
        forall|i: int| 0 <= i < count ==> i <= (#[trigger] found[i]).index,
    decreases count,
{
    if count > 0 {
        lemma_listed_index(found, (count - 1) as nat);
        if count > 1 {
            assert(found[count - 2].index < found[count - 1].index);
        }
    }
}

/// The lines at the places of entries.
pub open spec fn lines_at(
    lines: Seq<Seq<char>>,
    entries: Seq<HistoryFuzzyMatchView>,
) -> Seq<Seq<char>> {
    Seq::new(entries.len(), |j: int| lines[entries[j].index as int])
}

/// Whether the matcher finds these for a word in lines, on some machine.
pub open spec fn matcher_finds(
    hits: Seq<FuzzyHitView>,
    word: Seq<char>,
    lines: Seq<Seq<char>>,
    typos: u16,
    sort: bool,
    for_capitals: u16,
    for_case: u16,
) -> bool {
    exists|cpu: int|
        hits == #[trigger] frizbee_matches(
            cpu,
            word,
            lines,
            typos,
            sort,
            for_capitals,
            for_case,
        )
}

/// Whether a step of a search went like this: `asked` is what the matcher found
/// for the `k`th word in the lines that the words before it had left, and `left`
/// is what was left after it. The first word is asked of every line, with all the
/// typos that the query may hold; a later one of what is left, with no more than
/// it has bytes. Case counts where any word holds a capital. The first word gives
/// an entry its score and its characters, in order; each later one adds its score
/// and divides by the number of words.
pub open spec fn is_step(
    lines: Seq<Seq<char>>,
    words: Seq<Seq<char>>,
    typos: int,
    k: int,
    previous: Seq<HistoryFuzzyMatchView>,
    asked: Seq<FuzzyHitView>,
    left: Seq<HistoryFuzzyMatchView>,
) -> bool {
    let capital = exists|i: int, j: int|
        0 <= i < words.len() && 0 <= j < words[i].len() && text::is_uppercase_letter(
            #[trigger] words[i][j],
        );
    let haystacks = if k == 0 {
        lines
    } else {
        lines_at(lines, previous)
    };
    &&& left.len() == asked.len()
    &&& k == 0 || previous.len() > 0 ==> matcher_finds(
        asked,
        words[k],
        haystacks,
        (if k > 0 && text::byte_count(words[k]) < typos {
            text::byte_count(words[k]) as int
        } else {
            typos
        }) as u16,
        words.len() == 1,
        if capital {
            8
        } else {
            0
        },
        if capital {
            4
        } else {
            0
        },
    )
    &&& forall|j: int|
        0 <= j < left.len() ==> {
            let entry = #[trigger] left[j];
            let hit = asked[j];
            &&& hit.index < haystacks.len()
            &&& k == 0 ==> {
                &&& entry.index == hit.index
                &&& entry.score == hit.score
                &&& entry.indices.to_multiset() == hit.indices.to_multiset()
                &&& forall|a: int, b: int|
                    0 <= a < b < entry.indices.len() ==> #[trigger] entry.indices[a]
                        <= #[trigger] entry.indices[b]
            }
            &&& k > 0 ==> {
                &&& entry.index == previous[hit.index as int].index
                &&& entry.indices == previous[hit.index as int].indices
                &&& entry.score == (previous[hit.index as int].score + hit.score) / (
                words.len() as int)
            }
        }
}

/// Whether a search went on like this, word by word: each of these was asked, and
/// each of these left.
pub open spec fn is_step_by_step(
    lines: Seq<Seq<char>>,
    words: Seq<Seq<char>>,
    typos: int,
    asked: Seq<Seq<FuzzyHitView>>,
    left: Seq<Seq<HistoryFuzzyMatchView>>,
) -> bool {
    &&& asked.len() == left.len()
    &&& left.len() <= words.len()
    &&& forall|k: int|
        0 <= k < left.len() ==> is_step(
            lines,
            words,
            typos,
            k,
            if k == 0 {
                Seq::empty()
            } else {
                left[k - 1]
            },
            asked[k],
            #[trigger] left[k],
        )
}

/// Whether entries are what a search for words comes to: what all its steps have
/// left, in the matcher's own order for one word, and otherwise with the highest
/// score first and the earlier line before the later one.
pub open spec fn comes_of(
    lines: Seq<Seq<char>>,
    words: Seq<Seq<char>>,
    typos: int,
    found: Seq<HistoryFuzzyMatchView>,
    asked: Seq<Seq<FuzzyHitView>>,
    left: Seq<Seq<HistoryFuzzyMatchView>>,
) -> bool {
    &&& is_step_by_step(lines, words, typos, asked, left)
    &&& left.len() == words.len()
    &&& words.len() == 1 ==> found == left[0]
    &&& words.len() > 1 ==> found.to_multiset() == left.last().to_multiset()
    &&& forall|i: int, j: int|
        0 <= i < j < found.len() ==> (#[trigger] found[i]).score > (#[trigger] found[j]).score || (
        found[i].score == found[j].score && found[i].index < found[j].index)
}

/// Capitals of a word are capitals of the query.
proof fn lemma_capital(words: Seq<Seq<char>>)
    ensures
        any_capital(words) <==> exists|i: int, j: int|
            0 <= i < words.len() && 0 <= j < words[i].len() && text::is_uppercase_letter(
                #[trigger] words[i][j],
            ),
{
    if any_capital(words) {
        let i = choose|i: int| 0 <= i < words.len() && has_capital(#[trigger] words[i]);
        let j = choose|j: int|
            0 <= j < words[i].len() && text::is_uppercase_letter(#[trigger] words[i][j]);
        assert(text::is_uppercase_letter(words[i][j]));
    }
    if exists|i: int, j: int|
        0 <= i < words.len() && 0 <= j < words[i].len() && text::is_uppercase_letter(
            #[trigger] words[i][j],
        ) {
        let (i, j) = choose|i: int, j: int|
            0 <= i < words.len() && 0 <= j < words[i].len() && text::is_uppercase_letter(
                #[trigger] words[i][j],
            );
        assert(has_capital(words[i]));
    }
}

/// The entries after the first words of a search are those that steps have left.
proof fn lemma_steps(
    lines: Seq<Seq<char>>,
    words: Seq<Seq<char>>,
    typos: int,
    count: nat,
    hits: Seq<HistoryFuzzyMatchView>,
) -> (steps: (Seq<Seq<FuzzyHitView>>, Seq<Seq<HistoryFuzzyMatchView>>))
    requires
        1 <= count <= words.len(),
        after_parts(lines, words, typos, count, hits),
    ensures
        is_step_by_step(lines, words, typos, steps.0, steps.1),
        steps.1.len() == count,
        steps.1.last() == hits,
    decreases count,
{
    lemma_capital(words);
    let n = words.len() as int;
    if count == 1 {
        let found = choose|found: Seq<FuzzyHitView>|
            {
                &&& #[trigger] may_find(words[0], lines, first_scoring(words, typos), found)
                &&& hits == from_hits(found)
            };
        let asked = seq![found];
        let left = seq![hits];
        assert forall|j: int| 0 <= j < hits.len() implies {
            let entry = #[trigger] hits[j];
            let hit = found[j];
            &&& hit.index < lines.len()
            &&& entry.index == hit.index
            &&& entry.score == hit.score
            &&& entry.indices.to_multiset() == hit.indices.to_multiset()
            &&& forall|a: int, b: int|
                0 <= a < b < entry.indices.len() ==> #[trigger] entry.indices[a]
                    <= #[trigger] entry.indices[b]
        } by {
            let leq = number_order();
            let sorted = hits[j].indices;
            assert(hits[j] == from_hit(found[j]));
            found[j].indices.lemma_sort_by_ensures(leq);
            assert forall|a: int, b: int| 0 <= a < b < sorted.len() implies #[trigger] sorted[a]
                <= #[trigger] sorted[b] by {
                assert(leq(sorted[a], sorted[b]));
            }
        }
        assert(is_step(lines, words, typos, 0, Seq::empty(), found, hits));
        assert(left[0] == hits && asked[0] == found);
        (asked, left)
    } else {
        let previous = choose|previous: Seq<HistoryFuzzyMatchView>|
            {
                &&& after_parts(lines, words, typos, (count - 1) as nat, previous)
                &&& #[trigger] later_step(lines, words, words[count - 1], typos, previous, hits)
            };
        let (asked, left) = lemma_steps(lines, words, typos, (count - 1) as nat, previous);
        let word = words[count - 1];
        let before = lines_at(lines, previous);
        assert(before =~= lines_of(lines, previous));
        let found = if previous.len() == 0 {
            Seq::empty()
        } else {
            choose|found: Seq<FuzzyHitView>|
                {
                    &&& #[trigger] may_find(
                        word,
                        lines_of(lines, previous),
                        later_scoring(words, typos, word),
                        found,
                    )
                    &&& hits == all_combined(previous, found, n)
                }
        };
        assert(hits.len() == found.len());
        assert forall|j: int| 0 <= j < hits.len() implies {
            let entry = #[trigger] hits[j];
            let hit = found[j];
            &&& hit.index < before.len()
            &&& entry.index == previous[hit.index as int].index
            &&& entry.indices == previous[hit.index as int].indices
            &&& entry.score == (previous[hit.index as int].score + hit.score) / n
        } by {
            let hit = found[j];
            let old_entry = previous[hit.index as int];
            assert(hits[j] == combined(old_entry, hit, n));
            assert((old_entry.score + hit.score) / n <= (old_entry.score + hit.score) / 2)
                by (nonlinear_arith)
                requires
                    n >= 2,
            ;
            assert(0 <= (old_entry.score + hit.score) / n) by (nonlinear_arith)
                requires
                    n >= 2,
            ;
        }
        assert(is_step(lines, words, typos, count - 1, previous, found, hits));
        lemma_one_more_step(lines, words, typos, asked, left, found, hits);
        (asked.push(found), left.push(hits))
    }
}

/// Steps and one more are steps.
proof fn lemma_one_more_step(
    lines: Seq<Seq<char>>,
    words: Seq<Seq<char>>,
    typos: int,
    asked: Seq<Seq<FuzzyHitView>>,
    left: Seq<Seq<HistoryFuzzyMatchView>>,
    found: Seq<FuzzyHitView>,
    hits: Seq<HistoryFuzzyMatchView>,
)
    requires
        is_step_by_step(lines, words, typos, asked, left),
        1 <= left.len() < words.len(),
        is_step(lines, words, typos, left.len() as int, left.last(), found, hits),
    ensures
        is_step_by_step(lines, words, typos, asked.push(found), left.push(hits)),
{
    let all_asked = asked.push(found);
    let all_left = left.push(hits);
    let n = left.len() as int;
    assert forall|k: int| 0 <= k < all_left.len() implies is_step(
        lines,
        words,
        typos,
        k,
        if k == 0 {
            Seq::empty()
        } else {
            all_left[k - 1]
        },
        all_asked[k],
        #[trigger] all_left[k],
    ) by {
        if k < n {
            assert(all_left[k] == left[k] && all_asked[k] == asked[k]);
        }
    }
}

/// What a search may find comes of its steps.
pub proof fn lemma_search_comes_of_steps(
    lines: Seq<Seq<char>>,
    query: Seq<char>,
    query_text: QueryTextView,
    typos: int,
    found: Seq<HistoryFuzzyMatchView>,
) -> (steps: (Seq<Seq<FuzzyHitView>>, Seq<Seq<HistoryFuzzyMatchView>>))
    requires
        matched_parts(query_text).len() > 0,
        typos == typo_budget(query),
        is_search_result(lines, query, query_text, found),
        well_found(lines, found),
        is_ranked(found),
    ensures
        comes_of(lines, matched_parts(query_text), typos, found, steps.0, steps.1),
{
    let words = matched_parts(query_text);
    let steps = if words.len() == 1 {
        assert(after_parts(lines, words, typos, 1, found));
        lemma_steps(lines, words, typos, 1, found)
    } else {
        let narrowed = choose|narrowed: Seq<HistoryFuzzyMatchView>|
            {
                &&& #[trigger] after_parts(lines, words, typos, words.len(), narrowed)
                &&& is_ranking_of(found, narrowed)
            };
        lemma_steps(lines, words, typos, words.len(), narrowed)
    };
    assert forall|i: int, j: int| 0 <= i < j < found.len() implies (#[trigger] found[i]).score > (
    #[trigger] found[j]).score || (found[i].score == found[j].score && found[i].index
        < found[j].index) by {
        assert(ranks_before(found[i], found[j]));
        assert(found[i].index != found[j].index);
    }
    steps
}

/// A search for words comes of asking the matcher for each of them in what the
/// words before it have left. So every entry was found for every word, and where
/// the matcher finds nothing for one of them, be it the last, the search finds
/// nothing.
pub proof fn law_every_word_narrows(
    display_lines: &Vec<String>,
    query: &str,
    fuzzy_query: &QueryText,
    found: Vec<HistoryFuzzyMatch>,
    parts: Vec<&str>,
    typos: u16,
) -> (steps: (Seq<Seq<FuzzyHitView>>, Seq<Seq<HistoryFuzzyMatchView>>))
    requires
        call_ensures(history_fuzzy_matches, (display_lines, query, fuzzy_query), found)
            || call_ensures(
            try_history_fuzzy_matches,
            (display_lines, query, fuzzy_query),
            Some(found),
        ),
        call_ensures(fuzzy_parts, (fuzzy_query,), parts),
        call_ensures(max_typos, (query,), typos),
        parts@.len() > 0,
    ensures
        comes_of(
            Seq::new(display_lines@.len(), |i: int| display_lines@[i]@),
            Seq::new(parts@.len(), |i: int| parts@[i]@),
            typos as int,
            Seq::new(found@.len(), |i: int| found@[i]@),
            steps.0,
            steps.1,
        ),
        forall|i: int, k: int|
            0 <= i < found@.len() && 0 <= k < parts@.len() ==> is_among(
                (#[trigger] found@[i])@,
                #[trigger] steps.1[k],
            ),
        forall|k: int|
            0 <= k < parts@.len() && (#[trigger] steps.0[k]).len() == 0 ==> found@.len() == 0,
{
    let lines = Seq::new(display_lines@.len(), |i: int| display_lines@[i]@);
    let words = Seq::new(parts@.len(), |i: int| parts@[i]@);
    let views = Seq::new(found@.len(), |i: int| found@[i]@);
    assert(lines =~= text::string_views(display_lines@));
    assert(words =~= slice_views(parts@));
    assert(views =~= found_views(found@));
    let steps = lemma_search_comes_of_steps(
        lines,
        query@,
        fuzzy_query@,
        typos as int,
        views,
    );
    let (asked, left) = steps;
    broadcast use group_to_multiset_ensures;

    assert(views.to_multiset() == left.last().to_multiset());
    assert forall|i: int, k: int|
        0 <= i < found@.len() && 0 <= k < parts@.len() implies is_among(
        (#[trigger] found@[i])@,
        #[trigger] left[k],
    ) by {
        assert(views[i] == found@[i]@);
        assert(views.contains(views[i]));
        assert(views.to_multiset().count(views[i]) > 0);
        assert(left.last().contains(views[i]));
        let j = choose|j: int| 0 <= j < left.last().len() && left.last()[j] == views[i];
        lemma_left_before(lines, words, typos as int, asked, left, left.len() - 1, j, k);
    }
    assert forall|k: int|
        0 <= k < parts@.len() && (#[trigger] asked[k]).len() == 0 implies found@.len() == 0 by {
        assert(left[k].len() == asked[k].len());
        if found@.len() > 0 {
            assert(is_among(found@[0]@, left[k]));
        }
    }
    steps
}

/// What is left after a step was left after each step before it.
proof fn lemma_left_before(
    lines: Seq<Seq<char>>,
    words: Seq<Seq<char>>,
    typos: int,
    asked: Seq<Seq<FuzzyHitView>>,
    left: Seq<Seq<HistoryFuzzyMatchView>>,
    last: int,
    j: int,
    k: int,
)
    requires
        is_step_by_step(lines, words, typos, asked, left),
        0 <= k <= last < left.len(),
        0 <= j < left[last].len(),
    ensures
        is_among(left[last][j], left[k]),
    decreases last,
{
    if k < last {
        assert(is_step(lines, words, typos, last, left[last - 1], asked[last], left[last]));
        assert(left[last][j].index == left[last - 1][asked[last][j].index as int].index);
        assert(asked[last][j].index < left[last - 1].len());
        lemma_left_before(
            lines,
            words,
            typos,
            asked,
            left,
            last - 1,
            asked[last][j].index as int,
            k,
        );
    }
}

/// The words of a query that are matched are those of two bytes or more, in
/// order.
pub proof fn law_words_of_two_bytes_are_matched(query: &QueryText, r: Vec<&str>)
    requires
        call_ensures(fuzzy_parts, (query,), r),
    ensures
        query matches QueryText::Text(word) ==> {
            &&& text::byte_count(word@) >= 2 ==> r@.len() == 1 && r@[0]@ == word@
            &&& text::byte_count(word@) < 2 ==> r@.len() == 0
        },
        query matches QueryText::Parts(parts) ==> Seq::new(r@.len(), |i: int| r@[i]@) == Seq::new(
            parts@.len(),
            |i: int| parts@[i]@,
        ).filter(|word: Seq<char>| text::byte_count(word) >= 2),
        query matches QueryText::Empty ==> r@.len() == 0,
{
    let views = slice_views(r@);
    assert(views.len() == r@.len());
    assert(Seq::new(r@.len(), |i: int| r@[i]@) =~= views);
    match query {
        QueryText::Text(word) => {
            if text::byte_count(word@) >= 2 {
                assert(views[0] == r@[0]@);
            }
        },
        QueryText::Parts(parts) => {
            let all = text::string_views(parts@);
            assert(Seq::new(parts@.len(), |i: int| parts@[i]@) =~= all);
            assert((|word: Seq<char>| text::byte_count(word) >= 2) =~= (|part: Seq<char>|
                is_matched(part)));
        },
        QueryText::Empty => {},
    }
}

/// A query may hold one typo for every four bytes that it has without the white
/// space around it, never fewer than two and never more than six.
pub proof fn law_one_typo_for_four_bytes(query: &str, r: u16)
    requires
        call_ensures(max_typos, (query,), r),
        text::byte_count(text::trimmed(query@)) < 65536,
    ensures
        ({
            let bytes = text::byte_count(text::trimmed(query@));
            &&& 2 <= r <= 6
            &&& bytes >= 8 && bytes < 28 ==> 4 * r <= bytes < 4 * r + 4
            &&& bytes < 8 ==> r == 2
            &&& bytes >= 28 ==> r == 6
        }),
{
}

/// A query without a word to match finds every line, in order and with no score.
pub proof fn law_no_words_find_every_line(
    display_lines: &Vec<String>,
    query: &str,
    fuzzy_query: &QueryText,
    found: Vec<HistoryFuzzyMatch>,
    parts: Vec<&str>,
)
    requires
        call_ensures(history_fuzzy_matches, (display_lines, query, fuzzy_query), found)
            || call_ensures(
            try_history_fuzzy_matches,
            (display_lines, query, fuzzy_query),
            Some(found),
        ),
        call_ensures(fuzzy_parts, (fuzzy_query,), parts),
        parts@.len() == 0,
    ensures
        found@.len() == display_lines@.len(),
        forall|i: int|
            0 <= i < found@.len() ==> (#[trigger] found@[i]).index == i && found@[i].score == 0
                && found@[i].indices@.len() == 0,
{
    let views = found_views(found@);
    assert(slice_views(parts@).len() == 0);
    assert(views.len() == found@.len());
    assert(text::string_views(display_lines@).len() == display_lines.len());
    assert forall|i: int| 0 <= i < found@.len() implies (#[trigger] found@[i]).index == i
        && found@[i].score == 0 && found@[i].indices@.len() == 0 by {
        assert(views[i] == found@[i]@);
    }
}

/// Lines and words of ordinary length can be searched.
pub proof fn lemma_ordinary_lines_fit(
    lines: Seq<Seq<char>>,
    query: Seq<char>,
    query_text: QueryTextView,
)
    requires
        lines.len() <= u32::MAX,
        matched_parts(query_text).len() <= u32::MAX,
        forall|i: int|
            0 <= i < lines.len() ==> 1 <= text::byte_count(#[trigger] lines[i]) <= 512,
        forall|k: int|
            0 <= k < matched_parts(query_text).len() ==> text::byte_count(
                #[trigger] matched_parts(query_text)[k],
            ) <= 2977,
    ensures
        is_searchable(lines, query, query_text),
{
    let words = matched_parts(query_text);
    assert forall|i: int| 0 <= i < lines.len() implies (#[trigger] lines[i]).len() > 0 by {
        if lines[i].len() == 0 {
            assert(lines[i] =~= Seq::<char>::empty());
            assert(text::byte_count(Seq::<char>::empty()) == 0);
        }
    }
    let scoring = scoring_for(typo_budget(query), any_capital(words), false);
    assert forall|k: int| 0 <= k < words.len() implies needle_fits(
        text::byte_count(#[trigger] words[k]),
        scoring.capitalization_bonus,
        scoring.matching_case_bonus,
    ) by {
        let bytes = text::byte_count(words[k]) as int;
        assert(bytes * 22 <= 2977 * 22 && bytes * 14 <= 2977 * 14) by (nonlinear_arith)
            requires
                0 <= bytes <= 2977,
        ;
    }
    law_fitting_query_is_searchable(lines, query, query_text);
}

/// Lines of ordinary length can be searched for words of ordinary length: the
/// search has a result.
pub proof fn law_ordinary_search_has_a_result(
    display_lines: &Vec<String>,
    query: &str,
    fuzzy_query: &QueryText,
    r: Option<Vec<HistoryFuzzyMatch>>,
    parts: Vec<&str>,
)
    requires
        call_ensures(try_history_fuzzy_matches, (display_lines, query, fuzzy_query), r),
        call_ensures(fuzzy_parts, (fuzzy_query,), parts),
        display_lines@.len() <= u32::MAX,
        parts@.len() <= u32::MAX,
        forall|i: int|
            0 <= i < display_lines@.len() ==> 1 <= text::byte_count((#[trigger] display_lines@[i])@)
                <= 512,
        forall|k: int|
            0 <= k < parts@.len() ==> text::byte_count((#[trigger] parts@[k])@) <= 2977,
    ensures
        r is Some,
{
    let lines = text::string_views(display_lines@);
    let words = matched_parts(fuzzy_query@);
    assert(words == slice_views(parts@));
    assert(words.len() == parts@.len());
    assert forall|i: int| 0 <= i < lines.len() implies 1 <= text::byte_count(#[trigger] lines[i])
        <= 512 by {
        assert(lines[i] == display_lines@[i]@);
    }
    assert forall|k: int| 0 <= k < words.len() implies text::byte_count(#[trigger] words[k])
        <= 2977 by {
        assert(words[k] == parts@[k]@);
    }
    lemma_ordinary_lines_fit(lines, query@, fuzzy_query@);
}

} // verus!
