//! Fitting text into a given width, and finding the characters that a query matches.

use crate::text;
use vstd::prelude::*;

verus! {

/// A text cut to a width in characters. Where the width leaves room, the cut is
/// marked by three dots.
pub open spec fn truncated(s: Seq<char>, width: int) -> Seq<char> {
    if s.len() <= width {
        s
    } else if width <= 0 {
        Seq::empty()
    } else if width <= 3 {
        s.take(width)
    } else {
        s.take(width - 3) + "..."@
    }
}

/// Cuts a text to a width in characters.
pub fn truncate(text: &str, width: usize) -> (r: String)
    ensures
        r@ == truncated(text@, width as int),
{
    let chars = text::chars_of(text);
    if width == 0 {
        let r = String::new();
        assert(r@ =~= truncated(text@, width as int));
        return r;
    }
    if chars.len() <= width {
        return text.to_owned();
    }
    if width <= 3 {
        assert(chars@.subrange(0, width as int) =~= text@.take(width as int));
        return text::string_of(&chars, 0, width);
    }
    assert(chars@.subrange(0, width - 3) =~= text@.take(width - 3));
    let mut r = text::string_of(&chars, 0, width - 3);
    r.append("...");
    r
}

/// A text that fits is left as it is, and one that does not is cut to exactly
/// the width.
pub proof fn law_truncated_fits(s: Seq<char>, width: int)
    requires
        width >= 0,
    ensures
        s.len() <= width ==> truncated(s, width) == s,
        s.len() > width ==> truncated(s, width).len() == width,
        truncated(truncated(s, width), width) == truncated(s, width),
{
    reveal_strlit("...");
}

/// A directory and a file name cut to a width. The name is cut only where it
/// does not fit alone; otherwise the directory makes room. Lengths are counted
/// in bytes, cuts in characters.
pub open spec fn truncated_path(dir: Seq<char>, base: Seq<char>, width: int) -> (
    Seq<char>,
    Seq<char>,
) {
    let dir_len = text::byte_count(dir);
    let base_len = text::byte_count(base);
    if dir_len + base_len <= width {
        (dir, base)
    } else if base_len >= width {
        (Seq::empty(), truncated(base, width))
    } else {
        (truncated(dir, width - base_len), base)
    }
}

/// Cuts a directory and a file name to a width.
pub fn truncate_path(dir: &str, base: &str, width: usize) -> (r: (String, String))
    ensures
        (r.0@, r.1@) == truncated_path(dir@, base@, width as int),
{
    let dir_len: usize = text::byte_len(dir);
    let base_len: usize = text::byte_len(base);
    if base_len <= width && dir_len <= width - base_len {
        return (dir.to_owned(), base.to_owned());
    }
    if base_len >= width {
        let none = String::new();
        assert(none@ =~= Seq::<char>::empty());
        return (none, truncate(base, width));
    }
    (truncate(dir, width - base_len), base.to_owned())
}

/// A path cut to a width is no wider than that.
pub proof fn law_truncated_path_fits(dir: Seq<char>, base: Seq<char>, width: int)
    requires
        width >= 0,
    ensures
        ({
            let cut = truncated_path(dir, base, width);
            cut.0.len() + cut.1.len() <= width
        }),
{
    text::lemma_chars_at_most_bytes(dir);
    text::lemma_chars_at_most_bytes(base);
    law_truncated_fits(base, width);
    if text::byte_count(base) < width {
        law_truncated_fits(dir, width - text::byte_count(base));
    }
}

/// Whether the characters at these places spell the query, from left to right.
pub open spec fn spells(text: Seq<char>, query: Seq<char>, places: Seq<usize>) -> bool {
    &&& places.len() == query.len()
    &&& forall|k: int|
        0 <= k < places.len() ==> (#[trigger] places[k]) < text.len() && text[places[k] as int]
            == query[k]
    &&& forall|k: int, l: int| 0 <= k < l < places.len() ==> #[trigger] places[k] < #[trigger] places[l]
}

/// Whether the characters of the query occur in the text in this order.
pub open spec fn is_subsequence(query: Seq<char>, text: Seq<char>) -> bool {
    exists|places: Seq<usize>| #[trigger] spells(text, query, places)
}

/// The places from `from` on at which the query is spelled, each as far to the
/// left as it can be.
pub open spec fn leftmost(text: Seq<char>, query: Seq<char>, from: int) -> Option<Seq<usize>>
    decreases text.len() - from,
{
    if query.len() == 0 {
        Some(Seq::empty())
    } else if from < 0 || from >= text.len() {
        None
    } else if text[from] == query.first() {
        match leftmost(text, query.drop_first(), from + 1) {
            Some(places) => Some(seq![from as usize] + places),
            None => None,
        }
    } else {
        leftmost(text, query, from + 1)
    }
}

/// The places at which the query is spelled, or none where it is not.
pub open spec fn matched_places(text: Seq<char>, query: Seq<char>) -> Seq<usize> {
    match leftmost(text, query, 0) {
        Some(places) => places,
        None => Seq::empty(),
    }
}

/// The places at which a text spells a query, each as far to the left as it can
/// be; none where it does not spell it.
pub fn subsequence_indices(text: &str, query: &str) -> (r: Vec<usize>)
    ensures
        r@ == matched_places(text@, query@),
{
    let chars = text::chars_of(text);
    let wanted = text::chars_of(query);
    let mut indices: Vec<usize> = Vec::new();
    let mut i: usize = 0;
    let mut q: usize = 0;
    assert(query@.skip(0) =~= query@);
    assert(match leftmost(text@, query@, 0) {
        Some(rest) => indices@ + rest =~= rest,
        None => true,
    });
    while i < chars.len() && q < wanted.len()
        invariant
            chars@ == text@,
            wanted@ == query@,
            i <= chars@.len(),
            q <= wanted@.len(),
            match leftmost(text@, query@.skip(q as int), i as int) {
                Some(rest) => leftmost(text@, query@, 0) == Some(indices@ + rest),
                None => leftmost(text@, query@, 0) is None,
            },
        decreases chars@.len() - i,
    {
        let ghost rest = query@.skip(q as int);
        assert(rest.first() == wanted@[q as int]);
        assert(rest.drop_first() =~= query@.skip(q + 1));
        if chars[i] == wanted[q] {
            let ghost before = indices@;
            indices.push(i);
            proof {
                if let Some(places) = leftmost(text@, rest.drop_first(), i + 1) {
                    assert(before + (seq![i] + places) =~= indices@ + places);
                }
            }
            q = q + 1;
        }
        i = i + 1;
    }
    if q == wanted.len() {
        assert(query@.skip(q as int).len() == 0);
        assert(indices@ + Seq::<usize>::empty() =~= indices@);
        indices
    } else {
        Vec::new()
    }
}

/// The characters of a text that a query matches, regardless of case.
pub fn fuzzy_match_indices(text: &str, query: &str) -> (r: Vec<usize>)
    ensures
        r@ == fuzzy_places(text@, query@),
{
    if query.is_empty() {
        return Vec::new();
    }
    let lower_text = text.to_lowercase();
    let lower_query = query.to_lowercase();
    subsequence_indices(lower_text.as_str(), lower_query.as_str())
}

/// The characters of a text that a query matches, regardless of case.
pub open spec fn fuzzy_places(text: Seq<char>, query: Seq<char>) -> Seq<usize> {
    if query.len() == 0 {
        Seq::empty()
    } else {
        matched_places(text::lowercase(text), text::lowercase(query))
    }
}

proof fn lemma_leftmost(text: Seq<char>, query: Seq<char>, from: int)
    requires
        0 <= from,
        text.len() <= usize::MAX,
    ensures
        leftmost(text, query, from) matches Some(places) ==> spells(text, query, places),
        leftmost(text, query, from) matches Some(places) ==> forall|k: int|
            0 <= k < places.len() ==> from <= #[trigger] places[k],
    decreases text.len() - from,
{
    if query.len() > 0 && from < text.len() {
        if text[from] == query.first() {
            lemma_leftmost(text, query.drop_first(), from + 1);
            if let Some(rest) = leftmost(text, query.drop_first(), from + 1) {
                let places = seq![from as usize] + rest;
                assert forall|k: int| 0 <= k < places.len() implies (#[trigger] places[k])
                    < text.len() && text[places[k] as int] == query[k] && from <= places[k] by {
                    if k > 0 {
                        assert(places[k] == rest[k - 1]);
                    }
                }
                assert forall|k: int, l: int| 0 <= k < l < places.len() implies #[trigger] places[k]
                    < #[trigger] places[l] by {
                    assert(places[l] == rest[l - 1]);
                    if k > 0 {
                        assert(places[k] == rest[k - 1]);
                    }
                }
            }
        } else {
            lemma_leftmost(text, query, from + 1);
        }
    }
}

proof fn lemma_leftmost_found(text: Seq<char>, query: Seq<char>, from: int, other: Seq<usize>)
    requires
        0 <= from,
        text.len() <= usize::MAX,
        spells(text, query, other),
        forall|k: int| 0 <= k < other.len() ==> from <= #[trigger] other[k],
    ensures
        leftmost(text, query, from) is Some,
        leftmost(text, query, from) matches Some(places) && forall|k: int|
            0 <= k < other.len() ==> #[trigger] places[k] <= other[k],
    decreases text.len() - from,
{
    if query.len() > 0 {
        assert(other[0] < text.len());
        if text[from] == query.first() {
            let rest = other.drop_first();
            assert forall|k: int| 0 <= k < rest.len() implies (#[trigger] rest[k]) < text.len()
                && text[rest[k] as int] == query.drop_first()[k] && from + 1 <= rest[k] by {
                assert(rest[k] == other[k + 1]);
                assert(other[0] < other[k + 1]);
            }
            assert forall|k: int, l: int| 0 <= k < l < rest.len() implies #[trigger] rest[k]
                < #[trigger] rest[l] by {
                assert(other[k + 1] < other[l + 1]);
            }
            lemma_leftmost_found(text, query.drop_first(), from + 1, rest);
            let found = leftmost(text, query.drop_first(), from + 1)->Some_0;
            lemma_leftmost(text, query.drop_first(), from + 1);
            let places = seq![from as usize] + found;
            assert forall|k: int| 0 <= k < other.len() implies #[trigger] places[k] <= other[k] by {
                if k > 0 {
                    assert(places[k] == found[k - 1]);
                    assert(rest[k - 1] == other[k]);
                }
            }
        } else {
            assert forall|k: int| 0 <= k < other.len() implies from + 1 <= #[trigger] other[k] by {
                assert(text[other[0] as int] == query[0]);
                if k > 0 {
                    assert(other[0] < other[k]);
                }
            }
            lemma_leftmost_found(text, query, from + 1, other);
        }
    }
}

/// A query that is not empty has matched places exactly where it is a
/// subsequence of the text. They spell it, and no other places that do lie
/// further to the left.
pub proof fn law_matched_places(text: Seq<char>, query: Seq<char>)
    requires
        text.len() <= usize::MAX,
    ensures
        query.len() > 0 ==> (matched_places(text, query).len() > 0 <==> is_subsequence(query, text)),
        is_subsequence(query, text) ==> spells(text, query, matched_places(text, query)),
        forall|other: Seq<usize>, k: int|
            #[trigger] spells(text, query, other) && 0 <= k < other.len() ==> matched_places(
                text,
                query,
            )[k] <= #[trigger] other[k],
{
    lemma_leftmost(text, query, 0);
    if let Some(places) = leftmost(text, query, 0) {
        assert(spells(text, query, places));
    }
    assert forall|other: Seq<usize>| #[trigger] spells(text, query, other) implies {
        &&& leftmost(text, query, 0) is Some
        &&& forall|k: int|
            0 <= k < other.len() ==> matched_places(text, query)[k] <= #[trigger] other[k]
    } by {
        lemma_leftmost_found(text, query, 0, other);
    }
}

/// A text that fits is kept. One that does not is cut to the width: its beginning
/// is kept, and where there is room for more than three dots it ends with them.
pub proof fn law_cut_text_keeps_its_beginning(text: &str, width: usize, r: String)
    requires
        call_ensures(truncate, (text, width), r),
    ensures
        text@.len() <= width ==> r@ == text@,
        text@.len() > width ==> r@.len() == width,
        text@.len() > width && width <= 3 ==> r@ == text@.take(width as int),
        text@.len() > width && width > 3 ==> r@ == text@.take(width - 3) + seq!['.', '.', '.'],
{
    reveal_strlit("...");
    assert("..."@ =~= seq!['.', '.', '.']);
    if width == 0 {
        assert(text@.take(0) =~= Seq::<char>::empty());
    }
}

/// A path that fits is kept. Otherwise the directory is cut to what the name
/// leaves of the width; and where the name leaves nothing, the directory goes and
/// the name is cut.
pub proof fn law_directory_makes_room_for_name(
    dir: &str,
    base: &str,
    width: usize,
    r: (String, String),
    cut_dir: String,
    cut_base: String,
)
    requires
        call_ensures(truncate_path, (dir, base, width), r),
        text::byte_count(base@) < width ==> call_ensures(
            truncate,
            (dir, (width - text::byte_count(base@)) as usize),
            cut_dir,
        ),
        call_ensures(truncate, (base, width), cut_base),
    ensures
        text::byte_count(dir@) + text::byte_count(base@) <= width ==> r.0@ == dir@ && r.1@ == base@,
        text::byte_count(dir@) + text::byte_count(base@) > width && text::byte_count(base@) < width
            ==> r.0@ == cut_dir@ && r.1@ == base@,
        text::byte_count(dir@) + text::byte_count(base@) > width && text::byte_count(base@) >= width
            ==> r.0@.len() == 0 && r.1@ == cut_base@,
{
}

/// The places that match spell the query in the text, letter for letter in lower
/// case and from left to right, each as far to the left as it can be. There are
/// none exactly where the query is empty or is not spelled.
pub proof fn law_places_spell_the_query(
    text: &str,
    query: &str,
    r: Vec<usize>,
    other: Seq<usize>,
)
    requires
        call_ensures(fuzzy_match_indices, (text, query), r),
        text::lowercase(text@).len() <= usize::MAX,
        text::lowercase(query@).len() > 0,
    ensures
        ({
            let wanted = text::lowercase(query@);
            let given = text::lowercase(text@);
            let is_spelled = other.len() == wanted.len() && (forall|k: int|
                0 <= k < other.len() ==> (#[trigger] other[k]) < given.len()
                    && given[other[k] as int] == wanted[k]) && (forall|k: int, l: int|
                0 <= k < l < other.len() ==> #[trigger] other[k] < #[trigger] other[l]);
            &&& query@.len() == 0 ==> r@.len() == 0
            &&& r@.len() > 0 ==> r@.len() == wanted.len()
            &&& forall|k: int|
                0 <= k < r@.len() ==> (#[trigger] r@[k]) < given.len() && given[r@[k] as int]
                    == wanted[k]
            &&& forall|k: int, l: int|
                0 <= k < l < r@.len() ==> #[trigger] r@[k] < #[trigger] r@[l]
            &&& is_spelled && query@.len() > 0 ==> r@.len() == wanted.len() && forall|k: int|
                0 <= k < r@.len() ==> #[trigger] r@[k] <= other[k]
        }),
{
    let wanted = text::lowercase(query@);
    let given = text::lowercase(text@);
    if query@.len() > 0 {
        law_matched_places(given, wanted);
        if r@.len() > 0 {
            assert(spells(given, wanted, r@));
        }
        if spells(given, wanted, other) {
            assert(is_subsequence(wanted, given));
            assert forall|k: int| 0 <= k < r@.len() implies #[trigger] r@[k] <= other[k] by {
                assert(matched_places(given, wanted)[k] <= other[k]);
            }
        }
    }
}

} // verus!
