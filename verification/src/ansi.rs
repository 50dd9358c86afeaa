//! Terminal styles: escape sequences, and text with some of its characters marked.

use crate::text;
use crate::types::{Badge, FileMatch, GitKind};
use vstd::prelude::*;

verus! {

pub const RESET: &'static str = "\x1b[0m";

pub const BOLD: &'static str = "\x1b[1m";

pub const CYAN: &'static str = "\x1b[36m";

pub const YELLOW: &'static str = "\x1b[33m";

pub const MAGENTA: &'static str = "\x1b[35m";

pub const RED: &'static str = "\x1b[31m";

pub const GREEN: &'static str = "\x1b[32m";

pub const GRAY: &'static str = "\x1b[38;5;244m";

pub const BORDER: &'static str = "\x1b[38;5;149m";

pub const SELECTED: &'static str = "\x1b[48;5;238m\x1b[38;5;230m";

pub const SELECTED_ACCENT: &'static str = "\x1b[48;5;238m\x1b[38;5;111m";

pub const MATCH_HL: &'static str = "\x1b[30m\x1b[48;5;228m";

/// Whether a character is an ASCII letter.
pub open spec fn is_letter(c: char) -> bool {
    'a' <= c <= 'z' || 'A' <= c <= 'Z'
}

/// What follows the first ASCII letter.
pub open spec fn after_letter(s: Seq<char>) -> Seq<char>
    decreases s.len(),
{
    if s.len() == 0 {
        s
    } else if is_letter(s.first()) {
        s.drop_first()
    } else {
        after_letter(s.drop_first())
    }
}

proof fn lemma_after_letter_shorter(s: Seq<char>)
    ensures
        after_letter(s).len() <= s.len(),
    decreases s.len(),
{
    if s.len() > 0 {
        lemma_after_letter_shorter(s.drop_first());
    }
}

/// The characters of a text that a terminal shows. An escape character and a
/// bracket start a control sequence, which runs to the next ASCII letter; any
/// other escape character stands alone.
pub open spec fn shown(s: Seq<char>) -> Seq<char>
    decreases s.len(),
    via shown_decreases
{
    if s.len() == 0 {
        Seq::empty()
    } else if s[0] != '\x1b' {
        seq![s[0]] + shown(s.drop_first())
    } else if s.len() > 1 && s[1] == '[' {
        shown(after_letter(s.skip(2)))
    } else {
        shown(s.drop_first())
    }
}

#[via_fn]
proof fn shown_decreases(s: Seq<char>) {
    if s.len() > 1 {
        lemma_after_letter_shorter(s.skip(2));
    }
}

/// How many characters of a text a terminal shows.
pub fn visible_width(text: &str) -> (r: usize)
    ensures
        r == shown(text@).len(),
{
    let chars = text::chars_of(text);
    let n: usize = chars.len();
    let mut width: usize = 0;
    let mut i: usize = 0;
    assert(text@.skip(0) =~= text@);
    while i < n
        invariant
            chars@ == text@,
            n == chars@.len(),
            i <= n,
            width <= i,
            width + shown(text@.skip(i as int)).len() == shown(text@).len(),
        decreases n - i,
    {
        let ghost start = i;
        let ghost rest = text@.skip(i as int);
        assert(rest.drop_first() =~= text@.skip(i + 1));
        if chars[i] != '\x1b' {
            width = width + 1;
            i = i + 1;
        } else if i + 1 < n && chars[i + 1] == '[' {
            assert(rest.skip(2) =~= text@.skip(i + 2));
            i = i + 2;
            while i < n && !(('a' <= chars[i] && chars[i] <= 'z') || ('A' <= chars[i] && chars[i]
                <= 'Z'))
                invariant
                    chars@ == text@,
                    n == chars@.len(),
                    start < i <= n,
                    width <= i,
                    after_letter(text@.skip(i as int)) == after_letter(rest.skip(2)),
                decreases n - i,
            {
                assert(text@.skip(i as int).drop_first() =~= text@.skip(i + 1));
                i = i + 1;
            }
            if i < n {
                assert(text@.skip(i as int).drop_first() =~= text@.skip(i + 1));
                i = i + 1;
            }
            assert(after_letter(rest.skip(2)) == text@.skip(i as int));
        } else {
            i = i + 1;
        }
    }
    assert(text@.skip(n as int).len() == 0);
    width
}

/// A character, in the style of a match where it is one. Behind a match the
/// base style is taken up again.
pub open spec fn styled_char(c: char, matched: bool, selected: bool, base: Seq<char>) -> Seq<char> {
    if !matched {
        seq![c]
    } else if selected {
        SELECTED_ACCENT@ + BOLD@ + seq![c] + base
    } else {
        BOLD@ + CYAN@ + seq![c] + RESET@ + base
    }
}

/// The characters of a text, those with a flag in the style of a match.
pub open spec fn marked(s: Seq<char>, flags: Seq<bool>, selected: bool, base: Seq<char>) -> Seq<
    char,
>
    decreases s.len(),
{
    if s.len() == 0 {
        Seq::empty()
    } else {
        marked(s.drop_last(), flags, selected, base) + styled_char(
            s.last(),
            flags[s.len() - 1],
            selected,
            base,
        )
    }
}

/// A text in a base style, the characters with a flag in the style of a match.
/// In the selected row the style runs on to the end of the row.
pub open spec fn highlighted(
    s: Seq<char>,
    flags: Seq<bool>,
    selected: bool,
    base: Seq<char>,
) -> Seq<char> {
    base + marked(s, flags, selected, base) + if selected {
        Seq::empty()
    } else {
        RESET@
    }
}

/// A text in a base style, with marked characters.
fn highlight(text: &str, flags: &Vec<bool>, selected: bool, base_style: &str) -> (r: String)
    requires
        flags@.len() == text@.len(),
    ensures
        r@ == highlighted(text@, flags@, selected, base_style@),
{
    let chars = text::chars_of(text);
    let ghost base = base_style@;
    let mut out = base_style.to_owned();
    let mut i: usize = 0;
    assert(text@.take(0) =~= Seq::<char>::empty());
    assert(out@ =~= base + marked(text@.take(0), flags@, selected, base));
    while i < chars.len()
        invariant
            chars@ == text@,
            flags@.len() == text@.len(),
            base == base_style@,
            i <= chars@.len(),
            out@ == base + marked(text@.take(i as int), flags@, selected, base),
        decreases chars@.len() - i,
    {
        let ghost before = out@;
        let c: char = chars[i];
        if flags[i] {
            if selected {
                out.append(SELECTED_ACCENT);
                out.append(BOLD);
                out.push(c);
                out.append(base_style);
            } else {
                out.append(BOLD);
                out.append(CYAN);
                out.push(c);
                out.append(RESET);
                out.append(base_style);
            }
        } else {
            out.push(c);
        }
        proof {
            assert(text@.take(i + 1).drop_last() =~= text@.take(i as int));
            assert(out@ =~= before + styled_char(c, flags@[i as int], selected, base));
            assert(out@ =~= base + marked(text@.take(i + 1), flags@, selected, base));
        }
        i = i + 1;
    }
    assert(text@.take(text@.len() as int) =~= text@);
    if !selected {
        out.append(RESET);
    }
    assert(out@ =~= highlighted(text@, flags@, selected, base));
    out
}

/// One flag for each character: whether its place is listed.
pub open spec fn place_flags(places: Seq<usize>, len: nat) -> Seq<bool> {
    Seq::new(len, |i: int| places.contains(i as usize))
}

/// Whether a place is listed.
fn is_listed(places: &Vec<usize>, place: usize) -> (r: bool)
    ensures
        r == places@.contains(place),
{
    let mut i: usize = 0;
    while i < places.len()
        invariant
            i <= places@.len(),
            forall|j: int| 0 <= j < i ==> places@[j] != place,
        decreases places@.len() - i,
    {
        if places[i] == place {
            return true;
        }
        i = i + 1;
    }
    false
}

/// A text in a base style, with the characters at the given places marked.
pub fn apply_indices_highlight(
    text: &str,
    indices: &Vec<usize>,
    selected: bool,
    base_style: &str,
) -> (r: String)
    ensures
        r@ == highlighted(text@, place_flags(indices@, text@.len()), selected, base_style@),
{
    let n: usize = text::chars_of(text).len();
    let mut flags: Vec<bool> = Vec::new();
    let mut i: usize = 0;
    while i < n
        invariant
            i <= n,
            flags@.len() == i,
            forall|j: int| 0 <= j < i ==> flags@[j] == indices@.contains(j as usize),
        decreases n - i,
    {
        flags.push(is_listed(indices, i));
        i = i + 1;
    }
    assert(flags@ =~= place_flags(indices@, text@.len()));
    highlight(text, &flags, selected, base_style)
}

/// Whether a place lies in one of the ranges.
pub open spec fn in_ranges(ranges: Seq<(usize, usize)>, place: int) -> bool {
    exists|k: int| 0 <= k < ranges.len() && (#[trigger] ranges[k]).0 <= place < ranges[k].1
}

/// One flag for each character: whether its place lies in one of the ranges.
pub open spec fn range_flags(ranges: Seq<(usize, usize)>, len: nat) -> Seq<bool> {
    Seq::new(len, |i: int| in_ranges(ranges, i))
}

/// Whether a place lies in one of the ranges.
fn is_in_ranges(ranges: &Vec<(usize, usize)>, place: usize) -> (r: bool)
    ensures
        r == in_ranges(ranges@, place as int),
{
    let mut i: usize = 0;
    while i < ranges.len()
        invariant
            i <= ranges@.len(),
            forall|k: int| 0 <= k < i ==> !((#[trigger] ranges@[k]).0 <= place < ranges@[k].1),
        decreases ranges@.len() - i,
    {
        if ranges[i].0 <= place && place < ranges[i].1 {
            return true;
        }
        i = i + 1;
    }
    false
}

/// A text in a base style, with the characters in the given ranges marked.
pub fn apply_match_ranges(
    text: &str,
    ranges: &Vec<(usize, usize)>,
    selected: bool,
    base_style: &str,
) -> (r: String)
    ensures
        r@ == highlighted(text@, range_flags(ranges@, text@.len()), selected, base_style@),
{
    let n: usize = text::chars_of(text).len();
    let mut flags: Vec<bool> = Vec::new();
    let mut i: usize = 0;
    while i < n
        invariant
            i <= n,
            flags@.len() == i,
            forall|j: int| 0 <= j < i ==> flags@[j] == in_ranges(ranges@, j),
        decreases n - i,
    {
        flags.push(is_in_ranges(ranges, i));
        i = i + 1;
    }
    assert(flags@ =~= range_flags(ranges@, text@.len()));
    highlight(text, &flags, selected, base_style)
}

/// Whether the bytes `start..end` begin before the end of one of the ranges and
/// end behind its beginning.
pub open spec fn overlaps(ranges: Seq<(usize, usize)>, start: int, end: int) -> bool {
    exists|k: int| 0 <= k < ranges.len() && start < (#[trigger] ranges[k]).1 && end > ranges[k].0
}

/// A text with each character that lies in one of the byte ranges marked.
pub open spec fn grep_marked(s: Seq<char>, ranges: Seq<(usize, usize)>) -> Seq<char>
    decreases s.len(),
{
    if s.len() == 0 {
        Seq::empty()
    } else {
        let front = s.drop_last();
        let start = text::byte_count(front) as int;
        let end = start + text::char_bytes(s.last());
        grep_marked(front, ranges) + if overlaps(ranges, start, end) {
            MATCH_HL@ + seq![s.last()] + RESET@
        } else {
            seq![s.last()]
        }
    }
}

/// Whether the bytes `start..end` meet one of the ranges.
fn is_overlapping(ranges: &Vec<(usize, usize)>, start: usize, end: usize) -> (r: bool)
    ensures
        r == overlaps(ranges@, start as int, end as int),
{
    let mut i: usize = 0;
    while i < ranges.len()
        invariant
            i <= ranges@.len(),
            forall|k: int| 0 <= k < i ==> !(start < (#[trigger] ranges@[k]).1 && end > ranges@[k].0),
        decreases ranges@.len() - i,
    {
        if start < ranges[i].1 && end > ranges[i].0 {
            return true;
        }
        i = i + 1;
    }
    false
}

proof fn lemma_grep_marked_nothing(s: Seq<char>, ranges: Seq<(usize, usize)>)
    requires
        ranges.len() == 0,
    ensures
        grep_marked(s, ranges) == s,
    decreases s.len(),
{
    if s.len() > 0 {
        lemma_grep_marked_nothing(s.drop_last(), ranges);
        assert(s =~= s.drop_last() + seq![s.last()]);
    }
}

/// A line of a file with the byte ranges that matched marked, where colors are
/// wanted.
pub fn highlight_grep_ranges(text: &str, ranges: &Vec<(usize, usize)>, color: bool) -> (r: String)
    ensures
        r@ == if color {
            grep_marked(text@, ranges@)
        } else {
            text@
        },
{
    if !color || ranges.is_empty() {
        proof {
            if ranges@.len() == 0 {
                lemma_grep_marked_nothing(text@, ranges@);
            }
        }
        return text.to_owned();
    }
    let total: usize = text::byte_len(text);
    let chars = text::chars_of(text);
    let mut out = String::new();
    let mut byte_index: usize = 0;
    let mut i: usize = 0;
    assert(text@.take(0) =~= Seq::<char>::empty());
    assert(out@ =~= grep_marked(text@.take(0), ranges@));
    assert(text::byte_count(text@.take(0)) == 0);
    while i < chars.len()
        invariant
            chars@ == text@,
            i <= chars@.len(),
            total == text::byte_count(text@),
            byte_index == text::byte_count(text@.take(i as int)),
            out@ == grep_marked(text@.take(i as int), ranges@),
        decreases chars@.len() - i,
    {
        let c: char = chars[i];
        let ghost front = text@.take(i as int);
        let ghost next = text@.take(i + 1);
        proof {
            assert(next =~= front.push(c));
            assert(next.drop_last() =~= front);
            text::lemma_byte_count_push(front, c);
            text::lemma_byte_count_concat(next, text@.skip(i + 1));
            assert(next + text@.skip(i + 1) =~= text@);
        }
        let width: usize = text::char_len(c);
        let end: usize = byte_index + width;
        let ghost before = out@;
        if is_overlapping(ranges, byte_index, end) {
            out.append(MATCH_HL);
            out.push(c);
            out.append(RESET);
            assert(out@ =~= before + (MATCH_HL@ + seq![c] + RESET@));
        } else {
            out.push(c);
            assert(out@ =~= before + seq![c]);
        }
        byte_index = end;
        i = i + 1;
    }
    assert(text@.take(text@.len() as int) =~= text@);
    out
}

/// The color of a git status.
pub open spec fn git_color(kind: GitKind) -> Seq<char> {
    match kind {
        GitKind::Modified => YELLOW@,
        GitKind::Added => CYAN@,
        GitKind::Deleted => RED@,
        GitKind::Renamed => MAGENTA@,
        GitKind::Clean => GRAY@,
    }
}

/// The letter of a git status.
pub open spec fn git_letter(kind: GitKind) -> char {
    match kind {
        GitKind::Modified => 'M',
        GitKind::Added => 'A',
        GitKind::Deleted => 'D',
        GitKind::Renamed => 'R',
        GitKind::Clean => '·',
    }
}

/// A text in a style, which the selected row carries on.
pub open spec fn in_style(style: Seq<char>, s: Seq<char>, selected: bool) -> Seq<char> {
    style + s + if selected {
        Seq::empty()
    } else {
        RESET@
    }
}

/// The mark of a git status.
pub fn git_icon(kind: GitKind, selected: bool) -> (r: String)
    ensures
        r@ == in_style(git_color(kind), seq![git_letter(kind)], selected),
{
    let (color, letter): (&str, char) = match kind {
        GitKind::Modified => (YELLOW, 'M'),
        GitKind::Added => (CYAN, 'A'),
        GitKind::Deleted => (RED, 'D'),
        GitKind::Renamed => (MAGENTA, 'R'),
        GitKind::Clean => (GRAY, '·'),
    };
    let mut r = color.to_owned();
    r.push(letter);
    if !selected {
        r.append(RESET);
    }
    assert(r@ =~= in_style(git_color(kind), seq![git_letter(kind)], selected));
    r
}

/// The color of a badge.
pub open spec fn badge_color(icon: Seq<char>, selected: bool) -> Seq<char> {
    if selected {
        SELECTED_ACCENT@
    } else if icon == "🔥"@ {
        RED@
    } else {
        YELLOW@
    }
}

/// How a badge is shown: its icon and its score.
pub open spec fn badge_shown(badge: Option<Badge>, selected: bool) -> Seq<char> {
    match badge {
        Some(badge) => in_style(
            badge_color(badge.icon@, selected),
            badge.icon@ + text::signed_decimal(badge.score as int),
            selected,
        ),
        None => Seq::empty(),
    }
}

/// How the badge of a file is shown.
pub fn badge_text(item: &FileMatch, selected: bool) -> (r: String)
    ensures
        r@ == badge_shown(item.badge, selected),
{
    match &item.badge {
        Some(badge) => {
            let color: &str = if selected {
                SELECTED_ACCENT
            } else if text::same_text(badge.icon, "🔥") {
                RED
            } else {
                YELLOW
            };
            let mut r = color.to_owned();
            r.append(badge.icon);
            text::push_signed_decimal(&mut r, badge.score);
            if !selected {
                r.append(RESET);
            }
            assert(r@ =~= badge_shown(Some(*badge), selected));
            r
        },
        None => {
            let r = String::new();
            assert(r@ =~= Seq::<char>::empty());
            r
        },
    }
}

/// Whether a text holds no escape character.
pub open spec fn is_plain(s: Seq<char>) -> bool {
    !s.contains('\x1b')
}

/// Whether no control sequence of a text runs on into what follows it.
pub open spec fn is_closed(s: Seq<char>) -> bool {
    forall|rest: Seq<char>| #[trigger] shown(s + rest) == shown(s) + shown(rest)
}

/// Whether a text changes how what follows it looks, and shows nothing itself.
pub open spec fn is_style(s: Seq<char>) -> bool {
    is_closed(s) && shown(s).len() == 0
}

/// Texts that are closed make one, and show what each of them shows.
pub proof fn lemma_closed_concat(a: Seq<char>, b: Seq<char>)
    requires
        is_closed(a),
        is_closed(b),
    ensures
        is_closed(a + b),
        shown(a + b) == shown(a) + shown(b),
{
    assert forall|rest: Seq<char>| #[trigger] shown((a + b) + rest) == shown(a + b) + shown(
        rest,
    ) by {
        assert((a + b) + rest =~= a + (b + rest));
        assert(shown(a + (b + rest)) == shown(a) + shown(b + rest));
        assert(shown(a) + (shown(b) + shown(rest)) =~= (shown(a) + shown(b)) + shown(rest));
    }
}

/// A text without escape characters is closed and shows all of itself.
pub proof fn lemma_plain(s: Seq<char>)
    requires
        is_plain(s),
    ensures
        is_closed(s),
        shown(s) == s,
    decreases s.len(),
{
    if s.len() == 0 {
        assert forall|rest: Seq<char>| #[trigger] shown(s + rest) == shown(s) + shown(rest) by {
            assert(s + rest =~= rest);
            assert(shown(s) + shown(rest) =~= shown(rest));
        }
        assert(shown(s) =~= s);
    } else {
        let tail = s.drop_first();
        assert(s[0] != '\x1b') by {
            assert(s.contains(s[0]));
        }
        assert(is_plain(tail)) by {
            if tail.contains('\x1b') {
                let k = choose|k: int| 0 <= k < tail.len() && tail[k] == '\x1b';
                assert(s[k + 1] == '\x1b');
            }
        }
        lemma_plain(tail);
        assert(shown(s) =~= s);
        assert forall|rest: Seq<char>| #[trigger] shown(s + rest) == shown(s) + shown(rest) by {
            assert((s + rest).drop_first() =~= tail + rest);
            assert(shown(tail + rest) == shown(tail) + shown(rest));
            assert(seq![s[0]] + (shown(tail) + shown(rest)) =~= shown(s) + shown(rest));
        }
    }
}

/// A plain character is closed and shows itself.
proof fn lemma_plain_char(c: char)
    requires
        c != '\x1b',
    ensures
        is_closed(seq![c]),
        shown(seq![c]) == seq![c],
{
    lemma_plain(seq![c]);
}

/// Whether a text is one control sequence.
pub open spec fn is_control(s: Seq<char>) -> bool {
    &&& s.len() >= 3
    &&& s[0] == '\x1b'
    &&& s[1] == '['
    &&& is_letter(s.last())
    &&& forall|i: int| 2 <= i < s.len() - 1 ==> !is_letter(#[trigger] s[i])
}

proof fn lemma_after_first_letter(s: Seq<char>, rest: Seq<char>)
    requires
        s.len() > 0,
        is_letter(s.last()),
        forall|i: int| 0 <= i < s.len() - 1 ==> !is_letter(#[trigger] s[i]),
    ensures
        after_letter(s + rest) == rest,
    decreases s.len(),
{
    if s.len() == 1 {
        assert((s + rest).drop_first() =~= rest);
    } else {
        assert((s + rest).drop_first() =~= s.drop_first() + rest);
        lemma_after_first_letter(s.drop_first(), rest);
    }
}

/// A control sequence is a style.
pub proof fn lemma_control_is_style(s: Seq<char>)
    requires
        is_control(s),
    ensures
        is_style(s),
{
    let body = s.skip(2);
    assert forall|rest: Seq<char>| #[trigger] shown(s + rest) == shown(rest) by {
        assert((s + rest).skip(2) =~= body + rest);
        lemma_after_first_letter(body, rest);
    }
    let none = Seq::<char>::empty();
    assert(s + none =~= s);
    assert(shown(s + none) == shown(none));
    assert forall|rest: Seq<char>| #[trigger] shown(s + rest) == shown(s) + shown(rest) by {
        assert(shown(s) + shown(rest) =~= shown(rest));
    }
}

/// No text at all is a style.
pub proof fn lemma_empty_is_style()
    ensures
        is_style(Seq::empty()),
{
    lemma_plain(Seq::<char>::empty());
}

/// Two styles make one.
pub proof fn lemma_styles_make_style(a: Seq<char>, b: Seq<char>)
    requires
        is_style(a),
        is_style(b),
    ensures
        is_style(a + b),
{
    lemma_closed_concat(a, b);
}

/// The styles of this module are styles.
pub proof fn lemma_styles()
    ensures
        is_style(RESET@),
        is_style(BOLD@),
        is_style(CYAN@),
        is_style(YELLOW@),
        is_style(MAGENTA@),
        is_style(RED@),
        is_style(GREEN@),
        is_style(GRAY@),
        is_style(BORDER@),
        is_style(SELECTED@),
        is_style(SELECTED_ACCENT@),
        is_style(MATCH_HL@),
{
    reveal_strlit("\x1b[0m");
    lemma_control_is_style(RESET@);
    reveal_strlit("\x1b[1m");
    lemma_control_is_style(BOLD@);
    reveal_strlit("\x1b[36m");
    lemma_control_is_style(CYAN@);
    reveal_strlit("\x1b[33m");
    lemma_control_is_style(YELLOW@);
    reveal_strlit("\x1b[35m");
    lemma_control_is_style(MAGENTA@);
    reveal_strlit("\x1b[31m");
    lemma_control_is_style(RED@);
    reveal_strlit("\x1b[32m");
    lemma_control_is_style(GREEN@);
    reveal_strlit("\x1b[38;5;244m");
    lemma_control_is_style(GRAY@);
    reveal_strlit("\x1b[38;5;149m");
    lemma_control_is_style(BORDER@);
    reveal_strlit("\x1b[48;5;238m\x1b[38;5;230m");
    lemma_two_controls(SELECTED@, 11);
    reveal_strlit("\x1b[48;5;238m\x1b[38;5;111m");
    lemma_two_controls(SELECTED_ACCENT@, 11);
    reveal_strlit("\x1b[30m\x1b[48;5;228m");
    lemma_two_controls(MATCH_HL@, 5);
}

proof fn lemma_two_controls(s: Seq<char>, cut: int)
    requires
        0 <= cut <= s.len(),
        is_control(s.take(cut)),
        is_control(s.skip(cut)),
    ensures
        is_style(s),
{
    lemma_control_is_style(s.take(cut));
    lemma_control_is_style(s.skip(cut));
    lemma_styles_make_style(s.take(cut), s.skip(cut));
    assert(s =~= s.take(cut) + s.skip(cut));
}

/// A plain text between two styles is closed and shows itself.
pub proof fn lemma_styled(before: Seq<char>, s: Seq<char>, after: Seq<char>)
    requires
        is_style(before),
        is_closed(s),
        is_style(after),
    ensures
        is_closed(before + s + after),
        shown(before + s + after) == shown(s),
{
    lemma_closed_concat(before, s);
    lemma_closed_concat(before + s, after);
    assert(shown(before) + shown(s) + shown(after) =~= shown(s));
}

proof fn lemma_marked_shows_text(
    s: Seq<char>,
    flags: Seq<bool>,
    selected: bool,
    base: Seq<char>,
)
    requires
        is_plain(s),
        is_style(base),
    ensures
        is_closed(marked(s, flags, selected, base)),
        shown(marked(s, flags, selected, base)) == s,
    decreases s.len(),
{
    if s.len() == 0 {
        lemma_empty_is_style();
        assert(shown(marked(s, flags, selected, base)) =~= s);
    } else {
        let front = s.drop_last();
        let c = s.last();
        assert(is_plain(front)) by {
            if front.contains('\x1b') {
                let k = choose|k: int| 0 <= k < front.len() && front[k] == '\x1b';
                assert(s[k] == '\x1b');
            }
        }
        assert(c != '\x1b') by {
            assert(s.contains(s[s.len() - 1]));
        }
        lemma_marked_shows_text(front, flags, selected, base);
        lemma_plain_char(c);
        lemma_styles();
        let one = styled_char(c, flags[s.len() - 1], selected, base);
        if flags[s.len() - 1] {
            if selected {
                lemma_styles_make_style(SELECTED_ACCENT@, BOLD@);
                lemma_styled(SELECTED_ACCENT@ + BOLD@, seq![c], base);
            } else {
                lemma_styles_make_style(BOLD@, CYAN@);
                lemma_styles_make_style(RESET@, base);
                lemma_styled(BOLD@ + CYAN@, seq![c], RESET@ + base);
                assert(one =~= BOLD@ + CYAN@ + seq![c] + (RESET@ + base));
            }
        }
        assert(is_closed(one) && shown(one) == seq![c]);
        lemma_closed_concat(marked(front, flags, selected, base), one);
        assert(s =~= front + seq![c]);
    }
}

/// Marking changes how a text looks and nothing else: a terminal shows the same
/// characters.
pub proof fn law_highlight_shows_text(
    s: Seq<char>,
    flags: Seq<bool>,
    selected: bool,
    base: Seq<char>,
)
    requires
        is_plain(s),
        is_style(base),
    ensures
        is_closed(highlighted(s, flags, selected, base)),
        shown(highlighted(s, flags, selected, base)) == s,
{
    lemma_marked_shows_text(s, flags, selected, base);
    lemma_styles();
    lemma_empty_is_style();
    let end = if selected {
        Seq::empty()
    } else {
        RESET@
    };
    lemma_styled(base, marked(s, flags, selected, base), end);
}

/// Marking the matches in a line of a file leaves the characters that a
/// terminal shows as they are.
pub proof fn law_grep_marks_show_text(s: Seq<char>, ranges: Seq<(usize, usize)>)
    requires
        is_plain(s),
    ensures
        is_closed(grep_marked(s, ranges)),
        shown(grep_marked(s, ranges)) == s,
    decreases s.len(),
{
    if s.len() == 0 {
        lemma_empty_is_style();
        assert(shown(grep_marked(s, ranges)) =~= s);
    } else {
        let front = s.drop_last();
        let c = s.last();
        assert(is_plain(front)) by {
            if front.contains('\x1b') {
                let k = choose|k: int| 0 <= k < front.len() && front[k] == '\x1b';
                assert(s[k] == '\x1b');
            }
        }
        assert(c != '\x1b') by {
            assert(s.contains(s[s.len() - 1]));
        }
        law_grep_marks_show_text(front, ranges);
        lemma_plain_char(c);
        lemma_styles();
        lemma_styled(MATCH_HL@, seq![c], RESET@);
        lemma_closed_concat(grep_marked(front, ranges), seq![c]);
        lemma_closed_concat(grep_marked(front, ranges), MATCH_HL@ + seq![c] + RESET@);
        assert(s =~= front + seq![c]);
    }
}

/// A text in a style shows the text.
pub proof fn lemma_in_style_shows_text(style: Seq<char>, s: Seq<char>, selected: bool)
    requires
        is_style(style),
        is_plain(s),
    ensures
        is_closed(in_style(style, s, selected)),
        shown(in_style(style, s, selected)) == s,
{
    lemma_plain(s);
    lemma_styles();
    lemma_empty_is_style();
    lemma_styled(
        style,
        s,
        if selected {
            Seq::empty()
        } else {
            RESET@
        },
    );
}

/// Of a line of a file each character is printed as it is, or, where its bytes
/// meet one of the ranges and colors are wanted, between the marks of a match: one
/// more character adds itself and, if it is a match, its marks.
pub proof fn law_grep_marks_are_those_of_the_ranges(
    text: &str,
    longer: &str,
    c: char,
    ranges: &Vec<(usize, usize)>,
    r: String,
    s: String,
)
    requires
        call_ensures(highlight_grep_ranges, (text, ranges, true), r),
        call_ensures(highlight_grep_ranges, (longer, ranges, true), s),
        longer@ == text@.push(c),
    ensures
        ({
            let start = text::byte_count(text@);
            let end = text::byte_count(longer@);
            s@ == r@ + if exists|k: int|
                0 <= k < ranges@.len() && start < (#[trigger] ranges@[k]).1 && ranges@[k].0 < end {
                "\x1b[30m\x1b[48;5;228m"@ + seq![c] + "\x1b[0m"@
            } else {
                seq![c]
            }
        }),
        text@.len() == 0 ==> r@.len() == 0,
{
    text::lemma_byte_count_push(text@, c);
    assert(longer@.drop_last() =~= text@);
}

/// Without colors a line of a file is printed as it is.
pub proof fn law_grep_marks_need_colors(text: &str, ranges: &Vec<(usize, usize)>, r: String)
    requires
        call_ensures(highlight_grep_ranges, (text, ranges, false), r),
    ensures
        r@ == text@,
{
}

/// A text is shown in its base style, and each character whose place is listed in
/// the style of a match: one more character adds itself, between the styles where
/// it is listed. Outside the selected row the style ends with the text.
pub proof fn law_listed_characters_are_marked(
    text: &str,
    longer: &str,
    c: char,
    indices: &Vec<usize>,
    selected: bool,
    base_style: &str,
    r: String,
    s: String,
)
    requires
        call_ensures(apply_indices_highlight, (text, indices, selected, base_style), r),
        call_ensures(apply_indices_highlight, (longer, indices, selected, base_style), s),
        longer@ == text@.push(c),
        longer@.len() <= usize::MAX,
    ensures
        ({
            let end = if selected {
                Seq::empty()
            } else {
                "\x1b[0m"@
            };
            let before = r@.take(r@.len() - end.len());
            let one = if !indices@.contains(text@.len() as usize) {
                seq![c]
            } else if selected {
                "\x1b[48;5;238m\x1b[38;5;111m"@ + "\x1b[1m"@ + seq![c] + base_style@
            } else {
                "\x1b[1m"@ + "\x1b[36m"@ + seq![c] + "\x1b[0m"@ + base_style@
            };
            &&& r@ == before + end
            &&& s@ == before + one + end
            &&& text@.len() == 0 ==> r@ == base_style@ + end
        }),
{
    let base = base_style@;
    let end = if selected {
        Seq::empty()
    } else {
        "\x1b[0m"@
    };
    let flags = place_flags(indices@, text@.len());
    let more_flags = place_flags(indices@, longer@.len());
    let body = base + marked(text@, flags, selected, base);
    assert(longer@.drop_last() =~= text@);
    lemma_marked_by_first_flags(text@, flags, more_flags, selected, base);
    assert(r@ =~= body + end);
    assert(r@.take(r@.len() - end.len()) =~= body);
    let one = styled_char(c, indices@.contains(text@.len() as usize), selected, base);
    assert(marked(longer@, more_flags, selected, base) == marked(text@, more_flags, selected, base)
        + one);
    assert(s@ =~= body + one + end);
    if text@.len() == 0 {
        assert(body =~= base);
    }
}

proof fn lemma_marked_by_first_flags(
    s: Seq<char>,
    a: Seq<bool>,
    b: Seq<bool>,
    selected: bool,
    base: Seq<char>,
)
    requires
        forall|i: int| 0 <= i < s.len() ==> a[i] == b[i],
    ensures
        marked(s, a, selected, base) == marked(s, b, selected, base),
    decreases s.len(),
{
    if s.len() > 0 {
        lemma_marked_by_first_flags(s.drop_last(), a, b, selected, base);
    }
}

/// Marking ranges is marking the places in them.
pub proof fn law_ranges_are_their_places(
    text: &str,
    ranges: &Vec<(usize, usize)>,
    indices: &Vec<usize>,
    selected: bool,
    base_style: &str,
    r: String,
    s: String,
)
    requires
        call_ensures(apply_match_ranges, (text, ranges, selected, base_style), r),
        call_ensures(apply_indices_highlight, (text, indices, selected, base_style), s),
        text@.len() <= usize::MAX,
        forall|place: usize|
            #[trigger] indices@.contains(place) <==> exists|k: int|
                0 <= k < ranges@.len() && (#[trigger] ranges@[k]).0 <= place < ranges@[k].1,
    ensures
        r@ == s@,
{
    assert(range_flags(ranges@, text@.len()) =~= place_flags(indices@, text@.len()));
}

/// Git's word on a file is one letter in its own color: yellow M for modified,
/// cyan A for added, red D for deleted, magenta R for renamed, and a gray dot.
pub proof fn law_git_marks(kind: GitKind, selected: bool, r: String)
    requires
        call_ensures(git_icon, (kind, selected), r),
    ensures
        ({
            let end = if selected {
                Seq::empty()
            } else {
                "\x1b[0m"@
            };
            &&& kind is Modified ==> r@ == "\x1b[33m"@ + seq!['M'] + end
            &&& kind is Added ==> r@ == "\x1b[36m"@ + seq!['A'] + end
            &&& kind is Deleted ==> r@ == "\x1b[31m"@ + seq!['D'] + end
            &&& kind is Renamed ==> r@ == "\x1b[35m"@ + seq!['R'] + end
            &&& kind is Clean ==> r@ == "\x1b[38;5;244m"@ + seq!['·'] + end
        }),
{
}

/// A badge shows its icon and its score, in red for a flame and in yellow for
/// another, and in the accent of the selected row there. A file without one shows
/// none.
pub proof fn law_badge_shows_icon_and_score(item: &FileMatch, selected: bool, r: String)
    requires
        call_ensures(badge_text, (item, selected), r),
    ensures
        item.badge is None ==> r@.len() == 0,
        item.badge matches Some(badge) ==> {
            let content = badge.icon@ + (if badge.score < 0 {
                seq!['-'] + text::decimal((-badge.score) as nat)
            } else {
                text::decimal(badge.score as nat)
            });
            &&& selected ==> r@ == "\x1b[48;5;238m\x1b[38;5;111m"@ + content
            &&& !selected && badge.icon@ == seq!['🔥'] ==> r@ == "\x1b[31m"@ + content + "\x1b[0m"@
            &&& !selected && badge.icon@ != seq!['🔥'] ==> r@ == "\x1b[33m"@ + content + "\x1b[0m"@
        },
{
    reveal_strlit("🔥");
    assert("🔥"@ =~= seq!['🔥']);
    if let Some(badge) = item.badge {
        let content = badge.icon@ + text::signed_decimal(badge.score as int);
        assert(content + Seq::<char>::empty() =~= content);
        assert(SELECTED_ACCENT@ + content + Seq::<char>::empty() =~= SELECTED_ACCENT@ + content);
    }
}

/// Of a text each character counts but those of control sequences: a sequence
/// behind plain text adds nothing to the width.
pub proof fn law_control_sequences_have_no_width(
    plain: Seq<char>,
    control: Seq<char>,
    rest: &str,
    whole: &str,
    r: usize,
    s: usize,
)
    requires
        call_ensures(visible_width, (whole,), r),
        call_ensures(visible_width, (rest,), s),
        !plain.contains('\x1b'),
        control.len() == 0 || {
            &&& control.len() >= 3
            &&& control[0] == '\x1b'
            &&& control[1] == '['
            &&& 'a' <= control.last() <= 'z' || 'A' <= control.last() <= 'Z'
            &&& forall|i: int|
                2 <= i < control.len() - 1 ==> !('a' <= #[trigger] control[i] <= 'z') && !('A'
                    <= control[i] <= 'Z')
        },
        whole@ == plain + control + rest@,
    ensures
        r == plain.len() + s,
        rest@.len() == 0 ==> s == 0,
{
    lemma_plain(plain);
    assert(whole@ =~= plain + (control + rest@));
    if control.len() == 0 {
        assert(control + rest@ =~= rest@);
    } else {
        lemma_control_is_style(control);
        assert(shown(control + rest@) == shown(control) + shown(rest@));
    }
    assert(shown(plain + (control + rest@)) == shown(plain) + shown(control + rest@));
}

/// An escape character without a bracket behind it counts for nothing by itself,
/// and a control sequence that does not end takes up the rest of the text.
pub proof fn law_loose_escapes_have_no_width(
    plain: Seq<char>,
    rest: &str,
    whole: &str,
    r: usize,
    s: usize,
)
    requires
        call_ensures(visible_width, (whole,), r),
        call_ensures(visible_width, (rest,), s),
        !plain.contains('\x1b'),
        whole@ == plain + seq!['\x1b'] + rest@,
    ensures
        rest@.len() == 0 || rest@[0] != '[' ==> r == plain.len() + s,
        rest@.len() > 0 && rest@[0] == '[' && (forall|i: int|
            0 < i < rest@.len() ==> !('a' <= #[trigger] rest@[i] <= 'z') && !('A' <= rest@[i]
                <= 'Z')) ==> r == plain.len(),
{
    lemma_plain(plain);
    let tail = seq!['\x1b'] + rest@;
    assert(whole@ =~= plain + tail);
    assert(shown(plain + tail) == shown(plain) + shown(tail));
    assert(tail.drop_first() =~= rest@);
    if rest@.len() > 0 && rest@[0] == '[' {
        if forall|i: int|
            0 < i < rest@.len() ==> !('a' <= #[trigger] rest@[i] <= 'z') && !('A' <= rest@[i]
                <= 'Z') {
            let body = tail.skip(2);
            assert forall|i: int| 0 <= i < body.len() implies !is_letter(#[trigger] body[i]) by {
                assert(body[i] == rest@[i + 1]);
            }
            lemma_no_letter(body);
            assert(after_letter(body) =~= Seq::<char>::empty());
            assert(tail[1] == rest@[0]);
            assert(shown(tail) == shown(Seq::<char>::empty()));
            assert(shown(plain) + Seq::<char>::empty() =~= plain);
        }
    }
}

proof fn lemma_no_letter(s: Seq<char>)
    requires
        forall|i: int| 0 <= i < s.len() ==> !is_letter(#[trigger] s[i]),
    ensures
        after_letter(s).len() == 0,
    decreases s.len(),
{
    if s.len() > 0 {
        assert(!is_letter(s[0]));
        lemma_no_letter(s.drop_first());
    }
}

} // verus!
