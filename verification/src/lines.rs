//! The rows of the two lists.

use crate::ansi;
use crate::ansi::{
    apply_indices_highlight, apply_match_ranges, badge_text, git_icon, visible_width, BOLD, GRAY,
    RESET, SELECTED, SELECTED_ACCENT,
};
use crate::layout;
use crate::layout::{fuzzy_match_indices, truncate, truncate_path};
use crate::text;
use crate::types::{Badge, FileMatch, GitKind, HistoryMatch};
use vstd::prelude::*;

verus! {

/// What a row begins with: an arrow where it is selected.
pub open spec fn row_prefix(selected: bool) -> Seq<char> {
    if selected {
        SELECTED_ACCENT@ + "> "@
    } else {
        "  "@
    }
}

/// What a row begins with.
fn prefix_of(selected: bool) -> (r: String)
    ensures
        r@ == row_prefix(selected),
{
    if selected {
        let mut r = SELECTED_ACCENT.to_owned();
        r.append("> ");
        r
    } else {
        "  ".to_owned()
    }
}

/// A row, in the style of the selected one where it is selected.
pub open spec fn whole_row(content: Seq<char>, selected: bool) -> Seq<char> {
    if selected {
        SELECTED@ + content + RESET@
    } else {
        content
    }
}

/// A row, in the style of the selected one where it is selected.
fn finish_row(content: String, selected: bool) -> (r: String)
    ensures
        r@ == whole_row(content@, selected),
{
    if selected {
        let mut r = SELECTED.to_owned();
        r.append(content.as_str());
        r.append(RESET);
        r
    } else {
        content
    }
}

/// How long the directory of a path is, with the last slash.
pub open spec fn dir_end(path: Seq<char>) -> int
    decreases path.len(),
{
    if path.len() == 0 {
        0
    } else if path.last() == '/' {
        path.len() as int
    } else {
        dir_end(path.drop_last())
    }
}

/// The directory ends within the path.
pub proof fn lemma_dir_end(path: Seq<char>)
    ensures
        0 <= dir_end(path) <= path.len(),
    decreases path.len(),
{
    if path.len() > 0 {
        lemma_dir_end(path.drop_last());
    }
}

/// The directory of a path with the last slash, and the file name.
fn split_path(path: &str) -> (r: (String, String))
    ensures
        r.0@ == path@.take(dir_end(path@)),
        r.1@ == path@.skip(dir_end(path@)),
{
    let chars = text::chars_of(path);
    let n: usize = chars.len();
    let mut end: usize = n;
    assert(path@.take(n as int) =~= path@);
    while end > 0 && chars[end - 1] != '/'
        invariant
            chars@ == path@,
            n == chars@.len(),
            end <= n,
            dir_end(path@) == dir_end(path@.take(end as int)),
        decreases end,
    {
        assert(path@.take(end as int).drop_last() =~= path@.take(end - 1));
        end = end - 1;
    }
    assert(dir_end(path@) == end);
    assert(chars@.subrange(0, end as int) =~= path@.take(end as int));
    assert(chars@.subrange(end as int, n as int) =~= path@.skip(end as int));
    (text::string_of(&chars, 0, end), text::string_of(&chars, end, n))
}

/// How many columns a row has left for the path: those that the arrow, the git
/// mark and the badge do not take.
pub open spec fn path_columns(badge: Option<Badge>, selected: bool, width: int) -> int {
    let shown_badge = ansi::badge_shown(badge, selected);
    let badge_width = if shown_badge.len() == 0 {
        0
    } else {
        ansi::shown(shown_badge).len() + 1
    };
    let left = width - (ansi::shown(row_prefix(selected)).len() + 2 + badge_width);
    if left < 0 {
        0
    } else {
        left
    }
}

/// One flag for each character from `offset` on: whether its place is listed.
pub open spec fn flags_from(places: Seq<usize>, offset: nat, len: nat) -> Seq<bool> {
    Seq::new(len, |i: int| places.contains((i + offset) as usize))
}

/// A file's row: an arrow, the git mark, the path with the characters that the
/// query matches marked, and the badge.
pub open spec fn file_row(
    path: Seq<char>,
    git: GitKind,
    badge: Option<Badge>,
    query: Seq<char>,
    selected: bool,
    width: int,
) -> Seq<char> {
    let shown_badge = ansi::badge_shown(badge, selected);
    let (dir, base) = layout::truncated_path(
        path.take(dir_end(path)),
        path.skip(dir_end(path)),
        path_columns(badge, selected, width),
    );
    let places = layout::fuzzy_places(dir + base, query);
    let content = row_prefix(selected) + ansi::in_style(
        ansi::git_color(git),
        seq![ansi::git_letter(git)],
        selected,
    ) + " "@ + dir_shown(dir, places, selected) + ansi::highlighted(
        base,
        flags_from(places, dir.len(), base.len()),
        selected,
        BOLD@,
    ) + badge_column(shown_badge);
    whole_row(content, selected)
}

/// The directory in a file's row.
pub open spec fn dir_shown(dir: Seq<char>, places: Seq<usize>, selected: bool) -> Seq<char> {
    if dir.len() == 0 {
        Seq::empty()
    } else {
        ansi::highlighted(
            dir,
            flags_from(places, 0, dir.len()),
            selected,
            if selected {
                ""@
            } else {
                GRAY@
            },
        )
    }
}

/// The badge at the end of a file's row.
pub open spec fn badge_column(shown_badge: Seq<char>) -> Seq<char> {
    if shown_badge.len() == 0 {
        Seq::empty()
    } else {
        " "@ + shown_badge
    }
}

/// The places below `end`.
fn places_below(places: &Vec<usize>, end: usize) -> (r: Vec<usize>)
    ensures
        forall|x: usize| #[trigger] r@.contains(x) <==> places@.contains(x) && x < end,
{
    let mut r: Vec<usize> = Vec::new();
    let mut i: usize = 0;
    while i < places.len()
        invariant
            i <= places@.len(),
            forall|x: usize|
                #[trigger] r@.contains(x) <==> places@.take(i as int).contains(x) && x < end,
        decreases places@.len() - i,
    {
        let place: usize = places[i];
        let ghost before = r@;
        let ghost front = places@.take(i as int);
        if place < end {
            r.push(place);
        }
        assert forall|x: usize| #[trigger] r@.contains(x) <==> places@.take(i + 1).contains(x) && x
            < end by {
            assert(places@.take(i + 1) =~= front.push(place));
            lemma_contains_push(front, place, x);
            lemma_contains_push(before, place, x);
            assert(before.contains(x) <==> front.contains(x) && x < end);
        }
        i = i + 1;
    }
    assert(places@.take(places@.len() as int) =~= places@);
    r
}

/// The places from `start` on, counted from there.
fn places_from(places: &Vec<usize>, start: usize) -> (r: Vec<usize>)
    ensures
        forall|x: usize|
            #[trigger] r@.contains(x) <==> x + start <= usize::MAX && places@.contains(
                (x + start) as usize,
            ),
{
    let mut r: Vec<usize> = Vec::new();
    let mut i: usize = 0;
    while i < places.len()
        invariant
            i <= places@.len(),
            forall|x: usize|
                #[trigger] r@.contains(x) <==> x + start <= usize::MAX && places@.take(
                    i as int,
                ).contains((x + start) as usize),
        decreases places@.len() - i,
    {
        let place: usize = places[i];
        let ghost before = r@;
        let ghost front = places@.take(i as int);
        if place >= start {
            r.push(place - start);
        }
        assert forall|x: usize|
            #[trigger] r@.contains(x) <==> x + start <= usize::MAX && places@.take(i + 1).contains(
                (x + start) as usize,
            ) by {
            assert(places@.take(i + 1) =~= front.push(place));
            assert(before.contains(x) <==> x + start <= usize::MAX && front.contains(
                (x + start) as usize,
            ));
            if x + start <= usize::MAX {
                lemma_contains_push(front, place, (x + start) as usize);
            }
            if place >= start {
                lemma_contains_push(before, (place - start) as usize, x);
            }
        }
        i = i + 1;
    }
    assert(places@.take(places@.len() as int) =~= places@);
    r
}

proof fn lemma_contains_push(s: Seq<usize>, x: usize, y: usize)
    ensures
        s.push(x).contains(y) <==> s.contains(y) || x == y,
{
    if s.contains(y) {
        let k = choose|k: int| 0 <= k < s.len() && s[k] == y;
        assert(s.push(x)[k] == y);
    }
    assert(s.push(x)[s.len() as int] == x);
}

/// A file's row.
pub fn file_line(item: &FileMatch, query: &str, selected: bool, width: usize) -> (r: String)
    ensures
        r@ == file_row(
            item.relative_path@,
            item.git,
            item.badge,
            query@,
            selected,
            width as int,
        ),
{
    let prefix = prefix_of(selected);
    let git = git_icon(item.git, selected);
    let badge = badge_text(item, selected);
    let mut available: usize = width.saturating_sub(visible_width(prefix.as_str())).saturating_sub(
        2,
    );
    if !badge.as_str().is_empty() {
        available = available.saturating_sub(visible_width(badge.as_str())).saturating_sub(1);
    }
    assert(available == path_columns(item.badge, selected, width as int));
    let (whole_dir, whole_base) = split_path(item.relative_path.as_str());
    let (dir, base) = truncate_path(whole_dir.as_str(), whole_base.as_str(), available);
    let mut display = dir.as_str().to_owned();
    display.append(base.as_str());
    let matched = fuzzy_match_indices(display.as_str(), query);
    let total: usize = text::chars_of(display.as_str()).len();
    let dir_len: usize = text::chars_of(dir.as_str()).len();
    let dir_matches = places_below(&matched, dir_len);
    let base_matches = places_from(&matched, dir_len);
    assert(ansi::place_flags(dir_matches@, dir@.len()) =~= flags_from(matched@, 0, dir@.len()));
    assert(ansi::place_flags(base_matches@, base@.len()) =~= flags_from(
        matched@,
        dir@.len(),
        base@.len(),
    ));
    let mut content = prefix;
    content.append(git.as_str());
    content.append(" ");
    if !dir.as_str().is_empty() {
        let dir_style: &str = if selected {
            ""
        } else {
            GRAY
        };
        let rendered_dir = apply_indices_highlight(
            dir.as_str(),
            &dir_matches,
            selected,
            dir_style,
        );
        content.append(rendered_dir.as_str());
    }
    let rendered_base = apply_indices_highlight(base.as_str(), &base_matches, selected, BOLD);
    assert(content@ =~= row_prefix(selected) + git@ + " "@ + dir_shown(dir@, matched@, selected));
    content.append(rendered_base.as_str());
    if !badge.as_str().is_empty() {
        content.append(" ");
        content.append(badge.as_str());
    }
    assert(content@ =~= row_prefix(selected) + git@ + " "@ + dir_shown(dir@, matched@, selected)
        + rendered_base@ + badge_column(badge@));
    finish_row(content, selected)
}

/// How many columns a history row has left for the command.
pub open spec fn command_columns(selected: bool, width: int) -> int {
    let left = width - ansi::shown(row_prefix(selected)).len();
    if left < 0 {
        0
    } else {
        left
    }
}

/// A history entry's row: an arrow and the command on one line, with the
/// characters that matched marked.
pub open spec fn history_row(
    display: Seq<char>,
    match_ranges: Seq<(usize, usize)>,
    selected: bool,
    width: int,
) -> Seq<char> {
    let cut = layout::truncated(display, command_columns(selected, width));
    whole_row(
        row_prefix(selected) + ansi::highlighted(
            cut,
            ansi::range_flags(match_ranges, cut.len()),
            selected,
            ""@,
        ),
        selected,
    )
}

/// A history entry's row.
pub fn history_line(item: &HistoryMatch, selected: bool, width: usize) -> (r: String)
    ensures
        r@ == history_row(item.display@, item.match_ranges@, selected, width as int),
{
    let prefix = prefix_of(selected);
    let left: usize = width.saturating_sub(visible_width(prefix.as_str()));
    let display = truncate(item.display.as_str(), left);
    let rendered = apply_match_ranges(display.as_str(), &item.match_ranges, selected, "");
    let mut content = prefix;
    content.append(rendered.as_str());
    finish_row(content, selected)
}

proof fn lemma_plain_parts(s: Seq<char>, cut: int)
    requires
        ansi::is_plain(s),
        0 <= cut <= s.len(),
    ensures
        ansi::is_plain(s.take(cut)),
        ansi::is_plain(s.skip(cut)),
{
    if s.take(cut).contains('\x1b') {
        let k = choose|k: int| 0 <= k < cut && s.take(cut)[k] == '\x1b';
        assert(s[k] == '\x1b');
    }
    if s.skip(cut).contains('\x1b') {
        let k = choose|k: int| 0 <= k < s.len() - cut && s.skip(cut)[k] == '\x1b';
        assert(s[k + cut] == '\x1b');
    }
}

/// Plain texts make a plain text.
pub proof fn lemma_plain_concat(a: Seq<char>, b: Seq<char>)
    requires
        ansi::is_plain(a),
        ansi::is_plain(b),
    ensures
        ansi::is_plain(a + b),
{
    if (a + b).contains('\x1b') {
        let k = choose|k: int| 0 <= k < (a + b).len() && (a + b)[k] == '\x1b';
        if k < a.len() {
            assert(a.contains(a[k]));
        } else {
            assert(b.contains(b[k - a.len()]));
        }
    }
}

/// Cutting a plain text leaves it plain.
pub proof fn lemma_plain_truncated(s: Seq<char>, width: int)
    requires
        ansi::is_plain(s),
    ensures
        ansi::is_plain(layout::truncated(s, width)),
{
    reveal_strlit("...");
    if 0 < width < s.len() {
        if width <= 3 {
            lemma_plain_parts(s, width);
        } else {
            lemma_plain_parts(s, width - 3);
            lemma_plain_concat(s.take(width - 3), "..."@);
        }
    }
}

/// What a row's beginning shows.
pub open spec fn arrow(selected: bool) -> Seq<char> {
    if selected {
        "> "@
    } else {
        "  "@
    }
}

proof fn lemma_prefix_shows_arrow(selected: bool)
    ensures
        ansi::is_closed(row_prefix(selected)),
        ansi::shown(row_prefix(selected)) == arrow(selected),
        arrow(selected).len() == 2,
{
    reveal_strlit("> ");
    reveal_strlit("  ");
    ansi::lemma_styles();
    ansi::lemma_plain(arrow(selected));
    if selected {
        ansi::lemma_closed_concat(SELECTED_ACCENT@, "> "@);
        assert(ansi::shown(SELECTED_ACCENT@) + "> "@ =~= "> "@);
    }
}

proof fn lemma_whole_row(content: Seq<char>, selected: bool)
    requires
        ansi::is_closed(content),
    ensures
        ansi::is_closed(whole_row(content, selected)),
        ansi::shown(whole_row(content, selected)) == ansi::shown(content),
{
    ansi::lemma_styles();
    if selected {
        ansi::lemma_styled(SELECTED@, content, RESET@);
    }
}

/// What a badge shows: its icon and its score.
pub open spec fn badge_plain(badge: Option<Badge>) -> Seq<char> {
    match badge {
        Some(badge) => badge.icon@ + text::signed_decimal(badge.score as int),
        None => Seq::empty(),
    }
}

proof fn lemma_badge_shows(badge: Option<Badge>, selected: bool)
    requires
        badge matches Some(b) ==> ansi::is_plain(b.icon@),
    ensures
        ansi::is_closed(ansi::badge_shown(badge, selected)),
        ansi::shown(ansi::badge_shown(badge, selected)) == badge_plain(badge),
        badge is Some ==> ansi::badge_shown(badge, selected).len() > 0,
        badge is Some ==> badge_plain(badge).len() > 0,
{
    match badge {
        Some(b) => {
            let n = b.score as int;
            text::lemma_decimal_digits(
                if n < 0 {
                    (-n) as nat
                } else {
                    n as nat
                },
            );
            assert(ansi::is_plain(text::signed_decimal(n)));
            lemma_plain_concat(b.icon@, text::signed_decimal(n));
            ansi::lemma_styles();
            ansi::lemma_in_style_shows_text(
                ansi::badge_color(b.icon@, selected),
                b.icon@ + text::signed_decimal(n),
                selected,
            );
        },
        None => {
            ansi::lemma_empty_is_style();
            assert(ansi::shown(ansi::badge_shown(badge, selected)) =~= badge_plain(badge));
        },
    }
}

/// What a file's row shows, without its styles.
pub open spec fn file_row_plain(
    path: Seq<char>,
    git: GitKind,
    badge: Option<Badge>,
    selected: bool,
    width: int,
) -> Seq<char> {
    let (dir, base) = layout::truncated_path(
        path.take(dir_end(path)),
        path.skip(dir_end(path)),
        path_columns(badge, selected, width),
    );
    arrow(selected) + seq![ansi::git_letter(git)] + " "@ + dir + base + badge_column(
        badge_plain(badge),
    )
}

/// A file's row shows an arrow, the git mark, the path cut to fit, and the
/// badge. It is no wider than asked for, if what stands around the path is not.
pub proof fn law_file_row_fits(
    path: Seq<char>,
    git: GitKind,
    badge: Option<Badge>,
    query: Seq<char>,
    selected: bool,
    width: int,
)
    requires
        ansi::is_plain(path),
        badge matches Some(b) ==> ansi::is_plain(b.icon@),
    ensures
        ansi::is_closed(file_row(path, git, badge, query, selected, width)),
        ansi::shown(file_row(path, git, badge, query, selected, width)) == file_row_plain(
            path,
            git,
            badge,
            selected,
            width,
        ),
        width >= 4 + badge_column(badge_plain(badge)).len() ==> ansi::shown(
            file_row(path, git, badge, query, selected, width),
        ).len() <= width,
{
    reveal_strlit(" ");
    reveal_strlit("");
    let end = dir_end(path);
    lemma_dir_end(path);
    lemma_plain_parts(path, end);
    let columns = path_columns(badge, selected, width);
    let (dir, base) = layout::truncated_path(path.take(end), path.skip(end), columns);
    lemma_plain_truncated(path.skip(end), columns);
    lemma_plain_truncated(path.take(end), columns - text::byte_count(path.skip(end)));
    assert(ansi::is_plain(dir) && ansi::is_plain(base));
    let places = layout::fuzzy_places(dir + base, query);
    let shown_badge = ansi::badge_shown(badge, selected);
    lemma_prefix_shows_arrow(selected);
    lemma_badge_shows(badge, selected);
    ansi::lemma_styles();
    ansi::lemma_empty_is_style();
    ansi::lemma_in_style_shows_text(
        ansi::git_color(git),
        seq![ansi::git_letter(git)],
        selected,
    );
    ansi::lemma_plain(" "@);
    let dir_style = if selected {
        ""@
    } else {
        GRAY@
    };
    assert(""@ =~= Seq::<char>::empty());
    ansi::law_highlight_shows_text(dir, flags_from(places, 0, dir.len()), selected, dir_style);
    ansi::lemma_plain(dir);
    assert(ansi::is_closed(dir_shown(dir, places, selected)));
    assert(ansi::shown(dir_shown(dir, places, selected)) =~= dir);
    let base_flags = flags_from(places, dir.len(), base.len());
    ansi::law_highlight_shows_text(base, base_flags, selected, BOLD@);
    let a = row_prefix(selected);
    let b = ansi::in_style(ansi::git_color(git), seq![ansi::git_letter(git)], selected);
    let d = dir_shown(dir, places, selected);
    let e = ansi::highlighted(base, base_flags, selected, BOLD@);
    let f = badge_column(shown_badge);
    ansi::lemma_closed_concat(a, b);
    ansi::lemma_closed_concat(a + b, " "@);
    ansi::lemma_closed_concat(a + b + " "@, d);
    ansi::lemma_closed_concat(a + b + " "@ + d, e);
    ansi::lemma_closed_concat(" "@, shown_badge);
    assert(ansi::shown(f) =~= badge_column(badge_plain(badge)));
    ansi::lemma_closed_concat(a + b + " "@ + d + e, f);
    lemma_whole_row(a + b + " "@ + d + e + f, selected);
    if columns >= 0 {
        layout::law_truncated_path_fits(path.take(end), path.skip(end), columns);
    }
}

/// What a history entry's row shows, without its styles.
pub open spec fn history_row_plain(display: Seq<char>, selected: bool, width: int) -> Seq<char> {
    arrow(selected) + layout::truncated(display, command_columns(selected, width))
}

/// A history entry's row shows an arrow and the command cut to fit. It is no
/// wider than asked for, if the arrow is not.
pub proof fn law_history_row_fits(
    display: Seq<char>,
    match_ranges: Seq<(usize, usize)>,
    selected: bool,
    width: int,
)
    requires
        ansi::is_plain(display),
    ensures
        ansi::is_closed(history_row(display, match_ranges, selected, width)),
        ansi::shown(history_row(display, match_ranges, selected, width)) == history_row_plain(
            display,
            selected,
            width,
        ),
        width >= 2 ==> ansi::shown(history_row(display, match_ranges, selected, width)).len()
            <= width,
{
    reveal_strlit("");
    lemma_prefix_shows_arrow(selected);
    let columns = command_columns(selected, width);
    let cut = layout::truncated(display, columns);
    lemma_plain_truncated(display, columns);
    ansi::lemma_empty_is_style();
    assert(""@ =~= Seq::<char>::empty());
    let flags = ansi::range_flags(match_ranges, cut.len());
    ansi::law_highlight_shows_text(cut, flags, selected, ""@);
    let rest = ansi::highlighted(cut, flags, selected, ""@);
    ansi::lemma_closed_concat(row_prefix(selected), rest);
    lemma_whole_row(row_prefix(selected) + rest, selected);
    layout::law_truncated_fits(display, columns);
}

proof fn lemma_dir_end_is(dir: Seq<char>, base: Seq<char>)
    requires
        !base.contains('/'),
        dir.len() == 0 || dir.last() == '/',
    ensures
        dir_end(dir + base) == dir.len(),
    decreases base.len(),
{
    let path = dir + base;
    if base.len() == 0 {
        assert(path =~= dir);
    } else {
        assert(base.contains(base[base.len() - 1]));
        assert(path.drop_last() =~= dir + base.drop_last());
        assert(!base.drop_last().contains('/')) by {
            if base.drop_last().contains('/') {
                let k = choose|k: int|
                    0 <= k < base.drop_last().len() && base.drop_last()[k] == '/';
                assert(base[k] == '/');
            }
        }
        lemma_dir_end_is(dir, base.drop_last());
    }
}

proof fn lemma_row_put_together(
    git: Seq<char>,
    dir: Seq<char>,
    base: Seq<char>,
    badge: Seq<char>,
    selected: bool,
)
    ensures
        ({
            let content = git + seq![' '] + dir + base + badge;
            whole_row(row_prefix(selected) + git + " "@ + dir + base + badge, selected)
                == if selected {
                "\x1b[48;5;238m\x1b[38;5;230m"@ + "\x1b[48;5;238m\x1b[38;5;111m"@ + seq!['>', ' ']
                    + content + "\x1b[0m"@
            } else {
                seq![' ', ' '] + content
            }
        }),
{
    reveal_strlit("> ");
    reveal_strlit("  ");
    reveal_strlit(" ");
    assert("> "@ =~= seq!['>', ' ']);
    assert("  "@ =~= seq![' ', ' ']);
    assert(" "@ =~= seq![' ']);
    let content = git + seq![' '] + dir + base + badge;
    let row = row_prefix(selected) + git + " "@ + dir + base + badge;
    assert(row =~= row_prefix(selected) + content);
    if selected {
        assert(whole_row(row, selected) =~= "\x1b[48;5;238m\x1b[38;5;230m"@
            + "\x1b[48;5;238m\x1b[38;5;111m"@ + seq!['>', ' '] + content + "\x1b[0m"@);
    }
}

/// A row begins with the arrow where it is selected, and with two blanks where it
/// is not.
pub proof fn lemma_row_begins(
    path: Seq<char>,
    git: GitKind,
    badge: Option<Badge>,
    query: Seq<char>,
    selected: bool,
    width: int,
)
    ensures
        selected ==> ("\x1b[48;5;238m\x1b[38;5;230m"@ + "\x1b[48;5;238m\x1b[38;5;111m"@ + seq![
            '>',
            ' ',
        ]).is_prefix_of(file_row(path, git, badge, query, selected, width)),
        !selected ==> seq![' ', ' '].is_prefix_of(
            file_row(path, git, badge, query, selected, width),
        ),
{
    let (dir, base) = layout::truncated_path(
        path.take(dir_end(path)),
        path.skip(dir_end(path)),
        path_columns(badge, selected, width),
    );
    let places = layout::fuzzy_places(dir + base, query);
    let mark = ansi::in_style(ansi::git_color(git), seq![ansi::git_letter(git)], selected);
    let shown_dir = dir_shown(dir, places, selected);
    let shown_base = ansi::highlighted(
        base,
        flags_from(places, dir.len(), base.len()),
        selected,
        BOLD@,
    );
    let column = badge_column(ansi::badge_shown(badge, selected));
    lemma_row_put_together(mark, shown_dir, shown_base, column, selected);
    let row = file_row(path, git, badge, query, selected, width);
    let content = mark + seq![' '] + shown_dir + shown_base + column;
    if selected {
        let arrow = "\x1b[48;5;238m\x1b[38;5;230m"@ + "\x1b[48;5;238m\x1b[38;5;111m"@ + seq![
            '>',
            ' ',
        ];
        assert(row == arrow + content + "\x1b[0m"@);
        assert(arrow =~= row.subrange(0, arrow.len() as int));
    } else {
        assert(seq![' ', ' '] =~= row.subrange(0, 2));
    }
}

/// A file's row is put together from its parts: an arrow in the selected row and
/// two blanks in another; the git mark; the path, split behind its last slash and
/// cut to the columns that arrow, mark and badge leave, with the characters that
/// the query matches marked, the directory gray and the name bold; and the badge,
/// if there is one. The selected row has its own style from end to end.
pub proof fn law_file_line_has_its_parts(
    item: &FileMatch,
    query: &str,
    selected: bool,
    width: usize,
    r: String,
    git: String,
    badge: String,
    badge_str: &str,
    badge_width: usize,
    dir: &str,
    base: &str,
    available: usize,
    cut: (String, String),
    display: &str,
    matched: Vec<usize>,
    cut_dir: &str,
    dir_places: &Vec<usize>,
    dir_style: &str,
    shown_dir: String,
    cut_base: &str,
    base_places: &Vec<usize>,
    base_style: &str,
    shown_base: String,
)
    requires
        call_ensures(file_line, (item, query, selected, width), r),
        call_ensures(git_icon, (item.git, selected), git),
        call_ensures(badge_text, (item, selected), badge),
        badge_str@ == badge@,
        call_ensures(visible_width, (badge_str,), badge_width),
        item.relative_path@ == dir@ + base@,
        !base@.contains('/'),
        dir@.len() == 0 || dir@.last() == '/',
        available == ({
            let taken = 4 + if badge@.len() == 0 {
                0
            } else {
                badge_width + 1
            };
            if width < taken {
                0
            } else {
                width - taken
            }
        }),
        call_ensures(truncate_path, (dir, base, available), cut),
        display@ == cut.0@ + cut.1@,
        display@.len() <= usize::MAX,
        call_ensures(fuzzy_match_indices, (display, query), matched),
        cut_dir@ == cut.0@,
        cut_base@ == cut.1@,
        forall|i: int|
            0 <= i < cut.0@.len() ==> (#[trigger] dir_places@.contains(i as usize)
                <==> matched@.contains(i as usize)),
        forall|i: int|
            0 <= i < cut.1@.len() ==> (#[trigger] base_places@.contains(i as usize)
                <==> matched@.contains((i + cut.0@.len()) as usize)),
        dir_style@ == if selected {
            Seq::empty()
        } else {
            "\x1b[38;5;244m"@
        },
        base_style@ == "\x1b[1m"@,
        call_ensures(apply_indices_highlight, (cut_dir, dir_places, selected, dir_style), shown_dir),
        call_ensures(
            apply_indices_highlight,
            (cut_base, base_places, selected, base_style),
            shown_base,
        ),
    ensures
        ({
            let content = git@ + seq![' '] + (if cut.0@.len() == 0 {
                Seq::empty()
            } else {
                shown_dir@
            }) + shown_base@ + (if badge@.len() == 0 {
                Seq::empty()
            } else {
                seq![' '] + badge@
            });
            &&& selected ==> r@ == "\x1b[48;5;238m\x1b[38;5;230m"@
                + "\x1b[48;5;238m\x1b[38;5;111m"@ + seq!['>', ' '] + content + "\x1b[0m"@
            &&& !selected ==> r@ == seq![' ', ' '] + content
        }),
{
    reveal_strlit(" ");
    reveal_strlit("");
    assert(" "@ =~= seq![' ']);
    assert(""@ =~= Seq::<char>::empty());
    lemma_dir_end_is(dir@, base@);
    let path = item.relative_path@;
    assert(path.take(dir_end(path)) =~= dir@);
    assert(path.skip(dir_end(path)) =~= base@);
    lemma_prefix_shows_arrow(selected);
    assert(available == path_columns(item.badge, selected, width as int));
    assert(ansi::place_flags(dir_places@, cut.0@.len()) =~= flags_from(
        matched@,
        0,
        cut.0@.len(),
    ));
    assert(ansi::place_flags(base_places@, cut.1@.len()) =~= flags_from(
        matched@,
        cut.0@.len(),
        cut.1@.len(),
    ));
    let shown_cut = if cut.0@.len() == 0 {
        Seq::empty()
    } else {
        shown_dir@
    };
    let column = if badge@.len() == 0 {
        Seq::empty()
    } else {
        seq![' '] + badge@
    };
    assert(shown_cut == dir_shown(cut.0@, matched@, selected));
    assert(column == badge_column(badge@));
    assert(r@ == whole_row(
        row_prefix(selected) + git@ + " "@ + shown_cut + shown_base@ + column,
        selected,
    ));
    lemma_row_put_together(git@, shown_cut, shown_base@, column, selected);
}

/// A history entry's row is an arrow in the selected row and two blanks in
/// another, and the command on one line, cut to the columns that are left, with
/// the characters that matched marked. The selected row has its own style from
/// end to end.
pub proof fn law_history_line_has_its_parts(
    item: &HistoryMatch,
    selected: bool,
    width: usize,
    r: String,
    display: &str,
    available: usize,
    cut: String,
    cut_str: &str,
    ranges: &Vec<(usize, usize)>,
    style: &str,
    shown: String,
)
    requires
        call_ensures(history_line, (item, selected, width), r),
        display@ == item.display@,
        available == if width < 2 {
            0
        } else {
            width - 2
        },
        call_ensures(truncate, (display, available), cut),
        cut_str@ == cut@,
        ranges@ == item.match_ranges@,
        style@.len() == 0,
        call_ensures(apply_match_ranges, (cut_str, ranges, selected, style), shown),
    ensures
        selected ==> r@ == "\x1b[48;5;238m\x1b[38;5;230m"@ + "\x1b[48;5;238m\x1b[38;5;111m"@ + seq![
            '>',
            ' ',
        ] + shown@ + "\x1b[0m"@,
        !selected ==> r@ == seq![' ', ' '] + shown@,
{
    reveal_strlit("> ");
    reveal_strlit("  ");
    reveal_strlit("");
    assert("> "@ =~= seq!['>', ' ']);
    assert("  "@ =~= seq![' ', ' ']);
    assert(""@ =~= style@);
    lemma_prefix_shows_arrow(selected);
    assert(available == command_columns(selected, width as int));
    if selected {
        assert(r@ =~= "\x1b[48;5;238m\x1b[38;5;230m"@ + "\x1b[48;5;238m\x1b[38;5;111m"@ + seq![
            '>',
            ' ',
        ] + shown@ + "\x1b[0m"@);
    }
}

} // verus!
