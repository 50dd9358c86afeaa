//! Drawing on the terminal: every function appends what is to be written.

use crate::ansi;
use crate::ansi::{visible_width, BOLD, BORDER, RESET};
use crate::text;
use crate::types::PickerMode;
use vstd::prelude::*;

verus! {

/// Asks the terminal where the cursor is.
pub const QUERY_CURSOR: &'static str = "\x1b[6n";

/// The byte that ends the terminal's answer, `R`.
pub const CURSOR_REPORT_END: u8 = 82;

pub const HIDE_CURSOR: &'static str = "\x1b[?25l";

/// Shows the cursor again, and ends every style.
pub const RESTORE_CURSOR: &'static str = "\x1b[?25h\x1b[0m";

/// The place of a box on the screen.
#[derive(Debug, Clone, Copy)]
pub struct BoxArea {
    pub row: u16,
    pub col: u16,
    pub width: u16,
    pub height: u16,
}

/// A number one higher, as far as 16 bits go.
pub open spec fn one_based(n: u16) -> nat {
    if n < u16::MAX {
        (n + 1) as nat
    } else {
        n as nat
    }
}

/// Moves the cursor. The terminal counts from one.
pub open spec fn cursor_move(row: u16, col: u16) -> Seq<char> {
    "\x1b["@ + text::decimal(one_based(row)) + ";"@ + text::decimal(one_based(col)) + "H"@
}

/// Moves the cursor.
pub fn move_to(out: &mut String, row: u16, col: u16)
    ensures
        final(out)@ == old(out)@ + cursor_move(row, col),
{
    out.append("\x1b[");
    text::push_decimal(out, row.saturating_add(1) as u64);
    out.append(";");
    text::push_decimal(out, col.saturating_add(1) as u64);
    out.append("H");
    assert(out@ =~= old(out)@ + cursor_move(row, col));
}

/// Whether the rows of an area can be counted in 16 bits.
pub open spec fn rows_fit(area: BoxArea) -> bool {
    area.row + area.height <= u16::MAX + 1
}

/// Blanks for the first rows of an area.
pub open spec fn cleared(area: BoxArea, count: nat) -> Seq<char>
    decreases count,
{
    if count == 0 {
        Seq::empty()
    } else {
        cleared(area, (count - 1) as nat) + cursor_move((area.row + count - 1) as u16, area.col)
            + text::repeated(' ', area.width as nat)
    }
}

/// Overwrites an area with blanks.
pub fn clear_rect(out: &mut String, area: BoxArea)
    requires
        rows_fit(area),
    ensures
        final(out)@ == old(out)@ + cleared(area, area.height as nat),
{
    let mut offset: u16 = 0;
    assert(out@ =~= old(out)@ + cleared(area, 0));
    while offset < area.height
        invariant
            rows_fit(area),
            offset <= area.height,
            out@ == old(out)@ + cleared(area, offset as nat),
        decreases area.height - offset,
    {
        move_to(out, area.row + offset, area.col);
        text::push_repeated(out, ' ', area.width as usize);
        offset = offset + 1;
        assert(out@ =~= old(out)@ + cleared(area, offset as nat));
    }
}

/// How wide a box is between its borders.
pub open spec fn inner_width(area: BoxArea) -> nat {
    if area.width < 2 {
        0
    } else {
        (area.width - 2) as nat
    }
}

/// A title with blanks around it, if there is one.
pub open spec fn title_text(title: Seq<char>) -> Seq<char> {
    if title.len() == 0 {
        Seq::empty()
    } else {
        " "@ + title + " "@
    }
}

/// The upper border of a box, with its title.
pub open spec fn upper_border(area: BoxArea, title: Seq<char>) -> Seq<char> {
    let left = inner_width(area) - (title_text(title).len() + 1);
    let fill = if left < 0 {
        0
    } else {
        left
    };
    BORDER@ + "┌─"@ + BOLD@ + title_text(title) + RESET@ + BORDER@ + text::repeated(
        '─',
        fill as nat,
    ) + "┐"@ + RESET@
}

/// A row between the borders of a box.
pub open spec fn side_borders(area: BoxArea) -> Seq<char> {
    BORDER@ + "│"@ + RESET@ + text::repeated(' ', inner_width(area)) + BORDER@ + "│"@ + RESET@
}

/// The lower border of a box.
pub open spec fn lower_border(area: BoxArea) -> Seq<char> {
    BORDER@ + "└"@ + text::repeated('─', inner_width(area)) + "┘"@ + RESET@
}

/// The rows of a box between its borders, up to the `count`th row of the box.
pub open spec fn side_rows(area: BoxArea, count: nat) -> Seq<char>
    decreases count,
{
    if count <= 1 {
        Seq::empty()
    } else {
        side_rows(area, (count - 1) as nat) + cursor_move((area.row + count - 1) as u16, area.col)
            + side_borders(area)
    }
}

/// The number of the last row of a box.
pub open spec fn last_row(area: BoxArea) -> nat {
    if area.height == 0 {
        area.row as nat
    } else {
        (area.row + area.height - 1) as nat
    }
}

/// The rows of a box above its lower border.
pub open spec fn rows_above_border(area: BoxArea) -> nat {
    if area.height == 0 {
        0
    } else {
        (area.height - 1) as nat
    }
}

/// A box with a title and nothing in it.
pub open spec fn boxed(area: BoxArea, title: Seq<char>) -> Seq<char> {
    cursor_move(area.row, area.col) + upper_border(area, title) + side_rows(
        area,
        rows_above_border(area),
    ) + cursor_move(last_row(area) as u16, area.col) + lower_border(area)
}

/// Draws the upper border of a box.
fn draw_upper_border(out: &mut String, area: BoxArea, title: &str)
    ensures
        final(out)@ == old(out)@ + upper_border(area, title@),
{
    let inner: usize = area.width.saturating_sub(2) as usize;
    let mut heading = String::new();
    if !title.is_empty() {
        heading.append(" ");
        heading.append(title);
        heading.append(" ");
    }
    assert(heading@ =~= title_text(title@));
    let taken: usize = text::chars_of(heading.as_str()).len();
    let fill: usize = inner.saturating_sub(taken).saturating_sub(1);
    out.append(BORDER);
    out.append("┌─");
    out.append(BOLD);
    out.append(heading.as_str());
    out.append(RESET);
    out.append(BORDER);
    text::push_repeated(out, '─', fill);
    out.append("┐");
    out.append(RESET);
    assert(out@ =~= old(out)@ + upper_border(area, title@));
}

/// Draws a row between the borders of a box.
fn draw_side_borders(out: &mut String, area: BoxArea)
    ensures
        final(out)@ == old(out)@ + side_borders(area),
{
    out.append(BORDER);
    out.append("│");
    out.append(RESET);
    text::push_repeated(out, ' ', area.width.saturating_sub(2) as usize);
    out.append(BORDER);
    out.append("│");
    out.append(RESET);
    assert(out@ =~= old(out)@ + side_borders(area));
}

/// Draws the lower border of a box.
fn draw_lower_border(out: &mut String, area: BoxArea)
    ensures
        final(out)@ == old(out)@ + lower_border(area),
{
    out.append(BORDER);
    out.append("└");
    text::push_repeated(out, '─', area.width.saturating_sub(2) as usize);
    out.append("┘");
    out.append(RESET);
    assert(out@ =~= old(out)@ + lower_border(area));
}

/// Draws the rows of a box between its borders.
fn draw_side_rows(out: &mut String, area: BoxArea)
    requires
        rows_fit(area),
    ensures
        final(out)@ == old(out)@ + side_rows(area, rows_above_border(area)),
{
    let rows: u16 = area.height.saturating_sub(1);
    if rows <= 1 {
        assert(out@ =~= old(out)@ + side_rows(area, rows as nat));
        return;
    }
    let mut offset: u16 = 1;
    assert(out@ =~= old(out)@ + side_rows(area, 1));
    while offset < rows
        invariant
            rows_fit(area),
            rows == rows_above_border(area),
            1 <= offset <= rows,
            out@ == old(out)@ + side_rows(area, offset as nat),
        decreases rows - offset,
    {
        move_to(out, area.row + offset, area.col);
        draw_side_borders(out, area);
        offset = offset + 1;
        assert(out@ =~= old(out)@ + side_rows(area, offset as nat));
    }
}

/// Draws a box with a title and nothing in it.
pub fn draw_box(out: &mut String, area: BoxArea, title: &str)
    requires
        rows_fit(area),
    ensures
        final(out)@ == old(out)@ + boxed(area, title@),
{
    move_to(out, area.row, area.col);
    draw_upper_border(out, area, title);
    draw_side_rows(out, area);
    move_to(out, area.row + area.height.saturating_sub(1), area.col);
    draw_lower_border(out, area);
    assert(out@ =~= old(out)@ + boxed(area, title@));
}

/// A text at a place, filled with blanks to a width.
pub open spec fn inner_line(row: u16, col: u16, width: u16, s: Seq<char>) -> Seq<char> {
    let missing = width - ansi::shown(s).len();
    cursor_move(row, col) + s + text::repeated(
        ' ',
        if missing < 0 {
            0
        } else {
            missing as nat
        },
    )
}

/// Writes a text at a place, filled with blanks to a width.
pub fn draw_inner_line(out: &mut String, row: u16, col: u16, width: u16, text: &str)
    ensures
        final(out)@ == old(out)@ + inner_line(row, col, width, text@),
{
    move_to(out, row, col);
    out.append(text);
    let missing: usize = (width as usize).saturating_sub(visible_width(text));
    text::push_repeated(out, ' ', missing);
    assert(out@ =~= old(out)@ + inner_line(row, col, width, text@));
}

/// How many rows the box takes: in a file list two fifths of the screen and at
/// least 12, in a history list as many as the setting says, or 12. One row is
/// always left for the prompt.
pub open spec fn box_rows(mode: PickerMode, rows: u16, setting: Option<Seq<char>>) -> int {
    let wanted = match mode {
        PickerMode::Files => if 2 * rows / 5 < 12 {
            12
        } else {
            2 * rows / 5
        },
        PickerMode::History => match setting {
            Some(value) => match text::small_number(value) {
                Some(height) => height as int,
                None => 12,
            },
            None => 12,
        },
    };
    let most = if rows == 0 {
        0
    } else {
        rows - 1
    };
    if wanted < most {
        wanted
    } else {
        most
    }
}

/// The text of a setting that may be missing.
pub open spec fn setting_view(setting: Option<&str>) -> Option<Seq<char>> {
    match setting {
        Some(value) => Some(value@),
        None => None,
    }
}

/// How many rows the box takes. `setting` is the height that the user asked for
/// in a history list, if they did.
pub fn desired_height(mode: PickerMode, rows: u16, setting: Option<&str>) -> (r: u16)
    ensures
        r == box_rows(mode, rows, setting_view(setting)),
{
    let wanted: u16 = match mode {
        PickerMode::Files => {
            let part: u16 = (2 * rows as u32 / 5) as u16;
            if part < 12 {
                12
            } else {
                part
            }
        },
        PickerMode::History => match setting {
            Some(value) => {
                let chars = text::chars_of(value);
                assert(chars@.subrange(0, chars@.len() as int) =~= value@);
                match text::parse_small_number(&chars, 0, chars.len()) {
                    Some(height) => height,
                    None => 12,
                }
            },
            None => 12,
        },
    };
    let most: u16 = rows.saturating_sub(1);
    if wanted < most {
        wanted
    } else {
        most
    }
}

/// The sum of two numbers, as far as 16 bits go.
pub open spec fn capped_sum(a: int, b: int) -> int {
    if a + b > u16::MAX {
        u16::MAX as int
    } else {
        a + b
    }
}

/// The difference of two numbers, or zero.
pub open spec fn floored_difference(a: int, b: int) -> int {
    if a < b {
        0
    } else {
        a - b
    }
}

/// How many rows are missing below the prompt for a pane.
pub open spec fn missing_rows(anchor_row: u16, pane_height: u16, rows: u16) -> int {
    floored_difference(capped_sum(capped_sum(anchor_row as int, 1), pane_height as int), rows as int)
}

/// Scrolls the screen up.
pub open spec fn scroll_up(count: int) -> Seq<char> {
    if count == 0 {
        Seq::empty()
    } else {
        "\x1b["@ + text::decimal(count as nat) + "S"@
    }
}

/// Scrolls the screen up as far as it takes to have room for a pane below the
/// prompt. Returns the row of the prompt afterwards.
pub fn ensure_space_below_prompt(
    out: &mut String,
    anchor_row: u16,
    pane_height: u16,
    rows: u16,
) -> (r: u16)
    ensures
        r == floored_difference(
            anchor_row as int,
            missing_rows(anchor_row, pane_height, rows),
        ),
        final(out)@ == old(out)@ + scroll_up(missing_rows(anchor_row, pane_height, rows)),
{
    let shortage: u16 = anchor_row.saturating_add(1).saturating_add(pane_height).saturating_sub(
        rows,
    );
    if shortage == 0 {
        assert(out@ =~= old(out)@ + scroll_up(0));
        return anchor_row;
    }
    out.append("\x1b[");
    text::push_decimal(out, shortage as u64);
    out.append("S");
    assert(out@ =~= old(out)@ + scroll_up(shortage as int));
    anchor_row.saturating_sub(shortage)
}

/// A row or a column that the terminal reports, counted from zero. What is no
/// number counts as the first.
pub open spec fn reported_place(s: Seq<char>) -> int {
    match text::small_number(s) {
        Some(n) => floored_difference(n as int, 1),
        None => 0,
    }
}

/// Where the cursor is, as the terminal reports it: `ESC [ row ; column R`. Any
/// other answer stands for the upper left corner.
pub open spec fn reported_cursor(s: Seq<char>) -> (int, int) {
    if s.len() >= 3 && s[0] == '\x1b' && s[1] == '[' && s.last() == 'R' {
        let body = s.subrange(2, s.len() - 1);
        match (text::before_first(body, ';'), text::after_first(body, ';')) {
            (Some(row), Some(col)) => (reported_place(row), reported_place(col)),
            _ => (0, 0),
        }
    } else {
        (0, 0)
    }
}

/// Bytes as characters, one for each.
pub open spec fn byte_chars(bytes: Seq<u8>) -> Seq<char> {
    bytes.map_values(|b: u8| b as char)
}

/// A row or a column that the terminal reports.
fn place_at(chars: &Vec<char>, from: usize, to: usize) -> (r: u16)
    requires
        from <= to <= chars@.len(),
    ensures
        r == reported_place(chars@.subrange(from as int, to as int)),
{
    match text::parse_small_number(chars, from, to) {
        Some(n) => n.saturating_sub(1),
        None => 0,
    }
}

/// Where the cursor is, as the terminal reports it.
pub fn parse_cursor_position(response: &[u8]) -> (r: (u16, u16))
    ensures
        (r.0 as int, r.1 as int) == reported_cursor(byte_chars(response@)),
{
    let mut chars: Vec<char> = Vec::new();
    let mut i: usize = 0;
    while i < response.len()
        invariant
            i <= response@.len(),
            chars@.len() == i,
            forall|j: int| 0 <= j < i ==> chars@[j] == response@[j] as char,
        decreases response@.len() - i,
    {
        chars.push(response[i] as char);
        i = i + 1;
    }
    let ghost s = byte_chars(response@);
    assert(chars@ =~= s);
    let n: usize = chars.len();
    if n < 3 || chars[0] != '\x1b' || chars[1] != '[' || chars[n - 1] != 'R' {
        return (0, 0);
    }
    let ghost body = s.subrange(2, n - 1);
    let mut k: usize = 2;
    proof {
        assert(body.skip(0) =~= body);
        if let Some(front) = text::before_first(body, ';') {
            assert(body.take(0) + front =~= front);
        }
    }
    while k < n - 1 && chars[k] != ';'
        invariant
            chars@ == s,
            n == s.len(),
            2 <= k <= n - 1,
            body == s.subrange(2, n - 1),
            text::after_first(body, ';') == text::after_first(body.skip(k - 2), ';'),
            match text::before_first(body.skip(k - 2), ';') {
                Some(front) => text::before_first(body, ';') == Some(body.take(k - 2) + front),
                None => text::before_first(body, ';') is None,
            },
        decreases n - k,
    {
        let ghost rest = body.skip(k - 2);
        proof {
            assert(rest.first() == chars@[k as int]);
            assert(rest.drop_first() =~= body.skip(k - 1));
            if let Some(front) = text::before_first(rest.drop_first(), ';') {
                assert(body.take(k - 2) + (seq![rest.first()] + front) =~= body.take(k - 1) + front);
            }
        }
        k = k + 1;
    }
    let ghost rest = body.skip(k - 2);
    if k == n - 1 {
        assert(rest.len() == 0);
        return (0, 0);
    }
    proof {
        assert(rest.first() == chars@[k as int]);
        assert(rest.drop_first() =~= chars@.subrange(k + 1, n - 1));
        assert(body.take(k - 2) + Seq::<char>::empty() =~= chars@.subrange(2, k as int));
    }
    (place_at(&chars, 2, k), place_at(&chars, k + 1, n - 1))
}

/// What a terminal answers when it is asked for its cursor. It counts from one.
pub open spec fn cursor_report(row: int, col: int) -> Seq<char> {
    "\x1b["@ + text::decimal((row + 1) as nat) + ";"@ + text::decimal((col + 1) as nat) + "R"@
}

/// Reading the terminal's answer gives the place that it stands for.
pub proof fn law_cursor_report_round_trip(row: int, col: int)
    requires
        0 <= row < u16::MAX,
        0 <= col < u16::MAX,
    ensures
        reported_cursor(cursor_report(row, col)) == (row, col),
{
    reveal_strlit("\x1b[");
    reveal_strlit(";");
    reveal_strlit("R");
    let r = text::decimal((row + 1) as nat);
    let c = text::decimal((col + 1) as nat);
    let s = cursor_report(row, col);
    let body = s.subrange(2, s.len() - 1);
    text::lemma_decimal_digits((row + 1) as nat);
    text::lemma_decimal_digits((col + 1) as nat);
    assert(!r.contains(';'));
    text::lemma_split_at_first(r, ';', c);
    assert(body =~= r + seq![';'] + c);
    text::law_decimal_round_trip((row + 1) as nat);
    text::law_decimal_round_trip((col + 1) as nat);
}

/// Moving the cursor shows nothing.
pub proof fn lemma_cursor_move_is_style(row: u16, col: u16)
    ensures
        ansi::is_style(cursor_move(row, col)),
{
    reveal_strlit("\x1b[");
    reveal_strlit(";");
    reveal_strlit("H");
    text::lemma_decimal_digits(one_based(row));
    text::lemma_decimal_digits(one_based(col));
    let s = cursor_move(row, col);
    let r = text::decimal(one_based(row));
    let c = text::decimal(one_based(col));
    assert forall|i: int| 2 <= i < s.len() - 1 implies !ansi::is_letter(#[trigger] s[i]) by {
        if i < 2 + r.len() {
            assert(s[i] == r[i - 2]);
        } else if i > 2 + r.len() {
            assert(s[i] == c[i - 3 - r.len()]);
        }
    }
    ansi::lemma_control_is_style(s);
}

/// A line that is filled with blanks is at least as wide as asked for, and
/// exactly that where its text fits.
pub proof fn law_inner_line_fills_width(row: u16, col: u16, width: u16, s: Seq<char>)
    requires
        ansi::is_closed(s),
    ensures
        ansi::shown(s).len() <= width ==> ansi::shown(inner_line(row, col, width, s)).len()
            == width,
        ansi::shown(s).len() > width ==> ansi::shown(inner_line(row, col, width, s))
            == ansi::shown(s),
{
    let missing = width - ansi::shown(s).len();
    let blanks = text::repeated(
        ' ',
        if missing < 0 {
            0
        } else {
            missing as nat
        },
    );
    lemma_cursor_move_is_style(row, col);
    ansi::lemma_plain(blanks);
    ansi::lemma_closed_concat(cursor_move(row, col), s);
    ansi::lemma_closed_concat(cursor_move(row, col) + s, blanks);
    assert(ansi::shown(cursor_move(row, col)) + ansi::shown(s) =~= ansi::shown(s));
    if missing < 0 {
        assert(ansi::shown(s) + blanks =~= ansi::shown(s));
    }
}

/// What puts the cursor to a place, rows and columns counted from zero.
pub open spec fn placed_at(row: int, col: int) -> Seq<char> {
    seq!['\x1b', '['] + text::decimal((row + 1) as nat) + seq![';'] + text::decimal(
        (col + 1) as nat,
    ) + seq!['H']
}

/// As many of a character as there are columns.
pub open spec fn filled(c: char, columns: int) -> Seq<char> {
    Seq::new(
        if columns < 0 {
            0
        } else {
            columns as nat
        },
        |i: int| c,
    )
}

/// Moving the cursor puts it to its place.
pub proof fn lemma_placed_at(row: u16, col: u16)
    requires
        row < u16::MAX,
        col < u16::MAX,
    ensures
        cursor_move(row, col) == placed_at(row as int, col as int),
{
    reveal_strlit("\x1b[");
    reveal_strlit(";");
    reveal_strlit("H");
    assert("\x1b["@ =~= seq!['\x1b', '[']);
    assert(";"@ =~= seq![';']);
    assert("H"@ =~= seq!['H']);
}

/// The cursor is moved to its row and column, which the terminal counts from one.
pub proof fn law_cursor_is_moved_to_its_place(out: &mut String, row: u16, col: u16)
    requires
        call_ensures(move_to, (out, row, col), ()),
        row < u16::MAX,
        col < u16::MAX,
    ensures
        final(out)@ == old(out)@ + placed_at(row as int, col as int),
{
    lemma_placed_at(row, col);
}

proof fn lemma_cleared_rows(area: BoxArea, rows: Seq<Seq<char>>)
    requires
        area.row + rows.len() <= u16::MAX,
        area.col < u16::MAX,
        forall|k: int|
            0 <= k < rows.len() ==> #[trigger] rows[k] == placed_at(area.row + k, area.col as int)
                + filled(' ', area.width as int),
    ensures
        cleared(area, rows.len()) == rows.flatten(),
    decreases rows.len(),
{
    if rows.len() == 0 {
        assert(cleared(area, 0) =~= rows.flatten());
    } else {
        let front = rows.drop_last();
        lemma_cleared_rows(area, front);
        assert(rows =~= front.push(rows.last()));
        front.lemma_flatten_push(rows.last());
        assert(rows[rows.len() - 1] == rows.last());
        lemma_placed_at((area.row + rows.len() - 1) as u16, area.col);
        assert(text::repeated(' ', area.width as nat) =~= filled(' ', area.width as int));
        assert(cleared(area, rows.len()) =~= rows.flatten());
    }
}

/// An area is cleared row by row, each overwritten with blanks over its whole
/// width.
pub proof fn law_area_is_cleared_row_by_row(out: &mut String, area: BoxArea)
    requires
        call_ensures(clear_rect, (out, area), ()),
        area.row + area.height <= u16::MAX,
        area.col < u16::MAX,
    ensures
        final(out)@ == old(out)@ + Seq::new(
            area.height as nat,
            |k: int|
                placed_at(area.row + k, area.col as int) + filled(' ', area.width as int),
        ).flatten(),
{
    let rows = Seq::new(
        area.height as nat,
        |k: int| placed_at(area.row + k, area.col as int) + filled(' ', area.width as int),
    );
    lemma_cleared_rows(area, rows);
}

proof fn lemma_drawn_sides(area: BoxArea, rows: Seq<Seq<char>>)
    requires
        area.row + 1 + rows.len() <= u16::MAX,
        area.col < u16::MAX,
        forall|k: int|
            0 <= k < rows.len() ==> #[trigger] rows[k] == placed_at(
                area.row + 1 + k,
                area.col as int,
            ) + side_borders(area),
    ensures
        side_rows(area, (rows.len() + 1) as nat) == rows.flatten(),
    decreases rows.len(),
{
    if rows.len() == 0 {
        assert(side_rows(area, 1) =~= rows.flatten());
    } else {
        let front = rows.drop_last();
        lemma_drawn_sides(area, front);
        assert(rows =~= front.push(rows.last()));
        front.lemma_flatten_push(rows.last());
        assert(rows[rows.len() - 1] == rows.last());
        lemma_placed_at((area.row + rows.len()) as u16, area.col);
        assert(side_rows(area, (rows.len() + 1) as nat) =~= rows.flatten());
    }
}

/// A box is drawn with its title in the upper border, its sides on every row
/// between the borders with blanks between them, and its lower border on its last
/// row. The borders run over the whole width.
pub proof fn law_box_is_drawn_around_its_area(out: &mut String, area: BoxArea, title: &str)
    requires
        call_ensures(draw_box, (out, area, title), ()),
        area.row + area.height <= u16::MAX,
        area.col < u16::MAX,
        area.height >= 2,
        area.width >= 2,
        title@.len() > 0,
    ensures
        ({
            let border = "\x1b[38;5;149m"@;
            let inner = area.width - 2;
            let side = border + seq!['│'] + "\x1b[0m"@;
            final(out)@ == old(out)@ + placed_at(area.row as int, area.col as int) + (border
                + seq!['┌', '─'] + "\x1b[1m"@ + seq![' '] + title@ + seq![' '] + "\x1b[0m"@ + border
                + filled('─', inner - title@.len() - 3) + seq!['┐'] + "\x1b[0m"@) + Seq::new(
                (area.height - 2) as nat,
                |k: int|
                    placed_at(area.row + 1 + k, area.col as int) + (side + filled(' ', inner)
                        + side),
            ).flatten() + placed_at(area.row + area.height - 1, area.col as int) + (border + seq![
                '└',
            ] + filled('─', inner) + seq!['┘'] + "\x1b[0m"@)
        }),
{
    let border = "\x1b[38;5;149m"@;
    let inner = area.width - 2;
    let side = border + seq!['│'] + "\x1b[0m"@;
    reveal_strlit("┌─");
    reveal_strlit("┐");
    reveal_strlit("│");
    reveal_strlit("└");
    reveal_strlit("┘");
    reveal_strlit(" ");
    assert("┌─"@ =~= seq!['┌', '─']);
    assert("┐"@ =~= seq!['┐']);
    assert("│"@ =~= seq!['│']);
    assert("└"@ =~= seq!['└']);
    assert("┘"@ =~= seq!['┘']);
    assert(" "@ =~= seq![' ']);
    let rows = Seq::new(
        (area.height - 2) as nat,
        |k: int|
            placed_at(area.row + 1 + k, area.col as int) + (side + filled(' ', inner) + side),
    );
    assert(text::repeated(' ', inner as nat) =~= filled(' ', inner));
    assert(text::repeated('─', inner as nat) =~= filled('─', inner));
    assert(side_borders(area) =~= side + filled(' ', inner) + side);
    lemma_drawn_sides(area, rows);
    lemma_placed_at(area.row, area.col);
    lemma_placed_at((area.row + area.height - 1) as u16, area.col);
    let fill = filled('─', inner - title@.len() - 3);
    let upper = border + seq!['┌', '─'] + "\x1b[1m"@ + seq![' '] + title@ + seq![' '] + "\x1b[0m"@
        + border + fill + seq!['┐'] + "\x1b[0m"@;
    assert(upper_border(area, title@) =~= upper) by {
        let left = inner - (title@.len() + 2 + 1);
        assert(title_text(title@).len() == title@.len() + 2);
        assert(text::repeated(
            '─',
            (if left < 0 {
                0
            } else {
                left
            }) as nat,
        ) =~= fill);
    }
    assert(final(out)@ =~= old(out)@ + placed_at(area.row as int, area.col as int) + upper
        + rows.flatten() + placed_at(area.row + area.height - 1, area.col as int) + (border + seq![
        '└',
    ] + filled('─', inner) + seq!['┘'] + "\x1b[0m"@));
}

/// A text is written at its place as it is, and blanks behind it up to the width.
pub proof fn law_line_is_filled_with_blanks(
    out: &mut String,
    row: u16,
    col: u16,
    width: u16,
    text: &str,
    taken: usize,
)
    requires
        call_ensures(draw_inner_line, (out, row, col, width, text), ()),
        call_ensures(visible_width, (text,), taken),
        row < u16::MAX,
        col < u16::MAX,
    ensures
        final(out)@ == old(out)@ + placed_at(row as int, col as int) + text@ + filled(
            ' ',
            width - taken,
        ),
{
    lemma_placed_at(row, col);
    let missing = width - taken;
    assert(text::repeated(
        ' ',
        if missing < 0 {
            0
        } else {
            missing as nat
        },
    ) =~= filled(' ', missing));
    assert(final(out)@ =~= old(out)@ + placed_at(row as int, col as int) + text@ + filled(
        ' ',
        width - taken,
    ));
}

/// A file list takes two fifths of the screen, but twelve rows at least; a
/// history list twelve, or as many as are set, where that is a number. Either
/// leaves a row for the prompt.
pub proof fn law_height_leaves_room_for_prompt(
    mode: PickerMode,
    rows: u16,
    setting: Option<&str>,
    r: u16,
    chars: &Vec<char>,
    end: usize,
    number: Option<u16>,
)
    requires
        call_ensures(desired_height, (mode, rows, setting), r),
        setting matches Some(value) ==> chars@ == value@ && end == chars@.len(),
        call_ensures(text::parse_small_number, (chars, 0usize, end), number),
    ensures
        rows > 0 ==> r < rows,
        rows == 0 ==> r == 0,
        mode is Files && rows >= 30 ==> 5 * r <= 2 * rows < 5 * r + 5,
        mode is Files && 13 <= rows < 30 ==> r == 12,
        mode is Files && 0 < rows < 13 ==> r == rows - 1,
        mode is History && rows > 0 ==> {
            let wanted = if setting is Some && number is Some {
                number->Some_0
            } else {
                12u16
            };
            r == if wanted < rows {
                wanted as int
            } else {
                rows - 1
            }
        },
{
    if let Some(value) = setting {
        assert(chars@.subrange(0, end as int) =~= value@);
    }
}

/// Where there is room below the prompt nothing is written and the prompt stays.
/// Otherwise the screen is scrolled by the rows that are missing, and the prompt
/// moves up with it.
pub proof fn law_screen_scrolls_by_missing_rows(
    out: &mut String,
    anchor_row: u16,
    pane_height: u16,
    rows: u16,
    r: u16,
)
    requires
        call_ensures(ensure_space_below_prompt, (out, anchor_row, pane_height, rows), r),
        anchor_row + 1 + pane_height <= u16::MAX,
    ensures
        ({
            let missing = anchor_row + 1 + pane_height - rows;
            &&& missing <= 0 ==> final(out)@ == old(out)@ && r == anchor_row
            &&& missing > 0 ==> final(out)@ == old(out)@ + (seq!['\x1b', '['] + text::decimal(
                missing as nat,
            ) + seq!['S'])
            &&& 0 < missing <= anchor_row ==> r + missing == anchor_row
            &&& missing > anchor_row ==> r == 0
        }),
{
    reveal_strlit("\x1b[");
    reveal_strlit("S");
    assert("\x1b["@ =~= seq!['\x1b', '[']);
    assert("S"@ =~= seq!['S']);
    assert(old(out)@ + Seq::<char>::empty() =~= old(out)@);
}

/// Where the terminal says that the cursor is, there it is: escape, bracket, row,
/// semicolon, column and R, counted from one. What is no number there counts as
/// the first, and an answer of another form stands for the upper left corner.
pub proof fn law_reported_cursor_is_read(
    response: &[u8],
    r: (u16, u16),
    row: &Vec<char>,
    row_end: usize,
    row_number: Option<u16>,
    col: &Vec<char>,
    col_end: usize,
    col_number: Option<u16>,
)
    requires
        call_ensures(parse_cursor_position, (response,), r),
        row_end == row@.len(),
        col_end == col@.len(),
        call_ensures(text::parse_small_number, (row, 0usize, row_end), row_number),
        call_ensures(text::parse_small_number, (col, 0usize, col_end), col_number),
    ensures
        ({
            let answer = Seq::new(response@.len(), |i: int| response@[i] as char);
            let place = |number: Option<u16>|
                match number {
                    Some(n) => if n == 0 {
                        0
                    } else {
                        n - 1
                    },
                    None => 0,
                };
            &&& !row@.contains(';') && answer == seq!['\x1b', '['] + row@ + seq![';'] + col@
                + seq!['R'] ==> r.0 == place(row_number) && r.1 == place(col_number)
            &&& answer.len() < 3 || answer[0] != '\x1b' || answer[1] != '[' || answer.last() != 'R'
                || !answer.contains(';') ==> r == (0u16, 0u16)
        }),
{
    let answer = Seq::new(response@.len(), |i: int| response@[i] as char);
    assert(answer =~= byte_chars(response@));
    assert(row@.subrange(0, row_end as int) =~= row@);
    assert(col@.subrange(0, col_end as int) =~= col@);
    if !row@.contains(';') && answer == seq!['\x1b', '['] + row@ + seq![';'] + col@ + seq!['R'] {
        let body = answer.subrange(2, answer.len() - 1);
        assert(body =~= row@ + seq![';'] + col@);
        text::lemma_split_at_first(row@, ';', col@);
        assert(answer.last() == 'R');
    }
    if !answer.contains(';') && answer.len() >= 3 {
        let body = answer.subrange(2, answer.len() - 1);
        assert(!body.contains(';')) by {
            if body.contains(';') {
                let k = choose|k: int| 0 <= k < body.len() && body[k] == ';';
                assert(answer[k + 2] == ';');
            }
        }
        lemma_no_first(body, ';');
    }
}

proof fn lemma_no_first(s: Seq<char>, separator: char)
    requires
        !s.contains(separator),
    ensures
        text::before_first(s, separator) is None,
    decreases s.len(),
{
    if s.len() > 0 {
        assert(s.contains(s[0]));
        assert(!s.drop_first().contains(separator)) by {
            if s.drop_first().contains(separator) {
                let k = choose|k: int|
                    0 <= k < s.drop_first().len() && s.drop_first()[k] == separator;
                assert(s[k + 1] == separator);
            }
        }
        lemma_no_first(s.drop_first(), separator);
    }
}

} // verus!
