//! The selected row of a list, and the window that shows it.

use crate::text;
use vstd::prelude::*;

verus! {

/// The first row of a window of `visible_count` rows, moved as little as it
/// takes to show the selected row.
pub open spec fn window_start(selected: int, scroll: int, visible_count: int) -> int {
    if selected < scroll {
        selected
    } else if selected >= scroll + visible_count {
        if visible_count <= 1 {
            selected
        } else if selected < visible_count {
            0
        } else {
            selected - (visible_count - 1)
        }
    } else {
        scroll
    }
}

/// The first row of a window that shows the selected row.
pub fn ensure_selection_visible(selected: usize, scroll: usize, visible_count: usize) -> (r: usize)
    requires
        selected >= scroll ==> scroll + visible_count <= usize::MAX,
    ensures
        r == window_start(selected as int, scroll as int, visible_count as int),
{
    if selected < scroll {
        selected
    } else if selected >= scroll + visible_count {
        selected.saturating_sub(visible_count.saturating_sub(1))
    } else {
        scroll
    }
}

/// A window of one row or more that follows the selection shows it, and stays
/// where it is as long as it does.
pub proof fn law_selection_is_visible(selected: int, scroll: int, visible_count: int)
    requires
        selected >= 0,
        scroll >= 0,
        visible_count >= 1,
    ensures
        ({
            let start = window_start(selected, scroll, visible_count);
            &&& 0 <= start <= selected < start + visible_count
            &&& scroll <= selected < scroll + visible_count ==> start == scroll
            &&& window_start(selected, start, visible_count) == start
        }),
{
}

/// Which of how many rows is selected, counted from one.
pub open spec fn position_label(selected: int, total: int) -> Seq<char> {
    if total == 0 {
        "0/0"@
    } else {
        text::decimal((selected + 1) as nat) + "/"@ + text::decimal(total as nat)
    }
}

/// Which of how many rows is selected, as the header shows it.
pub fn selected_label(selected_index: usize, total: usize) -> (r: String)
    requires
        total > 0 ==> selected_index < usize::MAX,
    ensures
        r@ == position_label(selected_index as int, total as int),
{
    if total == 0 {
        "0/0".to_owned()
    } else {
        let mut r = String::new();
        text::push_decimal(&mut r, (selected_index + 1) as u64);
        r.append("/");
        text::push_decimal(&mut r, total as u64);
        assert(r@ =~= position_label(selected_index as int, total as int));
        r
    }
}

/// The selected row, or the last one of a list that has become shorter.
pub open spec fn clamped(selected: int, len: int) -> int {
    if len == 0 {
        0
    } else if selected < len {
        selected
    } else {
        len - 1
    }
}

/// The selected row, or the last one of a list that has become shorter.
pub fn clamp_selected(selected: usize, len: usize) -> (r: usize)
    ensures
        r == clamped(selected as int, len as int),
{
    if len == 0 {
        0
    } else if selected < len - 1 {
        selected
    } else {
        len - 1
    }
}

/// The row above. From the first row this is the last one where the list
/// wraps, and the first one otherwise.
pub open spec fn row_above(selected: int, len: int, wrap: bool) -> int {
    if len == 0 {
        0
    } else if selected > 0 {
        selected - 1
    } else if wrap {
        len - 1
    } else {
        0
    }
}

/// Moves the selection one row up.
pub fn move_selection_up(selected: usize, len: usize, wrap: bool) -> (r: usize)
    ensures
        r == row_above(selected as int, len as int, wrap),
{
    if len == 0 {
        return 0;
    }
    if wrap {
        if selected == 0 {
            len - 1
        } else {
            selected - 1
        }
    } else {
        selected.saturating_sub(1)
    }
}

/// The row below. Past the last row this starts over where the list wraps, and
/// stays at the last one otherwise.
pub open spec fn row_below(selected: int, len: int, wrap: bool) -> int {
    if len == 0 {
        0
    } else if wrap {
        (selected + 1) % len
    } else if selected + 1 < len {
        selected + 1
    } else {
        len - 1
    }
}

/// Moves the selection one row down.
pub fn move_selection_down(selected: usize, len: usize, wrap: bool) -> (r: usize)
    requires
        len > 0 ==> selected < usize::MAX,
    ensures
        r == row_below(selected as int, len as int, wrap),
{
    if len == 0 {
        return 0;
    }
    if wrap {
        (selected + 1) % len
    } else if selected + 1 < len - 1 {
        selected + 1
    } else {
        len - 1
    }
}

/// Clamping and moving keep the selection within the list.
pub proof fn law_selection_stays_in_list(selected: int, len: int, wrap: bool)
    requires
        0 <= selected,
        0 < len,
    ensures
        0 <= clamped(selected, len) < len,
        0 <= row_below(selected, len, wrap) < len,
        selected < len ==> 0 <= row_above(selected, len, wrap) < len,
        selected < len ==> clamped(selected, len) == selected,
{
    if wrap {
        assert(0 <= (selected + 1) % len < len) by (nonlinear_arith)
            requires
                0 < len,
        ;
    }
}

/// In a list that wraps, moving up undoes moving down and the other way round.
pub proof fn law_wrapping_moves_are_inverse(selected: int, len: int)
    requires
        0 <= selected < len,
    ensures
        row_above(row_below(selected, len, true), len, true) == selected,
        row_below(row_above(selected, len, true), len, true) == selected,
{
    vstd::arithmetic::div_mod::lemma_mod_self_0(len);
    if selected + 1 < len {
        vstd::arithmetic::div_mod::lemma_small_mod((selected + 1) as nat, len as nat);
    }
    vstd::arithmetic::div_mod::lemma_small_mod(selected as nat, len as nat);
}

/// In a list that does not wrap, moving up and down undo each other away from
/// the ends, and at an end the selection stays.
pub proof fn law_plain_moves_stop_at_the_ends(selected: int, len: int)
    requires
        0 <= selected < len,
    ensures
        selected + 1 < len ==> row_above(row_below(selected, len, false), len, false) == selected,
        selected > 0 ==> row_below(row_above(selected, len, false), len, false) == selected,
        row_above(0, len, false) == 0,
        row_below(len - 1, len, false) == len - 1,
{
}

/// Moving up goes to the row before, and from the first row to the last one of a
/// list that wraps and nowhere in one that does not.
pub proof fn law_up_goes_one_row_back(selected: usize, len: usize, wrap: bool, r: usize)
    requires
        call_ensures(move_selection_up, (selected, len, wrap), r),
    ensures
        len > 0 && selected > 0 ==> r + 1 == selected,
        len > 0 && selected == 0 && wrap ==> r + 1 == len,
        len > 0 && selected == 0 && !wrap ==> r == 0,
        len == 0 ==> r == 0,
{
}

/// Moving down goes to the next row, and from the last row to the first one of a
/// list that wraps and nowhere in one that does not.
pub proof fn law_down_goes_one_row_on(selected: usize, len: usize, wrap: bool, r: usize)
    requires
        call_ensures(move_selection_down, (selected, len, wrap), r),
    ensures
        selected + 1 < len ==> r == selected + 1,
        selected + 1 == len && wrap ==> r == 0,
        selected + 1 == len && !wrap ==> r == selected,
        0 < len <= selected && !wrap ==> r + 1 == len,
        0 < len <= selected && wrap ==> r == (selected + 1) % (len as int),
        len == 0 ==> r == 0,
{
    if selected + 1 < len {
        vstd::arithmetic::div_mod::lemma_small_mod((selected + 1) as nat, len as nat);
    } else if selected + 1 == len {
        vstd::arithmetic::div_mod::lemma_mod_self_0(len as int);
    }
}

/// Moving up after moving down gives the row before back, except at the end of
/// a list that does not wrap; and the other way round, except at its beginning.
pub proof fn law_moves_undo_each_other(
    selected: usize,
    len: usize,
    wrap: bool,
    below: usize,
    above: usize,
    back_up: usize,
    back_down: usize,
)
    requires
        selected < len,
        call_ensures(move_selection_down, (selected, len, wrap), below),
        call_ensures(move_selection_up, (below, len, wrap), back_up),
        call_ensures(move_selection_up, (selected, len, wrap), above),
        call_ensures(move_selection_down, (above, len, wrap), back_down),
    ensures
        wrap || selected + 1 < len ==> back_up == selected,
        wrap || selected > 0 ==> back_down == selected,
{
    law_down_goes_one_row_on(selected, len, wrap, below);
    law_up_goes_one_row_back(below, len, wrap, back_up);
    law_up_goes_one_row_back(selected, len, wrap, above);
    law_down_goes_one_row_on(above, len, wrap, back_down);
}

/// A window of one row or more shows the selected row afterwards, and moves no
/// further than that: it stays where the row is in sight, begins with the row
/// where that was above, and ends with it where that was below.
pub proof fn law_window_follows_selection(
    selected: usize,
    scroll: usize,
    visible_count: usize,
    r: usize,
)
    requires
        visible_count >= 1,
        call_ensures(ensure_selection_visible, (selected, scroll, visible_count), r),
    ensures
        r <= selected < r + visible_count,
        scroll <= selected < scroll + visible_count ==> r == scroll,
        selected < scroll ==> r == selected,
        selected >= scroll + visible_count ==> r + visible_count == selected + 1,
{
}

/// A window without rows begins with the selected row, unless that is in sight by
/// itself.
pub proof fn law_empty_window_begins_with_selection(selected: usize, scroll: usize, r: usize)
    requires
        call_ensures(ensure_selection_visible, (selected, scroll, 0usize), r),
    ensures
        r == selected,
{
}

/// A selected row that the list still has stays selected; another gives way to
/// the last row, or to the first of an empty list.
pub proof fn law_clamping_keeps_rows_of_list(selected: usize, len: usize, r: usize)
    requires
        call_ensures(clamp_selected, (selected, len), r),
    ensures
        selected < len ==> r == selected,
        0 < len <= selected ==> r + 1 == len,
        len == 0 ==> r == 0,
{
}

/// The label counts the selected row from one, behind it a slash and the number
/// of rows. Of no rows it says so.
pub proof fn law_label_counts_from_one(selected_index: usize, total: usize, r: String)
    requires
        call_ensures(selected_label, (selected_index, total), r),
    ensures
        total > 0 ==> r@ == text::decimal((selected_index + 1) as nat).push('/') + text::decimal(
            total as nat,
        ),
        total == 0 ==> r@ == seq!['0', '/', '0'],
{
    reveal_strlit("/");
    reveal_strlit("0/0");
    assert(text::decimal((selected_index + 1) as nat) + "/"@ =~= text::decimal(
        (selected_index + 1) as nat,
    ).push('/'));
    assert("0/0"@ =~= seq!['0', '/', '0']);
}

} // verus!
