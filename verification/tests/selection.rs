use fff_tui::{
    clamp_selected, ensure_selection_visible, move_selection_down, move_selection_up,
    selected_label,
};

#[test]
fn selection_visibility_tracks_window() {
    assert_eq!(ensure_selection_visible(2, 0, 5), 0);
    assert_eq!(ensure_selection_visible(6, 0, 5), 2);
    assert_eq!(ensure_selection_visible(1, 3, 5), 1);
}

#[test]
fn a_window_shows_the_selection_and_then_stays() {
    for visible in 1..6 {
        for scroll in 0..12 {
            for selected in 0..12 {
                let start = ensure_selection_visible(selected, scroll, visible);
                assert!(start <= selected && selected < start + visible);
                assert_eq!(ensure_selection_visible(selected, start, visible), start);
            }
        }
    }
}

#[test]
fn a_window_without_rows_starts_at_the_selection() {
    assert_eq!(ensure_selection_visible(4, 0, 0), 4);
    assert_eq!(ensure_selection_visible(0, 0, 0), 0);
    assert_eq!(ensure_selection_visible(usize::MAX, 0, 1), usize::MAX);
}

#[test]
fn labels_count_from_one() {
    assert_eq!(selected_label(0, 0), "0/0");
    assert_eq!(selected_label(7, 0), "0/0");
    assert_eq!(selected_label(0, 1), "1/1");
    assert_eq!(selected_label(9, 1234), "10/1234");
    assert_eq!(selected_label(99, 100), "100/100");
}

#[test]
fn clamping_keeps_the_selection_in_the_list() {
    assert_eq!(clamp_selected(5, 0), 0);
    assert_eq!(clamp_selected(5, 3), 2);
    assert_eq!(clamp_selected(2, 3), 2);
    assert_eq!(clamp_selected(1, 3), 1);
    assert_eq!(clamp_selected(usize::MAX, 1), 0);
}

#[test]
fn moves_wrap_where_asked_to() {
    assert_eq!(move_selection_up(0, 4, true), 3);
    assert_eq!(move_selection_down(3, 4, true), 0);
    assert_eq!(move_selection_up(2, 4, true), 1);
    assert_eq!(move_selection_down(2, 4, true), 3);
    assert_eq!(move_selection_down(9, 4, true), 2);
}

#[test]
fn moves_stop_at_the_ends_otherwise() {
    assert_eq!(move_selection_up(0, 4, false), 0);
    assert_eq!(move_selection_down(3, 4, false), 3);
    assert_eq!(move_selection_up(2, 4, false), 1);
    assert_eq!(move_selection_down(2, 4, false), 3);
    assert_eq!(move_selection_down(9, 4, false), 3);
    assert_eq!(move_selection_up(9, 4, false), 8);
}

#[test]
fn nothing_moves_in_an_empty_list() {
    for wrap in [false, true] {
        assert_eq!(move_selection_up(3, 0, wrap), 0);
        assert_eq!(move_selection_down(3, 0, wrap), 0);
    }
}

#[test]
fn wrapping_moves_undo_each_other() {
    for len in 1..7 {
        for selected in 0..len {
            let down = move_selection_down(selected, len, true);
            let up = move_selection_up(selected, len, true);
            assert_eq!(move_selection_up(down, len, true), selected);
            assert_eq!(move_selection_down(up, len, true), selected);
        }
    }
}
