use fff_tui::ansi::visible_width;
use fff_tui::screen::{
    clear_rect, desired_height, draw_box, draw_inner_line, ensure_space_below_prompt, move_to,
    parse_cursor_position, BoxArea, CURSOR_REPORT_END,
};
use fff_tui::PickerMode;

fn drawn(draw: impl Fn(&mut String)) -> String {
    let mut out = String::from("|");
    draw(&mut out);
    out
}

#[test]
fn places_are_sent_counted_from_one() {
    assert_eq!(drawn(|out| move_to(out, 0, 0)), "|\x1b[1;1H");
    assert_eq!(drawn(|out| move_to(out, 9, 41)), "|\x1b[10;42H");
    assert_eq!(drawn(|out| move_to(out, 65535, 65534)), "|\x1b[65535;65535H");
}

#[test]
fn an_area_is_cleared_row_by_row() {
    let area = BoxArea { row: 3, col: 1, width: 4, height: 2 };
    assert_eq!(drawn(|out| clear_rect(out, area)), "|\x1b[4;2H    \x1b[5;2H    ");
    let nothing = BoxArea { row: 65535, col: 0, width: 4, height: 0 };
    assert_eq!(drawn(|out| clear_rect(out, nothing)), "|");
}

#[test]
fn a_box_has_borders_and_a_title() {
    let area = BoxArea { row: 0, col: 0, width: 8, height: 3 };
    assert_eq!(
        drawn(|out| draw_box(out, area, "T")),
        "|\x1b[1;1H\x1b[38;5;149m┌─\x1b[1m T \x1b[0m\x1b[38;5;149m──┐\x1b[0m\
         \x1b[2;1H\x1b[38;5;149m│\x1b[0m      \x1b[38;5;149m│\x1b[0m\
         \x1b[3;1H\x1b[38;5;149m└──────┘\x1b[0m"
    );
}

#[test]
fn a_box_without_room_has_no_fill() {
    let area = BoxArea { row: 2, col: 0, width: 1, height: 0 };
    assert_eq!(
        drawn(|out| draw_box(out, area, "")),
        "|\x1b[3;1H\x1b[38;5;149m┌─\x1b[1m\x1b[0m\x1b[38;5;149m┐\x1b[0m\
         \x1b[3;1H\x1b[38;5;149m└┘\x1b[0m"
    );
}

#[test]
fn lines_are_filled_with_blanks() {
    assert_eq!(drawn(|out| draw_inner_line(out, 1, 1, 5, "ab")), "|\x1b[2;2Hab   ");
    assert_eq!(drawn(|out| draw_inner_line(out, 1, 1, 2, "abc")), "|\x1b[2;2Habc");
    let styled = drawn(|out| draw_inner_line(out, 0, 0, 6, "\x1b[1mab\x1b[0m"));
    assert_eq!(styled, "|\x1b[1;1H\x1b[1mab\x1b[0m    ");
    assert_eq!(visible_width(&styled), 7);
}

#[test]
fn a_file_list_takes_two_fifths_of_the_screen() {
    assert_eq!(desired_height(PickerMode::Files, 50, None), 20);
    assert_eq!(desired_height(PickerMode::Files, 24, None), 12);
    assert_eq!(desired_height(PickerMode::Files, 10, None), 9);
    assert_eq!(desired_height(PickerMode::Files, 0, None), 0);
    assert_eq!(desired_height(PickerMode::Files, 50, Some("30")), 20);
}

#[test]
fn two_fifths_are_those_of_single_precision() {
    for rows in 0..=65535u16 {
        let part = ((rows as f32) * 0.4).floor() as u16;
        let wanted = part.max(12).min(rows.saturating_sub(1));
        assert_eq!(desired_height(PickerMode::Files, rows, None), wanted);
    }
}

#[test]
fn a_history_list_takes_as_many_rows_as_set() {
    assert_eq!(desired_height(PickerMode::History, 50, None), 12);
    assert_eq!(desired_height(PickerMode::History, 50, Some("20")), 20);
    assert_eq!(desired_height(PickerMode::History, 50, Some("+020")), 20);
    assert_eq!(desired_height(PickerMode::History, 50, Some("200")), 49);
    assert_eq!(desired_height(PickerMode::History, 50, Some("0")), 0);
    assert_eq!(desired_height(PickerMode::History, 5, None), 4);
}

#[test]
fn a_setting_that_is_no_number_is_passed_over() {
    for value in ["", "+", "-1", "1 ", "ten", "65536", "99999999999999999999", "++1", "1.5", "１"] {
        assert_eq!(desired_height(PickerMode::History, 50, Some(value)), 12, "{}", value);
    }
    assert_eq!(desired_height(PickerMode::History, 65535, Some("65535")), 65534);
    assert_eq!(
        desired_height(PickerMode::History, 50, Some("0000000000000000000000007")),
        7
    );
}

#[test]
fn the_screen_scrolls_where_room_is_missing() {
    let mut out = String::new();
    assert_eq!(ensure_space_below_prompt(&mut out, 3, 10, 24), 3);
    assert_eq!(out, "");
    assert_eq!(ensure_space_below_prompt(&mut out, 13, 10, 24), 13);
    assert_eq!(out, "");
    assert_eq!(ensure_space_below_prompt(&mut out, 23, 10, 24), 13);
    assert_eq!(out, "\x1b[10S");
    assert_eq!(ensure_space_below_prompt(&mut out, 2, 30, 24), 0);
    assert_eq!(out, "\x1b[10S\x1b[9S");
}

#[test]
fn the_cursor_is_read_from_the_report() {
    assert_eq!(parse_cursor_position(b"\x1b[12;34R"), (11, 33));
    assert_eq!(parse_cursor_position(b"\x1b[1;1R"), (0, 0));
    assert_eq!(parse_cursor_position(b"\x1b[0;0R"), (0, 0));
    assert_eq!(parse_cursor_position(b"\x1b[65535;2R"), (65534, 1));
    assert_eq!(parse_cursor_position(b"\x1b[+5;6R"), (4, 5));
}

#[test]
fn other_answers_stand_for_the_corner() {
    for answer in [
        &b""[..], b"R", b"\x1b[R", b"\x1b[12R", b"12;34R", b"\x1b[12;34", b"x\x1b[12;34R", b"\x1b",
    ] {
        assert_eq!(parse_cursor_position(answer), (0, 0));
    }
}

#[test]
fn what_is_no_number_counts_as_the_first() {
    assert_eq!(parse_cursor_position(b"\x1b[;7R"), (0, 6));
    assert_eq!(parse_cursor_position(b"\x1b[7;R"), (6, 0));
    assert_eq!(parse_cursor_position(b"\x1b[7;8;9R"), (6, 0));
    assert_eq!(parse_cursor_position(b"\x1b[65536;8R"), (0, 7));
    assert_eq!(parse_cursor_position(b"\x1b[\xff;8R"), (0, 7));
}

#[test]
fn reports_come_back_as_places() {
    assert_eq!(CURSOR_REPORT_END, b'R');
    for (row, col) in [(0u16, 0u16), (9, 99), (41, 65534), (65534, 7)] {
        let report = format!("\x1b[{};{}R", row as u32 + 1, col as u32 + 1);
        if row < 65535 && col < 65535 {
            assert_eq!(parse_cursor_position(report.as_bytes()), (row, col));
        }
    }
}
