use fff_tui::ansi::visible_width;
use fff_tui::render::render_error_message;
use fff_tui::screen::BoxArea;
use fff_tui::{
    can_render, cleanup, render, FileMatch, FileSearchView, GitKind, HistoryMatch,
    HistorySearchView, Picker, PickerMode, RenderError, SearchResults, TerminalUi,
};

fn ui(anchor_row: u16) -> TerminalUi {
    TerminalUi { anchor_row, anchor_col: 4, last_box: None }
}

fn file_picker(count: usize, root: &str) -> Picker {
    let matches: Vec<FileMatch> = (0..count)
        .map(|i| FileMatch {
            path: format!("/root/f{}", i).into(),
            relative_path: format!("f{}", i),
            file_name: format!("f{}", i),
            git: GitKind::Clean,
            badge: None,
        })
        .collect();
    let mut picker = Picker::new(PickerMode::Files, "f".to_string());
    picker.refresh(SearchResults::Files(FileSearchView {
        total_matched: matches.len(),
        loaded: matches.len(),
        matches,
        root_display: root.to_string(),
    }));
    picker
}

fn history_picker(commands: &[&str]) -> Picker {
    let matches: Vec<HistoryMatch> = commands
        .iter()
        .map(|command| HistoryMatch {
            command: command.to_string(),
            display: command.to_string(),
            match_ranges: Vec::new(),
        })
        .collect();
    let mut picker = Picker::new(PickerMode::History, "q".to_string());
    picker.refresh(SearchResults::History(HistorySearchView {
        total_matched: matches.len(),
        matches,
    }));
    picker
}

fn draw(picker: &mut Picker, ui: &mut TerminalUi, cols: u16, rows: u16, setting: Option<&str>) -> String {
    assert!(can_render(picker, ui, cols, rows, setting));
    let mut out = String::new();
    assert_eq!(render(&mut out, picker, ui, cols, rows, setting), Ok(()));
    out
}

#[test]
fn a_history_list_is_drawn_below_the_prompt() {
    let mut picker = history_picker(&["ls"]);
    let mut ui = ui(1);
    let out = draw(&mut picker, &mut ui, 12, 24, Some("5"));
    assert_eq!(
        out,
        "\x1b[?25l\
         \x1b[3;1H\x1b[38;5;149m┌─\x1b[1m FFFHistory \x1b[0m\x1b[38;5;149m┐\x1b[0m\
         \x1b[4;1H\x1b[38;5;149m│\x1b[0m          \x1b[38;5;149m│\x1b[0m\
         \x1b[5;1H\x1b[38;5;149m│\x1b[0m          \x1b[38;5;149m│\x1b[0m\
         \x1b[6;1H\x1b[38;5;149m│\x1b[0m          \x1b[38;5;149m│\x1b[0m\
         \x1b[7;1H\x1b[38;5;149m└──────────┘\x1b[0m\
         \x1b[4;2H\x1b[1m1/1\x1b[0m \x1b[38;5;244m1 shown\x1b[0m\
         \x1b[5;2H\x1b[48;5;238m\x1b[38;5;230m\x1b[48;5;238m\x1b[38;5;111m> ls\x1b[0m      \
         \x1b[6;2H\x1b[36m🪿 \x1b[0mq       "
    );
    assert_eq!(ui.anchor_row, 1);
    let area = ui.last_box.unwrap();
    assert_eq!((area.row, area.col, area.width, area.height), (2, 0, 12, 5));
}

#[test]
fn a_file_list_has_its_root_at_the_right() {
    let mut picker = file_picker(1, "/home/user/project");
    let mut ui = ui(0);
    let out = draw(&mut picker, &mut ui, 32, 7, None);
    assert!(out.contains(&format!("\x1b[3;2H\x1b[36m🪿 \x1b[0mf{}\x1b[4;2H", " ".repeat(27))));
    assert!(out.contains(
        "\x1b[4;2H\x1b[1m1/1 (1 loaded)\x1b[0m \x1b[38;5;244m/home/user/p...\x1b[0m\x1b[5;2H"
    ));
    let header_start = out.find("\x1b[4;2H\x1b[1m1/1").unwrap();
    let header_end = out[header_start..].find("\x1b[5;2H").unwrap() + header_start;
    assert_eq!(visible_width(&out[header_start..header_end]), 30);
}

#[test]
fn rows_past_the_list_are_blank() {
    let mut picker = file_picker(1, "/r");
    let mut ui = ui(0);
    let out = draw(&mut picker, &mut ui, 30, 8, None);
    assert!(out.ends_with(&format!("\x1b[7;2H{}", " ".repeat(28))));
}

#[test]
fn every_row_of_a_list_fills_its_line() {
    let mut picker = file_picker(3, "/r");
    let mut ui = ui(0);
    let out = draw(&mut picker, &mut ui, 30, 12, None);
    for row in 5..11 {
        let start = out.rfind(&format!("\x1b[{};2H", row)).unwrap();
        let end = match out[start + 1..].find(&format!("\x1b[{};2H", row + 1)) {
            Some(at) => start + 1 + at,
            None => out.len(),
        };
        assert_eq!(visible_width(&out[start..end]), 28, "row {}", row);
    }
}

#[test]
fn the_screen_scrolls_and_the_last_box_is_removed() {
    let mut picker = history_picker(&["ls"]);
    let mut ui = TerminalUi {
        anchor_row: 9,
        anchor_col: 0,
        last_box: Some(BoxArea { row: 4, col: 0, width: 3, height: 1 }),
    };
    let out = draw(&mut picker, &mut ui, 20, 10, Some("6"));
    assert!(out.starts_with("\x1b[6S\x1b[5;1H   \x1b[?25l\x1b[5;1H"));
    assert_eq!(ui.anchor_row, 3);
    let area = ui.last_box.unwrap();
    assert_eq!((area.row, area.height), (4, 6));
}

#[test]
fn the_selected_row_is_scrolled_into_sight() {
    let mut picker = file_picker(40, "/r");
    picker.selected = 20;
    let mut ui = ui(0);
    draw(&mut picker, &mut ui, 60, 24, None);
    assert_eq!(picker.scroll, 13);
    picker.selected = 2;
    draw(&mut picker, &mut ui, 60, 24, None);
    assert_eq!(picker.scroll, 2);
}

#[test]
fn the_box_ends_on_the_screen() {
    for rows in 1..60u16 {
        for anchor in 0..rows {
            let mut picker = history_picker(&["ls", "pwd"]);
            let mut ui = ui(anchor);
            draw(&mut picker, &mut ui, 40, rows, None);
            let area = ui.last_box.unwrap();
            assert!(area.row + area.height <= rows);
            assert_eq!(area.row, ui.anchor_row + 1);
        }
    }
}

#[test]
fn without_a_list_the_empty_box_is_drawn() {
    let mut out = String::new();
    let mut picker = Picker::new(PickerMode::Files, String::new());
    let mut screen = ui(0);
    assert!(can_render(&picker, &screen, 20, 6, None));
    let result = render(&mut out, &mut picker, &mut screen, 20, 6, None);
    assert_eq!(result, Err(RenderError::MissingFileView));
    assert!(out.contains("FFFiles") && out.ends_with("┘\x1b[0m"));
    assert!(screen.last_box.is_some());
    let mut picker = Picker::new(PickerMode::History, String::new());
    let result = render(&mut out, &mut picker, &mut screen, 20, 6, None);
    assert_eq!(result, Err(RenderError::MissingHistoryView));
    assert_eq!(render_error_message(RenderError::MissingFileView), "missing file view");
    assert_eq!(render_error_message(RenderError::MissingHistoryView), "missing history view");
}

#[test]
fn a_narrow_screen_has_no_room_for_the_header() {
    let picker = file_picker(1, "/r");
    assert!(can_render(&picker, &ui(0), 17, 24, None));
    assert!(!can_render(&picker, &ui(0), 16, 24, None));
    assert!(!can_render(&picker, &ui(0), 0, 24, None));
}

#[test]
fn rows_that_cannot_be_counted_are_not_drawn() {
    let picker = history_picker(&["ls"]);
    assert!(!can_render(&picker, &ui(65535), 80, 65535, None));
    let mut picker = history_picker(&["ls"]);
    picker.scroll = usize::MAX;
    picker.selected = usize::MAX;
    assert!(!can_render(&picker, &ui(0), 80, 24, None));
    let picker = history_picker(&["ls"]);
    let mut odd = ui(0);
    odd.last_box = Some(BoxArea { row: 65535, col: 0, width: 1, height: 2 });
    assert!(!can_render(&picker, &odd, 80, 24, None));
}

#[test]
fn cleaning_up_removes_the_box() {
    let mut out = String::new();
    cleanup(&mut out, &ui(2));
    assert_eq!(out, "\x1b[3;5H\x1b[?25h\x1b[0m");
    let mut out = String::new();
    let last_box = Some(BoxArea { row: 3, col: 0, width: 2, height: 2 });
    cleanup(&mut out, &TerminalUi { anchor_row: 2, anchor_col: 0, last_box });
    assert_eq!(out, "\x1b[4;1H  \x1b[5;1H  \x1b[3;1H\x1b[?25h\x1b[0m");
}
