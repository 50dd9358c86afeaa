use fff_tui::picker::run_outcome;
use fff_tui::{
    Action, FileMatch, FileSearchView, GitKind, HistoryMatch, HistorySearchView, KeyInput,
    KeyPress, Picker, PickerMode, SearchResults, UiEvent,
};

fn press(key: KeyInput) -> KeyPress {
    KeyPress { key, control: false, pressed: true }
}

fn control(c: char) -> KeyPress {
    KeyPress { key: KeyInput::Char(c), control: true, pressed: true }
}

fn files(paths: &[&str]) -> SearchResults {
    let matches: Vec<FileMatch> = paths
        .iter()
        .map(|path| FileMatch {
            path: format!("/root/{}", path).into(),
            relative_path: path.to_string(),
            file_name: path.to_string(),
            git: GitKind::Clean,
            badge: None,
        })
        .collect();
    SearchResults::Files(FileSearchView {
        total_matched: matches.len(),
        loaded: matches.len(),
        matches,
        root_display: "/root".to_string(),
    })
}

fn history(commands: &[&str]) -> SearchResults {
    let matches: Vec<HistoryMatch> = commands
        .iter()
        .map(|command| HistoryMatch {
            command: command.to_string(),
            display: command.replace('\n', " ↩ "),
            match_ranges: Vec::new(),
        })
        .collect();
    SearchResults::History(HistorySearchView { total_matched: matches.len(), matches })
}

fn file_picker(paths: &[&str]) -> Picker {
    let mut picker = Picker::new(PickerMode::Files, String::new());
    picker.refresh(files(paths));
    picker
}

fn history_picker(commands: &[&str]) -> Picker {
    let mut picker = Picker::new(PickerMode::History, "q".to_string());
    picker.refresh(history(commands));
    picker
}

#[test]
fn a_new_picker_has_no_list() {
    let picker = Picker::new(PickerMode::History, "abc".to_string());
    assert_eq!(picker.result_len(), 0);
    assert_eq!(picker.query, "abc");
    assert_eq!(picker.selected_output(), None);
    assert!(picker.files.is_none() && picker.history.is_none());
}

#[test]
fn enter_accepts_the_selected_row() {
    let mut picker = file_picker(&["a", "b"]);
    picker.handle_key(press(KeyInput::Down));
    let action = picker.handle_key(press(KeyInput::Enter));
    assert!(matches!(action, Action::Accept(ref path) if path == "b"));
    let mut picker = history_picker(&["ls\npwd"]);
    let action = picker.handle_key(press(KeyInput::Enter));
    assert!(matches!(action, Action::Accept(ref command) if command == "ls\npwd"));
}

#[test]
fn enter_on_an_empty_list_draws_again() {
    let mut picker = file_picker(&[]);
    assert!(matches!(picker.handle_key(press(KeyInput::Enter)), Action::Draw));
    let mut picker = Picker::new(PickerMode::Files, String::new());
    assert!(matches!(picker.handle_key(press(KeyInput::Enter)), Action::Draw));
}

#[test]
fn escape_and_control_c_cancel() {
    let mut picker = file_picker(&["a"]);
    assert!(matches!(picker.handle_key(press(KeyInput::Escape)), Action::Cancel));
    assert!(matches!(picker.handle_key(control('c')), Action::Cancel));
}

#[test]
fn a_file_list_wraps() {
    let mut picker = file_picker(&["a", "b", "c"]);
    assert!(matches!(picker.handle_key(press(KeyInput::Up)), Action::Draw));
    assert_eq!(picker.selected, 2);
    picker.handle_key(press(KeyInput::Down));
    assert_eq!(picker.selected, 0);
    picker.handle_key(control('p'));
    assert_eq!(picker.selected, 2);
    picker.handle_key(control('n'));
    assert_eq!(picker.selected, 0);
}

#[test]
fn a_history_list_stops_at_its_ends() {
    let mut picker = history_picker(&["a", "b"]);
    picker.handle_key(press(KeyInput::Up));
    assert_eq!(picker.selected, 0);
    picker.handle_key(control('n'));
    picker.handle_key(press(KeyInput::Down));
    assert_eq!(picker.selected, 1);
}

#[test]
fn typing_searches_from_the_top() {
    let mut picker = file_picker(&["a", "b", "c"]);
    picker.selected = 2;
    picker.scroll = 1;
    assert!(matches!(picker.handle_key(press(KeyInput::Char('é'))), Action::Search));
    assert_eq!(picker.query, "é");
    assert_eq!((picker.selected, picker.scroll), (0, 0));
}

#[test]
fn erasing_undoes_typing() {
    let mut picker = history_picker(&["a"]);
    picker.handle_key(press(KeyInput::Char('c')));
    picker.handle_key(press(KeyInput::Char('🪿')));
    assert_eq!(picker.query, "qc🪿");
    assert!(matches!(picker.handle_key(press(KeyInput::Backspace)), Action::Search));
    assert_eq!(picker.query, "qc");
}

#[test]
fn typing_and_erasing_go_back_to_the_query() {
    let mut picker = file_picker(&["a", "b", "c"]);
    picker.query = "q".to_string();
    picker.selected = usize::MAX;
    picker.scroll = 2;
    assert!(matches!(picker.handle_key(press(KeyInput::Char('x'))), Action::Search));
    picker.refresh(files(&["x"]));
    assert_eq!((picker.query.as_str(), picker.selected, picker.scroll), ("qx", 0, 0));
    assert!(matches!(picker.handle_key(press(KeyInput::Backspace)), Action::Search));
    picker.refresh(files(&["a", "b", "c"]));
    assert_eq!((picker.query.as_str(), picker.selected, picker.scroll), ("q", 0, 0));
    assert_eq!(picker.mode, PickerMode::Files);
}

#[test]
fn only_moving_down_needs_a_row_number() {
    let mut picker = history_picker(&["a"]);
    picker.selected = usize::MAX;
    assert!(!picker.can_handle(UiEvent::Key(press(KeyInput::Down))));
    assert!(!picker.can_handle(UiEvent::Key(control('n'))));
    assert!(picker.can_handle(UiEvent::Key(press(KeyInput::Up))));
    assert!(picker.can_handle(UiEvent::Key(press(KeyInput::Char('n')))));
    assert!(picker.can_handle(UiEvent::Resize));
    picker.selected = 0;
    assert!(picker.can_handle(UiEvent::Key(press(KeyInput::Down))));
    let mut empty = history_picker(&[]);
    empty.selected = usize::MAX;
    assert!(empty.can_handle(UiEvent::Key(press(KeyInput::Down))));
}

#[test]
fn there_is_nothing_to_erase_in_an_empty_query() {
    let mut picker = file_picker(&["a", "b"]);
    picker.selected = 1;
    assert!(matches!(picker.handle_key(press(KeyInput::Backspace)), Action::Draw));
    assert_eq!(picker.selected, 1);
}

#[test]
fn other_keys_do_nothing() {
    let mut picker = file_picker(&["a", "b"]);
    assert!(matches!(picker.handle_key(control('x')), Action::Draw));
    assert!(matches!(picker.handle_key(press(KeyInput::Other)), Action::Draw));
    let released = KeyPress { key: KeyInput::Char('a'), control: false, pressed: false };
    assert!(matches!(picker.handle_key(released), Action::Draw));
    let released = KeyPress { key: KeyInput::Escape, control: false, pressed: false };
    assert!(matches!(picker.handle_key(released), Action::Draw));
    assert_eq!(picker.query, "");
    assert_eq!(picker.selected, 0);
}

#[test]
fn a_shorter_list_pulls_the_selection_back() {
    let mut picker = file_picker(&["a", "b", "c"]);
    picker.selected = 2;
    picker.refresh(files(&["a", "b"]));
    assert_eq!(picker.selected, 1);
    picker.refresh(files(&[]));
    assert_eq!(picker.selected, 0);
    assert_eq!(picker.result_len(), 0);
}

#[test]
fn keys_keep_the_selection_in_the_list() {
    for mut picker in [file_picker(&["a", "b", "c"]), history_picker(&["a", "b", "c"])] {
        for c in "pnnnnnpppppp".chars() {
            picker.handle_key(control(c));
            assert!(picker.selected < picker.result_len());
        }
    }
}

#[test]
fn events_other_than_keys_leave_the_picker_as_it_is() {
    let mut picker = file_picker(&["a", "b"]);
    assert!(matches!(picker.handle_event(UiEvent::Resize), Action::Draw));
    assert!(matches!(picker.handle_event(UiEvent::Other), Action::Wait));
    let key = UiEvent::Key(press(KeyInput::Down));
    assert!(matches!(picker.handle_event(key), Action::Draw));
    assert_eq!(picker.selected, 1);
}

#[test]
fn an_error_of_the_run_comes_first() {
    assert_eq!(run_outcome::<u8, &str>(Ok(3), Ok(())), Ok(3));
    assert_eq!(run_outcome::<u8, &str>(Err("run"), Err("cleanup")), Err("run"));
    assert_eq!(run_outcome::<u8, &str>(Err("run"), Ok(())), Err("run"));
    assert_eq!(run_outcome::<u8, &str>(Ok(3), Err("cleanup")), Err("cleanup"));
}
