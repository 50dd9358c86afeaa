use fff_tui::{
    dedupe_history_entries, load_history_commands, parse_history_content, parse_history_direction,
    read_history_fallback, sanitize_history_display, HistoryDirection,
};

fn strings(items: &[&str]) -> Vec<String> {
    items.iter().map(|item| item.to_string()).collect()
}

#[test]
fn parses_extended_history_and_dedupes_backward() {
    let input = ": 1:0;git status\n: 2:0;pwd\n: 3:0;git status\n";
    let commands = parse_history_content(input, HistoryDirection::Backward);
    assert_eq!(commands, vec!["git status", "pwd"]);
}

#[test]
fn parses_extended_history_and_dedupes_forward() {
    let input = ": 1:0;git status\n: 2:0;pwd\n: 3:0;git status\n";
    let commands = parse_history_content(input, HistoryDirection::Forward);
    assert_eq!(commands, vec!["git status", "pwd"]);
}

#[test]
fn direction_decides_which_repetition_is_kept() {
    let input = "ls\npwd\nls\n";
    assert_eq!(parse_history_content(input, HistoryDirection::Forward), vec!["ls", "pwd"]);
    assert_eq!(parse_history_content(input, HistoryDirection::Backward), vec!["ls", "pwd"]);
    let input = "ls\npwd\n";
    assert_eq!(parse_history_content(input, HistoryDirection::Forward), vec!["ls", "pwd"]);
    assert_eq!(parse_history_content(input, HistoryDirection::Backward), vec!["pwd", "ls"]);
}

#[test]
fn plain_and_extended_lines_mix() {
    let input = "plain\n: 1:0;a;b\n: no separator\n:3;tight\n\n   \nlast";
    assert_eq!(
        parse_history_content(input, HistoryDirection::Forward),
        vec!["plain", "a;b", ": no separator", ":3;tight", "last"]
    );
}

#[test]
fn carriage_returns_belong_to_line_breaks() {
    let input = "one\r\ntwo\r\n";
    assert_eq!(parse_history_content(input, HistoryDirection::Forward), vec!["one", "two"]);
    assert_eq!(
        parse_history_content("a\rb\nc", HistoryDirection::Forward),
        vec!["a\rb", "c"]
    );
}

#[test]
fn an_extended_line_without_a_command_is_dropped() {
    assert_eq!(
        parse_history_content(": 1:0;\n: 2:0;   \nls\n", HistoryDirection::Forward),
        vec!["ls"]
    );
}

#[test]
fn no_content_has_no_commands() {
    assert!(parse_history_content("", HistoryDirection::Forward).is_empty());
    assert!(parse_history_content("\n\n \n", HistoryDirection::Backward).is_empty());
}

#[test]
fn dedupe_trims_and_drops_blank_entries() {
    let entries = strings(&["  ls ", "ls", "", " \t ", "\u{a0}pwd\u{3000}", "ls"]);
    assert_eq!(
        dedupe_history_entries(entries.clone(), HistoryDirection::Forward),
        vec!["ls", "pwd"]
    );
    assert_eq!(
        dedupe_history_entries(entries, HistoryDirection::Backward),
        vec!["ls", "pwd"]
    );
}

#[test]
fn dedupe_once_is_enough() {
    let entries = strings(&["b", "a ", "b", " c"]);
    let once = dedupe_history_entries(entries, HistoryDirection::Forward);
    assert_eq!(once, vec!["b", "a", "c"]);
    assert_eq!(dedupe_history_entries(once.clone(), HistoryDirection::Forward), once);
}

#[test]
fn dedupe_of_a_beginning_is_a_beginning() {
    let entries = strings(&["x", "y", "x", "z"]);
    let beginning = dedupe_history_entries(entries[..2].to_vec(), HistoryDirection::Forward);
    let whole = dedupe_history_entries(entries, HistoryDirection::Forward);
    assert_eq!(whole, vec!["x", "y", "z"]);
    assert!(whole.starts_with(&beginning));
}

#[test]
fn zero_width_space_is_no_white_space() {
    let entries = strings(&["\u{200b}ls", "\u{85}ls\u{2028}"]);
    assert_eq!(
        dedupe_history_entries(entries, HistoryDirection::Forward),
        vec!["\u{200b}ls", "ls"]
    );
}

#[test]
fn sanitizes_multiline_history_for_display() {
    assert_eq!(
        sanitize_history_display("printf 'a\\n'\necho done"),
        "printf 'a\\n' ↩ echo done"
    );
}

#[test]
fn sanitized_lines_have_marks_for_every_kind_of_break() {
    assert_eq!(sanitize_history_display("a\r\nb\nc"), "a ↩ b ↩ c");
    assert_eq!(sanitize_history_display("a\r\r\nb"), "a\r ↩ b");
    assert_eq!(sanitize_history_display("a\rb"), "a\rb");
    assert_eq!(sanitize_history_display("  a  "), "a");
    assert_eq!(sanitize_history_display("\na\n"), "↩ a ↩");
    assert_eq!(sanitize_history_display(" \n "), "↩");
    assert_eq!(sanitize_history_display(""), "");
}

#[test]
fn sanitizing_twice_changes_nothing() {
    let line = sanitize_history_display(" for x in *\r\ndo echo $x\ndone ");
    assert_eq!(line, "for x in * ↩ do echo $x ↩ done");
    assert!(!line.contains('\n'));
    assert_eq!(sanitize_history_display(&line), line);
}

#[test]
fn load_history_commands_prefers_stdin() {
    let data = b"git status\0pwd\0";
    let commands = load_history_commands(data, None, HistoryDirection::Backward);
    assert_eq!(commands, vec!["git status", "pwd"]);
}

#[test]
fn stdin_wins_over_a_history_file() {
    let commands = load_history_commands(b"ls", Some("pwd\n"), HistoryDirection::Backward);
    assert_eq!(commands, vec!["ls"]);
}

#[test]
fn the_last_zero_byte_may_be_missing() {
    let whole = load_history_commands(b"b\0 a\0c", None, HistoryDirection::Forward);
    let ended = load_history_commands(b"b\0 a\0c\0", None, HistoryDirection::Forward);
    assert_eq!(whole, vec!["b", " a", "c"]);
    assert_eq!(whole, ended);
}

#[test]
fn stdin_keeps_order_repetitions_and_white_space() {
    let commands = load_history_commands(b"b\0 a\nc \0b\0", None, HistoryDirection::Backward);
    assert_eq!(commands, vec!["b", " a\nc ", "b"]);
}

#[test]
fn stdin_drops_empty_and_invalid_commands() {
    let data = [b'a', 0, 0, 0xff, 0, 0xc3, 0xa9, 0, 0xed, 0xa0, 0x80, 0, b'z'];
    let commands = load_history_commands(&data, None, HistoryDirection::Forward);
    assert_eq!(commands, vec!["a", "é", "z"]);
    assert!(load_history_commands(&[0, 0], Some("ls"), HistoryDirection::Forward).is_empty());
}

#[test]
fn commands_from_the_shell_come_back() {
    let sent = ["git status", "écho ↩", "a\nb", "git status"];
    let mut data: Vec<u8> = Vec::new();
    for command in sent {
        data.extend_from_slice(command.as_bytes());
        data.push(0);
    }
    assert_eq!(load_history_commands(&data, None, HistoryDirection::Backward), sent);
}

#[test]
fn without_stdin_the_history_file_is_read() {
    let file = ": 1:0;ls\n: 2:0;pwd\n";
    assert_eq!(
        load_history_commands(b"", Some(file), HistoryDirection::Backward),
        vec!["pwd", "ls"]
    );
    assert!(load_history_commands(b"", None, HistoryDirection::Backward).is_empty());
}

#[test]
fn a_history_file_that_cannot_be_read_has_no_commands() {
    assert!(read_history_fallback(None, HistoryDirection::Forward).is_empty());
    assert_eq!(
        read_history_fallback(Some("ls\nls\n"), HistoryDirection::Forward),
        vec!["ls"]
    );
}

#[test]
fn only_forward_is_forward() {
    assert_eq!(parse_history_direction("forward"), HistoryDirection::Forward);
    assert_eq!(parse_history_direction("ForWARD"), HistoryDirection::Forward);
    assert_eq!(parse_history_direction("backward"), HistoryDirection::Backward);
    assert_eq!(parse_history_direction("forwards"), HistoryDirection::Backward);
    assert_eq!(parse_history_direction("forwarD "), HistoryDirection::Backward);
    assert_eq!(parse_history_direction(""), HistoryDirection::Backward);
}
