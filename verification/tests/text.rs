use fff_tui::text::{
    byte_len, char_len, chars_of, hex_string, parse_small_number, push_decimal, push_repeated,
    push_signed_decimal, same_text, string_of,
};

fn decimal(n: u64) -> String {
    let mut out = String::new();
    push_decimal(&mut out, n);
    out
}

#[test]
fn numbers_are_written_in_decimal() {
    for n in [0, 1, 9, 10, 99, 100, 65535, 1234567890, u64::MAX] {
        assert_eq!(decimal(n), n.to_string());
    }
    for n in [0, -1, 7, -10, i32::MAX, i32::MIN] {
        let mut out = String::from("=");
        push_signed_decimal(&mut out, n);
        assert_eq!(out, format!("={}", n));
    }
}

#[test]
fn written_numbers_are_read_back() {
    for n in [0u16, 9, 10, 4096, 65535] {
        let chars = chars_of(&decimal(n as u64));
        assert_eq!(parse_small_number(&chars, 0, chars.len()), Some(n));
    }
    let chars = chars_of("a12b");
    assert_eq!(parse_small_number(&chars, 1, 3), Some(12));
    assert_eq!(parse_small_number(&chars, 1, 4), None);
    assert_eq!(parse_small_number(&chars, 2, 2), None);
}

#[test]
fn bytes_are_written_in_hexadecimal() {
    assert_eq!(hex_string(&vec![0, 9, 10, 15, 16, 0xab, 0xff]), "00090a0f10abff");
    assert_eq!(hex_string(&vec![]), "");
}

#[test]
fn characters_have_their_bytes() {
    for c in ['a', '\u{7f}', '\u{80}', 'é', '\u{7ff}', '\u{800}', '↩', '\u{ffff}', '🪿'] {
        assert_eq!(char_len(c), c.len_utf8());
    }
    assert_eq!(byte_len("aé↩🪿"), 10);
    assert_eq!(chars_of("aé🪿"), vec!['a', 'é', '🪿']);
}

#[test]
fn pieces_of_text_are_copied() {
    let chars = chars_of("aé🪿b");
    assert_eq!(string_of(&chars, 1, 3), "é🪿");
    assert_eq!(string_of(&chars, 2, 2), "");
    let mut out = String::from("x");
    push_repeated(&mut out, '─', 3);
    push_repeated(&mut out, ' ', 0);
    assert_eq!(out, "x───");
}

#[test]
fn texts_are_compared_character_by_character() {
    assert!(same_text("🔥", "🔥"));
    assert!(same_text("", ""));
    assert!(!same_text("a", "A"));
    assert!(!same_text("ab", "a"));
}
