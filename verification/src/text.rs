//! Text primitives: white space, decimal and hexadecimal digits, and the few
//! operations of `std` strings that the rest of the library is built on.

use vstd::prelude::*;
use vstd::utf8::*;

verus! {

/// `String::push` appends one character.
pub assume_specification[ String::push ](s: &mut String, c: char)
    ensures
        final(s)@ == old(s)@.push(c),
;

/// `String::pop` removes the last character and hands it back; on an empty
/// string it returns `None` and leaves the string as it is.
pub assume_specification[ String::pop ](s: &mut String) -> (r: Option<char>)
    ensures
        old(s)@.len() == 0 ==> r is None && final(s)@ == old(s)@,
        old(s)@.len() > 0 ==> r == Some(old(s)@.last()) && final(s)@ == old(s)@.drop_last(),
;

/// The characters with the Unicode property `White_Space`.
pub open spec fn is_white_space(c: char) -> bool {
    let u = c as u32;
    ||| 0x9 <= u <= 0xd
    ||| u == 0x20
    ||| u == 0x85
    ||| u == 0xa0
    ||| u == 0x1680
    ||| 0x2000 <= u <= 0x200a
    ||| u == 0x2028
    ||| u == 0x2029
    ||| u == 0x202f
    ||| u == 0x205f
    ||| u == 0x3000
}

/// A text without the white space at its start.
pub open spec fn trimmed_start(s: Seq<char>) -> Seq<char>
    decreases s.len(),
{
    if s.len() > 0 && is_white_space(s.first()) {
        trimmed_start(s.drop_first())
    } else {
        s
    }
}

/// A text without the white space at its end.
pub open spec fn trimmed_end(s: Seq<char>) -> Seq<char>
    decreases s.len(),
{
    if s.len() > 0 && is_white_space(s.last()) {
        trimmed_end(s.drop_last())
    } else {
        s
    }
}

/// A text without the white space at either end.
pub open spec fn trimmed(s: Seq<char>) -> Seq<char> {
    trimmed_end(trimmed_start(s))
}

proof fn lemma_trimmed_start(s: Seq<char>)
    ensures
        trimmed_start(s).len() > 0 ==> !is_white_space(trimmed_start(s).first()),
    decreases s.len(),
{
    if s.len() > 0 && is_white_space(s.first()) {
        lemma_trimmed_start(s.drop_first());
    }
}

proof fn lemma_trimmed_end(s: Seq<char>)
    ensures
        trimmed_end(s).len() > 0 ==> !is_white_space(trimmed_end(s).last()),
        trimmed_end(s).len() > 0 ==> trimmed_end(s).first() == s.first(),
    decreases s.len(),
{
    if s.len() > 0 && is_white_space(s.last()) {
        lemma_trimmed_end(s.drop_last());
    }
}

/// A trimmed text neither begins nor ends with white space, so that trimming it
/// once more changes nothing.
pub proof fn law_trim_is_idempotent(s: Seq<char>)
    ensures
        trimmed(s).len() > 0 ==> !is_white_space(trimmed(s).first()) && !is_white_space(
            trimmed(s).last(),
        ),
        trimmed(trimmed(s)) == trimmed(s),
{
    lemma_trimmed_start(s);
    lemma_trimmed_end(trimmed_start(s));
}

/// Trimming adds no character.
pub proof fn lemma_trimmed_contains(s: Seq<char>, c: char)
    requires
        trimmed(s).contains(c),
    ensures
        s.contains(c),
{
    let start = trimmed_start(s);
    lemma_trimmed_end_contains(start, c);
    lemma_trimmed_start_contains(s, c);
}

proof fn lemma_trimmed_start_contains(s: Seq<char>, c: char)
    requires
        trimmed_start(s).contains(c),
    ensures
        s.contains(c),
    decreases s.len(),
{
    if s.len() > 0 && is_white_space(s.first()) {
        let rest = s.drop_first();
        lemma_trimmed_start_contains(rest, c);
        let k = choose|k: int| 0 <= k < rest.len() && rest[k] == c;
        assert(s[k + 1] == c);
    }
}

proof fn lemma_trimmed_end_contains(s: Seq<char>, c: char)
    requires
        trimmed_end(s).contains(c),
    ensures
        s.contains(c),
    decreases s.len(),
{
    if s.len() > 0 && is_white_space(s.last()) {
        let rest = s.drop_last();
        lemma_trimmed_end_contains(rest, c);
        let k = choose|k: int| 0 <= k < rest.len() && rest[k] == c;
        assert(s[k] == c);
    }
}

/// `str::trim` returns the text without leading and trailing characters that
/// have the Unicode property `White_Space`.
pub assume_specification[ str::trim ](s: &str) -> (r: &str)
    ensures
        r@ == trimmed(s@),
;

/// What `str::to_lowercase` makes of a text: a function of the text alone.
pub uninterp spec fn lowercase(s: Seq<char>) -> Seq<char>;

/// `str::to_lowercase` returns the lowercase equivalent of the text, as the
/// Unicode tables of `std` give it. The mapping itself is left unsaid.
pub assume_specification[ str::to_lowercase ](s: &str) -> (r: String)
    ensures
        r@ == lowercase(s@),
;

/// Whether `char::is_uppercase` holds of a character: a function of the
/// character alone.
pub uninterp spec fn is_uppercase_letter(c: char) -> bool;

/// `char::is_uppercase` tells whether the character has the Unicode property
/// `Uppercase`. The table is left unsaid.
pub assume_specification[ char::is_uppercase ](c: char) -> (r: bool)
    ensures
        r == is_uppercase_letter(c),
;

/// `String::from_utf8` takes exactly the byte sequences that are valid UTF-8,
/// and returns the text that they encode.
#[verifier::external_body]
pub(crate) fn string_from_utf8(bytes: Vec<u8>) -> (r: Option<String>)
    ensures
        match r {
            Some(s) => valid_utf8(bytes@) && s@ == decode_utf8(bytes@),
            None => !valid_utf8(bytes@),
        },
{
    String::from_utf8(bytes).ok()
}

/// The texts of a list of strings.
pub open spec fn string_views(v: Seq<String>) -> Seq<Seq<char>> {
    v.map_values(|s: String| s@)
}

/// The pieces of a sequence between the occurrences of a separator. There is
/// always one more of them than there are separators.
pub open spec fn pieces<T>(s: Seq<T>, separator: T) -> Seq<Seq<T>>
    decreases s.len(),
{
    if s.len() == 0 {
        seq![Seq::empty()]
    } else {
        let front = pieces(s.drop_last(), separator);
        if s.last() == separator {
            front.push(Seq::empty())
        } else {
            front.drop_last().push(front.last().push(s.last()))
        }
    }
}

/// There is at least one piece.
pub proof fn lemma_pieces_nonempty<T>(s: Seq<T>, separator: T)
    ensures
        pieces(s, separator).len() > 0,
    decreases s.len(),
{
    if s.len() > 0 {
        lemma_pieces_nonempty(s.drop_last(), separator);
    }
}

/// What holds no separator makes the last piece longer.
proof fn lemma_pieces_extended<T>(s: Seq<T>, more: Seq<T>, separator: T)
    requires
        !more.contains(separator),
    ensures
        pieces(s + more, separator) == pieces(s, separator).drop_last().push(
            pieces(s, separator).last() + more,
        ),
    decreases more.len(),
{
    let front = pieces(s, separator);
    lemma_pieces_nonempty(s, separator);
    if more.len() == 0 {
        assert(s + more =~= s);
        assert(front.last() + more =~= front.last());
        assert(front =~= front.drop_last().push(front.last()));
    } else {
        let less = more.drop_last();
        assert(!less.contains(separator)) by {
            if less.contains(separator) {
                let k = choose|k: int| 0 <= k < less.len() && less[k] == separator;
                assert(more[k] == separator);
            }
        }
        assert(more.last() != separator) by {
            assert(more.contains(more[more.len() - 1]));
        }
        lemma_pieces_extended(s, less, separator);
        assert((s + more).drop_last() =~= s + less);
        let before = pieces(s + less, separator);
        assert(before.drop_last() =~= front.drop_last());
        assert((front.last() + less).push(more.last()) =~= front.last() + more);
    }
}

/// Parts one behind the other, each with a separator at its end.
pub open spec fn joined<T>(parts: Seq<Seq<T>>, separator: T) -> Seq<T>
    decreases parts.len(),
{
    if parts.len() == 0 {
        Seq::empty()
    } else {
        joined(parts.drop_last(), separator) + parts.last() + seq![separator]
    }
}

/// Splitting joined parts gives the parts back, and an empty piece behind the
/// last separator. Without that separator it gives the parts alone.
pub proof fn lemma_pieces_of_joined<T>(parts: Seq<Seq<T>>, separator: T)
    requires
        forall|i: int| 0 <= i < parts.len() ==> !(#[trigger] parts[i]).contains(separator),
    ensures
        pieces(joined(parts, separator), separator) == parts.push(Seq::empty()),
        parts.len() > 0 ==> pieces(joined(parts, separator).drop_last(), separator) == parts,
    decreases parts.len(),
{
    if parts.len() == 0 {
        assert(pieces(joined(parts, separator), separator) =~= parts.push(Seq::empty()));
    } else {
        let front = parts.drop_last();
        let part = parts.last();
        assert(part == parts[parts.len() - 1]);
        assert forall|i: int| 0 <= i < front.len() implies !(#[trigger] front[i]).contains(
            separator,
        ) by {
            assert(front[i] == parts[i]);
        }
        lemma_pieces_of_joined(front, separator);
        let before = joined(front, separator);
        lemma_pieces_extended(before, part, separator);
        assert(Seq::<T>::empty() + part =~= part);
        assert(pieces(before + part, separator) =~= parts);
        let whole = joined(parts, separator);
        assert(whole.drop_last() =~= before + part);
        assert(whole.last() == separator);
    }
}

/// What follows the first occurrence of a value, if there is one.
pub open spec fn after_first<T>(s: Seq<T>, separator: T) -> Option<Seq<T>>
    decreases s.len(),
{
    if s.len() == 0 {
        None
    } else if s.first() == separator {
        Some(s.drop_first())
    } else {
        after_first(s.drop_first(), separator)
    }
}

/// What stands before the first occurrence of a value, if there is one.
pub open spec fn before_first<T>(s: Seq<T>, separator: T) -> Option<Seq<T>>
    decreases s.len(),
{
    if s.len() == 0 {
        None
    } else if s.first() == separator {
        Some(Seq::empty())
    } else {
        match before_first(s.drop_first(), separator) {
            Some(front) => Some(seq![s.first()] + front),
            None => None,
        }
    }
}

/// A sequence with a separator behind a part that does not hold it is split
/// there.
pub proof fn lemma_split_at_first<T>(front: Seq<T>, separator: T, rest: Seq<T>)
    requires
        !front.contains(separator),
    ensures
        before_first(front + seq![separator] + rest, separator) == Some(front),
        after_first(front + seq![separator] + rest, separator) == Some(rest),
    decreases front.len(),
{
    let whole = front + seq![separator] + rest;
    if front.len() == 0 {
        assert(whole.drop_first() =~= rest);
        assert(front =~= Seq::<T>::empty());
    } else {
        let tail = front.drop_first();
        assert(!tail.contains(separator)) by {
            if tail.contains(separator) {
                let k = choose|k: int| 0 <= k < tail.len() && tail[k] == separator;
                assert(front[k + 1] == separator);
            }
        }
        lemma_split_at_first(tail, separator, rest);
        assert(whole.drop_first() =~= tail + seq![separator] + rest);
        assert(whole.first() == front[0]);
        assert(front =~= seq![front[0]] + tail);
    }
}

/// The number of bytes of a text in UTF-8.
pub open spec fn byte_count(s: Seq<char>) -> nat {
    encode_utf8(s).len()
}

/// The length of a text in bytes.
pub fn byte_len(s: &str) -> (n: usize)
    ensures
        n == byte_count(s@),
{
    s.as_bytes().len()
}

/// The number of bytes of a character in UTF-8.
pub open spec fn char_bytes(c: char) -> nat {
    encode_scalar(c as u32).len()
}

/// The number of bytes of a character in UTF-8.
pub fn char_len(c: char) -> (n: usize)
    ensures
        n == char_bytes(c),
        1 <= n <= 4,
{
    proof {
        char_is_scalar(c);
    }
    let code: u32 = c as u32;
    if code <= 0x7f {
        1
    } else if code <= 0x7ff {
        2
    } else if code <= 0xffff {
        3
    } else {
        4
    }
}

/// The bytes of two texts, one behind the other, are those of both.
pub proof fn lemma_byte_count_concat(a: Seq<char>, b: Seq<char>)
    ensures
        byte_count(a + b) == byte_count(a) + byte_count(b),
    decreases a.len(),
{
    if a.len() == 0 {
        assert(a + b =~= b);
    } else {
        lemma_byte_count_concat(a.drop_first(), b);
        assert((a + b).drop_first() =~= a.drop_first() + b);
    }
}

/// One more character adds its own bytes.
pub proof fn lemma_byte_count_push(s: Seq<char>, c: char)
    ensures
        byte_count(s.push(c)) == byte_count(s) + char_bytes(c),
{
    assert(s.push(c) =~= s + seq![c]);
    lemma_byte_count_concat(s, seq![c]);
    assert(seq![c].drop_first() =~= Seq::<char>::empty());
    assert(byte_count(Seq::<char>::empty()) == 0);
    assert(encode_utf8(seq![c]) =~= encode_scalar(c as u32));
}

/// A text has no more characters than bytes.
pub proof fn lemma_chars_at_most_bytes(s: Seq<char>)
    ensures
        s.len() <= byte_count(s),
    decreases s.len(),
{
    if s.len() > 0 {
        lemma_chars_at_most_bytes(s.drop_first());
        char_is_scalar(s[0]);
    }
}

/// The characters of a text.
pub fn chars_of(s: &str) -> (v: Vec<char>)
    ensures
        v@ == s@,
{
    let mut v: Vec<char> = Vec::new();
    for c in it: s.chars()
        invariant
            v@ == it.seq().take(it.index()),
            it.seq() == s@,
    {
        v.push(c);
        assert(it.seq().take(it.index() + 1) =~= it.seq().take(it.index()).push(c));
    }
    assert(s@.take(s@.len() as int) =~= s@);
    v
}

/// The characters `from..to` as a text of their own.
pub fn string_of(chars: &Vec<char>, from: usize, to: usize) -> (s: String)
    requires
        from <= to <= chars@.len(),
    ensures
        s@ == chars@.subrange(from as int, to as int),
{
    let mut s = String::new();
    let mut i: usize = from;
    while i < to
        invariant
            from <= i <= to <= chars@.len(),
            s@ == chars@.subrange(from as int, i as int),
        decreases to - i,
    {
        s.push(chars[i]);
        assert(chars@.subrange(from as int, i + 1) =~= chars@.subrange(from as int, i as int).push(
            chars@[i as int],
        ));
        i = i + 1;
    }
    s
}

/// Whether two texts are the same.
pub fn same_text(a: &str, b: &str) -> (r: bool)
    ensures
        r == (a@ == b@),
{
    let left = chars_of(a);
    let right = chars_of(b);
    if left.len() != right.len() {
        return false;
    }
    let mut i: usize = 0;
    while i < left.len()
        invariant
            i <= left@.len(),
            left@ == a@,
            right@ == b@,
            left@.len() == right@.len(),
            forall|j: int| 0 <= j < i ==> left@[j] == right@[j],
        decreases left@.len() - i,
    {
        if left[i] != right[i] {
            return false;
        }
        i = i + 1;
    }
    assert(a@ =~= b@);
    true
}

/// `n` copies of a character.
pub open spec fn repeated(c: char, n: nat) -> Seq<char> {
    Seq::new(n, |i: int| c)
}

/// Appends `n` copies of a character.
pub fn push_repeated(out: &mut String, c: char, n: usize)
    ensures
        final(out)@ == old(out)@ + repeated(c, n as nat),
{
    let mut i: usize = 0;
    assert(out@ =~= old(out)@ + repeated(c, 0));
    while i < n
        invariant
            i <= n,
            out@ == old(out)@ + repeated(c, i as nat),
        decreases n - i,
    {
        out.push(c);
        i = i + 1;
        assert(out@ =~= old(out)@ + repeated(c, i as nat));
    }
}

/// The character of a decimal digit.
pub open spec fn digit_char(d: int) -> char {
    ('0' as u32 + d) as char
}

/// The decimal notation of a number: no sign, no leading zero.
pub open spec fn decimal(n: nat) -> Seq<char>
    decreases n,
{
    if n < 10 {
        seq![digit_char(n as int)]
    } else {
        decimal(n / 10).push(digit_char((n % 10) as int))
    }
}

/// Decimal notation is one digit or more.
pub proof fn lemma_decimal_digits(n: nat)
    ensures
        decimal(n).len() > 0,
        forall|i: int| 0 <= i < decimal(n).len() ==> '0' <= #[trigger] decimal(n)[i] <= '9',
    decreases n,
{
    if n >= 10 {
        lemma_decimal_digits(n / 10);
    }
}

/// The decimal notation of an integer, with a minus sign where it is negative.
pub open spec fn signed_decimal(n: int) -> Seq<char> {
    if n < 0 {
        seq!['-'] + decimal((-n) as nat)
    } else {
        decimal(n as nat)
    }
}

/// The character of a decimal digit.
fn digit(d: u8) -> (c: char)
    requires
        d < 10,
    ensures
        c == digit_char(d as int),
{
    (48u8 + d) as char
}

/// Appends a number in decimal notation.
pub fn push_decimal(out: &mut String, n: u64)
    ensures
        final(out)@ == old(out)@ + decimal(n as nat),
    decreases n,
{
    if n >= 10 {
        push_decimal(out, n / 10);
    }
    out.push(digit((n % 10) as u8));
    assert(out@ =~= old(out)@ + decimal(n as nat));
}

/// Appends an integer in decimal notation.
pub fn push_signed_decimal(out: &mut String, n: i32)
    ensures
        final(out)@ == old(out)@ + signed_decimal(n as int),
{
    if n < 0 {
        out.push('-');
        push_decimal(out, (-(n as i64)) as u64);
        assert(out@ =~= old(out)@ + signed_decimal(n as int));
    } else {
        push_decimal(out, n as u64);
    }
}

/// The character of a hexadecimal digit, in lower case.
pub open spec fn hex_char(d: int) -> char {
    if d < 10 {
        digit_char(d)
    } else {
        ('a' as u32 + (d - 10)) as char
    }
}

/// Bytes in hexadecimal notation: two lowercase digits for each.
pub open spec fn hex(bytes: Seq<u8>) -> Seq<char>
    decreases bytes.len(),
{
    if bytes.len() == 0 {
        Seq::empty()
    } else {
        hex(bytes.drop_last()) + seq![
            hex_char(bytes.last() as int / 16),
            hex_char(bytes.last() as int % 16),
        ]
    }
}

/// The character of a hexadecimal digit.
fn hex_digit(d: u8) -> (c: char)
    requires
        d < 16,
    ensures
        c == hex_char(d as int),
{
    if d < 10 {
        digit(d)
    } else {
        (97u8 + (d - 10)) as char
    }
}

/// Bytes in hexadecimal notation.
pub fn hex_string(bytes: &Vec<u8>) -> (s: String)
    ensures
        s@ == hex(bytes@),
{
    let mut s = String::new();
    let mut i: usize = 0;
    assert(s@ =~= hex(bytes@.take(0)));
    while i < bytes.len()
        invariant
            i <= bytes@.len(),
            s@ == hex(bytes@.take(i as int)),
        decreases bytes@.len() - i,
    {
        let b: u8 = bytes[i];
        s.push(hex_digit(b / 16));
        s.push(hex_digit(b % 16));
        assert(bytes@.take(i + 1).drop_last() =~= bytes@.take(i as int));
        i = i + 1;
        assert(s@ =~= hex(bytes@.take(i as int)));
    }
    assert(bytes@.take(bytes@.len() as int) =~= bytes@);
    s
}

/// Whether a character is a decimal digit.
pub open spec fn is_digit(c: char) -> bool {
    '0' <= c <= '9'
}

/// The number that decimal digits stand for.
pub open spec fn number_of(digits: Seq<char>) -> nat
    decreases digits.len(),
{
    if digits.len() == 0 {
        0
    } else {
        number_of(digits.drop_last()) * 10 + (digits.last() as u32 - '0' as u32) as nat
    }
}

/// The digits of a number that may carry a plus sign.
pub open spec fn unsigned(s: Seq<char>) -> Seq<char> {
    if s.len() > 0 && s.first() == '+' {
        s.drop_first()
    } else {
        s
    }
}

/// The 16-bit number that a text stands for: decimal digits, a plus sign before
/// them at most.
pub open spec fn small_number(s: Seq<char>) -> Option<u16> {
    let digits = unsigned(s);
    if digits.len() > 0 && (forall|i: int|
        0 <= i < digits.len() ==> is_digit(#[trigger] digits[i])) && number_of(digits)
        <= u16::MAX {
        Some(number_of(digits) as u16)
    } else {
        None
    }
}

/// More digits make no smaller number.
proof fn lemma_number_grows(digits: Seq<char>, count: int)
    requires
        0 <= count <= digits.len(),
        forall|i: int| 0 <= i < digits.len() ==> is_digit(#[trigger] digits[i]),
    ensures
        number_of(digits.take(count)) <= number_of(digits),
    decreases digits.len(),
{
    if count == digits.len() {
        assert(digits.take(count) =~= digits);
    } else {
        let front = digits.drop_last();
        lemma_number_grows(front, count);
        assert(front.take(count) =~= digits.take(count));
    }
}

/// Reads the characters `from..to` as a 16-bit number.
pub fn parse_small_number(chars: &Vec<char>, from: usize, to: usize) -> (r: Option<u16>)
    requires
        from <= to <= chars@.len(),
    ensures
        r == small_number(chars@.subrange(from as int, to as int)),
{
    let ghost s = chars@.subrange(from as int, to as int);
    let start: usize = if from < to && chars[from] == '+' {
        from + 1
    } else {
        from
    };
    let ghost digits = unsigned(s);
    assert(digits =~= chars@.subrange(start as int, to as int));
    if start == to {
        return None;
    }
    let mut number: u32 = 0;
    let mut i: usize = start;
    assert(digits.take(0) =~= Seq::<char>::empty());
    while i < to
        invariant
            start <= i <= to <= chars@.len(),
            digits == chars@.subrange(start as int, to as int),
            s == chars@.subrange(from as int, to as int),
            digits == unsigned(s),
            number == number_of(digits.take(i - start)),
            number <= u16::MAX,
            forall|j: int| 0 <= j < i - start ==> is_digit(#[trigger] digits[j]),
        decreases to - i,
    {
        let c: char = chars[i];
        assert(digits[i - start] == c);
        if !('0' <= c && c <= '9') {
            return None;
        }
        number = number * 10 + (c as u32 - 48);
        assert(digits.take(i + 1 - start).drop_last() =~= digits.take(i - start));
        if number > 65535 {
            proof {
                if forall|j: int| 0 <= j < digits.len() ==> is_digit(#[trigger] digits[j]) {
                    lemma_number_grows(digits, i + 1 - start);
                }
            }
            return None;
        }
        i = i + 1;
    }
    assert(digits.take(to - start) =~= digits);
    Some(number as u16)
}

/// Reading the decimal notation of a number gives the number back.
pub proof fn law_decimal_round_trip(n: nat)
    ensures
        number_of(decimal(n)) == n,
        n <= u16::MAX ==> small_number(decimal(n)) == Some(n as u16),
    decreases n,
{
    lemma_decimal_digits(n);
    assert(decimal(n)[0] != '+');
    let digit = (n % 10) as int;
    assert(digit_char(digit) as u32 - '0' as u32 == digit);
    if n >= 10 {
        law_decimal_round_trip(n / 10);
        assert(decimal(n).drop_last() =~= decimal(n / 10));
        assert(decimal(n).last() == digit_char(digit));
        assert(number_of(decimal(n)) == number_of(decimal(n / 10)) * 10 + digit);
    } else {
        assert(decimal(n).drop_last() =~= Seq::<char>::empty());
        assert(decimal(n).last() == digit_char(digit));
        assert(number_of(Seq::<char>::empty()) == 0);
    }
    assert(unsigned(decimal(n)) == decimal(n));
    assert forall|i: int| 0 <= i < decimal(n).len() implies is_digit(#[trigger] decimal(n)[i]) by {
    }
}

proof fn lemma_trimmed_start_split(s: Seq<char>) -> (front: Seq<char>)
    ensures
        s == front + trimmed_start(s),
        forall|i: int| 0 <= i < front.len() ==> is_white_space(#[trigger] front[i]),
    decreases s.len(),
{
    if s.len() > 0 && is_white_space(s.first()) {
        let rest = lemma_trimmed_start_split(s.drop_first());
        let front = seq![s.first()] + rest;
        assert(s =~= seq![s.first()] + s.drop_first());
        assert(seq![s.first()] + (rest + trimmed_start(s)) =~= front + trimmed_start(s));
        assert forall|i: int| 0 <= i < front.len() implies is_white_space(#[trigger] front[i]) by {
            if i > 0 {
                assert(front[i] == rest[i - 1]);
            }
        }
        front
    } else {
        assert(s =~= Seq::<char>::empty() + s);
        Seq::empty()
    }
}

proof fn lemma_trimmed_end_split(s: Seq<char>) -> (back: Seq<char>)
    ensures
        s == trimmed_end(s) + back,
        forall|i: int| 0 <= i < back.len() ==> is_white_space(#[trigger] back[i]),
    decreases s.len(),
{
    if s.len() > 0 && is_white_space(s.last()) {
        let rest = lemma_trimmed_end_split(s.drop_last());
        let back = rest.push(s.last());
        assert(s =~= s.drop_last().push(s.last()));
        assert((trimmed_end(s) + rest).push(s.last()) =~= trimmed_end(s) + back);
        back
    } else {
        assert(s =~= s + Seq::<char>::empty());
        Seq::empty()
    }
}

/// Trimming takes white space away and nothing else: what stands before the
/// trimmed text and behind it is white space. The trimmed text neither begins
/// nor ends with any.
pub proof fn law_trim_takes_white_space_only(s: Seq<char>) -> (around: (Seq<char>, Seq<char>))
    ensures
        s == around.0 + trimmed(s) + around.1,
        forall|i: int| 0 <= i < around.0.len() ==> is_white_space(#[trigger] around.0[i]),
        forall|i: int| 0 <= i < around.1.len() ==> is_white_space(#[trigger] around.1[i]),
        trimmed(s).len() > 0 ==> !is_white_space(trimmed(s).first()) && !is_white_space(
            trimmed(s).last(),
        ),
{
    law_trim_is_idempotent(s);
    let front = lemma_trimmed_start_split(s);
    let back = lemma_trimmed_end_split(trimmed_start(s));
    assert(s =~= front + trimmed(s) + back);
    (front, back)
}

/// A text of white space alone has nothing left when it is trimmed, and only
/// such a text has not.
pub proof fn law_blank_iff_nothing_left(s: Seq<char>)
    ensures
        trimmed(s).len() == 0 <==> forall|i: int|
            0 <= i < s.len() ==> is_white_space(#[trigger] s[i]),
{
    let around = law_trim_takes_white_space_only(s);
    let n = around.0.len();
    if trimmed(s).len() == 0 {
        assert forall|i: int| 0 <= i < s.len() implies is_white_space(#[trigger] s[i]) by {
            if i < n {
                assert(s[i] == around.0[i]);
            } else {
                assert(s[i] == around.1[i - n]);
            }
        }
    } else {
        assert(s[n as int] == trimmed(s)[0]);
    }
}

/// One more digit behind a number multiplies it by ten and adds the digit. A
/// number is written with digits alone, and with no zero before it.
pub proof fn law_decimal_appends_digits(n: nat, digit: nat)
    requires
        digit < 10,
    ensures
        n > 0 ==> decimal(n * 10 + digit) == decimal(n).push(('0' as u32 + digit) as char),
        decimal(digit) == seq![('0' as u32 + digit) as char],
        n > 0 ==> decimal(n).len() > 0 && decimal(n)[0] != '0',
    decreases n,
{
    if n > 0 {
        assert((n * 10 + digit) / 10 == n);
        assert((n * 10 + digit) % 10 == digit);
        if n >= 10 {
            law_decimal_appends_digits(n / 10, n % 10);
        }
    }
}

/// A number is read digit by digit: one more digit multiplies it by ten and is
/// added to it, as far as 16 bits go. A plus sign may stand before the digits.
/// Anything else is no number, and neither is a text without digits.
pub proof fn law_number_is_read_digit_by_digit(
    chars: &Vec<char>,
    from: usize,
    to: usize,
    next: usize,
    r: Option<u16>,
    s: Option<u16>,
)
    requires
        from <= to,
        to + 1 == next,
        next <= chars@.len(),
        call_ensures(parse_small_number, (chars, from, to), r),
        call_ensures(parse_small_number, (chars, from, next), s),
    ensures
        ({
            let c = chars@[to as int];
            let is_digit = '0' <= c && c <= '9';
            let begins = to == from || (to == from + 1 && chars@[from as int] == '+');
            let digit = c as u32 - '0' as u32;
            &&& to == from ==> r is None
            &&& begins ==> r is None
            &&& begins && is_digit ==> s == Some(digit as u16)
            &&& !begins && is_digit && r is Some ==> if 10 * r->Some_0 + digit <= u16::MAX {
                s == Some((10 * r->Some_0 + digit) as u16)
            } else {
                s is None
            }
            &&& !is_digit || (!begins && r is None) ==> s is None
        }),
{
    let short = chars@.subrange(from as int, to as int);
    let long = chars@.subrange(from as int, next as int);
    let c = chars@[to as int];
    assert(long =~= short.push(c));
    let a = unsigned(short);
    let b = unsigned(long);
    let begins = to == from || (to == from + 1 && chars@[from as int] == '+');
    let is_number = '0' <= c && c <= '9';
    if to == from {
        assert(short.len() == 0);
        if c != '+' {
            assert(b =~= seq![c]);
            assert(b.drop_last() =~= Seq::<char>::empty());
            assert(b[0] == c);
            assert(number_of(Seq::<char>::empty()) == 0);
        }
    } else {
        assert(long[0] == short[0]);
        assert(short[0] == chars@[from as int]);
        assert(b =~= a.push(c));
        assert(b.drop_last() =~= a);
        assert(b[b.len() - 1] == c);
        if begins {
            assert(a =~= Seq::<char>::empty());
            assert(number_of(Seq::<char>::empty()) == 0);
        }
        assert((forall|i: int| 0 <= i < b.len() ==> is_digit(#[trigger] b[i])) <==> is_number && (
        forall|i: int| 0 <= i < a.len() ==> is_digit(#[trigger] a[i]))) by {
            if forall|i: int| 0 <= i < b.len() ==> is_digit(#[trigger] b[i]) {
                assert forall|i: int| 0 <= i < a.len() implies is_digit(#[trigger] a[i]) by {
                    assert(a[i] == b[i]);
                }
            }
            if is_number && (forall|i: int| 0 <= i < a.len() ==> is_digit(#[trigger] a[i])) {
                assert forall|i: int| 0 <= i < b.len() implies is_digit(#[trigger] b[i]) by {
                    if i < a.len() {
                        assert(b[i] == a[i]);
                    }
                }
            }
        }
    }
}

} // verus!
