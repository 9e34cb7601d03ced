use jesschess::text::{
    chars_of, digit_of, digit_str, find_fields, find_parts, is_space_char, push_decimal, read_u32,
};

fn decimal_of(n: u64) -> String {
    let mut out = String::new();
    push_decimal(&mut out, n);
    out
}

fn pieces(text: &str, ranges: &[(usize, usize)]) -> Vec<String> {
    let chars: Vec<char> = text.chars().collect();
    ranges.iter().map(|&(a, b)| chars[a..b].iter().collect()).collect()
}

fn number(text: &str) -> Option<u32> {
    let chars = chars_of(text);
    read_u32(&chars, 0, chars.len())
}

#[test]
fn decimal_numerals() {
    assert_eq!(decimal_of(0), "0");
    assert_eq!(decimal_of(7), "7");
    assert_eq!(decimal_of(10), "10");
    assert_eq!(decimal_of(109), "109");
    assert_eq!(decimal_of(4294967295), "4294967295");
    assert_eq!(decimal_of(u64::MAX), "18446744073709551615");
}

#[test]
fn push_decimal_appends() {
    let mut out = String::from("n = ");
    push_decimal(&mut out, 42);
    assert_eq!(out, "n = 42");
}

#[test]
fn decimal_numerals_agree_with_std() {
    for n in (0..5000u64).chain([99_999, 100_000, 1 << 32, u64::MAX - 1]) {
        assert_eq!(decimal_of(n), n.to_string());
    }
}

#[test]
fn digit_texts() {
    for d in 0..10u64 {
        assert_eq!(digit_str(d), d.to_string());
    }
}

#[test]
fn digits_have_their_values() {
    for (value, c) in "0123456789".chars().enumerate() {
        assert_eq!(digit_of(c), Some(value as u8));
    }
    for c in ['a', '/', ':', ' ', '+', '-', '\u{661}', '\u{ff11}'] {
        assert_eq!(digit_of(c), None);
    }
}

#[test]
fn spaces_are_the_white_space_characters() {
    for code in 0..=0x10FFFFu32 {
        if let Some(c) = char::from_u32(code) {
            assert_eq!(is_space_char(c), c.is_whitespace(), "U+{code:04X}");
        }
    }
}

#[test]
fn chars_of_keeps_every_character() {
    assert_eq!(chars_of(""), Vec::<char>::new());
    assert_eq!(chars_of("a b"), vec!['a', ' ', 'b']);
    assert_eq!(chars_of("\u{e9}\u{3000}z"), vec!['\u{e9}', '\u{3000}', 'z']);
}

#[test]
fn fields_are_the_runs_between_spaces() {
    for text in [
        "",
        " ",
        "a",
        "a b",
        "  a   b  ",
        "\ta\nb\r\nc",
        "one two  three\u{3000}four",
        "8/8 w - - 0 1",
        "\u{e9}t\u{e9} \u{a0} x",
        "trailing ",
        " leading",
    ] {
        let expected: Vec<String> = text.split_whitespace().map(String::from).collect();
        assert_eq!(pieces(text, &find_fields(&chars_of(text))), expected, "{text:?}");
    }
}

#[test]
fn fields_of_a_plain_line() {
    let text = "ab  cd e";
    assert_eq!(find_fields(&chars_of(text)), vec![(0, 2), (4, 6), (7, 8)]);
}

#[test]
fn parts_are_cut_at_each_separator() {
    for text in ["", "/", "a", "a/b", "a//b", "/a/", "8/8/8/8/8/8/8/8", "rnbq/pp/3"] {
        let chars = chars_of(text);
        let expected: Vec<String> = text.split('/').map(String::from).collect();
        assert_eq!(pieces(text, &find_parts(&chars, 0, chars.len(), '/')), expected, "{text:?}");
    }
}

#[test]
fn parts_of_a_range_only() {
    let chars = chars_of("xx a/b/c yy");
    assert_eq!(find_parts(&chars, 3, 8, '/'), vec![(3, 4), (5, 6), (7, 8)]);
    assert_eq!(find_parts(&chars, 3, 3, '/'), vec![(3, 3)]);
}

#[test]
fn numbers_are_read() {
    assert_eq!(number("0"), Some(0));
    assert_eq!(number("1"), Some(1));
    assert_eq!(number("42"), Some(42));
    assert_eq!(number("007"), Some(7));
    assert_eq!(number("+5"), Some(5));
    assert_eq!(number("4294967295"), Some(u32::MAX));
    assert_eq!(number("0000000000004294967295"), Some(u32::MAX));
}

#[test]
fn malformed_numbers_are_refused() {
    for text in ["", "+", "-", "-1", "1.5", "x", "1x", " 1", "1 ", "++1", "4294967296", "99999999999999999999999"] {
        assert_eq!(number(text), None, "{text:?}");
    }
}

#[test]
fn numbers_agree_with_std() {
    for text in [
        "", "+", "-0", "0", "+0", "12", "+12", "1+2", "4294967295", "4294967296", "42949672950",
        "00", "0x10", "1e3", "\u{661}", "\u{661}\u{662}", "9", "+4294967295", "+4294967296",
    ] {
        assert_eq!(number(text), text.parse::<u32>().ok(), "{text:?}");
    }
}

#[test]
fn numbers_are_read_from_a_range() {
    let chars = chars_of("ab 123 cd");
    assert_eq!(read_u32(&chars, 3, 6), Some(123));
    assert_eq!(read_u32(&chars, 3, 5), Some(12));
    assert_eq!(read_u32(&chars, 2, 6), None);
    assert_eq!(read_u32(&chars, 4, 4), None);
}

#[test]
fn a_numeral_reads_back_as_its_number() {
    for n in [0u32, 1, 9, 10, 99, 100, 65535, 65536, 999_999_999, 1_000_000_000, u32::MAX] {
        assert_eq!(number(&decimal_of(n as u64)), Some(n));
    }
}
