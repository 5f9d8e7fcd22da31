use bluevein::text::{
    alphanumerics, ascii_uppercase, char_ascii_upper, char_is_alphanumeric, char_is_hex_digit, char_is_whitespace,
    contains_char, decimal_string, find_char, from_chars, lines, owned, parse_number,
    to_chars, trim,
};

fn chars(s: &str) -> Vec<char> {
    s.chars().collect()
}

#[test]
fn characters_go_in_and_out_unchanged() {
    let text = "a\u{e9}\u{1F600}\n";
    assert_eq!(to_chars(text), chars(text));
    assert_eq!(from_chars(&chars(text), 0, 4), text);
    assert_eq!(from_chars(&chars(text), 1, 3), "\u{e9}\u{1F600}");
    assert_eq!(from_chars(&chars(text), 2, 2), "");
    assert_eq!(owned(text), text);
}

#[test]
fn classes_agree_with_std() {
    for code in 0u32..0x3100 {
        if let Some(c) = char::from_u32(code) {
            assert_eq!(char_is_alphanumeric(c), c.is_alphanumeric(), "{:?}", c);
            assert_eq!(char_is_whitespace(c), c.is_whitespace(), "{:?}", c);
            assert_eq!(char_is_hex_digit(c), c.is_ascii_hexdigit(), "{:?}", c);
            assert_eq!(char_ascii_upper(c), c.to_ascii_uppercase(), "{:?}", c);
        }
    }
}

#[test]
fn decimal_spelling() {
    assert_eq!(decimal_string(0), "0");
    assert_eq!(decimal_string(9), "9");
    assert_eq!(decimal_string(10), "10");
    assert_eq!(decimal_string(4294967295), "4294967295");
    assert_eq!(decimal_string(u64::MAX), "18446744073709551615");
}

#[test]
fn numbers_read_as_std_reads_them() {
    for text in ["0", "7", "+7", "255", "256", "", "+", "-", "-1", "++1", "1+", " 1", "1 ", "0x1", "00000000000000000000255", "99999999999999999999999", "1_0", "\u{661}"] {
        assert_eq!(parse_number(&chars(text), 255).map(|n| n as u8), text.parse::<u8>().ok(), "{:?}", text);
        assert_eq!(parse_number(&chars(text), 65535).map(|n| n as u16), text.parse::<u16>().ok(), "{:?}", text);
        assert_eq!(parse_number(&chars(text), u64::MAX), text.parse::<u64>().ok(), "{:?}", text);
    }
    assert_eq!(parse_number(&chars("18446744073709551615"), u64::MAX), Some(u64::MAX));
    assert_eq!(parse_number(&chars("18446744073709551616"), u64::MAX), None);
    assert_eq!(parse_number(&chars("5"), 4), None);
    assert_eq!(parse_number(&chars("4"), 4), Some(4));
}

#[test]
fn trimming_as_std_trims() {
    for text in ["", " ", "a", " a ", "\t\r\na b\u{b}\u{c} ", "\u{a0}x\u{3000}", "  \u{2003}", "x\u{200b}"] {
        let v = chars(text);
        assert_eq!(from_chars(&trim(&v, 0, v.len()), 0, trim(&v, 0, v.len()).len()), text.trim(), "{:?}", text);
    }
    let v = chars("ab  cd  ");
    assert_eq!(trim(&v, 2, 7), chars("cd"));
    assert_eq!(trim(&v, 2, 4), chars(""));
    assert_eq!(trim(&v, 3, 3), chars(""));
}

#[test]
fn lines_are_the_pieces_between_line_feeds() {
    let split = |s: &str| -> Vec<String> {
        lines(&chars(s)).iter().map(|l| l.iter().collect()).collect()
    };
    assert_eq!(split(""), vec![""]);
    assert_eq!(split("a"), vec!["a"]);
    assert_eq!(split("a\n"), vec!["a", ""]);
    assert_eq!(split("\n"), vec!["", ""]);
    assert_eq!(split("a\r\nb\n\nc"), vec!["a\r", "b", "", "c"]);
}

#[test]
fn searching_and_comparing() {
    assert_eq!(find_char(&chars("a=b=c"), '='), 1);
    assert_eq!(find_char(&chars("abc"), '='), 3);
    assert_eq!(find_char(&chars(""), '='), 0);
    assert!(contains_char(&chars("a:b"), ':'));
    assert!(!contains_char(&chars("ab"), ':'));
    assert_eq!(alphanumerics(&chars("a-b c\u{e9}\u{2014}1")), chars("abc\u{e9}1"));
}

#[test]
fn capitals_for_ascii_letters_only() {
    assert_eq!(ascii_uppercase("0123456789abcdefxyz"), "0123456789ABCDEFXYZ");
    assert_eq!(ascii_uppercase("a\u{e9}\u{df}Z-"), "A\u{e9}\u{df}Z-");
    assert_eq!(ascii_uppercase(""), "");
}

#[test]
fn blank_characters_are_the_white_space_list() {
    let listed = |n: u32| {
        (0x09..=0x0D).contains(&n)
            || n == 0x20
            || n == 0x85
            || n == 0xA0
            || n == 0x1680
            || (0x2000..=0x200A).contains(&n)
            || n == 0x2028
            || n == 0x2029
            || n == 0x202F
            || n == 0x205F
            || n == 0x3000
    };
    let mut count = 0;
    for code in 0u32..=0x10FFFF {
        if let Some(c) = char::from_u32(code) {
            assert_eq!(char_is_whitespace(c), listed(code), "{:#x}", code);
            assert_eq!(c.is_whitespace(), listed(code), "{:#x}", code);
            if listed(code) {
                count += 1;
            }
        }
    }
    assert_eq!(count, 25);
}
