use cachybridge::text::{
    decimal_text, eq_ignoring_case, parse_truth, parse_unsigned, push_numeral, same_text,
    split_at_each, split_lines, to_chars, to_text, trim_chars, utf8_bytes, utf8_len,
};

#[test]
fn characters_are_encoded_as_the_standard_library_does() {
    for text in ["", "plain", "caf\u{e9}", "\u{20ac}\u{1f600}\u{7ff}\u{800}\u{ffff}"] {
        assert_eq!(utf8_bytes(text), text.as_bytes().to_vec());
        assert_eq!(utf8_len(text), text.len());
        assert_eq!(to_text(&to_chars(text)), text);
    }
}

#[test]
fn lines_and_pieces_fall_apart_as_the_standard_library_says() {
    for text in ["", "a", "a\n", "a\r\nb\n\nc", "\n", "a\rb\n", "a\r"] {
        let expected: Vec<String> = text.lines().map(|line| line.to_owned()).collect();
        let found: Vec<String> =
            split_lines(&to_chars(text)).iter().map(|line| to_text(line)).collect();
        assert_eq!(found, expected);
    }
    for text in ["", ";", "a;b", ";a;;b;"] {
        let expected: Vec<String> = text.split(';').map(|piece| piece.to_owned()).collect();
        let found: Vec<String> =
            split_at_each(&to_chars(text), ';').iter().map(|piece| to_text(piece)).collect();
        assert_eq!(found, expected);
    }
    for text in ["", "  ", " a b\t", "\u{a0}x\u{3000}", "\u{85}y\u{2028}", "\u{200b}z"] {
        assert_eq!(to_text(&trim_chars(&to_chars(text))), text.trim());
    }
}

#[test]
fn numbers_are_read_and_written() {
    assert_eq!(decimal_text(u64::MAX), u64::MAX.to_string());
    for n in [0, 1, 9, 10, 45_231, 999_999_999_999] {
        assert_eq!(decimal_text(n), n.to_string());
        assert_eq!(parse_unsigned(&to_chars(&n.to_string()), 999_999_999_999), Some(n));
    }
    for text in ["", "+", "+7", "-1", "007", "65535", "65536", "1a"] {
        let expected = text.parse::<u16>().ok().map(|n| n as u64);
        assert_eq!(parse_unsigned(&to_chars(text), 65_535), expected, "{text}");
    }
    let mut hexadecimal = String::new();
    push_numeral(&mut hexadecimal, 0xfe80, 16);
    assert_eq!(hexadecimal, "fe80");
    assert_eq!(parse_truth(&to_chars("true")), Some(true));
    assert_eq!(parse_truth(&to_chars("false")), Some(false));
    assert_eq!(parse_truth(&to_chars("yes")), None);
}

#[test]
fn comparisons_agree_with_the_standard_library() {
    for (a, b) in [("", ""), ("a", "A"), ("\u{e9}", "\u{c9}"), ("ab", "abc"), ("x-1", "X-1")] {
        assert_eq!(same_text(a, b), a == b);
        assert_eq!(eq_ignoring_case(a, b), a.eq_ignore_ascii_case(b));
    }
}
