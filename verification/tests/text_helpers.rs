use mkvlabel::text::{
    chars_of, collapse_whitespace, concat_strings, find_chars_from, is_whitespace, join_strings,
    parse_u64, push_decimal, push_decimal2, slice_chars, split_second_piece, str_eq, str_lt,
    string_from, trim_chars, truncate_chars, utf8_longer_than_two,
};

fn s(v: &Vec<char>) -> String {
    string_from(v)
}

#[test]
fn whitespace_agrees_with_char_is_whitespace() {
    for code in 0u32..0x3100 {
        if let Some(c) = char::from_u32(code) {
            assert_eq!(is_whitespace(c), c.is_whitespace(), "code point {code:#x}");
        }
    }
    for c in ['\u{feff}', '\u{200b}', 'a', '\u{10ffff}'] {
        assert_eq!(is_whitespace(c), c.is_whitespace());
    }
}

#[test]
fn trim_matches_str_trim() {
    for text in ["  a b  ", "\t\nx\u{3000}", "", "   ", "no-trim", "\u{a0}é\u{a0}"] {
        assert_eq!(s(&trim_chars(&chars_of(text))), text.trim());
    }
}

#[test]
fn collapse_matches_split_whitespace_join() {
    for text in ["  Hello   world \t again ", "", "   ", "one", "a\u{2003}b\n\nc"] {
        let expected = text.split_whitespace().collect::<Vec<_>>().join(" ");
        assert_eq!(s(&collapse_whitespace(&chars_of(text))), expected);
    }
}

#[test]
fn parse_u64_matches_std() {
    let cases = [
        "0", "42", "+7", "", "+", "-1", "12a", " 1", "18446744073709551615",
        "18446744073709551616", "00012", "++1", "1.5",
    ];
    for text in cases {
        assert_eq!(parse_u64(text), text.parse::<u64>().ok(), "input {text:?}");
    }
}

#[test]
fn string_order_matches_str_order() {
    let words = ["", "a", "ab", "b", "B", "é", "z", "aa", "a\u{10000}", "a\u{ffff}"];
    for x in words {
        for y in words {
            assert_eq!(str_lt(x, y), x < y, "{x:?} < {y:?}");
            assert_eq!(str_eq(x, y), x == y);
        }
    }
}

#[test]
fn decimals_and_padding() {
    let mut v = Vec::new();
    push_decimal(&mut v, 0);
    v.push(' ');
    push_decimal(&mut v, 1234567890);
    v.push(' ');
    push_decimal2(&mut v, 7);
    v.push(' ');
    push_decimal2(&mut v, 123);
    v.push(' ');
    push_decimal(&mut v, u64::MAX);
    assert_eq!(s(&v), format!("0 1234567890 07 123 {}", u64::MAX));
}

#[test]
fn truncation_keeps_first_characters() {
    let mut v = chars_of("héllo");
    truncate_chars(&mut v, 2);
    assert_eq!(s(&v), "hé");
    let mut w = chars_of("ab");
    truncate_chars(&mut w, 10);
    assert_eq!(s(&w), "ab");
}

#[test]
fn concatenation_and_join() {
    let parts = vec!["a".to_string(), "".to_string(), "bc".to_string()];
    assert_eq!(s(&concat_strings(&parts)), "abc");
    assert_eq!(s(&join_strings(&parts, ", ")), "a, , bc");
    assert_eq!(s(&join_strings(&Vec::new(), "-")), "");
}

#[test]
fn finding_and_splitting() {
    let hay = chars_of("film.php?compid=123&compid=9");
    let pat = chars_of("compid=");
    assert_eq!(find_chars_from(&hay, &pat, 0), Some(9));
    assert_eq!(find_chars_from(&hay, &pat, 10), Some(20));
    assert_eq!(find_chars_from(&hay, &pat, 21), None);
    assert_eq!(s(&slice_chars(&hay, 0, 4)), "film");
    let second = split_second_piece(&hay, &pat).unwrap();
    assert_eq!(s(&second), "123&");
    let expected = "film.php?compid=123&compid=9".split("compid=").nth(1).unwrap();
    assert_eq!(s(&second), expected);
    assert!(split_second_piece(&chars_of("nothing"), &pat).is_none());
    let tail = split_second_piece(&chars_of("compid=55"), &pat).unwrap();
    assert_eq!(s(&tail), "55");
}

#[test]
fn utf8_length_test() {
    for text in ["", "ab", "abc", "é", "éa", "\u{20ac}", "\u{1f600}"] {
        assert_eq!(utf8_longer_than_two(text), text.len() > 2, "{text:?}");
    }
}
