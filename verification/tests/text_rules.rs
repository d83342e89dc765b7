use dshd::text::{
    chars_of, decimal_chars, find_chars, i32_text, index_of, is_whitespace, parse_u32, parse_u64,
    split_chars, string_of, trimmed, zero_padded_chars,
};

fn chars(s: &str) -> Vec<char> {
    s.chars().collect()
}

#[test]
fn whitespace_is_what_the_standard_library_says() {
    for code in 0u32..=0x10FFFF {
        if let Some(c) = char::from_u32(code) {
            assert_eq!(is_whitespace(c), c.is_whitespace(), "U+{code:04X}");
        }
    }
}

#[test]
fn trims_like_str_trim() {
    for s in ["", "  ", "abc", "  abc\n", "\u{3000}0.1.1\u{85}", "a b", "\t\r\nx\u{2029}", "\u{a0}"] {
        assert_eq!(trimmed(s), s.trim(), "{s:?}");
    }
}

#[test]
fn parses_numbers_like_str_parse() {
    for s in [
        "0", "42", "+7", "+", "-1", "", "007", "1a", " 1", "4294967295", "4294967296",
        "18446744073709551615", "18446744073709551616", "99999999999999999999999",
    ] {
        assert_eq!(parse_u64(&chars(s)), s.parse::<u64>().ok(), "{s:?}");
        assert_eq!(parse_u32(&chars(s)), s.parse::<u32>().ok(), "{s:?}");
    }
}

#[test]
fn writes_numbers_like_to_string() {
    for n in [0u64, 7, 10, 86_399, u64::MAX] {
        assert_eq!(string_of(&decimal_chars(n)), n.to_string());
    }
    for n in [0i32, 1, -1, 255, i32::MAX, i32::MIN] {
        assert_eq!(i32_text(n), n.to_string());
    }
    assert_eq!(string_of(&zero_padded_chars(7, 2)), "07");
    assert_eq!(string_of(&zero_padded_chars(123, 2)), "123");
    assert_eq!(string_of(&zero_padded_chars(0, 4)), "0000");
}

#[test]
fn splits_like_str_split() {
    for s in ["", ".", "a.b", "rc.10", "1..2", ".x."] {
        let got: Vec<String> = split_chars(&chars(s), '.').iter().map(|p| string_of(p)).collect();
        let want: Vec<String> = s.split('.').map(|p| p.to_string()).collect();
        assert_eq!(got, want, "{s:?}");
    }
}

#[test]
fn finds_like_str_find() {
    let hay = "dsh web: http://127.0.0.1:5/ and https://x";
    let h = chars(hay);
    assert_eq!(find_chars(&h, &chars("http://"), 0), hay.find("http://"));
    assert_eq!(find_chars(&h, &chars("https://"), 0), hay.find("https://"));
    assert_eq!(find_chars(&h, &chars("ftp://"), 0), None);
    assert_eq!(index_of(&h, ':', 0), hay.find(':'));
    assert_eq!(index_of(&h, '#', 0), None);
    assert_eq!(string_of(&chars_of("héllo")), "héllo");
}
