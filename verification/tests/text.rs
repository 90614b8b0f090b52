use gitrs::text::{
    char_is_whitespace, parse_u32, parse_u64, split_whitespace, str_eq, string_from_chars,
    u64_to_decimal,
};

#[test]
fn parse_numbers_like_from_str() {
    for s in ["0", "7", "+7", "007", "4294967295", "4294967296", "", "+", "-1", "1a", " 1", "18446744073709551615", "18446744073709551616", "99999999999999999999999"] {
        assert_eq!(parse_u64(s), s.parse::<u64>().ok(), "u64 {s:?}");
        assert_eq!(parse_u32(s), s.parse::<u32>().ok(), "u32 {s:?}");
    }
}

#[test]
fn decimal_numerals() {
    for n in [0u64, 9, 10, 99, 100, 12345, u64::MAX] {
        assert_eq!(u64_to_decimal(n), n.to_string());
        assert_eq!(parse_u64(&u64_to_decimal(n)), Some(n));
    }
}

#[test]
fn whitespace_words() {
    let s = " ref:\t a/b  c\u{3000}d\n";
    let words: Vec<String> = split_whitespace(s).iter().map(|w| w.iter().collect()).collect();
    let expected: Vec<String> = s.split_whitespace().map(|w| w.to_string()).collect();
    assert_eq!(words, expected);
    for c in ['\t', '\n', ' ', '\u{85}', '\u{A0}', '\u{2000}', '\u{200A}', '\u{3000}', 'a', '\u{200B}', '-'] {
        assert_eq!(char_is_whitespace(c), c.is_whitespace(), "{c:?}");
    }
}

#[test]
fn strings_from_chars() {
    let cs: Vec<char> = "héllo wörld 🦀".chars().collect();
    assert_eq!(string_from_chars(&cs), "héllo wörld 🦀");
    assert!(str_eq("abc", "abc"));
    assert!(!str_eq("abc", "abd"));
    assert!(!str_eq("abc", "ab"));
}
