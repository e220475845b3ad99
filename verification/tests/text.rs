use caddyup::text::{
    chars_of, find_str, first_word_chars, has_word_chars, pad_end, parse_u32_chars, push_decimal,
    string_of, trim_chars, trim_end_char_chars,
};

fn v(s: &str) -> Vec<char> {
    s.chars().collect()
}

#[test]
fn trims_unicode_whitespace() {
    assert_eq!(trim_chars(&v("\u{3000} a b\t\r\n")), v("a b"));
    assert_eq!(trim_chars(&v("   ")), v(""));
    assert_eq!(trim_end_char_chars(&v("x{{{"), '{'), v("x"));
}

#[test]
fn words_and_search() {
    assert!(has_word_chars(&v("zstd gzip"), "gzip"));
    assert!(!has_word_chars(&v("zstdgzip"), "gzip"));
    assert!(!has_word_chars(&v("gzip2"), "gzip"));
    assert_eq!(first_word_chars(&v("  ab cd")), Some(v("ab")));
    assert_eq!(first_word_chars(&v("   ")), None);
    assert_eq!(find_str(&v("abcabc"), "ca", 0), Some(2));
    assert_eq!(find_str(&v("abcabc"), "ab", 1), Some(3));
    assert_eq!(find_str(&v("abc"), "x", 0), None);
}

#[test]
fn numbers_read_like_u32_from_str() {
    assert_eq!(parse_u32_chars(&v("0")), Some(0));
    assert_eq!(parse_u32_chars(&v("+17")), Some(17));
    assert_eq!(parse_u32_chars(&v("4294967295")), Some(4294967295));
    assert_eq!(parse_u32_chars(&v("4294967296")), None);
    assert_eq!(parse_u32_chars(&v("")), None);
    assert_eq!(parse_u32_chars(&v("+")), None);
    assert_eq!(parse_u32_chars(&v("-1")), None);
    assert_eq!(parse_u32_chars(&v(" 1")), None);
    for n in [0u32, 7, 10, 99, 12345, u32::MAX] {
        let mut s = String::new();
        push_decimal(&mut s, n);
        assert_eq!(s, n.to_string());
        assert_eq!(parse_u32_chars(&chars_of(&s)), Some(n));
    }
}

#[test]
fn strings_from_characters() {
    assert_eq!(string_of(&v("héllo"), 1, 4), "éll");
}

#[test]
fn pads_to_width_in_characters() {
    assert_eq!(pad_end("ab", 5), "ab   ");
    assert_eq!(pad_end("abcdef", 3), "abcdef");
    assert_eq!(pad_end("é", 3), "é  ");
    assert_eq!(pad_end("", 0), "");
}
