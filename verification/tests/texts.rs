use cntlm_next::number::{
    push_decimal, push_digits, push_signed, read_digit, read_digits, read_unsigned,
};
use cntlm_next::text::{
    chars_of, cut_at, ends_with, find_text, is_same_word, join, stripped_front, text_of, trimmed,
    words_of, Class,
};

#[test]
fn numbers_come_back_from_their_digits() {
    for radix in 2..17u64 {
        for n in [0, 1, 9, 10, 15, 16, 255, 65535, u64::MAX] {
            let mut out = String::new();
            push_digits(&mut out, n, radix);
            let digits = chars_of(&out);
            assert_eq!(read_digits(&digits, radix, u64::MAX), Some(n));
            assert_eq!(read_unsigned(&digits, radix, u64::MAX), Some(n));
        }
    }
    let mut out = String::new();
    push_digits(&mut out, 0xdead_beef, 16);
    assert_eq!(out, "deadbeef");
    push_decimal(&mut out, 42);
    push_signed(&mut out, -7);
    assert_eq!(out, "deadbeef42-7");
}

#[test]
fn numerals_come_back_from_their_numbers() {
    for text in ["0", "7", "10", "99", "18446744073709551615"] {
        let n = read_digits(&chars_of(text), 10, u64::MAX).unwrap();
        let mut out = String::new();
        push_decimal(&mut out, n);
        assert_eq!(out, text);
    }
}

#[test]
fn numerals_that_are_none() {
    let read = |s: &str| read_unsigned(&chars_of(s), 10, 100);
    assert_eq!(read(""), None);
    assert_eq!(read("+"), None);
    assert_eq!(read("-1"), None);
    assert_eq!(read("1 "), None);
    assert_eq!(read("101"), None);
    assert_eq!(read("99999999999999999999999"), None);
    assert_eq!(read("+0100"), Some(100));
    assert_eq!(read_digit('g', 16), None);
    assert_eq!(read_digit('F', 16), Some(15));
    assert_eq!(read_digit('8', 8), None);
}

#[test]
fn texts_are_cut_and_joined() {
    for text in ["", ",", "a", "a,b", ",a,,b,"] {
        let chars = chars_of(text);
        let parts: Vec<String> = cut_at(&chars, Class::One(','))
            .iter()
            .map(|p| text_of(p))
            .collect();
        let split: Vec<String> = text.split(',').map(|s| s.to_string()).collect();
        assert_eq!(parts, split);
        assert_eq!(join(&parts, ","), text);
    }
}

#[test]
fn texts_are_trimmed_as_usual() {
    for text in ["", "  ", "\u{a0}x\u{3000}", "\tx y\r\n", "\u{200b}x", "\u{85}\u{2028}x"] {
        assert_eq!(text_of(trimmed(&chars_of(text))), text.trim());
        let chars = chars_of(text);
        let words: Vec<String> = words_of(&chars).iter().map(|w| text_of(w)).collect();
        let split: Vec<String> = text.split_whitespace().map(|s| s.to_string()).collect();
        assert_eq!(words, split);
    }
    for n in 0..0x3100u32 {
        if let Some(c) = char::from_u32(n) {
            assert_eq!(Class::Space.test(c), c.is_whitespace());
        }
    }
}

#[test]
fn texts_are_searched() {
    let find = |s: &str, t: &str| find_text(&chars_of(s), &chars_of(t));
    assert_eq!(find("abcabc", "ca"), Some(2));
    assert_eq!(find("aab", "ab"), Some(1));
    assert_eq!(find("abc", ""), Some(0));
    assert_eq!(find("abc", "abcd"), None);
    assert!(ends_with(&chars_of("abc"), &chars_of("bc")));
    assert!(!ends_with(&chars_of("bc"), &chars_of("abc")));
    assert!(is_same_word("CONNECT", "connect"));
    assert!(!is_same_word("\u{c9}", "\u{e9}"));
    let twice = chars_of("xyxyz");
    assert_eq!(text_of(stripped_front(&twice, &chars_of("xy"))), "z");
}
