use cloud_torrent::order::{sort_by_rank, stands_before};
use cloud_torrent::text::{
    belongs, decimal_of, ends_with, has_text, joined, lowered, nonempty_lines, signed_decimal_of,
    starts_with, strip_prefix, trimmed, white_space, CharClass,
};

#[test]
fn white_space_is_that_of_unicode() {
    for code in 0..=0x10ffffu32 {
        if let Some(c) = char::from_u32(code) {
            assert_eq!(white_space(c), c.is_whitespace(), "{:x}", code);
        }
    }
}

#[test]
fn texts_are_taken_apart() {
    assert_eq!(trimmed("\u{3000} a b \n"), "a b");
    assert!(starts_with("abc", "ab") && !starts_with("a", "ab"));
    assert!(ends_with("abc", "bc") && !ends_with("c", "bc"));
    assert_eq!(strip_prefix("abc", "ab").as_deref(), Some("c"));
    assert_eq!(strip_prefix("abc", "b"), None);
    assert!(has_text("abc", "b") && has_text("abc", "") && !has_text("abc", "d"));
    assert_eq!(lowered("AbÄ"), "abÄ");
    assert_eq!(nonempty_lines(" a\r\n\n b \n"), vec!["a".to_string(), "b".to_string()]);
    assert_eq!(joined(&vec!["a".to_string(), "b".to_string()], ", "), "a, b");
    assert!(belongs(CharClass::Slash, '/') && !belongs(CharClass::Zero, 'o'));
}

#[test]
fn numbers_are_written() {
    assert_eq!(decimal_of(0), "0");
    assert_eq!(decimal_of(u64::MAX), "18446744073709551615");
    assert_eq!(signed_decimal_of(-120), "-120");
    assert_eq!(signed_decimal_of(i64::MIN), "-9223372036854775808");
}

#[test]
fn texts_are_ordered_as_strings_are() {
    let texts = ["", "a", "ab", "b", "Z", "\u{e000}", "\u{10000}", "é"];
    for a in texts {
        for b in texts {
            assert_eq!(stands_before(a, b), a < b);
        }
    }
    let mut plain: Vec<String> = texts.iter().map(|t| t.to_string()).collect();
    let sorted = sort_by_rank(plain.clone());
    plain.sort();
    assert_eq!(sorted, plain);
}
