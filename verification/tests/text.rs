use audio_player::text::{chars_of, equal_ignoring_ascii_case, is_whitespace_char, push_decimal_signed, push_hex_padded, same_text, trimmed};

#[test]
fn trimming_removes_unicode_whitespace_at_both_ends() {
    assert_eq!(trimmed("\u{3000} a b \u{2028}\t"), "a b");
    assert_eq!(trimmed("   "), "");
    for s in ["x", " y ", "\u{a0}z", "ä ö\r\n"] {
        assert_eq!(trimmed(s), s.trim());
    }
}

#[test]
fn ascii_case_folding_matches_std() {
    for (a, b) in [("MP3", "mp3"), ("Ä", "ä"), ("abc", "abd"), ("a", "aa")] {
        assert_eq!(equal_ignoring_ascii_case(a, b), a.eq_ignore_ascii_case(b));
    }
    assert!(same_text("é", "é"));
    assert!(!same_text("e", "é"));
    assert_eq!(chars_of("añb"), vec!['a', 'ñ', 'b']);
}

#[test]
fn integers_render_like_format() {
    for n in [0i64, 7, -7, 10, 1234567, i64::MIN, i64::MAX] {
        let mut s = String::new();
        push_decimal_signed(&mut s, n);
        assert_eq!(s, format!("{n}"));
    }
    let mut s = String::new();
    push_hex_padded(&mut s, 0xabc, 16);
    assert_eq!(s, "0000000000000abc");
}

#[test]
fn whitespace_test_agrees_with_the_standard_library_on_every_char() {
    for u in 0u32..=0x10FFFF {
        if let Some(c) = char::from_u32(u) {
            assert_eq!(is_whitespace_char(c), c.is_whitespace(), "U+{u:04X}");
        }
    }
}
