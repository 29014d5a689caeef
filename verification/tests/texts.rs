use llmman::text::{
    contains, decimal_of, ends_with, eq_ignore_ascii_case, hex_padded_of, join, pad_right,
    split_once, starts_with, strip_prefix, strip_suffix, trim, trim_end_char, trim_line_end,
    trim_start_matches, utf8_text,
};

#[test]
fn bytes_are_texts_only_where_they_are_utf8() {
    assert_eq!(utf8_text("é☃".as_bytes()), Some("é☃".to_string()));
    assert_eq!(utf8_text(b""), Some(String::new()));
    assert_eq!(utf8_text(b"a\xff"), None);
    assert_eq!(utf8_text("é".as_bytes().split_at(1).0), None);
    assert_eq!(utf8_text("\u{fffd}".as_bytes()), Some("\u{fffd}".to_string()));
}

#[test]
fn texts_agree_with_the_standard_library() {
    for s in ["", " a b ", "\u{2003}x\u{85}", "\"\"\"x\"\"\"", "a:b:c", "ab\r\n\n", "\u{feff}x"] {
        assert_eq!(trim(s), s.trim());
        assert_eq!(trim_end_char(s, '\n'), s.trim_end_matches('\n'));
        assert_eq!(trim_line_end(s), s.trim_end_matches(['\n', '\r']));
        assert_eq!(split_once(s, ':'), s.split_once(':'));
        assert_eq!(strip_prefix(s, "a"), s.strip_prefix("a"));
        assert_eq!(strip_suffix(s, "\"\"\""), s.strip_suffix("\"\"\""));
        assert_eq!(starts_with(s, "\"\"\""), s.starts_with("\"\"\""));
        assert_eq!(ends_with(s, "\n"), s.ends_with("\n"));
        assert_eq!(contains(s, "b:"), s.contains("b:"));
        assert_eq!(trim_start_matches(s, "\"\"\""), s.trim_start_matches("\"\"\""));
        assert_eq!(pad_right(s, 5), format!("{s:<5}"));
    }
}

#[test]
fn every_white_space_character_is_known() {
    for c in (0..=0x10ffffu32).filter_map(char::from_u32) {
        assert_eq!(llmman::text::is_whitespace(c), c.is_whitespace(), "{c:?}");
    }
}

#[test]
fn numbers_are_written_out() {
    for n in [0, 9, 10, 1_234_567_890, u64::MAX] {
        assert_eq!(decimal_of(n), n.to_string());
    }
    assert_eq!(hex_padded_of(0xab, 4), "00ab");
    assert!(eq_ignore_ascii_case("LoCal", "lOcAL"));
    assert!(!eq_ignore_ascii_case("É", "é"));
    assert_eq!(join(&vec!["a".to_string(), "b".to_string()], ", "), "a, b");
    assert_eq!(join(&vec![], ", "), "");
}
