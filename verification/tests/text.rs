use epd_photoframe_server::text::{
    chars_of, decimal_of, decimal_of_signed, is_white_space, parse_unsigned, split, string_of,
    strip_prefix, trim,
};

#[test]
fn white_space_is_the_unicode_property() {
    for n in 0..=0x10ffffu32 {
        if let Some(c) = char::from_u32(n) {
            assert_eq!(is_white_space(c), c.is_whitespace());
        }
    }
}

#[test]
fn numbers_are_written_and_read() {
    for n in [0u64, 7, 10, 99, 100, 12_345, u64::MAX] {
        let text = decimal_of(n);
        assert_eq!(text, n.to_string());
        assert_eq!(parse_unsigned(&chars_of(&text), u64::MAX), Some(n));
    }
    for n in [0i32, -1, 5, i32::MIN, i32::MAX] {
        assert_eq!(decimal_of_signed(n), n.to_string());
    }
}

#[test]
fn numbers_are_read_as_the_standard_library_does() {
    for text in [
        "", "+", "-", "0", "+0", "-0", "007", "255", "256", "+255", "++1", "1 ", " 1", "1_0",
        "18446744073709551615", "18446744073709551616", "99999999999999999999999", "\u{661}",
    ] {
        assert_eq!(parse_unsigned(&chars_of(text), 255), text.parse::<u8>().ok().map(u64::from));
        assert_eq!(parse_unsigned(&chars_of(text), u64::MAX), text.parse::<u64>().ok());
    }
}

#[test]
fn trimming_splitting_and_stripping() {
    for text in ["", " ", "\u{a0} a b \t", "a", ",", "a,b", ",a,,b,"] {
        let chars = chars_of(text);
        assert_eq!(string_of(trim(&chars)), text.trim());
        let pieces: Vec<String> = split(&chars, ',').iter().map(|p| string_of(p)).collect();
        assert_eq!(pieces, text.split(',').map(str::to_string).collect::<Vec<_>>());
    }
    assert_eq!(strip_prefix(&chars_of("rgba(1)"), "rgb").map(string_of).as_deref(), Some("a(1)"));
    assert!(strip_prefix(&chars_of("rg"), "rgb").is_none());
}
