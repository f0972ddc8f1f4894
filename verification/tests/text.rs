use ty_resolver::text::{
    begins_with_chars, chars_of, contains_text, decimal_of, parse_usize, string_of, trim_chars,
    white_space,
};

fn parsed(text: &str) -> Option<usize> {
    parse_usize(&chars_of(text))
}

#[test]
fn parts_of_a_text_are_found() {
    assert!(contains_text("one two three", "two"));
    assert!(contains_text("one two three", "one"));
    assert!(contains_text("one two three", "three"));
    assert!(contains_text("aab", "ab"));
    assert!(contains_text("x", ""));
    assert!(contains_text("", ""));
    assert!(!contains_text("", "x"));
    assert!(!contains_text("one two", "owt"));
    assert!(!contains_text("tw", "two"));
}

#[test]
fn prefixes_are_compared_character_by_character() {
    assert!(begins_with_chars(&chars_of("file:///x"), "file://"));
    assert!(!begins_with_chars(&chars_of("file:/"), "file://"));
    assert!(!begins_with_chars(&chars_of("xfile://"), "file://"));
}

#[test]
fn characters_make_up_a_string_again() {
    let chars = chars_of("aé😀");
    assert_eq!(chars, vec!['a', 'é', '😀']);
    assert_eq!(string_of(&chars), "aé😀");
}

#[test]
fn white_space_is_trimmed_at_both_ends() {
    assert_eq!(trim_chars(&chars_of(" \t a b\u{3000}\r\n")), ['a', ' ', 'b']);
    assert!(trim_chars(&chars_of(" \u{a0} ")).is_empty());
    assert!(trim_chars(&[]).is_empty());
}

#[test]
fn white_space_is_that_of_unicode() {
    for code in 0..0x11_0000_u32 {
        if let Some(c) = char::from_u32(code) {
            assert_eq!(white_space(c), c.is_whitespace(), "{code:x}");
        }
    }
}

#[test]
fn numbers_are_read_as_std_reads_them() {
    for text in [
        "0", "7", "007", "123", "+5", "+", "", "++5", "-5", "-0", "1_000", " 1", "1 ", "12a", "٣",
        "18446744073709551615", "18446744073709551616", "99999999999999999999999",
    ] {
        assert_eq!(parsed(text), text.parse::<usize>().ok(), "{text}");
    }
}

#[test]
fn numbers_are_written_in_base_ten() {
    for number in [0, 9, 10, 99, 100, 12345, usize::MAX] {
        assert_eq!(decimal_of(number), number.to_string());
        assert_eq!(parsed(&decimal_of(number)), Some(number));
    }
}
