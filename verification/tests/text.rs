use flashcards::text::{blank, chars_of, is_space, trim, trim_owned};

#[test]
fn whitespace_is_what_char_is_whitespace_says() {
    for c in (0u32..=0x10FFFF).filter_map(char::from_u32) {
        assert_eq!(is_space(c), c.is_whitespace(), "char {:?}", c);
    }
}

#[test]
fn trimming_agrees_with_str_trim() {
    let samples = [
        "", " ", "x", " x ", "\t\n x y \r\n", "\u{3000}水\u{a0}", "\u{85}a\u{2028}", "  a  b  ",
        "\u{200b}a\u{200b}", "\u{180e}a",
    ];
    for s in samples {
        assert_eq!(trim(s), s.trim(), "{:?}", s);
        assert_eq!(trim_owned(s), s.trim(), "{:?}", s);
        assert_eq!(blank(s), s.trim().is_empty(), "{:?}", s);
        assert_eq!(chars_of(s), s.chars().collect::<Vec<_>>());
    }
}
