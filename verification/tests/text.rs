use dsh_desktop::text::{
    chars_of, first_word_from, same_text, stands_at, trim_trailing_space,
};

/// The ranges of characters with the Unicode `White_Space` property.
const WHITE_SPACE: [(u32, u32); 10] = [
    (0x9, 0xd),
    (0x20, 0x20),
    (0x85, 0x85),
    (0xa0, 0xa0),
    (0x1680, 0x1680),
    (0x2000, 0x200a),
    (0x2028, 0x2029),
    (0x202f, 0x202f),
    (0x205f, 0x205f),
    (0x3000, 0x3000),
];

#[test]
fn white_space_is_what_unicode_says() {
    for n in 0..=0x10ffffu32 {
        if let Some(c) = char::from_u32(n) {
            let listed = WHITE_SPACE.iter().any(|(from, to)| *from <= n && n <= *to);
            let s = format!("x{}", c);
            let trimmed = trim_trailing_space(&s);
            assert_eq!(trimmed == "x", listed, "{:x}", n);
        }
    }
}

#[test]
fn trims_agree_with_std() {
    for s in ["", " ", "a", " a ", "a b\n\n", "a\u{2003}", "a\u{200b}", "\u{a0}é\u{85}"] {
        assert_eq!(trim_trailing_space(s), s.trim_end());
    }
}

#[test]
fn words_start_behind_the_given_characters() {
    assert_eq!(first_word_from("é a b", 1), "a");
    assert_eq!(first_word_from("é a b", 0), "é");
    assert_eq!(first_word_from("é a b", 3), "b");
    assert_eq!(first_word_from("é a b", 5), "");
    assert_eq!(first_word_from("", 0), "");
}

#[test]
fn texts_and_characters() {
    assert_eq!(chars_of("é越a"), vec!['é', '越', 'a']);
    assert!(same_text("é越", "é越"));
    assert!(!same_text("é越", "é"));
    assert!(!same_text("ab", "ac"));
    assert!(same_text("", ""));
    assert!(stands_at(&chars_of("abc"), &chars_of("bc"), 1));
    assert!(!stands_at(&chars_of("abc"), &chars_of("bc"), 2));
    assert!(stands_at(&chars_of("abc"), &chars_of(""), 3));
}
