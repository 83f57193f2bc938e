use grad::text::{chars_of, trim_bounds, utf8_of, whitespace};

#[test]
fn white_space_is_that_of_std() {
    for code in 0..=0x10ffffu32 {
        if let Some(c) = char::from_u32(code) {
            assert_eq!(whitespace(c), c.is_whitespace(), "{:x}", code);
        }
    }
}

#[test]
fn characters_of_a_text_are_its_characters() {
    assert_eq!(chars_of(""), Vec::<char>::new());
    assert_eq!(chars_of("a€𝄞z"), vec!['a', '€', '𝄞', 'z']);
}

#[test]
fn characters_are_encoded_as_utf8() {
    assert_eq!(utf8_of(&[]), Vec::<u8>::new());
    assert_eq!(utf8_of(&['a', 'ß', '€', '𝄞']), "aß€𝄞".as_bytes().to_vec());
}

#[test]
fn trimming_is_that_of_std() {
    for text in ["", " ", "a", " a", "a ", "  a b  ", "\t\n a\u{a0}\u{2003} ", "\u{3000}", "\u{200b}a\u{200b}", " \u{85}x\u{1680}\u{2028}"] {
        let chars: Vec<char> = text.chars().collect();
        let (start, end) = trim_bounds(&chars);
        let kept: String = chars[start..end].iter().collect();

        assert_eq!(kept, text.trim(), "{:?}", text);
    }
}
