use kirc_server::text::{
    same_text, split_at_colon, split_at_white_space, strip_leading_colons, trim,
};

#[test]
fn white_space_is_the_unicode_property() {
    for code in 0..=0x10ffffu32 {
        if let Some(c) = char::from_u32(code) {
            let white = matches!(
                code,
                0x9..=0xd
                    | 0x20
                    | 0x85
                    | 0xa0
                    | 0x1680
                    | 0x2000..=0x200a
                    | 0x2028
                    | 0x2029
                    | 0x202f
                    | 0x205f
                    | 0x3000
            );
            let mut buffer = [0u8; 4];
            let text: &str = c.encode_utf8(&mut buffer);

            assert_eq!(split_at_white_space(text).1.is_some(), white);
            assert_eq!(trim(text).is_empty(), white);
        }
    }
}

#[test]
fn ascii_letters_have_ascii_capitals() {
    for code in 0..128u8 {
        let text = (code as char).to_string();

        assert_eq!(text.to_uppercase(), text.to_ascii_uppercase());
    }
}

#[test]
fn splits_are_like_those_of_std() {
    for text in ["", " ", "a", "a b", " a", "a ", "a  b c", "\u{e9}\u{3000}\u{ac00}", "a:b", ":", "::a", "a:"] {
        let mut words = text.splitn(2, char::is_whitespace);
        let (word, rest) = split_at_white_space(text);
        assert_eq!(Some(word), words.next());
        assert_eq!(rest, words.next());

        let mut parts = text.splitn(2, ':');
        let (before, after) = split_at_colon(text);
        assert_eq!(Some(before), parts.next());
        assert_eq!(after, parts.next());

        assert_eq!(trim(text), text.trim());
        assert_eq!(strip_leading_colons(text), text.trim_start_matches(':'));
    }
}

#[test]
fn trims_both_ends() {
    assert_eq!(trim(" \t a b \r\n"), "a b");
    assert_eq!(trim("\u{a0}x"), "x");
    assert_eq!(trim("  "), "");
}

#[test]
fn same_text_compares_every_character() {
    assert!(same_text("", ""));
    assert!(same_text("\u{ac00}b", "\u{ac00}b"));
    assert!(!same_text("ab", "ac"));
    assert!(!same_text("ab", "abc"));
}
