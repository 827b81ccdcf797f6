use dotenv_enum::chars::{
    append_uppercased, char_is_ascii, char_is_space, char_is_upper, push_upper,
};

fn upper(c: char) -> String {
    let mut out = String::new();
    push_upper(&mut out, c);
    out
}

#[test]
fn ascii_is_the_first_128_characters() {
    assert!(char_is_ascii('\0'));
    assert!(char_is_ascii('\u{7f}'));
    assert!(!char_is_ascii('\u{80}'));
    assert!(!char_is_ascii('é'));
}

#[test]
fn ascii_whitespace_is_space_and_tab_to_carriage_return() {
    for c in [' ', '\t', '\n', '\u{b}', '\u{c}', '\r'] {
        assert!(char_is_space(c), "{:?}", c);
    }
    for c in ['\u{8}', '\u{e}', '\u{1f}', '!', '_', 'a', 'Z', '0', '\u{7f}'] {
        assert!(!char_is_space(c), "{:?}", c);
    }
}

#[test]
fn whitespace_beyond_ascii_follows_unicode() {
    assert!(char_is_space('\u{a0}'));
    assert!(char_is_space('\u{2003}'));
    assert!(char_is_space('\u{3000}'));
    assert!(!char_is_space('é'));
    assert!(!char_is_space('\u{200b}'));
}

#[test]
fn ascii_uppercase_is_a_to_z() {
    for c in 'A'..='Z' {
        assert!(char_is_upper(c));
    }
    for c in ['a', 'z', '@', '[', '0', '_', ' '] {
        assert!(!char_is_upper(c), "{:?}", c);
    }
}

#[test]
fn uppercase_beyond_ascii_follows_unicode() {
    assert!(char_is_upper('É'));
    assert!(char_is_upper('Δ'));
    assert!(!char_is_upper('é'));
    assert!(!char_is_upper('δ'));
    assert!(!char_is_upper('中'));
}

#[test]
fn ascii_letters_go_to_uppercase_and_nothing_else_moves() {
    assert_eq!(upper('a'), "A");
    assert_eq!(upper('z'), "Z");
    assert_eq!(upper('M'), "M");
    assert_eq!(upper('_'), "_");
    assert_eq!(upper('7'), "7");
    assert_eq!(upper('`'), "`");
    assert_eq!(upper('{'), "{");
}

#[test]
fn uppercase_form_beyond_ascii_follows_unicode() {
    assert_eq!(upper('é'), "É");
    assert_eq!(upper('ß'), "SS");
    assert_eq!(upper('ŉ'), "ʼN");
    assert_eq!(upper('中'), "中");
}

#[test]
fn every_character_is_classified_as_the_standard_library_does() {
    for code in 0u32..=0x10ffff {
        if let Some(c) = char::from_u32(code) {
            assert_eq!(char_is_space(c), c.is_whitespace(), "{:?}", c);
            assert_eq!(char_is_upper(c), c.is_uppercase(), "{:?}", c);
            assert_eq!(char_is_ascii(c), c.is_ascii(), "{:?}", c);
        }
    }
}

#[test]
fn every_character_goes_to_uppercase_as_the_standard_library_does() {
    for code in 0u32..=0x10ffff {
        if let Some(c) = char::from_u32(code) {
            let expected: String = c.to_uppercase().collect();
            assert_eq!(upper(c), expected, "{:?}", c);
        }
    }
}

#[test]
fn uppercased_text_is_appended() {
    let mut out = String::from("key=");
    append_uppercased(&mut out, "teamJaws_é1");
    assert_eq!(out, "key=TEAMJAWS_É1");
    append_uppercased(&mut out, "");
    assert_eq!(out, "key=TEAMJAWS_É1");
}

#[test]
fn uppercased_text_is_what_the_standard_library_gives() {
    for text in ["", "lol", "Lol_Env", "straße", "ǆ", "Ὀδυσσεύς", "a1_b2"] {
        let mut out = String::new();
        append_uppercased(&mut out, text);
        assert_eq!(out, text.to_uppercase());
    }
}
