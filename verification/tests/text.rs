use soundboard::text::{
    char_is_digit, char_is_letter, char_is_upper, char_to_upper, str_eq, with_char,
};

#[test]
fn ascii_classes() {
    for c in '\0'..='\u{ff}' {
        assert_eq!(char_is_digit(c), c.is_ascii_digit(), "{c:?}");
        assert_eq!(char_is_letter(c), c.is_ascii_alphabetic(), "{c:?}");
        assert_eq!(char_is_upper(c), c.is_ascii_uppercase(), "{c:?}");
        assert_eq!(char_to_upper(c), c.to_ascii_uppercase(), "{c:?}");
    }
    assert!(!char_is_letter('é'));
    assert!(!char_is_digit('٣'));
    assert_eq!(char_to_upper('ß'), 'ß');
}

#[test]
fn strings_are_built_and_compared() {
    assert_eq!(with_char("Key", 'A'), "KeyA");
    assert_eq!(with_char("", '→'), "→");
    assert!(str_eq("abc", "abc"));
    assert!(str_eq("", ""));
    assert!(!str_eq("abc", "abd"));
    assert!(!str_eq("abc", "ab"));
}
