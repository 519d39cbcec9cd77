use global_hotkey::hotkey::Code;
use soundboard::keys::{custom_key_name, custom_str_to_code, str_to_code, Key};

fn name_of(code: Code) -> String {
    code.to_string()
}

#[test]
fn letter_resolves_to_letter_key() {
    let key = str_to_code("a").unwrap();
    assert_eq!(key.name(), name_of(Code::KeyA));
    let key = str_to_code("Z").unwrap();
    assert_eq!(key.name(), name_of(Code::KeyZ));
}

#[test]
fn digit_resolves_to_top_row_digit() {
    let key = str_to_code("5").unwrap();
    assert_eq!(key.name(), name_of(Code::Digit5));
}

#[test]
fn num_prefix_resolves_to_keypad_digit() {
    let key = str_to_code("num3").unwrap();
    assert_eq!(key.name(), name_of(Code::Numpad3));
}

#[test]
fn unresolvable_tokens_fail() {
    assert!(str_to_code("num").is_none());
    assert!(str_to_code("9x").is_none());
    assert!(str_to_code("").is_none());
    assert!(custom_str_to_code("Escape").is_none());
}

#[test]
fn full_names_and_aliases_resolve() {
    assert_eq!(str_to_code("Escape").unwrap().name(), "Escape");
    assert_eq!(Key::from_name("OSLeft").unwrap().name(), "MetaLeft");
    assert_eq!(Key::from_name("OSLeft"), Key::from_name("MetaLeft"));
    assert!(Key::from_name("escape").is_none());
}

#[test]
fn shorthand_expansion_is_exact() {
    assert_eq!(custom_key_name("q"), Some("KeyQ".to_string()));
    assert_eq!(custom_key_name("0"), Some("Digit0".to_string()));
    assert_eq!(custom_key_name("num7"), Some("Numpad7".to_string()));
    assert_eq!(custom_key_name("num7rest"), Some("Numpad7".to_string()));
    assert_eq!(custom_key_name("numx"), None);
    assert_eq!(custom_key_name("-"), None);
    assert_eq!(custom_key_name("ab"), None);
}
