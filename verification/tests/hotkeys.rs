use global_hotkey::hotkey::{Code, HotKey, Modifiers};
use soundboard::action::Action;
use soundboard::hotkeys::{
    contains_id, find_key, hotkey_variations, register_hotkey, register_hotkeys_fallible,
    register_nav, register_optional_hotkey_map, replace_nav, unregister_hotkeys_fallible,
    unregister_nav, Binding, Combo,
};
use soundboard::keys::{str_to_code, Key};
use soundboard::soundtree::{SoundId, SoundMap};

fn key(token: &str) -> Key {
    str_to_code(token).unwrap()
}

fn four(token: &str) -> Vec<Binding> {
    hotkey_variations(&key(token))
}

fn menu(tokens: &[&str]) -> SoundMap {
    let mut map = SoundMap::new();
    for (i, token) in tokens.iter().enumerate() {
        map.insert_sound(key(token), format!("sound {i}"), SoundId(i));
    }
    map
}

#[test]
fn a_key_has_four_bindings_in_fixed_order() {
    let hotkeys = four("a");
    assert_eq!(hotkeys.len(), 4);
    let combos: Vec<Combo> = hotkeys.iter().map(|h| h.combo()).collect();
    assert_eq!(combos, vec![Combo::Plain, Combo::Control, Combo::Shift, Combo::ControlShift]);
    for hotkey in &hotkeys {
        assert_eq!(hotkey.key(), &key("KeyA"));
    }
}

#[test]
fn binding_ids_are_those_of_the_hotkey_service() {
    let hotkeys = four("num3");
    let mods = [
        Modifiers::empty(),
        Modifiers::CONTROL,
        Modifiers::SHIFT,
        Modifiers::CONTROL | Modifiers::SHIFT,
    ];
    for (hotkey, mods) in hotkeys.iter().zip(mods) {
        assert_eq!(hotkey.id(), HotKey::new(Some(mods), Code::Numpad3).id());
    }
    let escape = Binding::new(&key("Escape"), Combo::Plain);
    assert_eq!(escape.id(), HotKey::new(None, Code::Escape).id());
    assert_ne!(hotkeys[0].id(), hotkeys[1].id());
    assert_ne!(hotkeys[0].id(), four("num4")[0].id());
}

#[test]
fn bindings_are_found_by_id() {
    let mut nav = four("a");
    nav.extend(four("b"));
    let shift_b = Binding::new(&key("b"), Combo::Shift);
    assert!(contains_id(&nav, shift_b.id()));
    assert_eq!(find_key(&nav, shift_b.id()), Some(&key("b")));
    let plain_c = Binding::new(&key("c"), Combo::Plain);
    assert!(!contains_id(&nav, plain_c.id()));
    assert_eq!(find_key(&nav, plain_c.id()), None);
    assert_eq!(find_key(&Vec::new(), shift_b.id()), None);
}

#[test]
fn registering_a_key_records_and_requests_its_four_bindings() {
    let mut bound = four("x");
    let mut actions = vec![Action::StopAll];
    register_hotkey(&key("y"), &mut bound, &mut actions);
    let mut expected_bound = four("x");
    expected_bound.extend(four("y"));
    assert_eq!(bound, expected_bound);
    let mut expected = vec![Action::StopAll];
    expected.extend(four("y").into_iter().map(Action::Register));
    assert_eq!(actions, expected);
}

#[test]
fn navigation_bindings_cover_every_key_of_the_menu() {
    let map = menu(&["a", "5", "num1"]);
    let mut nav = Vec::new();
    let mut actions = Vec::new();
    register_nav(&map, &mut nav, &mut actions);
    let mut expected = four("a");
    expected.extend(four("5"));
    expected.extend(four("num1"));
    assert_eq!(nav, expected);
    assert_eq!(actions, expected.into_iter().map(Action::Register).collect::<Vec<_>>());
}

#[test]
fn unregistering_navigation_forgets_every_binding() {
    let mut nav = four("a");
    nav.extend(four("b"));
    let bound = nav.clone();
    let mut actions = Vec::new();
    unregister_nav(&mut nav, &mut actions);
    assert!(nav.is_empty());
    assert_eq!(actions, bound.into_iter().map(Action::Unregister).collect::<Vec<_>>());
}

#[test]
fn replacing_navigation_unregisters_all_then_registers_all() {
    let mut nav = four("a");
    let mut actions = Vec::new();
    replace_nav(&menu(&["b", "c"]), &mut nav, &mut actions);
    let mut expected_nav = four("b");
    expected_nav.extend(four("c"));
    assert_eq!(nav, expected_nav);
    let mut expected: Vec<Action> = four("a").into_iter().map(Action::Unregister).collect();
    expected.extend(expected_nav.into_iter().map(Action::Register));
    assert_eq!(actions, expected);
}

#[test]
fn optional_role_key() {
    let mut actions = Vec::new();
    assert_eq!(register_optional_hotkey_map(None, &mut actions), None);
    assert!(actions.is_empty());
    let hotkeys = register_optional_hotkey_map(Some(&key("F1")), &mut actions);
    assert_eq!(hotkeys, Some(four("F1")));
    assert_eq!(actions, four("F1").into_iter().map(Action::Register).collect::<Vec<_>>());
}

#[test]
fn lenient_requests() {
    let mut actions = Vec::new();
    register_hotkeys_fallible(&four("Escape"), &mut actions);
    unregister_hotkeys_fallible(&four("F1"), &mut actions);
    let mut expected: Vec<Action> = four("Escape").into_iter().map(Action::TryRegister).collect();
    expected.extend(four("F1").into_iter().map(Action::TryUnregister));
    assert_eq!(actions, expected);
}
