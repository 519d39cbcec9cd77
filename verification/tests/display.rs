use soundboard::display::{
    bad_sound_lines, code_to_string, decimal_string, entry_text, nav_lines,
    soundboard_inactive_text, str_lt,
};
use soundboard::soundtree::parser::BadSoundError;
use soundboard::keys::{str_to_code, Key};
use soundboard::soundtree::{SoundId, SoundMap, SoundNode};

fn key(token: &str) -> Key {
    str_to_code(token).unwrap()
}

#[test]
fn labels_of_digits_letters_and_keypad() {
    assert_eq!(code_to_string(&key("Digit0")), "0");
    assert_eq!(code_to_string(&key("9")), "9");
    assert_eq!(code_to_string(&key("num0")), "Num 0");
    assert_eq!(code_to_string(&key("Numpad7")), "Num 7");
    assert_eq!(code_to_string(&key("a")), "A");
    assert_eq!(code_to_string(&key("KeyZ")), "Z");
}

#[test]
fn other_keys_are_labelled_by_their_name() {
    assert_eq!(code_to_string(&key("Escape")), "Escape");
    assert_eq!(code_to_string(&key("F1")), "F1");
    assert_eq!(code_to_string(&key("F12")), "F12");
    assert_eq!(code_to_string(&key("NumpadAdd")), "NumpadAdd");
    assert_eq!(code_to_string(&key("End")), "End");
    assert_eq!(code_to_string(&key("Home")), "Home");
    assert_eq!(code_to_string(&key("Space")), "Space");
    assert_eq!(code_to_string(&key("OSLeft")), "MetaLeft");
}

#[test]
fn decimal_notation() {
    assert_eq!(decimal_string(0), "0");
    assert_eq!(decimal_string(7), "7");
    assert_eq!(decimal_string(10), "10");
    assert_eq!(decimal_string(409), "409");
    assert_eq!(decimal_string(usize::MAX), usize::MAX.to_string());
}

#[test]
fn text_order_is_that_of_strings() {
    let words = ["", "0", "9", "A", "B", "Escape", "F1", "F10", "F2", "Num 0", "Num 1", "a", "é"];
    for a in words {
        for b in words {
            assert_eq!(str_lt(a, b), a < b, "{a:?} < {b:?}");
        }
    }
}

#[test]
fn lines_of_leaf_and_branch() {
    let leaf = SoundNode::leaf(vec![
        ("Kick".to_string(), SoundId(1)),
        ("Kick hard".to_string(), SoundId(2)),
    ]);
    assert_eq!(entry_text(&key("a"), &leaf), "[A] Kick (2 variations)");
    let mut sub = SoundMap::new();
    sub.insert_sound(key("1"), "x".to_string(), SoundId(3));
    let branch = SoundNode::branch("Drums".to_string(), sub);
    assert_eq!(entry_text(&key("num4"), &branch), "[Num 4] Drums (1 key binds)");
    assert_eq!(
        entry_text(&key("F5"), &SoundNode::branch(String::new(), SoundMap::new())),
        "[F5]  (0 key binds)"
    );
}

#[test]
fn menu_is_shown_in_the_order_of_the_labels() {
    let mut sub = SoundMap::new();
    sub.insert_sound(key("a"), "Tom".to_string(), SoundId(5));
    sub.insert_sound(key("b"), "Hat".to_string(), SoundId(6));
    let mut map = SoundMap::new();
    map.insert_sound(key("z"), "Zap".to_string(), SoundId(1));
    map.insert(key("Escape"), SoundNode::branch("Menu".to_string(), sub));
    map.insert_sound(key("num2"), "Two".to_string(), SoundId(2));
    map.insert_sound(key("3"), "Three".to_string(), SoundId(3));
    map.insert_sound(key("a"), "Ah".to_string(), SoundId(4));
    map.insert_sound(key("z"), "Zap 2".to_string(), SoundId(7));
    assert_eq!(
        nav_lines(&map, None),
        vec![
            "[3] Three (1 variations)",
            "[A] Ah (1 variations)",
            "[Escape] Menu (2 key binds)",
            "[Num 2] Two (1 variations)",
            "[Z] Zap (2 variations)",
        ]
    );
}

#[test]
fn toggle_key_is_named_below_the_menu() {
    let mut map = SoundMap::new();
    map.insert_sound(key("b"), "Snare".to_string(), SoundId(1));
    assert_eq!(
        nav_lines(&map, Some(&key("F2"))),
        vec!["[B] Snare (1 variations)", "\nPress [F2] to toggle soundboard off."]
    );
    assert_eq!(
        nav_lines(&SoundMap::new(), Some(&key("a"))),
        vec!["\nPress [KeyA] to toggle soundboard off."]
    );
    assert!(nav_lines(&SoundMap::new(), None).is_empty());
}

#[test]
fn inactive_text_names_the_toggle_key() {
    assert_eq!(
        soundboard_inactive_text(&key("F2")),
        "Soundboard is off.\nPress [F2] to toggle it back on."
    );
}

#[test]
fn undecoded_files_are_reported_with_their_reasons() {
    assert!(bad_sound_lines(&Vec::new()).is_empty());
    let bad = vec![
        BadSoundError { path: "board/a_Notes.txt".to_string(), error: "unsupported".to_string() },
        BadSoundError { path: "board/b.png".to_string(), error: "no audio track".to_string() },
    ];
    assert_eq!(
        bad_sound_lines(&bad),
        vec![
            "Found 2 errors whilst loading sounds:\n",
            "Path: board/a_Notes.txt\nError: unsupported\n",
            "Path: board/b.png\nError: no audio track\n",
            "Press Enter to continue, or CTRL + C to terminate",
        ]
    );
}
