use soundboard::action::{Action, Playing};
use soundboard::board::{KeyState, Soundboard};
use soundboard::config::{OverlapBehavior, Settings};
use soundboard::hotkeys::{hotkey_variations, Binding, Combo};
use soundboard::keys::{str_to_code, Key};
use soundboard::soundtree::parser::{parse, Scanned, Stem};
use soundboard::soundtree::{SoundId, SoundTree};

fn key(token: &str) -> Key {
    str_to_code(token).unwrap()
}

fn id(token: &str) -> u32 {
    Binding::new(&key(token), Combo::Plain).id()
}

fn four(token: &str) -> Vec<Binding> {
    hotkey_variations(&key(token))
}

fn nav_of(tokens: &[&str]) -> Vec<Binding> {
    tokens.iter().flat_map(|token| four(token)).collect()
}

fn file(stem: &str, sound: usize) -> Scanned {
    Scanned::File {
        path: format!("{stem}.ogg"),
        stem: Stem::Name(stem.to_string()),
        sound: Ok(SoundId(sound)),
    }
}

fn dir(stem: &str, entries: Vec<Scanned>) -> Scanned {
    Scanned::Dir { path: stem.to_string(), stem: Stem::Name(stem.to_string()), entries }
}

/// a: Kick (sounds 1, 2); b: Snare (3); c: five variations (10..15);
/// d: Drums { a: Tom (20), e: More { b: Deep (30) } }
fn catalog() -> SoundTree {
    let scan = vec![
        file("a_Kick", 1),
        file("b_Snare", 3),
        file("a_Kick hard", 2),
        file("c_Chord", 10),
        file("c_Chord 2", 11),
        file("c_Chord 3", 12),
        file("c_Chord 4", 13),
        file("c_Chord 5", 14),
        dir("d_Drums", vec![file("a_Tom", 20), dir("e_More", vec![file("b_Deep", 30)])]),
    ];
    parse(&scan, '_').unwrap().0
}

fn settings(overlap: OverlapBehavior) -> Settings {
    Settings {
        board: "board".to_string(),
        separator: '_',
        overlap,
        monitor: false,
        key_stop: Some(key("F1")),
        key_toggle: Some(key("F2")),
        key_root: key("Escape"),
        no_clear: false,
    }
}

fn play(sound: usize) -> Action {
    Action::Play(Playing { sound: SoundId(sound), monitor: false })
}

fn playing(sound: usize) -> Playing {
    Playing { sound: SoundId(sound), monitor: false }
}

fn registers(bindings: Vec<Binding>) -> Vec<Action> {
    bindings.into_iter().map(Action::Register).collect()
}

fn unregisters(bindings: Vec<Binding>) -> Vec<Action> {
    bindings.into_iter().map(Action::Unregister).collect()
}

fn try_registers(bindings: Vec<Binding>) -> Vec<Action> {
    bindings.into_iter().map(Action::TryRegister).collect()
}

fn try_unregisters(bindings: Vec<Binding>) -> Vec<Action> {
    bindings.into_iter().map(Action::TryUnregister).collect()
}

/// What every return to the top menu of an active board asks for.
fn reset_actions(bound: Vec<Binding>) -> Vec<Action> {
    let mut actions = try_unregisters(four("Escape"));
    actions.extend(unregisters(bound));
    actions.extend(registers(nav_of(&["a", "b", "c", "d"])));
    actions.extend(try_registers(four("F1")));
    actions
}

#[test]
fn a_session_starts_active_at_the_top() {
    let tree = catalog();
    let (board, actions) = Soundboard::new(&tree, &settings(OverlapBehavior::Prevent));
    assert!(board.is_active());
    assert_eq!(board.walker(), tree.root());
    assert_eq!(board.nav(), &nav_of(&["a", "b", "c", "d"]));
    assert!(board.handles().is_empty());
    let mut expected = registers(four("F1"));
    expected.extend(registers(four("F2")));
    expected.extend(registers(nav_of(&["a", "b", "c", "d"])));
    assert_eq!(actions, expected);
}

#[test]
fn a_session_without_role_keys_binds_only_the_menu() {
    let tree = catalog();
    let mut quiet = settings(OverlapBehavior::Overlap);
    quiet.key_stop = None;
    quiet.key_toggle = None;
    let (mut board, actions) = Soundboard::new(&tree, &quiet);
    assert_eq!(actions, registers(nav_of(&["a", "b", "c", "d"])));
    assert_eq!(board.press_with(id("F1"), 1), vec![Action::MissedPress]);
    assert_eq!(board.press_with(id("F2"), 1), vec![Action::MissedPress]);
    assert!(board.is_active());
}

#[test]
fn a_leaf_plays_and_the_board_returns_to_the_top() {
    let tree = catalog();
    let (mut board, _) = Soundboard::new(&tree, &settings(OverlapBehavior::Prevent));
    let actions = board.press_with(id("b"), 1);
    let mut expected = vec![play(3)];
    expected.extend(reset_actions(nav_of(&["a", "b", "c", "d"])));
    assert_eq!(actions, expected);
    assert_eq!(board.handles(), &vec![playing(3)]);
    assert_eq!(board.walker(), tree.root());
}

#[test]
fn every_modifier_combination_reaches_the_key() {
    let tree = catalog();
    for binding in four("b") {
        let (mut board, _) = Soundboard::new(&tree, &settings(OverlapBehavior::Overlap));
        assert_eq!(board.press_with(binding.id(), 1)[0], play(3));
    }
}

#[test]
fn the_monitor_gets_a_copy_when_configured() {
    let tree = catalog();
    let mut monitored = settings(OverlapBehavior::Overlap);
    monitored.monitor = true;
    let (mut board, _) = Soundboard::new(&tree, &monitored);
    let actions = board.press_with(id("b"), 1);
    assert_eq!(actions[0], Action::Play(Playing { sound: SoundId(3), monitor: true }));
    assert_eq!(board.handles(), &vec![Playing { sound: SoundId(3), monitor: true }]);
}

#[test]
fn prevent_blocks_a_leaf_while_a_sound_plays() {
    let tree = catalog();
    let (mut board, _) = Soundboard::new(&tree, &settings(OverlapBehavior::Prevent));
    board.press_with(id("a"), 1);
    assert_eq!(board.handles(), &vec![playing(1)]);
    let actions = board.press_with(id("b"), 1);
    assert_eq!(actions, reset_actions(nav_of(&["a", "b", "c", "d"])));
    assert!(actions.iter().all(|action| !matches!(action, Action::Play(_))));
    assert_eq!(board.handles(), &vec![playing(1)]);
    assert_eq!(board.walker(), tree.root());
    assert_eq!(board.nav(), &nav_of(&["a", "b", "c", "d"]));
}

#[test]
fn prevent_blocks_from_below_the_top_too() {
    let tree = catalog();
    let (mut board, _) = Soundboard::new(&tree, &settings(OverlapBehavior::Prevent));
    board.press_with(id("b"), 1);
    board.press_with(id("d"), 1);
    let actions = board.press_with(id("a"), 1);
    assert_eq!(actions, reset_actions(nav_of(&["a", "e"])));
    assert_eq!(board.handles(), &vec![playing(3)]);
    assert_eq!(board.walker(), tree.root());
}

#[test]
fn prevent_plays_again_once_the_sound_has_ended() {
    let tree = catalog();
    let (mut board, _) = Soundboard::new(&tree, &settings(OverlapBehavior::Prevent));
    board.press_with(id("a"), 1);
    board.retain_playing(&vec![false]);
    assert!(board.handles().is_empty());
    assert_eq!(board.press_with(id("b"), 1)[0], play(3));
}

#[test]
fn replace_stops_the_old_sound_before_the_new_one_starts() {
    let tree = catalog();
    let (mut board, _) = Soundboard::new(&tree, &settings(OverlapBehavior::Replace));
    board.press_with(id("a"), 1);
    assert_eq!(board.handles(), &vec![playing(1)]);
    let actions = board.press_with(id("b"), 1);
    let mut expected = vec![Action::StopAll, play(3)];
    expected.extend(reset_actions(nav_of(&["a", "b", "c", "d"])));
    assert_eq!(actions, expected);
    assert_eq!(board.handles(), &vec![playing(3)]);
    for token in ["a", "c", "b", "c", "a"] {
        board.press_with(id(token), 1);
        assert_eq!(board.handles().len(), 1);
    }
}

#[test]
fn overlap_keeps_both_sounds() {
    let tree = catalog();
    let (mut board, _) = Soundboard::new(&tree, &settings(OverlapBehavior::Overlap));
    board.press_with(id("a"), 1);
    let actions = board.press_with(id("b"), 1);
    assert_eq!(actions[0], play(3));
    assert!(!actions.contains(&Action::StopAll));
    assert_eq!(board.handles(), &vec![playing(1), playing(3)]);
}

#[test]
fn two_variations_alternate() {
    let tree = catalog();
    let (mut board, _) = Soundboard::new(&tree, &settings(OverlapBehavior::Overlap));
    let mut started = Vec::new();
    for _ in 0..5 {
        started.push(board.press_with(id("a"), 1)[0].clone());
    }
    assert_eq!(started, vec![play(1), play(2), play(1), play(2), play(1)]);
}

#[test]
fn many_variations_move_by_the_jitter() {
    let tree = catalog();
    let (mut board, _) = Soundboard::new(&tree, &settings(OverlapBehavior::Overlap));
    assert_eq!(board.pressed_variations(id("c")), Some(5));
    assert_eq!(board.press_with(id("c"), 4)[0], play(10));
    assert_eq!(board.press_with(id("c"), 4)[0], play(14));
    assert_eq!(board.press_with(id("c"), 2)[0], play(11));
    assert_eq!(board.press_with(id("c"), 1)[0], play(12));
    assert_eq!(board.press_with(id("c"), 3)[0], play(10));
}

#[test]
fn random_presses_never_repeat_a_variation() {
    let tree = catalog();
    let (mut board, _) = Soundboard::new(&tree, &settings(OverlapBehavior::Overlap));
    let mut last = None;
    let mut seen = Vec::new();
    for _ in 0..200 {
        let actions = board.press(id("c"));
        let Action::Play(now) = actions[0].clone() else { panic!("no sound started") };
        assert_ne!(Some(now), last);
        assert!((10..15).contains(&now.sound.0));
        if !seen.contains(&now.sound.0) {
            seen.push(now.sound.0);
        }
        last = Some(now);
    }
    assert_eq!(seen.len(), 5);
}

#[test]
fn counters_are_told_apart_by_key_and_first_name() {
    let tree = catalog();
    let (mut board, _) = Soundboard::new(&tree, &settings(OverlapBehavior::Overlap));
    assert_eq!(board.press_with(id("a"), 1)[0], play(1));
    board.press_with(id("d"), 1);
    assert_eq!(board.press_with(id("a"), 1)[0], play(20));
    assert_eq!(board.press_with(id("a"), 1)[0], play(2));
}

#[test]
fn a_branch_is_descended_into() {
    let tree = catalog();
    let (mut board, _) = Soundboard::new(&tree, &settings(OverlapBehavior::Prevent));
    let actions = board.press_with(id("d"), 1);
    let mut expected = try_registers(four("Escape"));
    expected.extend(unregisters(nav_of(&["a", "b", "c", "d"])));
    expected.extend(registers(nav_of(&["a", "e"])));
    assert_eq!(actions, expected);
    assert_eq!(board.nav(), &nav_of(&["a", "e"]));
    assert_eq!(board.walker().len(), 2);
    assert_eq!(board.pressed_variations(id("a")), Some(1));
    assert_eq!(board.pressed_variations(id("b")), None);

    board.press_with(id("e"), 1);
    assert_eq!(board.nav(), &nav_of(&["b"]));
    assert_eq!(board.press_with(id("b"), 1)[0], play(30));
    assert_eq!(board.walker(), tree.root());
}

#[test]
fn the_root_key_returns_from_a_branch() {
    let tree = catalog();
    let (mut board, _) = Soundboard::new(&tree, &settings(OverlapBehavior::Prevent));
    board.press_with(id("d"), 1);
    assert_ne!(board.walker(), tree.root());
    let actions = board.press_with(id("Escape"), 1);
    let mut expected = vec![Action::StopAll];
    expected.extend(reset_actions(nav_of(&["a", "e"])));
    assert_eq!(actions, expected);
    assert_eq!(board.walker(), tree.root());
    assert_eq!(board.nav(), &nav_of(&["a", "b", "c", "d"]));
    assert!(board.is_active());
}

#[test]
fn the_root_key_stops_playback() {
    let tree = catalog();
    let (mut board, _) = Soundboard::new(&tree, &settings(OverlapBehavior::Overlap));
    board.press_with(id("a"), 1);
    board.press_with(id("d"), 1);
    board.press_with(id("Escape"), 1);
    assert!(board.handles().is_empty());
}

#[test]
fn the_stop_key_stops_playback_and_stays() {
    let tree = catalog();
    let (mut board, _) = Soundboard::new(&tree, &settings(OverlapBehavior::Overlap));
    board.press_with(id("a"), 1);
    board.press_with(id("b"), 1);
    board.press_with(id("d"), 1);
    let actions = board.press_with(id("F1"), 1);
    assert_eq!(actions, vec![Action::StopAll]);
    assert!(board.handles().is_empty());
    assert_eq!(board.nav(), &nav_of(&["a", "e"]));
}

#[test]
fn toggling_twice_restores_the_navigation_bindings() {
    let tree = catalog();
    let (mut board, _) = Soundboard::new(&tree, &settings(OverlapBehavior::Overlap));
    board.press_with(id("a"), 1);
    let before = board.nav().clone();

    let off = board.press_with(id("F2"), 1);
    let mut expected = unregisters(nav_of(&["a", "b", "c", "d"]));
    expected.push(Action::StopAll);
    expected.extend(try_unregisters(four("Escape")));
    expected.extend(try_unregisters(four("F1")));
    assert_eq!(off, expected);
    assert!(!board.is_active());
    assert!(board.nav().is_empty());
    assert!(board.handles().is_empty());

    let on = board.press_with(id("F2"), 1);
    let mut expected = registers(nav_of(&["a", "b", "c", "d"]));
    expected.push(Action::StopAll);
    expected.extend(reset_actions(nav_of(&["a", "b", "c", "d"])));
    assert_eq!(on, expected);
    assert!(board.is_active());
    assert_eq!(board.nav(), &before);
    assert_eq!(board.walker(), tree.root());
}

#[test]
fn toggling_off_below_the_top_returns_to_the_top() {
    let tree = catalog();
    let (mut board, _) = Soundboard::new(&tree, &settings(OverlapBehavior::Overlap));
    board.press_with(id("d"), 1);
    board.press_with(id("F2"), 1);
    assert_eq!(board.walker(), tree.root());
    board.press_with(id("F2"), 1);
    assert_eq!(board.nav(), &nav_of(&["a", "b", "c", "d"]));
}

#[test]
fn a_board_that_is_off_takes_only_role_keys() {
    let tree = catalog();
    let (mut board, _) = Soundboard::new(&tree, &settings(OverlapBehavior::Overlap));
    board.press_with(id("F2"), 1);
    assert!(board.press_with(id("a"), 1).is_empty());
    assert!(board.press_with(id("d"), 1).is_empty());
    assert!(board.press_with(id("x"), 1).is_empty());
    assert!(!board.is_active());
    assert_eq!(board.press_with(id("F1"), 1), vec![Action::StopAll]);
    let mut expected = vec![Action::StopAll];
    expected.extend(try_unregisters(four("Escape")));
    expected.extend(try_unregisters(four("F1")));
    assert_eq!(board.press_with(id("Escape"), 1), expected);
    assert!(!board.is_active());
    assert!(board.nav().is_empty());
}

#[test]
fn a_press_of_an_unbound_hotkey_is_reported() {
    let tree = catalog();
    let (mut board, _) = Soundboard::new(&tree, &settings(OverlapBehavior::Overlap));
    board.press_with(id("d"), 1);
    assert_eq!(board.press_with(id("b"), 1), vec![Action::MissedPress]);
    assert_eq!(board.nav(), &nav_of(&["a", "e"]));
    assert!(board.handles().is_empty());
}

#[test]
fn role_keys_go_before_navigation() {
    let scan = vec![file("Escape_Boom", 1), file("F1_Bang", 2), file("F2_Crash", 3)];
    let tree = parse(&scan, '_').unwrap().0;
    let (mut board, _) = Soundboard::new(&tree, &settings(OverlapBehavior::Overlap));
    assert_eq!(board.press_with(id("Escape"), 1)[0], Action::StopAll);
    assert_eq!(board.press_with(id("F1"), 1), vec![Action::StopAll]);
    assert!(board.handles().is_empty());
    board.press_with(id("F2"), 1);
    assert!(!board.is_active());
}

#[test]
fn ended_sounds_leave_the_session() {
    let tree = catalog();
    let (mut board, _) = Soundboard::new(&tree, &settings(OverlapBehavior::Overlap));
    board.press_with(id("a"), 1);
    board.press_with(id("b"), 1);
    board.press_with(id("a"), 1);
    assert_eq!(board.handles(), &vec![playing(1), playing(3), playing(2)]);
    board.retain_playing(&vec![true, false, true]);
    assert_eq!(board.handles(), &vec![playing(1), playing(2)]);
    board.retain_playing(&vec![false]);
    assert!(board.handles().is_empty());
    board.retain_playing(&vec![true, true]);
    assert!(board.handles().is_empty());
}

#[test]
fn the_screen_shows_the_menu_or_that_the_board_is_off() {
    let tree = catalog();
    let (mut board, _) = Soundboard::new(&tree, &settings(OverlapBehavior::Overlap));
    assert_eq!(
        board.screen(),
        vec![
            "[A] Kick (2 variations)",
            "[B] Snare (1 variations)",
            "[C] Chord (5 variations)",
            "[D] Drums (2 key binds)",
            "\nPress [F2] to toggle soundboard off.",
        ]
    );
    board.press_with(id("d"), 1);
    assert_eq!(
        board.screen(),
        vec![
            "[A] Tom (1 variations)",
            "[E] More (1 key binds)",
            "\nPress [F2] to toggle soundboard off.",
        ]
    );
    board.press_with(id("F2"), 1);
    assert_eq!(board.screen(), vec!["Soundboard is off.\nPress [F2] to toggle it back on."]);
}

#[test]
fn only_presses_count_as_events() {
    let tree = catalog();
    let (mut board, _) = Soundboard::new(&tree, &settings(OverlapBehavior::Overlap));
    board.press_with(id("a"), 1);
    board.press_with(id("d"), 1);
    assert_eq!(board.event(id("a"), KeyState::Released, &vec![false]), None);
    assert_eq!(board.event(id("Escape"), KeyState::Released, &vec![false]), None);
    assert_eq!(board.handles(), &vec![playing(1)]);
    assert_eq!(board.nav(), &nav_of(&["a", "e"]));
}

#[test]
fn a_press_event_forgets_ended_sounds_first() {
    let tree = catalog();
    let (mut board, _) = Soundboard::new(&tree, &settings(OverlapBehavior::Prevent));
    board.press_with(id("a"), 1);
    let blocked = board.event(id("b"), KeyState::Pressed, &vec![true]).unwrap();
    assert!(!blocked.contains(&play(3)));
    assert_eq!(board.handles(), &vec![playing(1)]);
    let started = board.event(id("b"), KeyState::Pressed, &vec![false]).unwrap();
    assert_eq!(started[0], play(3));
    assert_eq!(board.handles(), &vec![playing(3)]);
}

#[test]
fn shutdown_releases_every_binding() {
    let tree = catalog();
    let (mut board, _) = Soundboard::new(&tree, &settings(OverlapBehavior::Prevent));
    board.press_with(id("d"), 1);
    let mut expected = try_unregisters(four("Escape"));
    expected.extend(try_unregisters(four("F1")));
    expected.extend(try_unregisters(four("F2")));
    expected.extend(unregisters(nav_of(&["a", "e"])));
    assert_eq!(board.shutdown(), expected);

    let mut bare = settings(OverlapBehavior::Prevent);
    bare.key_stop = None;
    bare.key_toggle = None;
    let (board, _) = Soundboard::new(&tree, &bare);
    let mut expected = try_unregisters(four("Escape"));
    expected.extend(unregisters(nav_of(&["a", "b", "c", "d"])));
    assert_eq!(board.shutdown(), expected);
}
