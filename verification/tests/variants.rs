use soundboard::keys::{str_to_code, Key};
use soundboard::variants::{advance, draw_jitter, SoundIndexMap};

fn key(token: &str) -> Key {
    str_to_code(token).unwrap()
}

#[test]
fn first_press_plays_the_first_variation() {
    assert_eq!(advance(None, 1, 1), 0);
    assert_eq!(advance(None, 5, 3), 0);
}

#[test]
fn counter_moves_by_one_up_to_two_variations() {
    assert_eq!(advance(Some(0), 1, 1), 0);
    assert_eq!(advance(Some(0), 2, 1), 1);
    assert_eq!(advance(Some(1), 2, 1), 0);
    assert_eq!(advance(Some(1), 2, 7), 0);
}

#[test]
fn counter_moves_by_the_jitter_above_two_variations() {
    assert_eq!(advance(Some(0), 5, 1), 1);
    assert_eq!(advance(Some(3), 5, 4), 2);
    assert_eq!(advance(Some(4), 5, 1), 0);
    assert_eq!(advance(Some(2), 3, 2), 1);
}

#[test]
fn counter_of_a_longer_leaf_wraps_into_a_shorter_one() {
    assert_eq!(advance(Some(7), 3, 1), 2);
    assert_eq!(advance(Some(7), 2, 1), 0);
    assert_eq!(advance(Some(usize::MAX), 4, 3), 2);
}

#[test]
fn next_variation_is_never_the_last_one() {
    for count in 2..8usize {
        for last in 0..count {
            let bound = if count > 2 { count } else { 2 };
            for jitter in 1..bound {
                assert_ne!(advance(Some(last), count, jitter), last);
            }
        }
    }
}

#[test]
fn drawn_jitter_fits_the_leaf() {
    for count in 0..12usize {
        for _ in 0..40 {
            let jitter = draw_jitter(count);
            assert!(jitter >= 1);
            if count > 2 {
                assert!(jitter < count);
            } else {
                assert_eq!(jitter, 1);
            }
        }
    }
}

#[test]
fn drawn_jitter_varies() {
    let mut seen = [false; 6];
    for _ in 0..400 {
        seen[draw_jitter(6)] = true;
    }
    assert_eq!(seen, [false, true, true, true, true, true]);
}

#[test]
fn counters_are_kept_per_key_and_name() {
    let mut counters = SoundIndexMap::new();
    assert_eq!(counters.get(&key("a"), "Kick"), None);
    counters.set(&key("a"), "Kick", 2);
    counters.set(&key("b"), "Kick", 1);
    counters.set(&key("a"), "Snare", 0);
    assert_eq!(counters.get(&key("a"), "Kick"), Some(2));
    assert_eq!(counters.get(&key("b"), "Kick"), Some(1));
    assert_eq!(counters.get(&key("a"), "Snare"), Some(0));
    assert_eq!(counters.get(&key("b"), "Snare"), None);
    counters.set(&key("a"), "Kick", 4);
    assert_eq!(counters.get(&key("a"), "Kick"), Some(4));
    assert_eq!(counters.get(&key("b"), "Kick"), Some(1));
}
