//! What holds of every press: the board's invariant, the three overlap
//! policies, the choice of variations, and the ways back to the top menu.

use super::model::{is_submenu, last_index, role_has_id, BoardView};
use super::Command;
use crate::action::{ActionView, Playing};
use crate::config::OverlapBehavior;
use crate::hotkeys::{combo_at, has_id, is_first_id, key_of_id, nav_of, BindingView};
use crate::soundtree::{
    lemma_find, menu_find, menu_get, menu_keys, menu_wf, node_wf, MenuView, SoundId,
};
use crate::variants::{lemma_never_repeats, lemma_next_index_bound, next_index};
use vstd::prelude::*;

verus! {

/// The menu of a branch of a submenu is a submenu.
pub proof fn lemma_submenu_child(menu: MenuView, root: MenuView, i: int)
    requires
        is_submenu(menu, root),
        0 <= i < menu.len(),
        menu[i].1 is Branch,
    ensures
        is_submenu(menu[i].1->Branch_1, root),
    decreases root,
{
    let child = menu[i].1->Branch_1;
    if menu == root {
        assert(is_submenu(child, child));
    } else {
        let k = choose|k: int|
            0 <= k < root.len() && (#[trigger] root[k]).1 is Branch && is_submenu(
                menu,
                root[k].1->Branch_1,
            );
        lemma_submenu_child(menu, root[k].1->Branch_1, i);
    }
}

/// A press keeps a well-formed board well-formed.
pub proof fn lemma_step_wf(board: BoardView, id: u32, jitter: nat)
    requires
        board.wf(),
    ensures
        board.step(id, jitter).0.wf(),
{
    let (decided, _, command) = board.decide(id, jitter);
    // Between the decision and the return to the top, a board that was just
    // switched off may still have its cursor below the top.
    assert(menu_wf(decided.walker) && is_submenu(decided.walker, decided.root) && (decided.active
        ==> decided.nav == nav_of(menu_keys(decided.walker))) && (!decided.active
        ==> decided.nav.len() == 0) && (command == Command::NoChange ==> decided.wf())) by {
        if has_id(board.root_hotkeys, id) || role_has_id(board.stop_hotkeys, id) {
        } else if role_has_id(board.toggle_hotkeys, id) {
            if !board.active {
                assert(board.nav + nav_of(menu_keys(board.root)) =~= nav_of(menu_keys(board.root)));
            }
        } else if board.active {
            match key_of_id(board.nav, id) {
                Some(key) => {
                    lemma_find(board.walker, key);
                    match menu_find(board.walker, key) {
                        Some(i) => {
                            if board.walker[i].1 is Branch {
                                lemma_submenu_child(board.walker, board.root, i);
                                assert(node_wf(board.walker[i].1));
                            }
                        },
                        None => {},
                    }
                },
                None => {},
            }
        }
    }
    assert(is_submenu(decided.root, decided.root));
    match command {
        Command::Play(playing) => {
            let started = decided.start(playing).0;
            assert(is_submenu(started.root, started.root));
        },
        _ => {},
    }
}

/// No action of the list starts a sound.
pub open spec fn starts_nothing(actions: Seq<ActionView>) -> bool {
    forall|i: int| 0 <= i < actions.len() ==> !((#[trigger] actions[i]) is Play)
}

/// Under `Prevent`, while a sound is in flight, the press of a leaf starts
/// nothing, leaves the sounds in flight and the counters as they are, and
/// returns the cursor to the top menu.
pub proof fn lemma_prevent_blocks(board: BoardView, id: u32, jitter: nat)
    requires
        board.wf(),
        board.overlap == OverlapBehavior::Prevent,
        board.handles.len() > 0,
        board.pressed_node(id) matches Some((_, node)) && node is Leaf,
    ensures
        starts_nothing(board.step(id, jitter).1),
        board.step(id, jitter).0.handles == board.handles,
        board.step(id, jitter).0.sound_index_map == board.sound_index_map,
        board.step(id, jitter).0.walker == board.root,
        board.step(id, jitter).0.nav == nav_of(menu_keys(board.root)),
{
}

/// Under `Replace`, the press of a leaf asks for all sounds in flight to be
/// stopped before it asks for the new one to start, and the new one is then
/// the only one in flight.
pub proof fn lemma_replace_stops_first(board: BoardView, id: u32, jitter: nat)
    requires
        board.wf(),
        board.overlap == OverlapBehavior::Replace,
        board.pressed_leaf(id) is Some,
    ensures
        ({
            let (after, actions) = board.step(id, jitter);
            &&& actions.len() >= 2
            &&& actions[0] == ActionView::StopAll
            &&& actions[1] matches ActionView::Play(playing) && after.handles == seq![playing]
        }),
{
}

/// Under `Replace`, a board with at most one sound in flight never comes to hold two.
pub proof fn lemma_replace_holds_one(board: BoardView, id: u32, jitter: nat)
    requires
        board.wf(),
        board.overlap == OverlapBehavior::Replace,
        board.handles.len() <= 1,
    ensures
        board.step(id, jitter).0.handles.len() <= 1,
        board.step(id, jitter).0.overlap == OverlapBehavior::Replace,
{
}

/// The sound that the press of a leaf starts.
pub open spec fn started_by(board: BoardView, id: u32, jitter: nat) -> Playing {
    board.decide(id, jitter).2->Play_0
}

/// The press of a leaf that may play starts one sound and returns to the top menu.
pub proof fn lemma_leaf_plays(board: BoardView, id: u32, jitter: nat)
    requires
        board.wf(),
        board.pressed_leaf(id) is Some,
    ensures
        board.decide(id, jitter).2 is Play,
        board.step(id, jitter).0.walker == board.root,
        board.step(id, jitter).0.nav == nav_of(menu_keys(board.root)),
        board.step(id, jitter).0.active,
        board.overlap != OverlapBehavior::Replace ==> board.step(id, jitter).0.handles
            == board.handles.push(started_by(board, id, jitter)),
{
}

/// Under `Overlap`, two presses of leaves in a row leave both sounds in
/// flight, after those that were in flight before.
pub proof fn lemma_overlap_keeps_both(
    board: BoardView,
    first: u32,
    first_jitter: nat,
    second: u32,
    second_jitter: nat,
)
    requires
        board.wf(),
        board.overlap == OverlapBehavior::Overlap,
        board.pressed_leaf(first) is Some,
        board.step(first, first_jitter).0.pressed_leaf(second) is Some,
    ensures
        ({
            let between = board.step(first, first_jitter).0;
            let after = between.step(second, second_jitter).0;
            &&& after.handles == board.handles.push(started_by(board, first, first_jitter)).push(
                started_by(between, second, second_jitter),
            )
            &&& after.handles.len() == board.handles.len() + 2
        }),
{
    let between = board.step(first, first_jitter).0;
    lemma_step_wf(board, first, first_jitter);
    lemma_leaf_plays(board, first, first_jitter);
    lemma_leaf_plays(between, second, second_jitter);
}

/// The index of the variation that the press of a leaf selects.
pub open spec fn selected_index(
    board: BoardView,
    key: Seq<char>,
    sounds: Seq<(Seq<char>, SoundId)>,
    jitter: nat,
) -> nat {
    next_index(last_index(board.sound_index_map, (key, sounds[0].0)), sounds.len(), jitter)
}

/// What the press of a leaf selects is within the leaf, and is what plays.
pub proof fn lemma_selection(board: BoardView, id: u32, jitter: nat)
    requires
        board.wf(),
        board.jitter_ok(id, jitter),
        board.pressed_leaf(id) is Some,
    ensures
        ({
            let (key, node) = board.pressed_node(id).unwrap();
            let sounds = node->Leaf_0;
            let index = selected_index(board, key, sounds, jitter);
            &&& index < sounds.len()
            &&& started_by(board, id, jitter) == (Playing {
                sound: sounds[index as int].1,
                monitor: board.monitor,
            })
            &&& last_index(board.step(id, jitter).0.sound_index_map, (key, sounds[0].0)) == Some(
                index as usize,
            )
        }),
{
    let (key, node) = board.pressed_node(id).unwrap();
    let sounds = node->Leaf_0;
    lemma_find(board.walker, key);
    assert(node_wf(node));
    let last = last_index(board.sound_index_map, (key, sounds[0].0));
    lemma_next_index_bound(last, sounds.len(), jitter);
}

/// With two variations or more, two presses in a row that select from the
/// same leaf never select the same variation.
pub proof fn lemma_consecutive_differ(
    board: BoardView,
    id: u32,
    first_jitter: nat,
    second_jitter: nat,
)
    requires
        board.wf(),
        board.pressed_leaf(id) matches Some(sounds) && sounds.len() >= 2,
        board.jitter_ok(id, first_jitter),
        board.step(id, first_jitter).0.pressed_node(id) == board.pressed_node(id),
        board.step(id, first_jitter).0.jitter_ok(id, second_jitter),
        board.step(id, first_jitter).0.may_play(),
    ensures
        ({
            let (key, node) = board.pressed_node(id).unwrap();
            let between = board.step(id, first_jitter).0;
            selected_index(between, key, node->Leaf_0, second_jitter) != selected_index(
                board,
                key,
                node->Leaf_0,
                first_jitter,
            )
        }),
{
    let (key, node) = board.pressed_node(id).unwrap();
    let sounds = node->Leaf_0;
    let between = board.step(id, first_jitter).0;
    lemma_selection(board, id, first_jitter);
    let index = selected_index(board, key, sounds, first_jitter);
    assert(between.pressed_leaf(id) == Some(sounds));
    lemma_never_repeats(index as usize, sounds.len(), second_jitter);
}

/// Descending into a branch and then pressing the root key brings the
/// cursor back to the top menu, with exactly the keys of the top menu bound.
pub proof fn lemma_round_trip(
    board: BoardView,
    id: u32,
    jitter: nat,
    root_id: u32,
    root_jitter: nat,
)
    requires
        board.wf(),
        board.pressed_node(id) matches Some((_, node)) && node is Branch,
        has_id(board.root_hotkeys, root_id),
    ensures
        ({
            let below = board.step(id, jitter).0;
            let back = below.step(root_id, root_jitter).0;
            &&& below.walker == board.pressed_node(id).unwrap().1->Branch_1
            &&& below.nav == nav_of(menu_keys(below.walker))
            &&& back.walker == board.root
            &&& back.nav == nav_of(menu_keys(board.root))
            &&& back.active
        }),
{
}

/// `id` is an id of the toggle key, and of no role key that goes before it.
pub open spec fn is_toggle_press(board: BoardView, id: u32) -> bool {
    &&& !has_id(board.root_hotkeys, id)
    &&& !role_has_id(board.stop_hotkeys, id)
    &&& role_has_id(board.toggle_hotkeys, id)
}

/// Two presses of the toggle key on an active board at the top menu lead to
/// an active board at the top menu with the same navigation bindings. In
/// between the board is off and has none.
pub proof fn lemma_toggle_twice(board: BoardView, id: u32, first_jitter: nat, second_jitter: nat)
    requires
        board.wf(),
        board.active,
        board.walker == board.root,
        is_toggle_press(board, id),
    ensures
        ({
            let off = board.step(id, first_jitter).0;
            let on = off.step(id, second_jitter).0;
            &&& !off.active
            &&& off.nav.len() == 0
            &&& on.active
            &&& on.nav == board.nav
            &&& on.walker == board.walker
        }),
{
    let off = board.step(id, first_jitter).0;
    assert(off.nav =~= Seq::empty());
    assert(off.nav + nav_of(menu_keys(off.root)) =~= nav_of(menu_keys(off.root)));
}

/// On a well-formed board, every bound key has its node in the cursor's menu.
pub proof fn lemma_bound_key_has_node(board: BoardView, id: u32)
    requires
        board.wf(),
        board.active,
        key_of_id(board.nav, id) is Some,
    ensures
        menu_get(board.walker, key_of_id(board.nav, id).unwrap()) is Some,
{
    let keys = menu_keys(board.walker);
    let i = choose|i: int| is_first_id(board.nav, id, i);
    assert(is_first_id(board.nav, id, i));
    let key = board.nav[i].key;
    assert(key == keys[i / 4]);
    assert(board.walker[i / 4].0 == key);
    lemma_find(board.walker, key);
}

/// A press changes neither the catalog nor what the operator chose: the
/// policy, the monitor and the role keys stay as they are.
pub proof fn lemma_step_keeps_settings(board: BoardView, id: u32, jitter: nat)
    ensures
        ({
            let after = board.step(id, jitter).0;
            &&& after.root == board.root
            &&& after.overlap == board.overlap
            &&& after.monitor == board.monitor
            &&& after.root_hotkeys == board.root_hotkeys
            &&& after.stop_hotkeys == board.stop_hotkeys
            &&& after.key_toggle == board.key_toggle
            &&& after.toggle_hotkeys == board.toggle_hotkeys
        }),
{
}

/// `id` is an id of the stop key, and not of the root key, which goes before it.
pub open spec fn is_stop_press(board: BoardView, id: u32) -> bool {
    !has_id(board.root_hotkeys, id) && role_has_id(board.stop_hotkeys, id)
}

/// The stop key stops every sound and changes nothing else: the cursor and
/// the bindings stay where they are.
pub proof fn lemma_stop_only_stops(board: BoardView, id: u32, jitter: nat)
    requires
        is_stop_press(board, id),
    ensures
        board.step(id, jitter).0 == board.stopped(),
        board.step(id, jitter).1 == seq![ActionView::StopAll],
{
    assert(board.step(id, jitter).1 =~= seq![ActionView::StopAll]);
}

/// `id` is an id of no role key.
pub open spec fn is_plain_press(board: BoardView, id: u32) -> bool {
    &&& !has_id(board.root_hotkeys, id)
    &&& !role_has_id(board.stop_hotkeys, id)
    &&& !role_has_id(board.toggle_hotkeys, id)
}

/// A board that is off takes no key but the role keys: any other press
/// changes nothing and asks for nothing.
pub proof fn lemma_off_ignores(board: BoardView, id: u32, jitter: nat)
    requires
        !board.active,
        is_plain_press(board, id),
    ensures
        board.step(id, jitter).0 == board,
        board.step(id, jitter).1 == Seq::<ActionView>::empty(),
{
    assert(board.step(id, jitter).1 =~= Seq::<ActionView>::empty());
}

/// A press of a hotkey that is bound no more changes nothing; the operator
/// is told.
pub proof fn lemma_missed_press(board: BoardView, id: u32, jitter: nat)
    requires
        board.active,
        is_plain_press(board, id),
        key_of_id(board.nav, id) is None,
    ensures
        board.step(id, jitter).0 == board,
        board.step(id, jitter).1 == seq![ActionView::MissedPress],
{
    assert(board.step(id, jitter).1 =~= seq![ActionView::MissedPress]);
}

/// The bindings of a list of keys are those of its keys and no others: the
/// key at `k` is bound under each of the four combinations, and every
/// binding is one of these.
pub proof fn lemma_nav_covers(keys: Seq<Seq<char>>)
    ensures
        nav_of(keys).len() == 4 * keys.len(),
        forall|k: int, c: int|
            0 <= k < keys.len() && 0 <= c < 4 ==> #[trigger] nav_of(keys)[4 * k + c] == (
            BindingView { key: keys[k], combo: combo_at(c) }),
        forall|i: int|
            0 <= i < nav_of(keys).len() ==> keys.contains((#[trigger] nav_of(keys)[i]).key),
{
    assert forall|i: int| 0 <= i < nav_of(keys).len() implies keys.contains(
        (#[trigger] nav_of(keys)[i]).key,
    ) by {
        assert(keys[i / 4] == nav_of(keys)[i].key);
    }
}

} // verus!
