//! The soundboard as a mathematical value, and its transitions.

use super::Command;
use crate::action::{registers, try_registers, try_unregisters, unregisters, ActionView, Playing};
use crate::config::{OverlapBehavior, Settings};
use crate::display::{inactive_text, menu_text};
use crate::hotkeys::{has_id, key_of_id, nav_of, variations, BindingView};
use crate::keys::{opt_key, Key};
use crate::soundtree::{menu_get, menu_keys, menu_wf, MenuView, NodeView, SoundId};
use crate::variants::{jitter_fits, next_index, CountersView};
use vstd::prelude::*;

verus! {

/// A board as a mathematical value.
pub struct BoardView {
    /// The top menu of the catalog.
    pub root: MenuView,
    /// The menu the cursor is at.
    pub walker: MenuView,
    pub overlap: OverlapBehavior,
    pub monitor: bool,
    /// The bindings of the key that returns to the top menu.
    pub root_hotkeys: Seq<BindingView>,
    /// The bindings of the key that stops playback, if there is one.
    pub stop_hotkeys: Option<Seq<BindingView>>,
    /// The key that switches the board off and on, if there is one.
    pub key_toggle: Option<Seq<char>>,
    /// The bindings of that key.
    pub toggle_hotkeys: Option<Seq<BindingView>>,
    pub active: bool,
    /// The bindings registered for the keys of the cursor's menu.
    pub nav: Seq<BindingView>,
    /// The sounds in flight, oldest first.
    pub handles: Seq<Playing>,
    pub sound_index_map: CountersView,
}

/// `menu` is `root` or a menu somewhere below it.
pub open spec fn is_submenu(menu: MenuView, root: MenuView) -> bool
    decreases root,
{
    menu == root || exists|i: int|
        0 <= i < root.len() && (#[trigger] root[i]).1 is Branch && is_submenu(
            menu,
            root[i].1->Branch_1,
        )
}

/// Some binding of an optional role key has the id `id`.
pub open spec fn role_has_id(hotkeys: Option<Seq<BindingView>>, id: u32) -> bool {
    match hotkeys {
        Some(h) => has_id(h, id),
        None => false,
    }
}

/// The lenient release of the bindings of an optional role key.
pub open spec fn role_try_unregisters(hotkeys: Option<Seq<BindingView>>) -> Seq<ActionView> {
    match hotkeys {
        Some(h) => try_unregisters(h),
        None => Seq::empty(),
    }
}

/// The counter of a leaf, if it has played.
pub open spec fn last_index(counters: CountersView, pair: (Seq<char>, Seq<char>)) -> Option<usize> {
    if counters.contains_key(pair) {
        Some(counters[pair])
    } else {
        None
    }
}

impl BoardView {
    /// The board's own invariant: the cursor is in the catalog; an active
    /// board has exactly the keys of the cursor's menu bound, and a board
    /// that is off has none bound, its cursor at the top and nothing in
    /// flight. Only a board with a toggle key can be off.
    pub open spec fn wf(self) -> bool {
        &&& menu_wf(self.root)
        &&& menu_wf(self.walker)
        &&& is_submenu(self.walker, self.root)
        &&& self.active ==> self.nav == nav_of(menu_keys(self.walker))
        &&& !self.active ==> self.nav.len() == 0 && self.walker == self.root
        &&& !self.active ==> self.handles.len() == 0
        &&& self.toggle_hotkeys is Some ==> self.key_toggle is Some
        &&& !self.active ==> self.key_toggle is Some
    }

    /// What the operator sees: the cursor's menu, or that the board is off.
    pub open spec fn screen(self) -> Seq<Seq<char>> {
        if self.active {
            menu_text(self.walker, self.key_toggle)
        } else {
            seq![inactive_text(self.key_toggle->0)]
        }
    }

    /// The board with nothing in flight.
    pub open spec fn stopped(self) -> BoardView {
        BoardView { handles: Seq::empty(), ..self }
    }

    /// The node that a press of `id` reaches: the press is for no role key,
    /// the board is active, and the id belongs to a navigation binding.
    pub open spec fn pressed_node(self, id: u32) -> Option<(Seq<char>, NodeView)> {
        if has_id(self.root_hotkeys, id) || role_has_id(self.stop_hotkeys, id) || role_has_id(
            self.toggle_hotkeys,
            id,
        ) || !self.active {
            None
        } else {
            match key_of_id(self.nav, id) {
                Some(key) => match menu_get(self.walker, key) {
                    Some(node) => Some((key, node)),
                    None => None,
                },
                None => None,
            }
        }
    }

    /// The policy lets a leaf play now.
    pub open spec fn may_play(self) -> bool {
        !(self.overlap == OverlapBehavior::Prevent && self.handles.len() > 0)
    }

    /// The variations among which a press of `id` selects one to play.
    pub open spec fn pressed_leaf(self, id: u32) -> Option<Seq<(Seq<char>, SoundId)>> {
        match self.pressed_node(id) {
            Some((_, NodeView::Leaf(sounds))) => if self.may_play() {
                Some(sounds)
            } else {
                None
            },
            _ => None,
        }
    }

    /// `jitter` can serve as the random amount for a press of `id`.
    pub open spec fn jitter_ok(self, id: u32, jitter: nat) -> bool {
        match self.pressed_leaf(id) {
            Some(sounds) => jitter_fits(sounds.len(), jitter),
            None => true,
        }
    }

    /// The press of a leaf: the counter of the leaf moves on, and the
    /// variation it comes to is to be played.
    pub open spec fn select(
        self,
        key: Seq<char>,
        sounds: Seq<(Seq<char>, SoundId)>,
        jitter: nat,
    ) -> (BoardView, Seq<ActionView>, Command) {
        let pair = (key, sounds[0].0);
        let index = next_index(last_index(self.sound_index_map, pair), sounds.len(), jitter);
        (
            BoardView {
                sound_index_map: self.sound_index_map.insert(pair, index as usize),
                ..self
            },
            Seq::empty(),
            Command::Play(Playing { sound: sounds[index as int].1, monitor: self.monitor }),
        )
    }

    /// The press of a branch: the cursor moves into its menu, whose keys
    /// take the place of the bound ones; the root key is bound on the way.
    pub open spec fn descend(self, menu: MenuView) -> (BoardView, Seq<ActionView>, Command) {
        let nav = nav_of(menu_keys(menu));
        (
            BoardView { walker: menu, nav, ..self },
            try_registers(self.root_hotkeys) + unregisters(self.nav) + registers(nav),
            Command::NoChange,
        )
    }

    /// The press of the toggle key.
    pub open spec fn toggle(self) -> (BoardView, Seq<ActionView>, Command) {
        if self.active {
            (
                BoardView { active: false, nav: Seq::empty(), handles: Seq::empty(), ..self },
                unregisters(self.nav).push(ActionView::StopAll),
                Command::Reset,
            )
        } else {
            let nav = nav_of(menu_keys(self.root));
            (
                BoardView { active: true, nav: self.nav + nav, handles: Seq::empty(), ..self },
                registers(nav).push(ActionView::StopAll),
                Command::Reset,
            )
        }
    }

    /// What a press of the hotkey `id` comes to. The role keys go first:
    /// root, then stop, then toggle. A board that is off takes no other key.
    pub open spec fn decide(self, id: u32, jitter: nat) -> (BoardView, Seq<ActionView>, Command) {
        if has_id(self.root_hotkeys, id) {
            (self.stopped(), seq![ActionView::StopAll], Command::Reset)
        } else if role_has_id(self.stop_hotkeys, id) {
            (self.stopped(), seq![ActionView::StopAll], Command::NoChange)
        } else if role_has_id(self.toggle_hotkeys, id) {
            self.toggle()
        } else if !self.active {
            (self, Seq::empty(), Command::NoChange)
        } else {
            match key_of_id(self.nav, id) {
                None => (self, seq![ActionView::MissedPress], Command::NoChange),
                Some(key) => match menu_get(self.walker, key) {
                    Some(NodeView::Leaf(sounds)) => if self.may_play() {
                        self.select(key, sounds, jitter)
                    } else {
                        (self, Seq::empty(), Command::Reset)
                    },
                    Some(NodeView::Branch(_, menu)) => self.descend(menu),
                    None => (self, Seq::empty(), Command::NoChange),
                },
            }
        }
    }

    /// The return to the top menu: the root key is released, an active board
    /// binds the keys of the top menu in place of the bound ones, and the
    /// stop key is bound on an active board and released on one that is off.
    pub open spec fn reset(self) -> (BoardView, Seq<ActionView>) {
        let nav = nav_of(menu_keys(self.root));
        (
            BoardView {
                walker: self.root,
                nav: if self.active {
                    nav
                } else {
                    self.nav
                },
                ..self
            },
            try_unregisters(self.root_hotkeys) + (if self.active {
                unregisters(self.nav) + registers(nav)
            } else {
                Seq::empty()
            }) + (match self.stop_hotkeys {
                Some(h) => if self.active {
                    try_registers(h)
                } else {
                    try_unregisters(h)
                },
                None => Seq::empty(),
            }),
        )
    }

    /// The start of a sound: under `Replace` all in flight are stopped
    /// first, and the new one is then the only one in flight.
    pub open spec fn start(self, playing: Playing) -> (BoardView, Seq<ActionView>) {
        if self.overlap == OverlapBehavior::Replace {
            (
                BoardView { handles: seq![playing], ..self },
                seq![ActionView::StopAll, ActionView::Play(playing)],
            )
        } else {
            (
                BoardView { handles: self.handles.push(playing), ..self },
                seq![ActionView::Play(playing)],
            )
        }
    }

    /// What follows the decision.
    pub open spec fn settle(self, command: Command) -> (BoardView, Seq<ActionView>) {
        match command {
            Command::Play(playing) => {
                let (started, first) = self.start(playing);
                let (settled, then) = started.reset();
                (settled, first + then)
            },
            Command::Reset => self.reset(),
            Command::NoChange => (self, Seq::empty()),
        }
    }

    /// One press of the hotkey `id`: the board after it, and the actions it asks for.
    pub open spec fn step(self, id: u32, jitter: nat) -> (BoardView, Seq<ActionView>) {
        let (decided, first, command) = self.decide(id, jitter);
        let (settled, then) = decided.settle(command);
        (settled, first + then)
    }

    /// The board once the sounds that have ended are forgotten.
    pub open spec fn purged(self, playing: Seq<bool>) -> BoardView {
        BoardView { handles: still_playing(self.handles, playing), ..self }
    }

    /// The end of the session: every role key is released as far as that
    /// succeeds, then the bound keys are released up to the first that fails.
    pub open spec fn shutdown(self) -> Seq<ActionView> {
        try_unregisters(self.root_hotkeys) + role_try_unregisters(self.stop_hotkeys)
            + role_try_unregisters(self.toggle_hotkeys) + unregisters(self.nav)
    }
}

/// The sounds that are still in flight: those whose flag says so. A sound
/// without a flag has ended.
pub open spec fn still_playing(handles: Seq<Playing>, playing: Seq<bool>) -> Seq<Playing>
    decreases handles.len(),
{
    if handles.len() == 0 {
        Seq::empty()
    } else {
        let before = still_playing(handles.drop_last(), playing);
        if handles.len() <= playing.len() && playing[handles.len() - 1] {
            before.push(handles.last())
        } else {
            before
        }
    }
}

/// The bindings of an optional role key.
pub open spec fn role_variations(key: Option<Key>) -> Option<Seq<BindingView>> {
    match key {
        Some(k) => Some(variations(k@)),
        None => None,
    }
}

/// The registrations of the bindings of an optional role key.
pub open spec fn role_registers(key: Option<Key>) -> Seq<ActionView> {
    match key {
        Some(k) => registers(variations(k@)),
        None => Seq::empty(),
    }
}

/// The board at the start of a session: active, at the top menu, nothing in
/// flight and no counter yet.
pub open spec fn initial_board(root: MenuView, settings: Settings) -> BoardView {
    BoardView {
        root,
        walker: root,
        overlap: settings.overlap,
        monitor: settings.monitor,
        root_hotkeys: variations(settings.key_root@),
        stop_hotkeys: role_variations(settings.key_stop),
        key_toggle: opt_key(settings.key_toggle),
        toggle_hotkeys: role_variations(settings.key_toggle),
        active: true,
        nav: nav_of(menu_keys(root)),
        handles: Seq::empty(),
        sound_index_map: Map::empty(),
    }
}

/// The actions at the start of a session: the stop key, the toggle key and
/// the keys of the top menu are bound. The root key is not: at the top there
/// is nowhere to return from.
pub open spec fn initial_actions(root: MenuView, settings: Settings) -> Seq<ActionView> {
    role_registers(settings.key_stop) + role_registers(settings.key_toggle) + registers(
        nav_of(menu_keys(root)),
    )
}

} // verus!
