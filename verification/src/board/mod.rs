//! The navigation and playback state machine.
//!
//! A board holds a cursor into the catalog, the hotkeys that are bound for
//! the cursor's menu, the sounds in flight and the variation counters. Each
//! press of a hotkey is one transition: it changes the board and returns the
//! actions for the caller to perform on the hotkey service and the audio
//! outputs.
//!
//! The transition is defined on mathematical values in [`model`]; the
//! board here carries it out, and [`theorems`] holds what follows from it.

use crate::action::{actions_view, emit, unregisters, Action, ActionView, Playing};
use crate::config::{OverlapBehavior, Settings};
use crate::display::{all_named, has_name, lines_view, nav_lines, soundboard_inactive_text};
use crate::hotkeys::{
    bindings_view, contains_id, find_key, hotkey_variations, nav_of, register_hotkeys_fallible,
    register_nav, register_optional_hotkey_map, replace_nav, unregister_hotkeys_fallible,
    unregister_nav, Binding, BindingView,
};
use crate::keys::{opt_key, Key};
use crate::soundtree::{
    lemma_find, menu_get, menu_keys, node_wf, sounds_view, SoundMap, SoundNode, SoundTree,
};
use crate::variants::{advance, draw_jitter, SoundIndexMap};
use model::{initial_actions, initial_board, role_registers, still_playing, BoardView};
use theorems::lemma_step_wf;
use vstd::prelude::*;

pub mod model;
pub mod theorems;

verus! {

/// What a press came to, before the board settles.
#[derive(Clone, Copy, PartialEq, Eq, Structural, Debug)]
pub enum Command {
    /// Start this sound, then return to the top menu.
    Play(Playing),
    /// Return to the top menu.
    Reset,
    /// Stay.
    NoChange,
}

/// What the hotkey service reports of a hotkey.
#[derive(Clone, Copy, PartialEq, Eq, Structural, Debug)]
pub enum KeyState {
    /// The key went down.
    Pressed,
    /// The key went up.
    Released,
}

/// The soundboard of one session.
pub struct Soundboard<'a> {
    root: &'a SoundMap,
    walker: &'a SoundMap,
    overlap: OverlapBehavior,
    monitor: bool,
    root_hotkeys: Vec<Binding>,
    stop_hotkeys: Option<Vec<Binding>>,
    key_toggle: Option<Key>,
    toggle_hotkeys: Option<Vec<Binding>>,
    soundboard_active: bool,
    nav: Vec<Binding>,
    handles: Vec<Playing>,
    sound_index_map: SoundIndexMap,
}

/// The views of the bindings of an optional role key.
pub open spec fn role_view(hotkeys: Option<Vec<Binding>>) -> Option<Seq<BindingView>> {
    match hotkeys {
        Some(h) => Some(bindings_view(h@)),
        None => None,
    }
}

impl<'a> Soundboard<'a> {
    pub closed spec fn view(&self) -> BoardView {
        BoardView {
            root: self.root.view(),
            walker: self.walker.view(),
            overlap: self.overlap,
            monitor: self.monitor,
            root_hotkeys: bindings_view(self.root_hotkeys@),
            stop_hotkeys: role_view(self.stop_hotkeys),
            key_toggle: opt_key(self.key_toggle),
            toggle_hotkeys: role_view(self.toggle_hotkeys),
            active: self.soundboard_active,
            nav: bindings_view(self.nav@),
            handles: self.handles@,
            sound_index_map: self.sound_index_map.view(),
        }
    }

    pub open spec fn wf(&self) -> bool {
        self.view().wf()
    }

    /// Starts a session on a catalog.
    pub fn new(tree: &'a SoundTree, settings: &Settings) -> (started: (Soundboard<'a>, Vec<Action>))
        requires
            tree.wf(),
        ensures
            started.0.view() == initial_board(tree.view(), *settings),
            actions_view(started.1@) == initial_actions(tree.view(), *settings),
            started.0.wf(),
    {
        let mut actions: Vec<Action> = Vec::new();
        assert(actions_view(actions@) =~= Seq::empty());
        let root_hotkeys = hotkey_variations(&settings.key_root);
        let stop_hotkeys = register_optional_hotkey_map(settings.key_stop.as_ref(), &mut actions);
        assert(actions_view(actions@) =~= role_registers(settings.key_stop));
        let toggle_hotkeys = register_optional_hotkey_map(
            settings.key_toggle.as_ref(),
            &mut actions,
        );
        let mut nav: Vec<Binding> = Vec::new();
        assert(bindings_view(nav@) =~= Seq::empty());
        register_nav(tree.root(), &mut nav, &mut actions);
        assert(bindings_view(nav@) =~= nav_of(menu_keys(tree.view())));
        let board = Soundboard {
            root: tree.root(),
            walker: tree.root(),
            overlap: settings.overlap,
            monitor: settings.monitor,
            root_hotkeys,
            stop_hotkeys,
            key_toggle: match &settings.key_toggle {
                Some(key) => Some(key.clone()),
                None => None,
            },
            toggle_hotkeys,
            soundboard_active: true,
            nav,
            handles: Vec::new(),
            sound_index_map: SoundIndexMap::new(),
        };
        assert(board.view().handles =~= Seq::empty());
        (board, actions)
    }

    /// Whether the board takes navigation keys.
    pub fn is_active(&self) -> (active: bool)
        ensures
            active == self.view().active,
    {
        self.soundboard_active
    }

    /// The menu the cursor is at.
    pub fn walker(&self) -> (menu: &'a SoundMap)
        ensures
            menu.view() == self.view().walker,
    {
        self.walker
    }

    /// The bindings registered for the cursor's menu.
    pub fn nav(&self) -> (nav: &Vec<Binding>)
        ensures
            bindings_view(nav@) == self.view().nav,
    {
        &self.nav
    }

    /// The sounds in flight, oldest first.
    pub fn handles(&self) -> (handles: &Vec<Playing>)
        ensures
            handles@ == self.view().handles,
    {
        &self.handles
    }

    /// Writes what the operator sees, line by line.
    pub fn screen(&self) -> (lines: Vec<String>)
        requires
            self.wf(),
        ensures
            lines_view(lines@) == self.view().screen(),
    {
        if self.soundboard_active {
            assert(all_named(self.walker.view())) by {
                assert forall|i: int| 0 <= i < self.walker.view().len() implies has_name(
                    (#[trigger] self.walker.view()[i]).1,
                ) by {
                    assert(node_wf(self.walker.view()[i].1));
                }
            }
            nav_lines(self.walker, self.key_toggle.as_ref())
        } else {
            let mut lines: Vec<String> = Vec::new();
            match &self.key_toggle {
                Some(key) => {
                    lines.push(soundboard_inactive_text(key));
                },
                None => {},
            }
            assert(lines_view(lines@) =~= self.view().screen());
            lines
        }
    }

    /// Forgets the sounds that have ended: `playing` says of each sound in
    /// flight, oldest first, whether it still plays.
    pub fn retain_playing(&mut self, playing: &Vec<bool>)
        ensures
            final(self).view() == old(self).view().purged(playing@),
            old(self).wf() ==> final(self).wf(),
    {
        let mut kept: Vec<Playing> = Vec::new();
        let mut i: usize = 0;
        assert(self.handles@.take(0) =~= Seq::empty());
        while i < self.handles.len()
            invariant
                i <= self.handles@.len(),
                *self == *old(self),
                kept@ == still_playing(self.handles@.take(i as int), playing@),
            decreases self.handles@.len() - i,
        {
            assert(self.handles@.take(i + 1).drop_last() =~= self.handles@.take(i as int));
            if i < playing.len() && playing[i] {
                kept.push(self.handles[i]);
            }
            i += 1;
        }
        assert(self.handles@.take(self.handles@.len() as int) =~= self.handles@);
        self.handles = kept;
    }

    /// Asks for every sound in flight to be stopped, and forgets them.
    fn stop_playback(&mut self, actions: &mut Vec<Action>)
        ensures
            final(self).view() == old(self).view().stopped(),
            actions_view(final(actions)@) == actions_view(old(actions)@).push(ActionView::StopAll),
    {
        emit(actions, Action::StopAll);
        self.handles.clear();
        assert(self.handles@ =~= Seq::empty());
    }

    /// The first part of a press: what it comes to, with the changes and
    /// actions that do not wait for the board to settle.
    fn decide(&mut self, id: u32, jitter: usize, actions: &mut Vec<Action>) -> (command: Command)
        requires
            old(self).wf(),
            old(self).view().jitter_ok(id, jitter as nat),
        ensures
            final(self).view() == old(self).view().decide(id, jitter as nat).0,
            actions_view(final(actions)@) == actions_view(old(actions)@) + old(
                self,
            ).view().decide(id, jitter as nat).1,
            command == old(self).view().decide(id, jitter as nat).2,
    {
        let ghost before = self.view();
        let ghost done = actions_view(actions@);
        assert(done + Seq::<ActionView>::empty() =~= done);
        if contains_id(&self.root_hotkeys, id) {
            self.stop_playback(actions);
            assert(done.push(ActionView::StopAll) =~= done + seq![ActionView::StopAll]);
            return Command::Reset;
        }
        let is_stop = match &self.stop_hotkeys {
            Some(hotkeys) => contains_id(hotkeys, id),
            None => false,
        };
        if is_stop {
            self.stop_playback(actions);
            assert(done.push(ActionView::StopAll) =~= done + seq![ActionView::StopAll]);
            return Command::NoChange;
        }
        let is_toggle = match &self.toggle_hotkeys {
            Some(hotkeys) => contains_id(hotkeys, id),
            None => false,
        };
        if is_toggle {
            if self.soundboard_active {
                unregister_nav(&mut self.nav, actions);
                assert(bindings_view(self.nav@) =~= Seq::empty());
            } else {
                register_nav(self.root, &mut self.nav, actions);
            }
            self.stop_playback(actions);
            self.soundboard_active = !self.soundboard_active;
            assert(actions_view(actions@) =~= done + before.toggle().1);
            return Command::Reset;
        }
        if !self.soundboard_active {
            return Command::NoChange;
        }
        let key = match find_key(&self.nav, id) {
            Some(key) => key.clone(),
            None => {
                emit(actions, Action::MissedPress);
                assert(done.push(ActionView::MissedPress) =~= done + seq![ActionView::MissedPress]);
                return Command::NoChange;
            },
        };
        let walker: &'a SoundMap = self.walker;
        match walker.get(&key) {
            Some(SoundNode::Leaf(sounds)) => {
                let prevented = match self.overlap {
                    OverlapBehavior::Prevent => self.handles.len() > 0,
                    _ => false,
                };
                if prevented {
                    return Command::Reset;
                }
                proof {
                    lemma_find(before.walker, key@);
                    assert(node_wf(menu_get(before.walker, key@).unwrap()));
                    assert(before.pressed_leaf(id) == Some(sounds_view(sounds@)));
                }
                let ghost views = sounds_view(sounds@);
                let name = sounds[0].0.as_str();
                let last = self.sound_index_map.get(&key, name);
                let index = advance(last, sounds.len(), jitter);
                self.sound_index_map.set(&key, name, index);
                assert(views[0].0 == name@);
                assert(views[index as int].1 == sounds@[index as int].1);
                Command::Play(Playing { sound: sounds[index].1, monitor: self.monitor })
            },
            Some(SoundNode::Branch((_, sub_map))) => {
                register_hotkeys_fallible(&self.root_hotkeys, actions);
                replace_nav(sub_map, &mut self.nav, actions);
                self.walker = sub_map;
                assert(actions_view(actions@) =~= done + before.descend(sub_map.view()).1);
                Command::NoChange
            },
            None => Command::NoChange,
        }
    }

    /// The return to the top menu.
    fn reset(&mut self, actions: &mut Vec<Action>)
        ensures
            final(self).view() == old(self).view().reset().0,
            actions_view(final(actions)@) == actions_view(old(actions)@) + old(
                self,
            ).view().reset().1,
    {
        let ghost before = self.view();
        let ghost done = actions_view(actions@);
        unregister_hotkeys_fallible(&self.root_hotkeys, actions);
        if self.soundboard_active {
            replace_nav(self.root, &mut self.nav, actions);
        }
        match &self.stop_hotkeys {
            Some(hotkeys) => {
                if self.soundboard_active {
                    register_hotkeys_fallible(hotkeys, actions);
                } else {
                    unregister_hotkeys_fallible(hotkeys, actions);
                }
            },
            None => {},
        }
        self.walker = self.root;
        assert(actions_view(actions@) =~= done + before.reset().1);
    }

    /// The second part of a press: a sound to play is started, and the
    /// board returns to the top menu unless the press changed nothing.
    fn settle(&mut self, command: Command, actions: &mut Vec<Action>)
        ensures
            final(self).view() == old(self).view().settle(command).0,
            actions_view(final(actions)@) == actions_view(old(actions)@) + old(
                self,
            ).view().settle(command).1,
    {
        let ghost before = self.view();
        let ghost done = actions_view(actions@);
        match command {
            Command::Play(playing) => {
                match self.overlap {
                    OverlapBehavior::Replace => {
                        self.stop_playback(actions);
                    },
                    _ => {},
                }
                emit(actions, Action::Play(playing));
                self.handles.push(playing);
                assert(self.view() == before.start(playing).0) by {
                    assert(self.view().handles =~= before.start(playing).0.handles);
                }
                assert(actions_view(actions@) =~= done + before.start(playing).1);
                self.reset(actions);
                assert(actions_view(actions@) =~= done + before.settle(command).1);
            },
            Command::Reset => {
                self.reset(actions);
            },
            Command::NoChange => {
                assert(done + Seq::<ActionView>::empty() =~= done);
            },
        }
    }

    /// The number of variations among which a press of `id` would select
    /// one to play, if it would play one.
    pub fn pressed_variations(&self, id: u32) -> (count: Option<usize>)
        ensures
            match self.view().pressed_leaf(id) {
                Some(sounds) => count == Some(sounds.len() as usize),
                None => count is None,
            },
    {
        if contains_id(&self.root_hotkeys, id) {
            return None;
        }
        let is_stop = match &self.stop_hotkeys {
            Some(hotkeys) => contains_id(hotkeys, id),
            None => false,
        };
        let is_toggle = match &self.toggle_hotkeys {
            Some(hotkeys) => contains_id(hotkeys, id),
            None => false,
        };
        if is_stop || is_toggle || !self.soundboard_active {
            return None;
        }
        let prevented = match self.overlap {
            OverlapBehavior::Prevent => self.handles.len() > 0,
            _ => false,
        };
        match find_key(&self.nav, id) {
            Some(key) => match self.walker.get(key) {
                Some(SoundNode::Leaf(sounds)) => if prevented {
                    None
                } else {
                    Some(sounds.len())
                },
                _ => None,
            },
            None => None,
        }
    }

    /// Takes one press of the hotkey `id`: changes the board and returns
    /// the actions to perform, in order. Where the press selects among more
    /// than two variations, the amount the counter moves by is drawn at random.
    pub fn press(&mut self, id: u32) -> (actions: Vec<Action>)
        requires
            old(self).wf(),
        ensures
            exists|jitter: nat|
                {
                    &&& old(self).view().jitter_ok(id, jitter)
                    &&& final(self).view() == (#[trigger] old(self).view().step(id, jitter)).0
                    &&& actions_view(actions@) == old(self).view().step(id, jitter).1
                },
            final(self).wf(),
    {
        let jitter = match self.pressed_variations(id) {
            Some(count) => draw_jitter(count),
            None => 1,
        };
        self.press_with(id, jitter)
    }

    /// Takes one event of the hotkey service. Only a press counts: the
    /// sounds that have ended are forgotten first (`playing` says of each
    /// sound in flight, oldest first, whether it still plays), then the press
    /// is taken. Any other event changes nothing and asks for nothing, not
    /// even for the screen to be drawn again.
    pub fn event(&mut self, id: u32, state: KeyState, playing: &Vec<bool>) -> (actions: Option<
        Vec<Action>,
    >)
        requires
            old(self).wf(),
        ensures
            state != KeyState::Pressed ==> actions is None && final(self).view() == old(
                self,
            ).view(),
            state == KeyState::Pressed ==> actions is Some && exists|jitter: nat|
                {
                    &&& old(self).view().purged(playing@).jitter_ok(id, jitter)
                    &&& final(self).view() == (#[trigger] old(self).view().purged(playing@).step(
                        id,
                        jitter,
                    )).0
                    &&& actions_view(actions->0@) == old(self).view().purged(playing@).step(
                        id,
                        jitter,
                    ).1
                },
            final(self).wf(),
    {
        match state {
            KeyState::Pressed => {
                self.retain_playing(playing);
                Some(self.press(id))
            },
            KeyState::Released => None,
        }
    }

    /// Ends the session: asks for every binding that may be registered to
    /// be released. The role keys come first and are released leniently; the
    /// release of the navigation bindings ends at the first that fails.
    pub fn shutdown(&self) -> (actions: Vec<Action>)
        ensures
            actions_view(actions@) == self.view().shutdown(),
    {
        let mut actions: Vec<Action> = Vec::new();
        assert(actions_view(actions@) =~= Seq::empty());
        unregister_hotkeys_fallible(&self.root_hotkeys, &mut actions);
        match &self.stop_hotkeys {
            Some(hotkeys) => unregister_hotkeys_fallible(hotkeys, &mut actions),
            None => {},
        }
        match &self.toggle_hotkeys {
            Some(hotkeys) => unregister_hotkeys_fallible(hotkeys, &mut actions),
            None => {},
        }
        let ghost done = actions_view(actions@);
        let mut i: usize = 0;
        assert(done + unregisters(bindings_view(self.nav@)).take(0) =~= done);
        while i < self.nav.len()
            invariant
                i <= self.nav@.len(),
                actions_view(actions@) == done + unregisters(bindings_view(self.nav@)).take(
                    i as int,
                ),
            decreases self.nav@.len() - i,
        {
            let ghost so_far = actions_view(actions@);
            emit(&mut actions, Action::Unregister(self.nav[i].clone()));
            assert(so_far.push(unregisters(bindings_view(self.nav@))[i as int]) =~= done
                + unregisters(bindings_view(self.nav@)).take(i + 1));
            i += 1;
        }
        assert(unregisters(bindings_view(self.nav@)).take(self.nav@.len() as int) =~= unregisters(
            bindings_view(self.nav@),
        ));
        assert(actions_view(actions@) =~= self.view().shutdown());
        actions
    }

    /// Takes one press of the hotkey `id`, with `jitter` as the random
    /// amount: changes the board and returns the actions to perform, in order.
    pub fn press_with(&mut self, id: u32, jitter: usize) -> (actions: Vec<Action>)
        requires
            old(self).wf(),
            old(self).view().jitter_ok(id, jitter as nat),
        ensures
            final(self).view() == old(self).view().step(id, jitter as nat).0,
            actions_view(actions@) == old(self).view().step(id, jitter as nat).1,
            final(self).wf(),
    {
        let ghost before = self.view();
        let mut actions: Vec<Action> = Vec::new();
        assert(actions_view(actions@) =~= Seq::empty());
        let command = self.decide(id, jitter, &mut actions);
        assert(actions_view(actions@) =~= before.decide(id, jitter as nat).1);
        self.settle(command, &mut actions);
        proof {
            lemma_step_wf(before, id, jitter as nat);
        }
        actions
    }
}

} // verus!
