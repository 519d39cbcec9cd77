//! Global hotkey bindings: every key is bound once under each of four
//! modifier combinations, so that a press is seen whatever the operator holds.

use crate::action::{
    actions_view, emit, registers, try_registers, try_unregisters, unregisters, Action, ActionView,
};
use crate::keys::{key_code_name, opt_key_ref, Key};
use crate::soundtree::{menu_keys, SoundMap};
use global_hotkey::hotkey::{Code, HotKey, Modifiers};
use std::str::FromStr;
use vstd::prelude::*;

verus! {

/// The modifiers held with a key.
#[derive(Clone, Copy, PartialEq, Eq, Structural, Debug)]
pub enum Combo {
    Plain,
    Control,
    Shift,
    ControlShift,
}

impl Combo {
    /// Control is held.
    pub open spec fn control(self) -> bool {
        self == Combo::Control || self == Combo::ControlShift
    }

    /// Shift is held.
    pub open spec fn shift(self) -> bool {
        self == Combo::Shift || self == Combo::ControlShift
    }
}

/// The combination at place `i` of a key's four bindings.
pub open spec fn combo_at(i: int) -> Combo {
    if i == 0 {
        Combo::Plain
    } else if i == 1 {
        Combo::Control
    } else if i == 2 {
        Combo::Shift
    } else {
        Combo::ControlShift
    }
}

/// The id that the hotkey service gives to the binding of the key named
/// `key` under the given modifiers.
pub uninterp spec fn hotkey_id(control: bool, shift: bool, key: Seq<char>) -> u32;

/// Builds the hotkey of `key` under `combo` with `HotKey::new` and reads its
/// id. The key name is turned back into its `Code` with `Code::from_str`,
/// which succeeds on every name of a key code.
///
/// Trusted: the id is a function of the modifiers and the key name alone.
/// `HotKey::new` hashes the text of the hotkey with `DefaultHasher::new()`,
/// whose keys are fixed, so that the same hotkey has the same id in every
/// run.
#[verifier::external_body]
fn new_hotkey_id(combo: Combo, key: &str) -> (id: u32)
    requires
        key_code_name(key@) is Some,
    ensures
        id == hotkey_id(combo.control(), combo.shift(), key@),
{
    let mods = match combo {
        Combo::Plain => Modifiers::empty(),
        Combo::Control => Modifiers::CONTROL,
        Combo::Shift => Modifiers::SHIFT,
        Combo::ControlShift => Modifiers::CONTROL | Modifiers::SHIFT,
    };
    HotKey::new(Some(mods), Code::from_str(key).unwrap()).id()
}

/// A binding as a mathematical value.
pub struct BindingView {
    pub key: Seq<char>,
    pub combo: Combo,
}

impl BindingView {
    /// The id under which presses of this binding are reported.
    pub open spec fn id(self) -> u32 {
        hotkey_id(self.combo.control(), self.combo.shift(), self.key)
    }
}

/// One global hotkey: a key under one modifier combination.
#[derive(Debug, PartialEq, Eq)]
pub struct Binding {
    key: Key,
    combo: Combo,
    id: u32,
}

impl View for Binding {
    type V = BindingView;

    closed spec fn view(&self) -> BindingView {
        BindingView { key: self.key@, combo: self.combo }
    }
}

impl Binding {
    /// The stored id is the one the hotkey service computes.
    #[verifier::type_invariant]
    pub closed spec fn id_matches(self) -> bool {
        self.id == hotkey_id(self.combo.control(), self.combo.shift(), self.key@)
    }

    /// The binding of `key` under `combo`.
    pub fn new(key: &Key, combo: Combo) -> (binding: Binding)
        ensures
            binding@ == (BindingView { key: key@, combo }),
    {
        let id = new_hotkey_id(combo, key.name());
        Binding { key: key.clone(), combo, id }
    }

    /// The key that is bound.
    pub fn key(&self) -> (key: &Key)
        ensures
            key@ == self@.key,
    {
        &self.key
    }

    /// The modifiers it is bound under.
    pub fn combo(&self) -> (combo: Combo)
        ensures
            combo == self@.combo,
    {
        self.combo
    }

    /// The id under which presses of this binding are reported.
    pub fn id(&self) -> (id: u32)
        ensures
            id == self@.id(),
    {
        proof {
            use_type_invariant(self);
        }
        self.id
    }
}

impl Clone for Binding {
    fn clone(&self) -> (binding: Binding)
        ensures
            binding@ == self@,
    {
        proof {
            use_type_invariant(self);
        }
        Binding { key: self.key.clone(), combo: self.combo, id: self.id }
    }
}

/// The views of a list of bindings.
pub open spec fn bindings_view(bindings: Seq<Binding>) -> Seq<BindingView> {
    Seq::new(bindings.len(), |i: int| bindings[i]@)
}

/// The four bindings of one key: bare, with control, with shift, with both.
pub open spec fn variations(key: Seq<char>) -> Seq<BindingView> {
    Seq::new(4, |i: int| BindingView { key, combo: combo_at(i) })
}

/// The bindings of a list of keys: the four of the first key, then the four
/// of the second, and so on.
pub open spec fn nav_of(keys: Seq<Seq<char>>) -> Seq<BindingView> {
    Seq::new(4 * keys.len(), |i: int| BindingView { key: keys[i / 4], combo: combo_at(i % 4) })
}

/// Some binding of the list has the id `id`.
pub open spec fn has_id(bindings: Seq<BindingView>, id: u32) -> bool {
    exists|i: int| 0 <= i < bindings.len() && (#[trigger] bindings[i]).id() == id
}

/// The binding at `i` is the first of the list with the id `id`.
pub open spec fn is_first_id(bindings: Seq<BindingView>, id: u32, i: int) -> bool {
    &&& 0 <= i < bindings.len()
    &&& bindings[i].id() == id
    &&& forall|j: int| 0 <= j < i ==> (#[trigger] bindings[j]).id() != id
}

/// The key of the first binding with the id `id`.
pub open spec fn key_of_id(bindings: Seq<BindingView>, id: u32) -> Option<Seq<char>> {
    if exists|i: int| is_first_id(bindings, id, i) {
        Some(bindings[choose|i: int| is_first_id(bindings, id, i)].key)
    } else {
        None
    }
}

/// The four bindings of one key.
pub fn hotkey_variations(key: &Key) -> (hotkeys: Vec<Binding>)
    ensures
        bindings_view(hotkeys@) == variations(key@),
{
    let mut hotkeys: Vec<Binding> = Vec::new();
    hotkeys.push(Binding::new(key, Combo::Plain));
    hotkeys.push(Binding::new(key, Combo::Control));
    hotkeys.push(Binding::new(key, Combo::Shift));
    hotkeys.push(Binding::new(key, Combo::ControlShift));
    assert(bindings_view(hotkeys@) =~= variations(key@));
    hotkeys
}

/// Whether some binding of the list has the id `id`.
pub fn contains_id(bindings: &Vec<Binding>, id: u32) -> (found: bool)
    ensures
        found == has_id(bindings_view(bindings@), id),
{
    let mut i: usize = 0;
    while i < bindings.len()
        invariant
            i <= bindings@.len(),
            forall|j: int| 0 <= j < i ==> (#[trigger] bindings_view(bindings@)[j]).id() != id,
        decreases bindings@.len() - i,
    {
        if bindings[i].id() == id {
            assert(bindings_view(bindings@)[i as int].id() == id);
            return true;
        }
        i += 1;
    }
    false
}

/// The key of the first binding with the id `id`.
pub fn find_key(bindings: &Vec<Binding>, id: u32) -> (key: Option<&Key>)
    ensures
        opt_key_ref(key) == key_of_id(bindings_view(bindings@), id),
{
    let ghost views = bindings_view(bindings@);
    let mut i: usize = 0;
    while i < bindings.len()
        invariant
            i <= bindings@.len(),
            views == bindings_view(bindings@),
            forall|j: int| 0 <= j < i ==> (#[trigger] views[j]).id() != id,
        decreases bindings@.len() - i,
    {
        if bindings[i].id() == id {
            proof {
                assert(is_first_id(views, id, i as int));
                let k = choose|k: int| is_first_id(views, id, k);
                if k < i {
                    assert(views[k].id() != id);
                }
                if i < k {
                    assert(views[i as int].id() != id);
                }
            }
            return Some(bindings[i].key());
        }
        i += 1;
    }
    proof {
        assert forall|k: int| !is_first_id(views, id, k) by {
            if 0 <= k < views.len() {
                assert(views[k].id() != id);
            }
        }
    }
    None
}

/// The four bindings of a new last key follow those of the keys before it.
pub proof fn lemma_nav_of_push(keys: Seq<Seq<char>>, key: Seq<char>)
    ensures
        nav_of(keys.push(key)) == nav_of(keys) + variations(key),
{
    assert(nav_of(keys.push(key)) =~= nav_of(keys) + variations(key));
}

/// Appends a copy of `binding` to the list.
pub fn record(bound: &mut Vec<Binding>, binding: &Binding)
    ensures
        bindings_view(final(bound)@) == bindings_view(old(bound)@).push(binding@),
{
    bound.push(binding.clone());
    assert(bindings_view(bound@) =~= bindings_view(old(bound)@).push(binding@));
}

/// Asks for the four bindings of `key` to be registered, and records them
/// in `bound`.
pub fn register_hotkey(key: &Key, bound: &mut Vec<Binding>, actions: &mut Vec<Action>)
    ensures
        bindings_view(final(bound)@) == bindings_view(old(bound)@) + variations(key@),
        actions_view(final(actions)@) == actions_view(old(actions)@) + registers(variations(key@)),
{
    let hotkeys = hotkey_variations(key);
    let ghost four = variations(key@);
    let mut i: usize = 0;
    assert(bindings_view(hotkeys@).len() == 4);
    assert(bindings_view(bound@) + four.take(0) =~= bindings_view(bound@));
    assert(actions_view(actions@) + registers(four).take(0) =~= actions_view(actions@));
    while i < hotkeys.len()
        invariant
            i <= 4,
            hotkeys@.len() == 4,
            bindings_view(hotkeys@) == four,
            four == variations(key@),
            bindings_view(bound@) == bindings_view(old(bound)@) + four.take(i as int),
            actions_view(actions@) == actions_view(old(actions)@) + registers(four).take(i as int),
        decreases 4 - i,
    {
        let ghost b0 = bindings_view(bound@);
        let ghost a0 = actions_view(actions@);
        assert(bindings_view(hotkeys@)[i as int] == hotkeys@[i as int]@);
        emit(actions, Action::Register(hotkeys[i].clone()));
        record(bound, &hotkeys[i]);
        assert(b0.push(four[i as int]) =~= bindings_view(old(bound)@) + four.take(i + 1));
        assert(a0.push(registers(four)[i as int]) =~= actions_view(old(actions)@) + registers(
            four,
        ).take(i + 1));
        i += 1;
    }
    assert(four.take(4) =~= four);
    assert(registers(four).take(4) =~= registers(four));
}

/// Asks for the bindings of every key of `map` to be registered, and adds
/// them to the navigation bindings.
pub fn register_nav(map: &SoundMap, nav: &mut Vec<Binding>, actions: &mut Vec<Action>)
    ensures
        bindings_view(final(nav)@) == bindings_view(old(nav)@) + nav_of(menu_keys(map.view())),
        actions_view(final(actions)@) == actions_view(old(actions)@) + registers(
            nav_of(menu_keys(map.view())),
        ),
{
    let ghost keys = menu_keys(map.view());
    let n = map.len();
    let mut i: usize = 0;
    assert(nav_of(keys.take(0)) =~= Seq::empty());
    assert(registers(nav_of(keys.take(0))) =~= Seq::empty());
    assert(bindings_view(nav@) + Seq::<BindingView>::empty() =~= bindings_view(nav@));
    assert(actions_view(actions@) + Seq::<ActionView>::empty() =~= actions_view(actions@));
    while i < n
        invariant
            i <= n,
            n == keys.len(),
            keys == menu_keys(map.view()),
            bindings_view(nav@) == bindings_view(old(nav)@) + nav_of(keys.take(i as int)),
            actions_view(actions@) == actions_view(old(actions)@) + registers(
                nav_of(keys.take(i as int)),
            ),
        decreases n - i,
    {
        let key = map.key_at(i);
        register_hotkey(key, nav, actions);
        proof {
            assert(keys.take(i + 1) =~= keys.take(i as int).push(keys[i as int]));
            lemma_nav_of_push(keys.take(i as int), keys[i as int]);
            let before = nav_of(keys.take(i as int));
            let four = variations(key@);
            assert(registers(before + four) =~= registers(before) + registers(four));
            assert(bindings_view(nav@) =~= bindings_view(old(nav)@) + (before + four));
            assert(actions_view(actions@) =~= actions_view(old(actions)@) + (registers(before)
                + registers(four)));
        }
        i += 1;
    }
    assert(keys.take(n as int) =~= keys);
}

/// Asks for every navigation binding to be unregistered, and forgets them.
pub fn unregister_nav(nav: &mut Vec<Binding>, actions: &mut Vec<Action>)
    ensures
        final(nav)@.len() == 0,
        actions_view(final(actions)@) == actions_view(old(actions)@) + unregisters(
            bindings_view(old(nav)@),
        ),
{
    let ghost all = bindings_view(nav@);
    let mut i: usize = 0;
    assert(actions_view(actions@) + unregisters(all).take(0) =~= actions_view(actions@));
    while i < nav.len()
        invariant
            i <= nav@.len(),
            nav@ == old(nav)@,
            all == bindings_view(nav@),
            actions_view(actions@) == actions_view(old(actions)@) + unregisters(all).take(
                i as int,
            ),
        decreases nav@.len() - i,
    {
        let ghost a0 = actions_view(actions@);
        emit(actions, Action::Unregister(nav[i].clone()));
        assert(a0.push(unregisters(all)[i as int]) =~= actions_view(old(actions)@) + unregisters(
            all,
        ).take(i + 1));
        i += 1;
    }
    assert(unregisters(all).take(all.len() as int) =~= unregisters(all));
    nav.clear();
}

/// Replaces the navigation bindings by those of the keys of `map`: all that
/// are bound are unregistered, then all of `map` are registered.
pub fn replace_nav(map: &SoundMap, nav: &mut Vec<Binding>, actions: &mut Vec<Action>)
    ensures
        bindings_view(final(nav)@) == nav_of(menu_keys(map.view())),
        actions_view(final(actions)@) == actions_view(old(actions)@) + unregisters(
            bindings_view(old(nav)@),
        ) + registers(nav_of(menu_keys(map.view()))),
{
    unregister_nav(nav, actions);
    assert(bindings_view(nav@) =~= Seq::empty());
    register_nav(map, nav, actions);
    assert(bindings_view(nav@) =~= nav_of(menu_keys(map.view())));
}

/// The bindings of an optional role key, with the request to register them.
pub fn register_optional_hotkey_map(key: Option<&Key>, actions: &mut Vec<Action>) -> (hotkeys:
    Option<Vec<Binding>>)
    ensures
        match key {
            Some(k) => {
                &&& hotkeys matches Some(h)
                &&& bindings_view(h@) == variations(k@)
                &&& actions_view(final(actions)@) == actions_view(old(actions)@) + registers(
                    variations(k@),
                )
            },
            None => hotkeys is None && final(actions)@ == old(actions)@,
        },
{
    match key {
        Some(key) => {
            let mut hotkeys: Vec<Binding> = Vec::new();
            assert(bindings_view(hotkeys@) =~= Seq::empty());
            register_hotkey(key, &mut hotkeys, actions);
            assert(bindings_view(hotkeys@) =~= variations(key@));
            Some(hotkeys)
        },
        None => None,
    }
}

/// Asks for each of `hotkeys` to be registered, whether or not that succeeds.
pub fn register_hotkeys_fallible(hotkeys: &Vec<Binding>, actions: &mut Vec<Action>)
    ensures
        actions_view(final(actions)@) == actions_view(old(actions)@) + try_registers(
            bindings_view(hotkeys@),
        ),
{
    let ghost all = bindings_view(hotkeys@);
    let mut i: usize = 0;
    assert(actions_view(actions@) + try_registers(all).take(0) =~= actions_view(actions@));
    while i < hotkeys.len()
        invariant
            i <= hotkeys@.len(),
            all == bindings_view(hotkeys@),
            actions_view(actions@) == actions_view(old(actions)@) + try_registers(all).take(
                i as int,
            ),
        decreases hotkeys@.len() - i,
    {
        let ghost a0 = actions_view(actions@);
        emit(actions, Action::TryRegister(hotkeys[i].clone()));
        assert(a0.push(try_registers(all)[i as int]) =~= actions_view(old(actions)@)
            + try_registers(all).take(i + 1));
        i += 1;
    }
    assert(try_registers(all).take(all.len() as int) =~= try_registers(all));
}

/// Asks for each of `hotkeys` to be unregistered, whether or not that succeeds.
pub fn unregister_hotkeys_fallible(hotkeys: &Vec<Binding>, actions: &mut Vec<Action>)
    ensures
        actions_view(final(actions)@) == actions_view(old(actions)@) + try_unregisters(
            bindings_view(hotkeys@),
        ),
{
    let ghost all = bindings_view(hotkeys@);
    let mut i: usize = 0;
    assert(actions_view(actions@) + try_unregisters(all).take(0) =~= actions_view(actions@));
    while i < hotkeys.len()
        invariant
            i <= hotkeys@.len(),
            all == bindings_view(hotkeys@),
            actions_view(actions@) == actions_view(old(actions)@) + try_unregisters(all).take(
                i as int,
            ),
        decreases hotkeys@.len() - i,
    {
        let ghost a0 = actions_view(actions@);
        emit(actions, Action::TryUnregister(hotkeys[i].clone()));
        assert(a0.push(try_unregisters(all)[i as int]) =~= actions_view(old(actions)@)
            + try_unregisters(all).take(i + 1));
        i += 1;
    }
    assert(try_unregisters(all).take(all.len() as int) =~= try_unregisters(all));
}

} // verus!
