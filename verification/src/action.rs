//! What the soundboard asks the outside world to do.
//!
//! The state machine never touches the hotkey service or the audio outputs.
//! Each transition returns the list of actions that bring the world in line
//! with the new state; the caller performs them in order.

use crate::hotkeys::{Binding, BindingView};
use crate::soundtree::SoundId;
use vstd::prelude::*;

verus! {

/// One sound in flight.
#[derive(Clone, Copy, PartialEq, Eq, Structural, Debug)]
pub struct Playing {
    /// The sound that plays on the main output.
    pub sound: SoundId,
    /// Whether a copy of it plays on the monitor output.
    pub monitor: bool,
}

/// An action as a mathematical value.
pub enum ActionView {
    Register(BindingView),
    TryRegister(BindingView),
    Unregister(BindingView),
    TryUnregister(BindingView),
    StopAll,
    Play(Playing),
    MissedPress,
}

/// One step for the caller to perform.
#[derive(Debug, PartialEq, Eq)]
pub enum Action {
    /// Register the hotkey; a failure is fatal.
    Register(Binding),
    /// Register the hotkey; a failure is ignored.
    TryRegister(Binding),
    /// Unregister the hotkey; a failure is fatal.
    Unregister(Binding),
    /// Unregister the hotkey; a failure is ignored.
    TryUnregister(Binding),
    /// Stop every sound in flight, on both outputs; a failure is fatal.
    StopAll,
    /// Start the sound, and its copy on the monitor if asked; a failure is fatal.
    Play(Playing),
    /// Tell the operator that a press arrived for a hotkey that is bound no more.
    MissedPress,
}

impl View for Action {
    type V = ActionView;

    open spec fn view(&self) -> ActionView {
        match self {
            Action::Register(b) => ActionView::Register(b@),
            Action::TryRegister(b) => ActionView::TryRegister(b@),
            Action::Unregister(b) => ActionView::Unregister(b@),
            Action::TryUnregister(b) => ActionView::TryUnregister(b@),
            Action::StopAll => ActionView::StopAll,
            Action::Play(p) => ActionView::Play(*p),
            Action::MissedPress => ActionView::MissedPress,
        }
    }
}

impl Clone for Action {
    fn clone(&self) -> (action: Action)
        ensures
            action@ == self@,
    {
        match self {
            Action::Register(b) => Action::Register(b.clone()),
            Action::TryRegister(b) => Action::TryRegister(b.clone()),
            Action::Unregister(b) => Action::Unregister(b.clone()),
            Action::TryUnregister(b) => Action::TryUnregister(b.clone()),
            Action::StopAll => Action::StopAll,
            Action::Play(p) => Action::Play(*p),
            Action::MissedPress => Action::MissedPress,
        }
    }
}

/// The views of a list of actions.
pub open spec fn actions_view(actions: Seq<Action>) -> Seq<ActionView> {
    Seq::new(actions.len(), |i: int| actions[i]@)
}

/// One fatal registration for each binding, in order.
pub open spec fn registers(bindings: Seq<BindingView>) -> Seq<ActionView> {
    Seq::new(bindings.len(), |i: int| ActionView::Register(bindings[i]))
}

/// One lenient registration for each binding, in order.
pub open spec fn try_registers(bindings: Seq<BindingView>) -> Seq<ActionView> {
    Seq::new(bindings.len(), |i: int| ActionView::TryRegister(bindings[i]))
}

/// One fatal unregistration for each binding, in order.
pub open spec fn unregisters(bindings: Seq<BindingView>) -> Seq<ActionView> {
    Seq::new(bindings.len(), |i: int| ActionView::Unregister(bindings[i]))
}

/// One lenient unregistration for each binding, in order.
pub open spec fn try_unregisters(bindings: Seq<BindingView>) -> Seq<ActionView> {
    Seq::new(bindings.len(), |i: int| ActionView::TryUnregister(bindings[i]))
}

/// Appends `action` to the list.
pub fn emit(actions: &mut Vec<Action>, action: Action)
    ensures
        actions_view(final(actions)@) == actions_view(old(actions)@).push(action@),
{
    actions.push(action);
    assert(actions_view(actions@) =~= actions_view(old(actions)@).push(action@));
}

} // verus!
