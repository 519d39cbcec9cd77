//! Playback policy chosen by the operator.

use crate::keys::Key;
use std::str::FromStr;
use vstd::prelude::*;

verus! {

/// What happens to sounds that are already playing when a new one is triggered.
#[derive(Clone, Copy, PartialEq, Eq, Structural, Debug)]
pub enum OverlapBehavior {
    /// A press while anything plays starts nothing.
    Prevent,
    /// The new sound plays on top of the others.
    Overlap,
    /// The others are stopped, then the new sound plays.
    Replace,
}

/// The error of parsing a policy name that is none of the three.
#[derive(Debug, PartialEq, Eq)]
pub struct OverlapNotFound;

/// What the operator chose for a session. The volumes of the two outputs
/// are the audio side's concern and are not held here.
#[derive(Debug)]
pub struct Settings {
    /// Path to the soundboard.
    pub board: String,
    /// The character between the key and the display name in a file name.
    pub separator: char,
    /// What a new sound does to those in flight.
    pub overlap: OverlapBehavior,
    /// Whether every sound is also played on a monitor output.
    pub monitor: bool,
    /// A key that stops the sounds in flight.
    pub key_stop: Option<Key>,
    /// A key that switches the soundboard off and on.
    pub key_toggle: Option<Key>,
    /// The key that returns to the top menu.
    pub key_root: Key,
    /// Whether the screen is left uncleared between menus.
    pub no_clear: bool,
}

/// The policy that a name stands for.
pub open spec fn overlap_of_name(name: Seq<char>) -> Option<OverlapBehavior> {
    if name == "prevent"@ {
        Some(OverlapBehavior::Prevent)
    } else if name == "overlap"@ {
        Some(OverlapBehavior::Overlap)
    } else if name == "replace"@ {
        Some(OverlapBehavior::Replace)
    } else {
        None
    }
}

/// The name of a policy.
pub open spec fn overlap_name(overlap: OverlapBehavior) -> Seq<char> {
    match overlap {
        OverlapBehavior::Prevent => "prevent"@,
        OverlapBehavior::Overlap => "overlap"@,
        OverlapBehavior::Replace => "replace"@,
    }
}

impl OverlapBehavior {
    /// Parses `"prevent"`, `"overlap"` or `"replace"`; anything else is an error.
    pub fn parse(name: &str) -> (res: Result<OverlapBehavior, OverlapNotFound>)
        ensures
            res.is_ok() == overlap_of_name(name@).is_some(),
            res matches Ok(overlap) ==> overlap_of_name(name@) == Some(overlap),
    {
        let owned = name.to_owned();
        if owned == "prevent".to_owned() {
            Ok(OverlapBehavior::Prevent)
        } else if owned == "overlap".to_owned() {
            Ok(OverlapBehavior::Overlap)
        } else if owned == "replace".to_owned() {
            Ok(OverlapBehavior::Replace)
        } else {
            Err(OverlapNotFound)
        }
    }

    /// The name that `parse` accepts for this policy.
    pub fn as_str(&self) -> (name: &'static str)
        ensures
            name@ == overlap_name(*self),
    {
        match self {
            OverlapBehavior::Prevent => "prevent",
            OverlapBehavior::Overlap => "overlap",
            OverlapBehavior::Replace => "replace",
        }
    }
}

impl Default for OverlapBehavior {
    fn default() -> (overlap: OverlapBehavior)
        ensures
            overlap == OverlapBehavior::Prevent,
    {
        OverlapBehavior::Prevent
    }
}

impl FromStr for OverlapBehavior {
    type Err = OverlapNotFound;

    /// Parses the name of a policy, as [`OverlapBehavior::parse`] does.
    fn from_str(s: &str) -> (res: Result<Self, Self::Err>)
        ensures
            res.is_ok() == overlap_of_name(s@).is_some(),
            res matches Ok(overlap) ==> overlap_of_name(s@) == Some(overlap),
    {
        OverlapBehavior::parse(s)
    }
}

impl OverlapNotFound {
    /// What to tell the operator.
    pub fn message(&self) -> (text: &'static str)
        ensures
            text@ == "Unknown overlap"@,
    {
        "Unknown overlap"
    }
}

/// A policy's name parses back to the policy.
pub proof fn lemma_overlap_name_round_trip(overlap: OverlapBehavior)
    ensures
        overlap_of_name(overlap_name(overlap)) == Some(overlap),
{
    reveal_strlit("prevent");
    reveal_strlit("overlap");
    reveal_strlit("replace");
    assert("overlap"@[0] != "prevent"@[0]);
    assert("replace"@[0] != "prevent"@[0]);
    assert("replace"@[0] != "overlap"@[0]);
}

} // verus!
