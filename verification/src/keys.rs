//! Key identities, and the resolver from the tokens of file names to them.
//!
//! A key is identified by the name that the W3C UI Events specification gives
//! to its physical position (`KeyA`, `Digit5`, `Numpad3`, `Escape`, ...). The
//! list of names is that of the `keyboard-types` crate.

use crate::text::{
    char_is_digit, char_is_letter, char_to_upper, is_digit, is_letter, opt_text, to_upper, with_char,
};
use global_hotkey::hotkey::Code;
use std::str::FromStr;
use vstd::prelude::*;

verus! {

/// The canonical name of the key code that `token` names, if it names one.
pub uninterp spec fn key_code_name(token: Seq<char>) -> Option<Seq<char>>;

/// Looks `token` up among the key codes with `Code::from_str` and gives the
/// code's name back as `Code`'s `Display` writes it.
///
/// Trusted: the result is a function of the token alone, and a name that
/// comes out is itself the name of the same code (`Display` writes the
/// variant's name, and `from_str` maps each variant's name to that variant).
#[verifier::external_body]
fn code_name(token: &str) -> (name: Option<String>)
    ensures
        opt_text(name) == key_code_name(token@),
        name matches Some(n) ==> key_code_name(n@) == Some(n@),
{
    match Code::from_str(token) {
        Ok(code) => Some(code.to_string()),
        Err(_) => None,
    }
}

/// The identity of a physical key, whatever modifiers are held with it.
#[derive(Debug)]
pub struct Key {
    name: String,
}

impl View for Key {
    type V = Seq<char>;

    /// The key's canonical name.
    closed spec fn view(&self) -> Seq<char> {
        self.name@
    }
}

/// The names of an optional key.
pub open spec fn opt_key(key: Option<Key>) -> Option<Seq<char>> {
    match key {
        Some(k) => Some(k@),
        None => None,
    }
}

/// The name of an optional borrowed key.
pub open spec fn opt_key_ref(key: Option<&Key>) -> Option<Seq<char>> {
    match key {
        Some(k) => Some(k@),
        None => None,
    }
}

/// `name` is the canonical name of a key code.
pub open spec fn is_key_name(name: Seq<char>) -> bool {
    key_code_name(name) == Some(name)
}

impl Key {
    /// Every key carries the canonical name of a key code.
    #[verifier::type_invariant]
    pub closed spec fn named(self) -> bool {
        is_key_name(self.name@)
    }

    /// The key that `name` names in full, under any of the names the key
    /// code list accepts for it.
    pub fn from_name(name: &str) -> (key: Option<Key>)
        ensures
            opt_key(key) == key_code_name(name@),
    {
        match code_name(name) {
            Some(name) => Some(Key { name }),
            None => None,
        }
    }

    /// The key's canonical name.
    pub fn name(&self) -> (name: &str)
        ensures
            name@ == self@,
            is_key_name(self@),
    {
        proof {
            use_type_invariant(self);
        }
        self.name.as_str()
    }

    /// Whether two keys are the same key.
    pub fn is(&self, other: &Key) -> (same: bool)
        ensures
            same == (self@ == other@),
    {
        self.name == other.name
    }
}

impl Clone for Key {
    fn clone(&self) -> (key: Key)
        ensures
            key@ == self@,
    {
        proof {
            use_type_invariant(self);
        }
        Key { name: self.name.clone() }
    }
}

impl PartialEq for Key {
    fn eq(&self, other: &Key) -> (same: bool) {
        self.name == other.name
    }
}

impl Eq for Key {}

impl vstd::std_specs::cmp::PartialEqSpecImpl for Key {
    open spec fn obeys_eq_spec() -> bool {
        true
    }

    open spec fn eq_spec(&self, other: &Key) -> bool {
        self@ == other@
    }
}

/// The first three characters of `token` are `num`.
pub open spec fn has_num_prefix(token: Seq<char>) -> bool {
    token.len() >= 3 && token[0] == 'n' && token[1] == 'u' && token[2] == 'm'
}

/// The key name that a shorthand token stands for: one letter for a letter
/// key, one digit for a digit of the top row, `num` and a digit for a digit of
/// the keypad.
pub open spec fn shorthand_name(token: Seq<char>) -> Option<Seq<char>> {
    if token.len() == 1 {
        if is_letter(token[0]) {
            Some("Key"@.push(to_upper(token[0])))
        } else if is_digit(token[0]) {
            Some("Digit"@.push(token[0]))
        } else {
            None
        }
    } else if has_num_prefix(token) {
        if token.len() > 3 && is_digit(token[3]) {
            Some("Numpad"@.push(token[3]))
        } else {
            None
        }
    } else {
        None
    }
}

/// The key that a token resolves to as a shorthand.
pub open spec fn shorthand_key(token: Seq<char>) -> Option<Seq<char>> {
    match shorthand_name(token) {
        Some(name) => key_code_name(name),
        None => None,
    }
}

/// The key that a token resolves to: as a shorthand first, else as a key
/// name in full.
pub open spec fn resolve_key(token: Seq<char>) -> Option<Seq<char>> {
    match shorthand_key(token) {
        Some(name) => Some(name),
        None => key_code_name(token),
    }
}

/// Expands a shorthand token to the key name it stands for.
pub fn custom_key_name(token: &str) -> (name: Option<String>)
    ensures
        opt_text(name) == shorthand_name(token@),
{
    let len = token.unicode_len();
    if len == 1 {
        let c = token.get_char(0);
        if char_is_letter(c) {
            Some(with_char("Key", char_to_upper(c)))
        } else if char_is_digit(c) {
            Some(with_char("Digit", c))
        } else {
            None
        }
    } else if len >= 3 && token.get_char(0) == 'n' && token.get_char(1) == 'u' && token.get_char(2)
        == 'm' {
        if len > 3 && char_is_digit(token.get_char(3)) {
            Some(with_char("Numpad", token.get_char(3)))
        } else {
            None
        }
    } else {
        None
    }
}

/// Resolves a shorthand token to its key.
pub fn custom_str_to_code(token: &str) -> (key: Option<Key>)
    ensures
        opt_key(key) == shorthand_key(token@),
{
    match custom_key_name(token) {
        Some(name) => Key::from_name(name.as_str()),
        None => None,
    }
}

/// Resolves the key token of a file or directory name.
pub fn str_to_code(token: &str) -> (key: Option<Key>)
    ensures
        opt_key(key) == resolve_key(token@),
{
    match custom_str_to_code(token) {
        Some(key) => Some(key),
        None => Key::from_name(token),
    }
}

} // verus!
