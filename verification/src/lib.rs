//! A soundboard driven by global hotkeys.
//!
//! A directory tree of sound files is a catalog of menus: the name of every
//! file and directory starts with the key that selects it. Pressing the key
//! of a directory opens its menu, pressing the key of a file plays it, and
//! the hotkeys that are bound always are those of the menu that is open.
//!
//! The library decides; it performs nothing. The caller scans the disk,
//! owns the hotkey service and the audio outputs, and carries out the
//! [`action::Action`]s that each transition of the [`board::Soundboard`]
//! returns.
//!
//! - [`keys`]: key identities and the resolver from name tokens to keys
//! - [`soundtree`]: the catalog, and [`soundtree::parser`], which builds it
//! - [`hotkeys`]: the bindings of keys under four modifier combinations
//! - [`variants`]: which variation of a sound plays next
//! - [`board`]: the navigation and playback state machine
//! - [`display`]: the text of the menus
//! - [`config`]: what the operator chose

pub mod action;
pub mod board;
pub mod config;
pub mod display;
pub mod hotkeys;
pub mod keys;
pub mod soundtree;
pub mod text;
pub mod variants;
