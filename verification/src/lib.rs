//! hmux: terminals that keep running whether or not you are looking at them.
//!
//! The layers, bottom up:
//!
//! - [`grid`] turns the bytes of a shell into a screen, with [`vt`] to take the
//!   byte stream apart and [`width`] to measure characters.
//! - [`pane`] is a shell with its screen, [`layout`] says where things are,
//!   [`render`] composes a frame and paints the difference, [`input`] tells
//!   commands from keystrokes, and [`mux`] puts these together.
//! - [`daemon`] owns the shells that outlive a window, and [`proto`] is what it
//!   and a window say to each other.
//! - [`sessions`], [`persist`], [`browser`], [`shells`], [`update`] and [`gui`]
//!   are the window's side.
//! - [`activity`], [`cwd`], [`clipboard`], [`pty`] and [`term`] hold what is to
//!   be worked out around the calls into the system.
use vstd::prelude::*;

pub mod activity;
pub mod browser;
pub mod clipboard;
pub mod cwd;
pub mod daemon;
pub mod grid;
pub mod gui;
pub mod input;
pub mod layout;
pub mod mux;
pub mod pane;
pub mod persist;
pub mod proto;
pub mod pty;
pub mod render;
pub mod sessions;
pub mod shells;
pub mod term;
pub mod text;
pub mod update;
pub mod utf16;
pub mod utf8;
pub mod vt;
pub mod width;
pub mod windows_path;

verus! {

/// Everything that the console's loop wakes up for.
pub enum Ev {
    Input(Vec<u8>),
    /// A pane printed something; its grid is up to date.
    Output,
    Exited(usize),
}

} // verus!
