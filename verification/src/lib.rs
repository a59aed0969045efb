//! Carina: a reference manager for the terminal.
//!
//! Each reference lives in a directory of its own with an `info.toml` file; this crate
//! holds the rules that turn reference metadata into names, listings, citations,
//! BibTeX entries, duplicate groups, theme colours and the state of the terminal browser.
use vstd::prelude::*;

pub mod text;
pub mod model;
pub mod present;
pub mod dedup;
pub mod order;
pub mod tui;
pub mod naming;
pub mod screen;
pub mod validate;
pub mod theme;
pub mod cli;
pub mod listing;

verus! {

} // verus!
