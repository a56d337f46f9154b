//! A `cat`-style renderer: command-line options resolved into a set of
//! display switches, and a single left-to-right scan that turns the bytes of a
//! source into text (line numbers, `$` at line ends, `^I` for tabs, caret
//! notation for control bytes, squeezed blank runs).
use vstd::prelude::*;

pub mod config;
pub mod laws;
pub mod render;

verus! {

} // verus!
