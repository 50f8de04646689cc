//! Simulation core of a terminal rain and lightning animation: the rainfield,
//! the lightning automaton, the per-tick frame logic and the colour palette.
//! Terminal I/O and wall-clock pacing are left to the caller, which hands the
//! library plain values (time in microseconds, terminal size, decoded keys).
use vstd::prelude::*;

pub mod constants;
pub mod random;
pub mod palette;
pub mod rain;
pub mod lightning;
pub mod frame;

pub use palette::parse_color_arg;

verus! {

/// One glyph to be put on the terminal at `(row, col)`.
#[derive(Clone, Copy, Debug, PartialEq, Eq, Structural)]
pub struct Glyph {
    pub row: i32,
    pub col: i32,
    pub ch: char,
}

} // verus!
