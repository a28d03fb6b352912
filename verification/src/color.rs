//! The named terminal colours the aquarium paints with.
use vstd::prelude::*;

verus! {

/// A named foreground colour of the terminal palette.
#[derive(Clone, Copy, Debug, PartialEq, Eq, Structural)]
pub enum Color {
    White,
    Cyan,
    LightCyan,
    Blue,
    LightBlue,
    Magenta,
    LightMagenta,
    Yellow,
    Green,
}

} // verus!
