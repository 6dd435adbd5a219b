//! The content of one grid cell.

use vstd::prelude::*;

verus! {

/// What a grid cell holds: nothing, or a settled tile of one of seven colours.
#[derive(Clone, Copy, PartialEq, Eq, Structural, Debug)]
pub enum Tile {
    Empty,
    Red,
    Yellow,
    Blue,
    Green,
    Cyan,
    Magenta,
    Grey,
}

} // verus!
