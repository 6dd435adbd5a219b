//! The seven shapes: for each one a table of four rotation states, each state
//! four `(dx, dy)` offsets from the block's anchor.

use vstd::prelude::*;
use crate::tile::Tile;

verus! {

/// Rotation states in every shape table; the modulus of rotation.
pub const ROTATIONS: usize = 4;

/// Cells that every rotation state occupies.
pub const SHAPE_CELLS: usize = 4;

/// Largest offset, in either direction, that any table holds.
pub const MAX_OFFSET: i32 = 3;

/// The L and its four states.
pub const L_BLOCK: [(i32, i32); 16] = [
    (0, 0), (1, 0), (1, 1), (1, 2),
    (0, 1), (1, 1), (2, 1), (2, 0),
    (1, 0), (1, 1), (1, 2), (2, 2),
    (0, 1), (0, 2), (1, 1), (2, 1),
];

/// The J and its four states.
pub const J_BLOCK: [(i32, i32); 16] = [
    (0, 2), (1, 2), (1, 1), (1, 0),
    (0, 0), (0, 1), (1, 1), (2, 1),
    (1, 0), (2, 0), (1, 1), (1, 2),
    (0, 1), (1, 1), (2, 1), (2, 2),
];

/// The T and its four states.
pub const T_BLOCK: [(i32, i32); 16] = [
    (1, 0), (0, 1), (1, 1), (2, 1),
    (1, 0), (1, 1), (2, 1), (1, 2),
    (0, 1), (1, 1), (2, 1), (1, 2),
    (0, 1), (1, 1), (1, 2), (1, 0),
];

/// The square looks the same in every state.
pub const O_BLOCK: [(i32, i32); 16] = [
    (0, 0), (1, 0), (0, 1), (1, 1),
    (0, 0), (1, 0), (0, 1), (1, 1),
    (0, 0), (1, 0), (0, 1), (1, 1),
    (0, 0), (1, 0), (0, 1), (1, 1),
];

/// The bar has two distinct states, which alternate.
pub const I_BLOCK: [(i32, i32); 16] = [
    (0, 1), (1, 1), (2, 1), (3, 1),
    (1, 0), (1, 1), (1, 2), (1, 3),
    (0, 1), (1, 1), (2, 1), (3, 1),
    (1, 0), (1, 1), (1, 2), (1, 3),
];

/// The S has two distinct states, which alternate.
pub const S_BLOCK: [(i32, i32); 16] = [
    (0, 0), (0, 1), (1, 1), (1, 2),
    (0, 1), (1, 1), (1, 0), (2, 0),
    (0, 0), (0, 1), (1, 1), (1, 2),
    (0, 1), (1, 1), (1, 0), (2, 0),
];

/// The Z has two distinct states, which alternate.
pub const Z_BLOCK: [(i32, i32); 16] = [
    (0, 0), (1, 0), (1, 1), (2, 1),
    (1, 1), (1, 2), (2, 1), (2, 0),
    (0, 0), (1, 0), (1, 1), (2, 1),
    (1, 1), (1, 2), (2, 1), (2, 0),
];

/// One of the seven shapes.
#[derive(Clone, Copy, PartialEq, Eq, Structural, Debug)]
pub enum Kind {
    L,
    J,
    T,
    O,
    I,
    S,
    Z,
}

impl Kind {
    /// The `i`-th offset of rotation state `rotation`, read from the table.
    pub open spec fn offset(self, rotation: int, i: int) -> (int, int) {
        let at: int = rotation * 4 + i;
        let pair: (i32, i32) = match self {
            Kind::L => L_BLOCK[at],
            Kind::J => J_BLOCK[at],
            Kind::T => T_BLOCK[at],
            Kind::O => O_BLOCK[at],
            Kind::I => I_BLOCK[at],
            Kind::S => S_BLOCK[at],
            Kind::Z => Z_BLOCK[at],
        };
        (pair.0 as int, pair.1 as int)
    }

    /// The colour in which a shape settles.
    pub open spec fn colour(self) -> Tile {
        match self {
            Kind::L => Tile::Yellow,
            Kind::J => Tile::Magenta,
            Kind::T => Tile::Grey,
            Kind::O => Tile::Blue,
            Kind::I => Tile::Red,
            Kind::S => Tile::Green,
            Kind::Z => Tile::Cyan,
        }
    }

    /// The shape that a drawn byte selects: its remainder modulo seven picks
    /// among L, T, J, O, I, S and Z, in this order.
    pub open spec fn of_draw(draw: u8) -> Kind {
        let pick: int = draw as int % 7;
        if pick == 0 {
            Kind::L
        } else if pick == 1 {
            Kind::T
        } else if pick == 2 {
            Kind::J
        } else if pick == 3 {
            Kind::O
        } else if pick == 4 {
            Kind::I
        } else if pick == 5 {
            Kind::S
        } else {
            Kind::Z
        }
    }

    /// Reads one offset pair from the shape's table.
    pub fn offset_at(self, rotation: usize, i: usize) -> (d: (i32, i32))
        requires
            rotation < ROTATIONS,
            i < SHAPE_CELLS,
        ensures
            (d.0 as int, d.1 as int) == self.offset(rotation as int, i as int),
            0 <= d.0 <= MAX_OFFSET,
            0 <= d.1 <= MAX_OFFSET,
    {
        let at: usize = rotation * 4 + i;
        match self {
            Kind::L => L_BLOCK[at],
            Kind::J => J_BLOCK[at],
            Kind::T => T_BLOCK[at],
            Kind::O => O_BLOCK[at],
            Kind::I => I_BLOCK[at],
            Kind::S => S_BLOCK[at],
            Kind::Z => Z_BLOCK[at],
        }
    }

    /// The tile that a block of this shape leaves in the grid.
    pub fn tile(self) -> (t: Tile)
        ensures
            t == self.colour(),
            t != Tile::Empty,
    {
        match self {
            Kind::L => Tile::Yellow,
            Kind::J => Tile::Magenta,
            Kind::T => Tile::Grey,
            Kind::O => Tile::Blue,
            Kind::I => Tile::Red,
            Kind::S => Tile::Green,
            Kind::Z => Tile::Cyan,
        }
    }

    /// How many rotation states the shape's table holds.
    pub fn rotation_count(self) -> (n: usize)
        ensures
            n == ROTATIONS,
    {
        ROTATIONS
    }

    /// Turns a drawn byte into a shape.
    pub fn from_draw(draw: u8) -> (kind: Kind)
        ensures
            kind == Kind::of_draw(draw),
    {
        match draw % 7 {
            0 => Kind::L,
            1 => Kind::T,
            2 => Kind::J,
            3 => Kind::O,
            4 => Kind::I,
            5 => Kind::S,
            _ => Kind::Z,
        }
    }
}

/// Every offset of every table lies between zero and `MAX_OFFSET`.
pub proof fn lemma_offset_range(kind: Kind, rotation: int, i: int)
    requires
        0 <= rotation < ROTATIONS,
        0 <= i < SHAPE_CELLS,
    ensures
        0 <= kind.offset(rotation, i).0 <= MAX_OFFSET,
        0 <= kind.offset(rotation, i).1 <= MAX_OFFSET,
{
}

} // verus!
