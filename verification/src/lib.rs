//! Rules of a falling-block puzzle game on a ten by twenty grid: the grid of
//! settled tiles, the seven shapes and their rotations, the falling block,
//! the timers that gate each kind of move, and the per-frame step that ties
//! them together. Every function carries a contract that Verus proves; the
//! one exception is the draw of a random byte, which is left to `rand`.

pub mod tile;
pub mod shape;
pub mod block;
pub mod grid;
pub mod rows;
pub mod fall;
pub mod gate;
pub mod game;

pub use crate::block::{random_block, Block, Move};
pub use crate::game::{move_block, Game, Input, State, Status};
pub use crate::gate::MoveTimer;
pub use crate::fall::drop_block;
pub use crate::grid::{collision, insert_block, Grid};
pub use crate::rows::clear_rows;
pub use crate::shape::Kind;
pub use crate::tile::Tile;
