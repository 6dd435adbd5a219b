//! The falling block: a shape, an anchor in grid coordinates and a rotation
//! state. Its moves change it in place and do not look at the grid; whoever
//! moves a block tests it against the grid afterwards and undoes the move if
//! it is blocked.

use vstd::prelude::*;
use crate::shape::{Kind, ROTATIONS};

verus! {

/// Column of the anchor of a block that enters play.
pub const SPAWN_X: i32 = 5;

/// Row of the anchor of a block that enters play.
pub const SPAWN_Y: i32 = 0;

/// Column at which the upcoming block is shown, beside the grid.
pub const PREVIEW_X: i32 = 20;

/// Row at which the upcoming block is shown.
pub const PREVIEW_Y: i32 = 2;

/// A shape at a place, in one of its rotation states.
#[derive(Clone, Copy, PartialEq, Eq, Structural, Debug)]
pub struct Block {
    pub kind: Kind,
    pub x: i32,
    pub y: i32,
    pub rotation: usize,
}

/// The moves that a player can attempt.
#[derive(Clone, Copy, PartialEq, Eq, Structural, Debug)]
pub enum Move {
    Rotate,
    Left,
    Right,
    Down,
}

impl Block {
    /// The rotation state is one that the tables hold.
    pub open spec fn wf(self) -> bool {
        self.rotation < ROTATIONS
    }

    /// The `i`-th cell that the block occupies, as `(x, y)`.
    pub open spec fn cell(self, i: int) -> (int, int) {
        let d: (int, int) = self.kind.offset(self.rotation as int, i);
        (self.x + d.0, self.y + d.1)
    }

    /// The same block with its anchor at `(x, y)`.
    pub open spec fn at(self, x: int, y: int) -> Block {
        Block { x: x as i32, y: y as i32, ..self }
    }

    /// The same block after `turns` quarter turns; a negative count turns back.
    pub open spec fn turned(self, turns: int) -> Block {
        Block { rotation: ((self.rotation + turns) % (ROTATIONS as int)) as usize, ..self }
    }

    /// The block after the move.
    pub open spec fn moved(self, step: Move) -> Block {
        match step {
            Move::Rotate => self.turned(1),
            Move::Left => self.at(self.x - 1, self.y as int),
            Move::Right => self.at(self.x + 1, self.y as int),
            Move::Down => self.at(self.x as int, self.y + 1),
        }
    }

    /// The block before the move: what it is once the move is undone.
    pub open spec fn unmoved(self, step: Move) -> Block {
        match step {
            Move::Rotate => self.turned(-1),
            Move::Left => self.at(self.x + 1, self.y as int),
            Move::Right => self.at(self.x - 1, self.y as int),
            Move::Down => self.at(self.x as int, self.y - 1),
        }
    }

    /// Whether the anchor's coordinates can take the move without leaving
    /// the range of their type.
    pub open spec fn has_room(self, step: Move) -> bool {
        match step {
            Move::Rotate => true,
            Move::Left => self.x > i32::MIN,
            Move::Right => self.x < i32::MAX,
            Move::Down => self.y < i32::MAX,
        }
    }

    /// Whether the anchor's coordinates can take the undoing of the move.
    pub open spec fn has_room_back(self, step: Move) -> bool {
        match step {
            Move::Rotate => true,
            Move::Left => self.x < i32::MAX,
            Move::Right => self.x > i32::MIN,
            Move::Down => self.y > i32::MIN,
        }
    }

    /// A block of the given shape as it enters play.
    pub open spec fn spawned(kind: Kind) -> Block {
        Block { kind, x: SPAWN_X, y: SPAWN_Y, rotation: 0 }
    }

    /// A block of the given shape as it waits beside the grid.
    pub open spec fn previewed(kind: Kind) -> Block {
        Block { kind, x: PREVIEW_X, y: PREVIEW_Y, rotation: 0 }
    }

    /// A block of the given shape at the place where blocks enter play, in
    /// its first rotation state.
    pub fn spawn(kind: Kind) -> (b: Block)
        ensures
            b == Block::spawned(kind),
            b.wf(),
    {
        Block { kind, x: SPAWN_X, y: SPAWN_Y, rotation: 0 }
    }

    /// A block of the given shape at the place beside the grid where the
    /// upcoming block is shown, in its first rotation state.
    pub fn preview(kind: Kind) -> (b: Block)
        ensures
            b == Block::previewed(kind),
            b.wf(),
    {
        Block { kind, x: PREVIEW_X, y: PREVIEW_Y, rotation: 0 }
    }

    /// Moves the anchor one column to the left.
    pub fn left(&mut self)
        requires
            old(self).x > i32::MIN,
        ensures
            *final(self) == old(self).at(old(self).x - 1, old(self).y as int),
    {
        self.x = self.x - 1;
    }

    /// Moves the anchor one column to the right.
    pub fn right(&mut self)
        requires
            old(self).x < i32::MAX,
        ensures
            *final(self) == old(self).at(old(self).x + 1, old(self).y as int),
    {
        self.x = self.x + 1;
    }

    /// Moves the anchor one row down.
    pub fn down(&mut self)
        requires
            old(self).y < i32::MAX,
        ensures
            *final(self) == old(self).at(old(self).x as int, old(self).y + 1),
    {
        self.y = self.y + 1;
    }

    /// Moves the anchor one row up: what undoes `down`.
    pub fn up(&mut self)
        requires
            old(self).y > i32::MIN,
        ensures
            *final(self) == old(self).at(old(self).x as int, old(self).y - 1),
    {
        self.y = self.y - 1;
    }

    /// Advances to the next rotation state, after the last to the first.
    pub fn rotate(&mut self)
        requires
            old(self).wf(),
        ensures
            *final(self) == old(self).turned(1),
            final(self).wf(),
    {
        let count: usize = self.kind.rotation_count();
        self.rotation = (self.rotation + 1) % count;
    }

    /// Goes back to the previous rotation state: what undoes `rotate`.
    pub fn rotate_back(&mut self)
        requires
            old(self).wf(),
        ensures
            *final(self) == old(self).turned(-1),
            final(self).wf(),
    {
        let count: usize = self.kind.rotation_count();
        assert((self.rotation + 4 - 1) % 4 == (self.rotation - 1) % 4);
        self.rotation = ((self.rotation + count) - 1) % count;
    }

    /// Makes the move, whatever the grid holds.
    pub fn apply(&mut self, step: Move)
        requires
            old(self).wf(),
            old(self).has_room(step),
        ensures
            *final(self) == old(self).moved(step),
            final(self).wf(),
    {
        match step {
            Move::Rotate => self.rotate(),
            Move::Left => self.left(),
            Move::Right => self.right(),
            Move::Down => self.down(),
        }
    }

    /// Takes the move back.
    pub fn undo(&mut self, step: Move)
        requires
            old(self).wf(),
            old(self).has_room_back(step),
        ensures
            *final(self) == old(self).unmoved(step),
            final(self).wf(),
    {
        match step {
            Move::Rotate => self.rotate_back(),
            Move::Left => self.right(),
            Move::Right => self.left(),
            Move::Down => self.up(),
        }
    }
}

/// Draws a byte through `rand::random::<u8>()`, which takes it from the
/// generator of the running thread. Nothing is claimed of the byte: any value
/// may come back, and two draws need not agree. The generator is seeded from
/// the operating system on first use and panics if that source fails.
#[verifier::external_body]
fn random_byte() -> (draw: u8) {
    rand::random::<u8>()
}

/// A block of a shape drawn at random, as it enters play.
pub fn random_block() -> (b: Block)
    ensures
        exists|draw: u8| b == Block::spawned(Kind::of_draw(draw)),
        b.wf(),
{
    let draw: u8 = random_byte();
    Block::spawn(Kind::from_draw(draw))
}

/// Undoing a move gives back the block from before it.
pub proof fn lemma_undo_restores(b: Block, step: Move)
    requires
        b.wf(),
        b.has_room(step),
    ensures
        b.moved(step).has_room_back(step),
        b.moved(step).unmoved(step) == b,
{
}

/// Four quarter turns bring a block back to where it started, and so does a
/// turn followed by a turn back: the rotation states form a cycle whose
/// length is the number of states. The cells are then the same as before.
pub proof fn lemma_rotation_cycle(b: Block)
    requires
        b.wf(),
    ensures
        b.turned(1).turned(1).turned(1).turned(1) == b,
        b.turned(1).turned(-1) == b,
        b.turned(-1).turned(1) == b,
        forall|i: int|
            b.turned(1).turned(1).turned(1).turned(1).cell(i) == #[trigger] b.cell(i),
{
}

} // verus!
