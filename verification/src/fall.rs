//! The fall of a block to its rest: where a block that is let go comes to
//! lie, on the settled tiles or on the floor.

use vstd::prelude::*;
use crate::block::Block;
use crate::grid::{
    blocked, collision, covers, empty_grid, in_bounds, index_of, lemma_free_block_in_reach,
    lemma_free_on_empty_grid, tile_at, with_block, Grid, HEIGHT, WIDTH,
};
use crate::rows::{compacted, full_rows, lemma_nothing_to_clear, row_full};
use crate::shape::{lemma_offset_range, SHAPE_CELLS};
use crate::tile::Tile;

verus! {

/// Whether a block let fall from where it is comes to rest with its anchor
/// in row `y`: one row further down it is blocked, and in no row on its way
/// there, row `y` included.
pub open spec fn rests_at(g: Seq<Tile>, b: Block, y: int) -> bool {
    &&& b.y <= y
    &&& forall|r: int| b.y < r <= y ==> !blocked(g, #[trigger] b.at(b.x as int, r))
    &&& blocked(g, b.at(b.x as int, y + 1))
}

/// The row in which the anchor of a block let fall comes to rest.
pub open spec fn landing_row(g: Seq<Tile>, b: Block) -> int {
    choose|y: int| rests_at(g, b, y)
}

/// The lowest row that holds a cell of the block.
pub open spec fn bottom_row(b: Block) -> int {
    let upper: int = if b.cell(0).1 >= b.cell(1).1 {
        b.cell(0).1
    } else {
        b.cell(1).1
    };
    let lower: int = if b.cell(2).1 >= b.cell(3).1 {
        b.cell(2).1
    } else {
        b.cell(3).1
    };
    if upper >= lower {
        upper
    } else {
        lower
    }
}

/// A block comes to rest in one row only.
pub proof fn lemma_rest_is_unique(g: Seq<Tile>, b: Block, y: int)
    requires
        rests_at(g, b, y),
    ensures
        landing_row(g, b) == y,
{
    let z: int = landing_row(g, b);
    if z < y {
        assert(!blocked(g, b.at(b.x as int, z + 1)));
    }
    if y < z {
        assert(!blocked(g, b.at(b.x as int, y + 1)));
    }
}

/// Lets the block fall: moves it down row by row until it is blocked, and
/// then one row back up. A block that cannot move down at all stays.
pub fn drop_block(block: &mut Block, grid: &Grid)
    requires
        old(block).wf(),
        old(block).y < i32::MAX,
    ensures
        rests_at(grid@, *old(block), final(block).y as int),
        *final(block) == old(block).at(old(block).x as int, landing_row(grid@, *old(block))),
        final(block).wf(),
{
    let ghost start: Block = *block;
    loop
        invariant
            block.wf(),
            start.wf(),
            *block == start.at(start.x as int, block.y as int),
            start.y <= block.y < i32::MAX,
            forall|r: int|
                start.y < r <= block.y ==> !blocked(grid@, #[trigger] start.at(start.x as int, r)),
        ensures
            rests_at(grid@, start, block.y as int),
        decreases HEIGHT - block.y,
    {
        block.down();
        if collision(block, grid) {
            block.up();
            break ;
        }
        proof {
            lemma_free_block_in_reach(grid@, *block);
        }
    }
    proof {
        lemma_rest_is_unique(grid@, start, block.y as int);
    }
}

/// The lowest row of a block holds one of its cells, and none is lower.
proof fn lemma_bottom_row(b: Block)
    ensures
        forall|i: int| 0 <= i < SHAPE_CELLS ==> (#[trigger] b.cell(i)).1 <= bottom_row(b),
        exists|i: int| 0 <= i < SHAPE_CELLS && (#[trigger] b.cell(i)).1 == bottom_row(b),
{
    assert(b.cell(0).1 == bottom_row(b) || b.cell(1).1 == bottom_row(b) || b.cell(2).1
        == bottom_row(b) || b.cell(3).1 == bottom_row(b));
}

/// A block in the grid, without tiles around it, can be moved down until its
/// lowest cell is in the bottom row, and no further.
proof fn lemma_rest_on_empty_grid(b: Block)
    requires
        b.wf(),
        !blocked(empty_grid(), b),
    ensures
        rests_at(empty_grid(), b, b.y + (HEIGHT - 1 - bottom_row(b))),
        bottom_row(b.at(b.x as int, b.y + (HEIGHT - 1 - bottom_row(b)))) == HEIGHT - 1,
{
    let g: Seq<Tile> = empty_grid();
    let y: int = b.y + (HEIGHT - 1 - bottom_row(b));
    lemma_free_block_in_reach(g, b);
    lemma_bottom_row(b);
    assert forall|r: int| b.y < r <= y implies !blocked(g, #[trigger] b.at(b.x as int, r)) by {
        let c: Block = b.at(b.x as int, r);
        assert forall|i: int| 0 <= i < SHAPE_CELLS implies in_bounds(
            (#[trigger] c.cell(i)).0,
            c.cell(i).1,
        ) by {
            assert(b.cell(i).1 <= bottom_row(b));
        }
        lemma_free_on_empty_grid(c);
    }
    let below: Block = b.at(b.x as int, y + 1);
    let low: int = choose|i: int| 0 <= i < SHAPE_CELLS && (#[trigger] b.cell(i)).1 == bottom_row(b);
    assert(below.cell(low).1 == HEIGHT);
}

/// The tiles of one block alone fill no row: with them in the grid there is
/// nothing to clear.
pub proof fn lemma_nothing_to_clear_after_first_block(b: Block)
    requires
        b.wf(),
        !blocked(empty_grid(), b),
    ensures
        full_rows(with_block(empty_grid(), b)) == 0,
        compacted(with_block(empty_grid(), b)) == with_block(empty_grid(), b),
{
    let after: Seq<Tile> = with_block(empty_grid(), b);
    lemma_free_block_in_reach(empty_grid(), b);
    assert forall|r: int| 0 <= r < HEIGHT implies !row_full(after, r) by {
        let x: int = if b.x >= 1 {
            0
        } else {
            WIDTH - 1
        };
        if covers(b, r * WIDTH + x) {
            let i: int = choose|i: int|
                0 <= i < SHAPE_CELLS && index_of(#[trigger] b.cell(i)) == r * WIDTH + x;
            lemma_offset_range(b.kind, b.rotation as int, i);
            assert(false);
        }
        assert(tile_at(after, x, r) == Tile::Empty);
    }
    lemma_nothing_to_clear(after);
}

/// On a grid without tiles, a block that is let fall from a place in the
/// grid comes to rest with its lowest cell in the bottom row, and its tiles
/// fill no row. A block that has just entered play is such a block.
pub proof fn lemma_fall_on_empty_grid(b: Block)
    requires
        b.wf(),
        !blocked(empty_grid(), b),
    ensures
        rests_at(empty_grid(), b, landing_row(empty_grid(), b)),
        bottom_row(b.at(b.x as int, landing_row(empty_grid(), b))) == HEIGHT - 1,
        !blocked(empty_grid(), b.at(b.x as int, landing_row(empty_grid(), b))),
        full_rows(with_block(empty_grid(), b.at(b.x as int, landing_row(empty_grid(), b)))) == 0,
{
    let y: int = b.y + (HEIGHT - 1 - bottom_row(b));
    lemma_rest_on_empty_grid(b);
    lemma_rest_is_unique(empty_grid(), b, y);
    lemma_bottom_row(b);
    lemma_free_block_in_reach(empty_grid(), b);
    lemma_nothing_to_clear_after_first_block(b.at(b.x as int, y));
}

} // verus!
