//! The grid of settled tiles, and the two questions that a block puts to it:
//! is anything in my way, and what does the grid hold once I have settled.

use vstd::prelude::*;
use crate::block::Block;
use crate::shape::{lemma_offset_range, MAX_OFFSET, SHAPE_CELLS};
use crate::tile::Tile;

verus! {

/// Columns of the grid.
pub const WIDTH: i32 = 10;

/// Rows of the grid; row 0 is the top.
pub const HEIGHT: i32 = 20;

/// Cells of the grid.
pub const CELLS: usize = 200;

/// The settled tiles, row by row from the top, each row from the left.
pub struct Grid {
    cells: Vec<Tile>,
}

/// Whether `(x, y)` names a cell of the grid.
pub open spec fn in_bounds(x: int, y: int) -> bool {
    0 <= x < WIDTH && 0 <= y < HEIGHT
}

/// The tile at column `x` of row `y`.
pub open spec fn tile_at(g: Seq<Tile>, x: int, y: int) -> Tile {
    g[y * WIDTH + x]
}

/// The position in the row-by-row sequence that the place `p = (x, y)` has.
pub open spec fn index_of(p: (int, int)) -> int {
    p.1 * WIDTH + p.0
}

/// The grid without any tile.
pub open spec fn empty_grid() -> Seq<Tile> {
    Seq::new(CELLS as nat, |k: int| Tile::Empty)
}

impl Grid {
    /// The tiles as a sequence of `CELLS` entries.
    pub closed spec fn view(&self) -> Seq<Tile> {
        self.cells@
    }

    /// A grid always has exactly `CELLS` cells.
    #[verifier::type_invariant]
    pub open spec fn wf(&self) -> bool {
        self@.len() == CELLS
    }

    /// A grid without any tile.
    pub fn new() -> (grid: Grid)
        ensures
            grid@ == empty_grid(),
    {
        let mut cells: Vec<Tile> = Vec::new();
        while cells.len() < CELLS
            invariant
                cells.len() <= CELLS,
                forall|k: int| 0 <= k < cells.len() ==> cells[k] == Tile::Empty,
            decreases CELLS - cells.len(),
        {
            cells.push(Tile::Empty);
        }
        Grid { cells }
    }

    /// A grid that holds the given tiles, row by row from the top; none if
    /// their number is not that of the cells.
    pub fn from_tiles(tiles: Vec<Tile>) -> (grid: Option<Grid>)
        ensures
            tiles.len() == CELLS ==> grid.is_some() && grid.unwrap()@ == tiles@,
            tiles.len() != CELLS ==> grid.is_none(),
    {
        if tiles.len() == CELLS {
            Some(Grid { cells: tiles })
        } else {
            None
        }
    }

    /// The tiles, row by row from the top: for whoever draws them.
    pub fn tiles(&self) -> (tiles: &Vec<Tile>)
        ensures
            tiles@ == self@,
            tiles.len() == CELLS,
    {
        proof {
            use_type_invariant(self);
        }
        &self.cells
    }

    /// The tile at position `at` of the sequence.
    pub fn at(&self, at: usize) -> (tile: Tile)
        requires
            at < CELLS,
        ensures
            tile == self@[at as int],
    {
        proof {
            use_type_invariant(self);
        }
        self.cells[at]
    }

    /// Puts a tile at position `at` of the sequence. Tiles come into the
    /// grid with a block that settles, and move when rows are cleared.
    pub(crate) fn put(&mut self, at: usize, tile: Tile)
        requires
            at < CELLS,
        ensures
            final(self)@ == old(self)@.update(at as int, tile),
    {
        proof {
            use_type_invariant(&*self);
        }
        self.cells[at] = tile;
    }

    /// The tile at column `x` of row `y`, if there is such a cell.
    pub fn get(&self, x: i32, y: i32) -> (tile: Option<Tile>)
        ensures
            in_bounds(x as int, y as int) ==> tile == Some(tile_at(self@, x as int, y as int)),
            !in_bounds(x as int, y as int) ==> tile.is_none(),
    {
        proof {
            use_type_invariant(self);
        }
        if 0 <= x && x < WIDTH && 0 <= y && y < HEIGHT {
            Some(self.cells[(y * WIDTH + x) as usize])
        } else {
            None
        }
    }
}

/// Whether a block cell may not be at `(x, y)`: the place is outside the grid
/// or holds a settled tile.
pub open spec fn obstructed(g: Seq<Tile>, x: int, y: int) -> bool {
    !in_bounds(x, y) || tile_at(g, x, y) != Tile::Empty
}

/// Whether at least one of the block's four cells is obstructed.
pub open spec fn blocked(g: Seq<Tile>, b: Block) -> bool {
    exists|i: int| 0 <= i < SHAPE_CELLS && obstructed(g, (#[trigger] b.cell(i)).0, b.cell(i).1)
}

/// Where an anchor can be while the block is not blocked: no further left
/// of the grid or above it than the largest offset, and not right of it or
/// below it.
pub open spec fn in_reach(b: Block) -> bool {
    -MAX_OFFSET <= b.x < WIDTH && -MAX_OFFSET <= b.y < HEIGHT
}

/// Whether one of the first `n` cells of the block has position `k`.
pub open spec fn covers_first(b: Block, n: int, k: int) -> bool {
    exists|i: int| 0 <= i < n && index_of(#[trigger] b.cell(i)) == k
}

/// Whether one of the block's four cells has position `k`.
pub open spec fn covers(b: Block, k: int) -> bool {
    covers_first(b, SHAPE_CELLS as int, k)
}

/// The grid once the block has settled: its colour at every position that
/// one of its cells has, and the tile from before everywhere else. A cell
/// of the block whose position is not one of the grid's leaves no trace.
pub open spec fn with_block(g: Seq<Tile>, b: Block) -> Seq<Tile> {
    Seq::new(g.len(), |k: int| if covers(b, k) { b.kind.colour() } else { g[k] })
}

/// Tells whether the block cannot be where it is: `true` if and only if one
/// of its cells lies outside the grid or on a settled tile.
pub fn collision(block: &Block, grid: &Grid) -> (hit: bool)
    requires
        block.wf(),
    ensures
        hit == blocked(grid@, *block),
{
    proof {
        use_type_invariant(grid);
    }
    let mut i: usize = 0;
    while i < SHAPE_CELLS
        invariant
            i <= SHAPE_CELLS,
            block.wf(),
            grid@.len() == CELLS,
            forall|j: int| 0 <= j < i ==> !obstructed(grid@, (#[trigger] block.cell(j)).0, block.cell(j).1),
        decreases SHAPE_CELLS - i,
    {
        let d: (i32, i32) = block.kind.offset_at(block.rotation, i);
        let x: i64 = block.x as i64 + d.0 as i64;
        let y: i64 = block.y as i64 + d.1 as i64;
        assert(block.cell(i as int) == (x as int, y as int));
        if y >= HEIGHT as i64 || x >= WIDTH as i64 || y < 0 || x < 0 {
            return true;
        }
        let at: usize = (y * (WIDTH as i64) + x) as usize;
        match grid.at(at) {
            Tile::Empty => {},
            _ => {
                return true;
            },
        }
        i = i + 1;
    }
    false
}

/// Settles the block: writes its colour to each of its cells whose position
/// is one of the grid's. The block is not tested first; a block that is not
/// blocked has all four cells written.
pub fn insert_block(block: &Block, grid: &mut Grid)
    requires
        block.wf(),
    ensures
        final(grid)@ == with_block(old(grid)@, *block),
{
    proof {
        use_type_invariant(&*grid);
    }
    let tile: Tile = block.kind.tile();
    let mut i: usize = 0;
    while i < SHAPE_CELLS
        invariant
            i <= SHAPE_CELLS,
            block.wf(),
            tile == block.kind.colour(),
            grid@.len() == CELLS,
            old(grid)@.len() == CELLS,
            forall|k: int|
                0 <= k < CELLS ==> #[trigger] grid@[k] == if covers_first(*block, i as int, k) {
                    tile
                } else {
                    old(grid)@[k]
                },
        decreases SHAPE_CELLS - i,
    {
        let d: (i32, i32) = block.kind.offset_at(block.rotation, i);
        let x: i64 = block.x as i64 + d.0 as i64;
        let y: i64 = block.y as i64 + d.1 as i64;
        assert(i64::MIN <= y * WIDTH <= i64::MAX) by (nonlinear_arith)
            requires
                i32::MIN <= y <= i32::MAX + MAX_OFFSET,
                WIDTH == 10,
                MAX_OFFSET == 3,
        ;
        let at: i64 = y * (WIDTH as i64) + x;
        assert(index_of(block.cell(i as int)) == at);
        let ghost before: Seq<Tile> = grid@;
        if 0 <= at && at < CELLS as i64 {
            grid.put(at as usize, tile);
        }
        assert forall|k: int| 0 <= k < CELLS implies #[trigger] grid@[k] == if covers_first(
            *block,
            i + 1,
            k,
        ) {
            tile
        } else {
            old(grid)@[k]
        } by {
            assert(covers_first(*block, i + 1, k) <==> k == at || covers_first(
                *block,
                i as int,
                k,
            ));
        }
        i = i + 1;
    }
}

/// A block that is not blocked has all its cells in the grid, and so its
/// anchor within reach of it.
pub proof fn lemma_free_block_in_reach(g: Seq<Tile>, b: Block)
    requires
        b.wf(),
        !blocked(g, b),
    ensures
        in_reach(b),
        forall|i: int| 0 <= i < SHAPE_CELLS ==> in_bounds((#[trigger] b.cell(i)).0, b.cell(i).1),
{
    assert forall|i: int| 0 <= i < SHAPE_CELLS implies in_bounds(
        (#[trigger] b.cell(i)).0,
        b.cell(i).1,
    ) by {
        assert(!obstructed(g, b.cell(i).0, b.cell(i).1));
    }
    lemma_offset_range(b.kind, b.rotation as int, 0);
    assert(in_bounds(b.cell(0).0, b.cell(0).1));
}

/// On a grid without tiles a block is blocked only by the grid's edges.
pub proof fn lemma_free_on_empty_grid(b: Block)
    requires
        forall|i: int| 0 <= i < SHAPE_CELLS ==> in_bounds((#[trigger] b.cell(i)).0, b.cell(i).1),
    ensures
        !blocked(empty_grid(), b),
{
    assert forall|i: int| 0 <= i < SHAPE_CELLS implies !obstructed(
        empty_grid(),
        (#[trigger] b.cell(i)).0,
        b.cell(i).1,
    ) by {
        assert(in_bounds(b.cell(i).0, b.cell(i).1));
    }
}

/// A block that has just settled is in its own way: once its tiles are in
/// the grid, the same block at the same place is blocked.
pub proof fn lemma_settled_block_is_blocked(g: Seq<Tile>, b: Block)
    requires
        g.len() == CELLS,
        b.wf(),
    ensures
        blocked(with_block(g, b), b),
{
    let p: (int, int) = b.cell(0);
    if in_bounds(p.0, p.1) {
        assert(covers(b, index_of(p)));
    }
    assert(obstructed(with_block(g, b), p.0, p.1));
}

} // verus!
