//! Clearing rows: which rows of the grid are full, and what the grid holds
//! once they have left and the rows above them have come down.

use vstd::prelude::*;
use crate::grid::{tile_at, Grid, CELLS, HEIGHT, WIDTH};
use crate::tile::Tile;

verus! {

/// Whether every cell of row `r` holds a tile.
pub open spec fn row_full(g: Seq<Tile>, r: int) -> bool {
    forall|x: int| 0 <= x < WIDTH ==> #[trigger] tile_at(g, x, r) != Tile::Empty
}

/// The rows above row `m` that are not full, from the top down.
pub open spec fn kept_rows(g: Seq<Tile>, m: int) -> Seq<int>
    decreases m,
{
    if m <= 0 {
        Seq::empty()
    } else if row_full(g, m - 1) {
        kept_rows(g, m - 1)
    } else {
        kept_rows(g, m - 1).push(m - 1)
    }
}

/// How many rows of the grid are full.
pub open spec fn full_rows(g: Seq<Tile>) -> int {
    HEIGHT - kept_rows(g, HEIGHT as int).len()
}

/// How many of the first `m` rows are full.
pub open spec fn full_above(g: Seq<Tile>, m: int) -> int {
    m - kept_rows(g, m).len()
}

/// The grid with the full rows among its first `m` rows taken out: the rows
/// that are kept stand directly above row `m`, in their old order, under as
/// many empty rows as were taken out. Row `m` and the rows below are as before.
pub open spec fn compacted_to(g: Seq<Tile>, m: int) -> Seq<Tile> {
    Seq::new(
        g.len(),
        |k: int|
            {
                let x: int = k % (WIDTH as int);
                let y: int = k / (WIDTH as int);
                let kept: Seq<int> = kept_rows(g, m);
                let gone: int = m - kept.len();
                if y >= m {
                    g[k]
                } else if y < gone {
                    Tile::Empty
                } else {
                    tile_at(g, x, kept[y - gone])
                }
            },
    )
}

/// The grid with all its full rows taken out: the rows that are kept stand
/// at the bottom, in their old order, under as many empty rows as were full.
pub open spec fn compacted(g: Seq<Tile>) -> Seq<Tile> {
    compacted_to(g, HEIGHT as int)
}

/// The grid with row `row` taken out: every row above it one row further
/// down, and an empty row at the top.
pub open spec fn without_row(g: Seq<Tile>, row: int) -> Seq<Tile> {
    Seq::new(
        g.len(),
        |k: int|
            if k >= (row + 1) * WIDTH {
                g[k]
            } else if k < WIDTH {
                Tile::Empty
            } else {
                g[k - WIDTH]
            },
    )
}

/// Tells whether every cell of row `row` holds a tile.
pub fn row_is_full(grid: &Grid, row: usize) -> (full: bool)
    requires
        row < HEIGHT,
    ensures
        full == row_full(grid@, row as int),
{
    proof {
        use_type_invariant(grid);
    }
    let mut x: usize = 0;
    while x < WIDTH as usize
        invariant
            x <= WIDTH,
            row < HEIGHT,
            grid@.len() == CELLS,
            forall|c: int| 0 <= c < x ==> #[trigger] tile_at(grid@, c, row as int) != Tile::Empty,
        decreases WIDTH - x,
    {
        match grid.at(row * (WIDTH as usize) + x) {
            Tile::Empty => {
                assert(tile_at(grid@, x as int, row as int) == Tile::Empty);
                return false;
            },
            _ => {},
        }
        x = x + 1;
    }
    true
}

/// Takes row `row` out of the grid: walking up from that row, each row takes
/// the tiles of the row above it, and the top row becomes empty.
pub fn remove_row(grid: &mut Grid, row: usize)
    requires
        row < HEIGHT,
    ensures
        final(grid)@ == without_row(old(grid)@, row as int),
{
    proof {
        use_type_invariant(&*grid);
    }
    let mut i: usize = row + 1;
    while i > 0
        invariant
            i <= row + 1,
            row < HEIGHT,
            grid@.len() == CELLS,
            old(grid)@.len() == CELLS,
            forall|k: int|
                0 <= k < CELLS ==> #[trigger] grid@[k] == if k >= i * WIDTH {
                    without_row(old(grid)@, row as int)[k]
                } else {
                    old(grid)@[k]
                },
        decreases i,
    {
        i = i - 1;
        let mut j: usize = 0;
        while j < WIDTH as usize
            invariant
                j <= WIDTH,
                i <= row,
                row < HEIGHT,
                grid@.len() == CELLS,
                old(grid)@.len() == CELLS,
                forall|k: int|
                    0 <= k < CELLS ==> #[trigger] grid@[k] == if k >= (i + 1) * WIDTH || (i * WIDTH
                        <= k < i * WIDTH + j) {
                        without_row(old(grid)@, row as int)[k]
                    } else {
                        old(grid)@[k]
                    },
            decreases WIDTH - j,
        {
            let index: usize = i * (WIDTH as usize) + j;
            if i == 0 {
                grid.put(index, Tile::Empty);
            } else {
                let above: Tile = grid.at(index - WIDTH as usize);
                grid.put(index, above);
            }
            j = j + 1;
        }
    }
}

/// No more rows are kept above row `m` than there are.
proof fn lemma_kept_rows_len(g: Seq<Tile>, m: int)
    requires
        0 <= m,
    ensures
        kept_rows(g, m).len() <= m,
        forall|j: int| 0 <= j < kept_rows(g, m).len() ==> 0 <= #[trigger] kept_rows(g, m)[j] < m,
    decreases m,
{
    if m > 0 {
        lemma_kept_rows_len(g, m - 1);
    }
}

/// A row that is not full stays where it is when the rows above it are
/// compacted.
proof fn lemma_keep_row(g: Seq<Tile>, m: int)
    requires
        g.len() == CELLS,
        0 <= m < HEIGHT,
        !row_full(g, m),
    ensures
        compacted_to(g, m + 1) == compacted_to(g, m),
{
    lemma_kept_rows_len(g, m);
}

/// Taking a full row out of a grid whose rows above it are compacted leaves
/// the grid compacted down to and including that row.
proof fn lemma_drop_row(g: Seq<Tile>, m: int)
    requires
        g.len() == CELLS,
        0 <= m < HEIGHT,
        row_full(g, m),
    ensures
        without_row(compacted_to(g, m), m) == compacted_to(g, m + 1),
{
    lemma_kept_rows_len(g, m);
}

/// Rows that are not full stay where they are when the rows above them are
/// compacted.
proof fn lemma_keep_rows(g: Seq<Tile>, m: int, n: int)
    requires
        g.len() == CELLS,
        0 <= m <= n <= HEIGHT,
        forall|r: int| m <= r < n ==> !row_full(g, r),
    ensures
        compacted_to(g, n) == compacted_to(g, m),
        n - kept_rows(g, n).len() == m - kept_rows(g, m).len(),
    decreases n - m,
{
    if m < n {
        lemma_keep_rows(g, m, n - 1);
        lemma_keep_row(g, n - 1);
    }
}

/// Takes every full row out of the grid and tells how many there were. The
/// rows are first looked through from the top, then each full one is taken
/// out in turn, the rows above it moving down.
pub fn clear_rows(grid: &mut Grid) -> (cleared: i32)
    ensures
        cleared == full_rows(old(grid)@),
        0 <= cleared <= HEIGHT,
        final(grid)@ == compacted(old(grid)@),
{
    proof {
        use_type_invariant(&*grid);
        lemma_kept_rows_len(grid@, HEIGHT as int);
    }
    let mut full: Vec<usize> = Vec::new();
    let mut score: i32 = 0;
    let mut row: usize = 0;
    while row < HEIGHT as usize
        invariant
            row <= HEIGHT,
            grid@ == old(grid)@,
            grid@.len() == CELLS,
            score == full.len(),
            full.len() + kept_rows(grid@, row as int).len() == row,
            forall|j: int| 0 <= j < full.len() ==> #[trigger] full[j] < row && row_full(grid@, full[j] as int),
            forall|j: int, l: int| 0 <= j < l < full.len() ==> full[j] < full[l],
            forall|r: int|
                0 <= r < row && #[trigger] row_full(grid@, r) ==> exists|j: int|
                    0 <= j < full.len() && full[j] == r,
        decreases HEIGHT - row,
    {
        let ghost found: Seq<usize> = full@;
        if row_is_full(grid, row) {
            full.push(row);
            score = score + 1;
        }
        assert forall|r: int| 0 <= r < row + 1 && #[trigger] row_full(grid@, r) implies exists|
            j: int,
        | 0 <= j < full.len() && full[j] == r by {
            if r < row {
                let j: int = choose|j: int| 0 <= j < found.len() && found[j] == r;
                assert(full[j] == r);
            } else {
                assert(full[full.len() - 1] == r);
            }
        }
        row = row + 1;
    }
    let ghost mut done: int = 0;
    let mut n: usize = 0;
    while n < full.len()
        invariant
            n <= full.len(),
            0 <= done <= HEIGHT,
            old(grid)@.len() == CELLS,
            grid@ == compacted_to(old(grid)@, done),
            forall|j: int|
                n <= j < full.len() ==> done <= #[trigger] full[j] < HEIGHT && row_full(
                    old(grid)@,
                    full[j] as int,
                ),
            forall|j: int, l: int| 0 <= j < l < full.len() ==> full[j] < full[l],
            forall|r: int|
                done <= r < HEIGHT && #[trigger] row_full(old(grid)@, r) ==> exists|j: int|
                    n <= j < full.len() && full[j] == r,
        decreases full.len() - n,
    {
        let target: usize = full[n];
        proof {
            lemma_keep_rows(old(grid)@, done, target as int);
        }
        remove_row(grid, target);
        proof {
            lemma_drop_row(old(grid)@, target as int);
            done = target + 1;
        }
        n = n + 1;
    }
    proof {
        lemma_keep_rows(old(grid)@, done, HEIGHT as int);
    }
    score
}

/// A kept row stands in the list of kept rows behind the kept rows above it.
proof fn lemma_kept_row_place(g: Seq<Tile>, r: int, m: int)
    requires
        0 <= r < m,
        !row_full(g, r),
    ensures
        kept_rows(g, r).len() < kept_rows(g, m).len(),
        kept_rows(g, m)[kept_rows(g, r).len() as int] == r,
    decreases m,
{
    if r < m - 1 {
        lemma_kept_row_place(g, r, m - 1);
    }
}

/// Further down there are no fewer full rows above.
proof fn lemma_full_above_grows(g: Seq<Tile>, m: int, n: int)
    requires
        0 <= m <= n,
    ensures
        0 <= full_above(g, m) <= full_above(g, n),
    decreases n - m,
{
    lemma_kept_rows_len(g, m);
    if m < n {
        lemma_full_above_grows(g, m, n - 1);
    }
}

/// Every kept row is a row that is not full.
proof fn lemma_kept_rows_not_full(g: Seq<Tile>, m: int)
    requires
        0 <= m,
    ensures
        forall|j: int|
            0 <= j < kept_rows(g, m).len() ==> !row_full(g, #[trigger] kept_rows(g, m)[j]),
    decreases m,
{
    if m > 0 {
        lemma_kept_rows_not_full(g, m - 1);
        assert forall|j: int| 0 <= j < kept_rows(g, m).len() implies !row_full(
            g,
            #[trigger] kept_rows(g, m)[j],
        ) by {
            if j < kept_rows(g, m - 1).len() {
                assert(kept_rows(g, m)[j] == kept_rows(g, m - 1)[j]);
            }
        }
    }
}

/// Once the full rows have left, no row is full: clearing again finds
/// nothing and changes nothing.
pub proof fn lemma_clearing_twice(g: Seq<Tile>)
    requires
        g.len() == CELLS,
    ensures
        full_rows(compacted(g)) == 0,
        compacted(compacted(g)) == compacted(g),
{
    let after: Seq<Tile> = compacted(g);
    lemma_kept_rows_len(g, HEIGHT as int);
    lemma_kept_rows_not_full(g, HEIGHT as int);
    assert forall|r: int| 0 <= r < HEIGHT implies !row_full(after, r) by {
        if r < full_rows(g) {
            assert(tile_at(after, 0, r) == Tile::Empty);
        } else {
            let from: int = kept_rows(g, HEIGHT as int)[r - full_rows(g)];
            let x: int = choose|x: int| 0 <= x < WIDTH && tile_at(g, x, from) == Tile::Empty;
            assert(tile_at(after, x, r) == Tile::Empty);
        }
    }
    lemma_nothing_to_clear(after);
}

/// There are no fewer full rows than none and no more than rows.
pub proof fn lemma_full_rows_range(g: Seq<Tile>)
    ensures
        0 <= full_rows(g) <= HEIGHT,
{
    lemma_kept_rows_len(g, HEIGHT as int);
}

/// Where a kept row goes: a row that is not full moves down by the number of
/// full rows below it, with its tiles as they were.
pub proof fn lemma_kept_row_moves_down(g: Seq<Tile>, r: int, x: int)
    requires
        g.len() == CELLS,
        0 <= r < HEIGHT,
        0 <= x < WIDTH,
        !row_full(g, r),
    ensures
        0 <= full_above(g, r + 1) <= full_rows(g) <= HEIGHT,
        tile_at(compacted(g), x, r + full_rows(g) - full_above(g, r + 1)) == tile_at(g, x, r),
{
    lemma_kept_row_place(g, r, HEIGHT as int);
    lemma_kept_rows_len(g, HEIGHT as int);
    lemma_kept_rows_len(g, r);
    lemma_full_above_grows(g, r + 1, HEIGHT as int);
}

/// The rows that take the place of the full ones, at the top, are empty.
pub proof fn lemma_top_rows_empty(g: Seq<Tile>, y: int, x: int)
    requires
        g.len() == CELLS,
        0 <= y < full_rows(g),
        0 <= x < WIDTH,
    ensures
        tile_at(compacted(g), x, y) == Tile::Empty,
{
    lemma_kept_rows_len(g, HEIGHT as int);
}

/// A grid without a full row has nothing to clear and stays as it is. The
/// empty grid is one such.
pub proof fn lemma_nothing_to_clear(g: Seq<Tile>)
    requires
        g.len() == CELLS,
        forall|r: int| 0 <= r < HEIGHT ==> !row_full(g, r),
    ensures
        full_rows(g) == 0,
        compacted(g) == g,
{
    lemma_keep_rows(g, 0, HEIGHT as int);
}

/// With exactly one full row `a`, one row is cleared: every row above `a`
/// moves down by one, every row below it stays, and the top row is empty.
pub proof fn lemma_one_full_row(g: Seq<Tile>, a: int)
    requires
        g.len() == CELLS,
        0 <= a < HEIGHT,
        row_full(g, a),
        forall|r: int| 0 <= r < HEIGHT && r != a ==> !row_full(g, r),
    ensures
        full_rows(g) == 1,
        forall|r: int, x: int|
            0 <= r < a && 0 <= x < WIDTH ==> tile_at(compacted(g), x, r + 1) == #[trigger] tile_at(
                g,
                x,
                r,
            ),
        forall|r: int, x: int|
            a < r < HEIGHT && 0 <= x < WIDTH ==> tile_at(compacted(g), x, r) == #[trigger] tile_at(
                g,
                x,
                r,
            ),
        forall|x: int| 0 <= x < WIDTH ==> #[trigger] tile_at(compacted(g), x, 0) == Tile::Empty,
{
    lemma_keep_rows(g, 0, a);
    lemma_keep_rows(g, a + 1, HEIGHT as int);
    assert forall|r: int, x: int| 0 <= r < a && 0 <= x < WIDTH implies tile_at(
        compacted(g),
        x,
        r + 1,
    ) == #[trigger] tile_at(g, x, r) by {
        lemma_keep_rows(g, 0, r + 1);
        lemma_kept_row_moves_down(g, r, x);
    }
    assert forall|r: int, x: int| a < r < HEIGHT && 0 <= x < WIDTH implies tile_at(
        compacted(g),
        x,
        r,
    ) == #[trigger] tile_at(g, x, r) by {
        lemma_keep_rows(g, a + 1, r + 1);
        lemma_kept_row_moves_down(g, r, x);
    }
    assert forall|x: int| 0 <= x < WIDTH implies #[trigger] tile_at(compacted(g), x, 0)
        == Tile::Empty by {
        lemma_top_rows_empty(g, 0, x);
    }
}

/// With exactly two full rows `a` and `b`, `a` above `b`, two rows are
/// cleared: every row above `a` moves down by two, every row between them
/// by one, every row below `b` stays, and the two top rows are empty.
pub proof fn lemma_two_full_rows(g: Seq<Tile>, a: int, b: int)
    requires
        g.len() == CELLS,
        0 <= a < b < HEIGHT,
        row_full(g, a),
        row_full(g, b),
        forall|r: int| 0 <= r < HEIGHT && r != a && r != b ==> !row_full(g, r),
    ensures
        full_rows(g) == 2,
        forall|r: int, x: int|
            0 <= r < a && 0 <= x < WIDTH ==> tile_at(compacted(g), x, r + 2) == #[trigger] tile_at(
                g,
                x,
                r,
            ),
        forall|r: int, x: int|
            a < r < b && 0 <= x < WIDTH ==> tile_at(compacted(g), x, r + 1) == #[trigger] tile_at(
                g,
                x,
                r,
            ),
        forall|r: int, x: int|
            b < r < HEIGHT && 0 <= x < WIDTH ==> tile_at(compacted(g), x, r) == #[trigger] tile_at(
                g,
                x,
                r,
            ),
        forall|r: int, x: int|
            0 <= r < 2 && 0 <= x < WIDTH ==> #[trigger] tile_at(compacted(g), x, r) == Tile::Empty,
{
    lemma_keep_rows(g, 0, a);
    lemma_keep_rows(g, a + 1, b);
    lemma_keep_rows(g, b + 1, HEIGHT as int);
    assert forall|r: int, x: int| 0 <= r < a && 0 <= x < WIDTH implies tile_at(
        compacted(g),
        x,
        r + 2,
    ) == #[trigger] tile_at(g, x, r) by {
        lemma_keep_rows(g, 0, r + 1);
        lemma_kept_row_moves_down(g, r, x);
    }
    assert forall|r: int, x: int| a < r < b && 0 <= x < WIDTH implies tile_at(
        compacted(g),
        x,
        r + 1,
    ) == #[trigger] tile_at(g, x, r) by {
        lemma_keep_rows(g, a + 1, r + 1);
        lemma_kept_row_moves_down(g, r, x);
    }
    assert forall|r: int, x: int| b < r < HEIGHT && 0 <= x < WIDTH implies tile_at(
        compacted(g),
        x,
        r,
    ) == #[trigger] tile_at(g, x, r) by {
        lemma_keep_rows(g, b + 1, r + 1);
        lemma_kept_row_moves_down(g, r, x);
    }
    assert forall|r: int, x: int| 0 <= r < 2 && 0 <= x < WIDTH implies #[trigger] tile_at(
        compacted(g),
        x,
        r,
    ) == Tile::Empty by {
        lemma_top_rows_empty(g, r, x);
    }
}

} // verus!
