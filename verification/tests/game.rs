use tetris::block::{Block, Move};
use tetris::game::{
    move_block, Game, Input, Status, DROP_INTERVAL, FALL_INTERVAL, ROTATE_INTERVAL, SHIFT_INTERVAL,
};
use tetris::gate::MoveTimer;
use tetris::grid::Grid;
use tetris::shape::Kind;
use tetris::tile::Tile;

const IDLE: Input = Input {
    rotate: false,
    left: false,
    right: false,
    soft_drop: false,
    hard_drop: false,
    quit: false,
};

const ROTATE: Input = Input { rotate: true, ..IDLE };
const LEFT: Input = Input { left: true, ..IDLE };
const RIGHT: Input = Input { right: true, ..IDLE };
const SOFT_DROP: Input = Input { soft_drop: true, ..IDLE };
const HARD_DROP: Input = Input { hard_drop: true, ..IDLE };

fn empty_tiles() -> Vec<Tile> {
    vec![Tile::Empty; 200]
}

fn lowest_row(block: &Block) -> i32 {
    (0..4).map(|i| block.y + block.kind.offset_at(block.rotation, i).1).max().unwrap()
}

/// Moves the block in play to column `x`, one step for each frame of 50 ms,
/// and drops it.
fn drop_at(game: &mut Game, x: i32, next: Kind) -> Status {
    while game.current().x != x {
        let input = if game.current().x > x { LEFT } else { RIGHT };
        assert_eq!(game.frame_with(input, 50, next), Status::Running);
    }
    game.frame_with(HARD_DROP, 200, next)
}

#[test]
fn the_intervals_are_fixed() {
    assert_eq!(ROTATE_INTERVAL, 150);
    assert_eq!(SHIFT_INTERVAL, 50);
    assert_eq!(DROP_INTERVAL, 200);
    assert_eq!(FALL_INTERVAL, 250);
}

#[test]
fn a_game_starts_with_an_empty_grid_and_two_blocks() {
    let game = Game::with_kinds(Kind::I, Kind::T);
    assert_eq!(game.current(), Block { kind: Kind::I, x: 5, y: 0, rotation: 0 });
    assert_eq!(game.preview(), Block { kind: Kind::T, x: 20, y: 2, rotation: 0 });
    assert_eq!(game.score(), 0);
    assert!(!game.is_over());
    assert_eq!(game.grid().tiles(), &empty_tiles());
}

#[test]
fn a_random_game_starts_the_same_way() {
    let game = Game::new();
    assert_eq!(game.current(), Block::spawn(game.current().kind));
    assert_eq!(game.preview(), Block::preview(game.preview().kind));
    assert_eq!(game.score(), 0);
    assert!(!game.is_over());
    assert_eq!(game.grid().tiles(), &empty_tiles());
}

#[test]
fn an_idle_frame_moves_nothing() {
    let mut game = Game::with_kinds(Kind::L, Kind::J);
    assert_eq!(game.frame_with(IDLE, 16, Kind::T), Status::Running);
    assert_eq!(game.current(), Block::spawn(Kind::L));
    assert_eq!(game.preview(), Block::preview(Kind::J));
    assert_eq!(game.grid().tiles(), &empty_tiles());
}

#[test]
fn a_shift_waits_for_its_interval() {
    let mut game = Game::with_kinds(Kind::O, Kind::O);
    game.frame_with(LEFT, 49, Kind::O);
    assert_eq!(game.current().x, 5);
    game.frame_with(LEFT, 1, Kind::O);
    assert_eq!(game.current().x, 4);
    game.frame_with(LEFT, 49, Kind::O);
    assert_eq!(game.current().x, 4);
    game.frame_with(RIGHT, 1, Kind::O);
    assert_eq!(game.current().x, 5);
}

#[test]
fn left_right_and_down_share_one_timer() {
    let mut game = Game::with_kinds(Kind::O, Kind::O);
    let all = Input { left: true, right: true, soft_drop: true, ..IDLE };
    game.frame_with(all, 50, Kind::O);
    assert_eq!(game.current(), Block { kind: Kind::O, x: 4, y: 0, rotation: 0 });
    let two = Input { right: true, soft_drop: true, ..IDLE };
    game.frame_with(two, 50, Kind::O);
    assert_eq!(game.current(), Block { kind: Kind::O, x: 5, y: 0, rotation: 0 });
    game.frame_with(SOFT_DROP, 20, Kind::O);
    assert_eq!(game.current(), Block { kind: Kind::O, x: 5, y: 0, rotation: 0 });
    game.frame_with(SOFT_DROP, 30, Kind::O);
    assert_eq!(game.current(), Block { kind: Kind::O, x: 5, y: 1, rotation: 0 });
}

#[test]
fn a_rotation_waits_for_its_interval() {
    let mut game = Game::with_kinds(Kind::T, Kind::O);
    game.frame_with(ROTATE, 149, Kind::O);
    assert_eq!(game.current().rotation, 0);
    game.frame_with(ROTATE, 1, Kind::O);
    assert_eq!(game.current().rotation, 1);
    game.frame_with(ROTATE, 100, Kind::O);
    assert_eq!(game.current().rotation, 1);
    game.frame_with(ROTATE, 50, Kind::O);
    assert_eq!(game.current(), Block { kind: Kind::T, x: 5, y: 1, rotation: 2 });
}

#[test]
fn rotation_and_shift_have_timers_of_their_own() {
    let mut game = Game::with_kinds(Kind::T, Kind::O);
    let both = Input { rotate: true, right: true, ..IDLE };
    game.frame_with(both, 150, Kind::O);
    assert_eq!(game.current(), Block { kind: Kind::T, x: 6, y: 0, rotation: 1 });
}

#[test]
fn a_move_into_the_wall_is_undone_and_starts_the_timer_anew() {
    let mut game = Game::with_kinds(Kind::O, Kind::O);
    for _ in 0..5 {
        game.frame_with(LEFT, 50, Kind::O);
    }
    assert_eq!(game.current().x, 0);
    game.frame_with(LEFT, 50, Kind::O);
    assert_eq!(game.current().x, 0);
    // The rejected attempt has used up the time that had passed.
    game.frame_with(RIGHT, 10, Kind::O);
    assert_eq!(game.current().x, 0);
    game.frame_with(RIGHT, 40, Kind::O);
    assert_eq!(game.current().x, 1);
}

#[test]
fn a_rotation_into_the_wall_is_undone() {
    let mut game = Game::with_kinds(Kind::I, Kind::O);
    game.frame_with(ROTATE, 150, Kind::O);
    assert_eq!(game.current().rotation, 1);
    for _ in 0..3 {
        game.frame_with(RIGHT, 50, Kind::O);
    }
    // The upright bar stands in column 9.
    assert_eq!(game.current().x, 8);
    game.frame_with(RIGHT, 50, Kind::O);
    assert_eq!(game.current().x, 8);
    // Lying down it would reach beyond the right edge.
    game.frame_with(ROTATE, 50, Kind::O);
    assert_eq!(game.current().rotation, 1);
    assert_eq!(game.current().x, 8);
}

#[test]
fn the_block_falls_one_row_every_quarter_second() {
    let mut game = Game::with_kinds(Kind::S, Kind::O);
    game.frame_with(IDLE, 249, Kind::O);
    assert_eq!(game.current().y, 0);
    game.frame_with(IDLE, 1, Kind::O);
    assert_eq!(game.current().y, 1);
    game.frame_with(IDLE, 250, Kind::O);
    assert_eq!(game.current(), Block { kind: Kind::S, x: 5, y: 2, rotation: 0 });
}

#[test]
fn a_block_that_can_fall_no_further_settles() {
    let mut game = Game::with_kinds(Kind::O, Kind::T);
    for row in 1..19 {
        assert_eq!(game.frame_with(IDLE, 250, Kind::Z), Status::Running);
        assert_eq!(game.current(), Block { kind: Kind::O, x: 5, y: row, rotation: 0 });
    }
    assert_eq!(game.frame_with(IDLE, 250, Kind::Z), Status::Running);
    assert_eq!(game.current(), Block::spawn(Kind::T));
    assert_eq!(game.preview(), Block::preview(Kind::Z));
    let mut expected = empty_tiles();
    for at in [185, 186, 195, 196] {
        expected[at] = Tile::Blue;
    }
    assert_eq!(game.grid().tiles(), &expected);
    assert_eq!(game.score(), 0);
}

#[test]
fn a_hard_drop_waits_for_its_interval() {
    let mut game = Game::with_kinds(Kind::O, Kind::T);
    game.frame_with(HARD_DROP, 199, Kind::Z);
    assert_eq!(game.current(), Block::spawn(Kind::O));
    assert_eq!(game.grid().tiles(), &empty_tiles());
    game.frame_with(HARD_DROP, 1, Kind::Z);
    assert_eq!(game.current(), Block::spawn(Kind::T));
    game.frame_with(HARD_DROP, 199, Kind::Z);
    assert_eq!(game.current().kind, Kind::T);
}

#[test]
fn a_hard_drop_settles_the_block_and_brings_the_next() {
    let mut game = Game::with_kinds(Kind::L, Kind::I);
    assert_eq!(game.frame_with(HARD_DROP, 200, Kind::S), Status::Running);
    assert_eq!(game.current(), Block::spawn(Kind::I));
    assert_eq!(game.preview(), Block::preview(Kind::S));
    let mut expected = empty_tiles();
    for (x, y) in [(5, 17), (6, 17), (6, 18), (6, 19)] {
        expected[y * 10 + x] = Tile::Yellow;
    }
    assert_eq!(game.grid().tiles(), &expected);
    assert_eq!(game.score(), 0);
}

#[test]
fn a_hard_drop_on_an_empty_grid_reaches_the_bottom_row() {
    for kind in [Kind::L, Kind::J, Kind::T, Kind::O, Kind::I, Kind::S, Kind::Z] {
        let mut game = Game::with_kinds(kind, Kind::O);
        let mut landed = game.current();
        tetris::fall::drop_block(&mut landed, game.grid());
        assert_eq!(lowest_row(&landed), 19);
        assert_eq!(game.frame_with(HARD_DROP, 200, Kind::O), Status::Running);
        let mut expected = Grid::new();
        tetris::grid::insert_block(&landed, &mut expected);
        assert_eq!(game.grid().tiles(), expected.tiles());
        assert_eq!(game.grid().tiles().iter().filter(|tile| **tile != Tile::Empty).count(), 4);
        assert_eq!(game.score(), 0);
    }
}

#[test]
fn full_rows_are_cleared_and_counted() {
    let mut game = Game::with_kinds(Kind::O, Kind::O);
    for x in [0, 2, 4, 6] {
        assert_eq!(drop_at(&mut game, x, Kind::O), Status::Running);
        assert_eq!(game.score(), 0);
    }
    assert_eq!(game.grid().tiles().iter().filter(|tile| **tile == Tile::Blue).count(), 16);
    assert_eq!(drop_at(&mut game, 8, Kind::O), Status::Running);
    assert_eq!(game.score(), 2);
    assert_eq!(game.grid().tiles(), &empty_tiles());
}

#[test]
fn a_cleared_row_lets_the_rows_above_come_down() {
    let mut game = Game::with_kinds(Kind::I, Kind::I);
    // Two lying bars fill columns 0 to 7 of the bottom row.
    assert_eq!(drop_at(&mut game, 0, Kind::O), Status::Running);
    assert_eq!(drop_at(&mut game, 4, Kind::O), Status::Running);
    // A square fills the rest of it and leaves two tiles in the row above.
    assert_eq!(game.current().kind, Kind::O);
    assert_eq!(drop_at(&mut game, 8, Kind::O), Status::Running);
    assert_eq!(game.score(), 1);
    let mut expected = empty_tiles();
    expected[198] = Tile::Blue;
    expected[199] = Tile::Blue;
    assert_eq!(game.grid().tiles(), &expected);
}

#[test]
fn the_game_ends_when_a_block_cannot_leave_the_top_row() {
    let mut game = Game::with_kinds(Kind::O, Kind::O);
    for _ in 0..9 {
        assert_eq!(game.frame_with(HARD_DROP, 200, Kind::O), Status::Running);
        assert!(!game.is_over());
    }
    assert_eq!(game.frame_with(HARD_DROP, 200, Kind::O), Status::GameOver);
    assert!(game.is_over());
    assert_eq!(game.score(), 0);
    assert_eq!(game.current(), Block::spawn(Kind::O));
    let mut expected = empty_tiles();
    for row in 0..20 {
        expected[row * 10 + 5] = Tile::Blue;
        expected[row * 10 + 6] = Tile::Blue;
    }
    assert_eq!(game.grid().tiles(), &expected);
}

#[test]
fn a_game_that_has_ended_stays_as_it_is() {
    let mut game = Game::with_kinds(Kind::O, Kind::O);
    for _ in 0..10 {
        game.frame_with(HARD_DROP, 200, Kind::O);
    }
    assert!(game.is_over());
    let tiles = game.grid().tiles().clone();
    let all = Input { rotate: true, left: true, right: true, soft_drop: true, hard_drop: true, quit: false };
    assert_eq!(game.frame_with(all, 1000, Kind::T), Status::GameOver);
    assert_eq!(game.frame(all, 1000), Status::GameOver);
    assert_eq!(game.frame_with(Input { quit: true, ..IDLE }, 1000, Kind::T), Status::GameOver);
    assert_eq!(game.current(), Block::spawn(Kind::O));
    assert_eq!(game.preview(), Block::preview(Kind::O));
    assert_eq!(game.grid().tiles(), &tiles);
    assert_eq!(game.score(), 0);
}

#[test]
fn a_frame_in_which_the_player_quits_changes_nothing() {
    let mut game = Game::with_kinds(Kind::O, Kind::T);
    let leave = Input { left: true, hard_drop: true, quit: true, ..IDLE };
    assert_eq!(game.frame_with(leave, 1000, Kind::Z), Status::Quit);
    assert_eq!(game.current(), Block::spawn(Kind::O));
    assert_eq!(game.preview(), Block::preview(Kind::T));
    assert_eq!(game.grid().tiles(), &empty_tiles());
    // No time has passed on the timers either.
    game.frame_with(LEFT, 49, Kind::Z);
    assert_eq!(game.current(), Block::spawn(Kind::O));
}

#[test]
fn a_held_key_moves_no_more_often_than_time_allows() {
    // Twenty frames of 16 ms are 320 ms: at most six moves every 50 ms.
    let mut game = Game::with_kinds(Kind::O, Kind::O);
    for _ in 0..20 {
        game.frame_with(LEFT, 16, Kind::O);
    }
    let moves = 5 - game.current().x;
    assert_eq!(moves, 5);
    assert!(moves <= 20 * 16 / 50);
}

#[test]
fn a_random_frame_plays_like_a_frame_with_some_shape() {
    let mut game = Game::with_kinds(Kind::L, Kind::I);
    assert_eq!(game.frame(HARD_DROP, 200), Status::Running);
    assert_eq!(game.current(), Block::spawn(Kind::I));
    let preview = game.preview();
    assert_eq!(preview, Block::preview(preview.kind));
    let mut same = Game::with_kinds(Kind::L, Kind::I);
    same.frame_with(HARD_DROP, 200, preview.kind);
    assert_eq!(game.grid().tiles(), same.grid().tiles());
    assert_eq!(game.preview(), same.preview());
}

#[test]
fn move_block_moves_when_the_timer_allows() {
    let grid = Grid::new();
    let mut timer = MoveTimer { elapsed: 50, interval: 50 };
    let mut block = Block::spawn(Kind::J);
    move_block(&mut timer, true, &mut block, &grid, Move::Down);
    assert_eq!(block, Block { kind: Kind::J, x: 5, y: 1, rotation: 0 });
    assert_eq!(timer, MoveTimer { elapsed: 0, interval: 50 });
    move_block(&mut timer, true, &mut block, &grid, Move::Down);
    assert_eq!(block.y, 1);
}

#[test]
fn move_block_does_nothing_when_the_input_is_not_held() {
    let grid = Grid::new();
    let mut timer = MoveTimer { elapsed: 500, interval: 50 };
    let mut block = Block::spawn(Kind::J);
    move_block(&mut timer, false, &mut block, &grid, Move::Rotate);
    assert_eq!(block, Block::spawn(Kind::J));
    assert_eq!(timer, MoveTimer { elapsed: 500, interval: 50 });
}

#[test]
fn move_block_undoes_a_blocked_move() {
    let grid = Grid::new();
    for (step, start) in [
        (Move::Left, Block { kind: Kind::O, x: 0, y: 5, rotation: 0 }),
        (Move::Right, Block { kind: Kind::O, x: 8, y: 5, rotation: 0 }),
        (Move::Down, Block { kind: Kind::O, x: 4, y: 18, rotation: 0 }),
        (Move::Rotate, Block { kind: Kind::I, x: 8, y: 5, rotation: 1 }),
    ] {
        let mut timer = MoveTimer { elapsed: 70, interval: 50 };
        let mut block = start;
        move_block(&mut timer, true, &mut block, &grid, step);
        assert_eq!(block, start);
        assert_eq!(timer.elapsed, 0);
    }
}

#[test]
fn a_long_game_keeps_its_shape() {
    // Inputs from a small generator of its own, so that every run is the same.
    let mut seed: u64 = 12345;
    let mut bits = move || {
        seed = seed.wrapping_mul(6364136223846793005).wrapping_add(1442695040888963407);
        (seed >> 33) as u32
    };
    let mut game = Game::with_kinds(Kind::T, Kind::S);
    let mut frames = 0;
    let mut score = 0;
    while !game.is_over() && frames < 200_000 {
        let draw = bits();
        let input = Input {
            rotate: draw & 1 != 0,
            left: draw & 2 != 0,
            right: draw & 4 != 0,
            soft_drop: draw & 8 != 0,
            hard_drop: draw & 0x70 == 0x70,
            quit: false,
        };
        let next = Kind::from_draw((draw >> 8) as u8);
        let before = game.grid().tiles().iter().filter(|tile| **tile != Tile::Empty).count();
        let status = game.frame_with(input, 16, next);
        assert_eq!(status == Status::GameOver, game.is_over());
        assert!(game.score() >= score);
        let rows = (game.score() - score) as usize;
        score = game.score();
        let tiles = game.grid().tiles();
        assert_eq!(tiles.len(), 200);
        let after = tiles.iter().filter(|tile| **tile != Tile::Empty).count();
        // Tiles come four at a time and leave ten at a time.
        assert!(after + 10 * rows == before || after + 10 * rows == before + 4);
        if !game.is_over() {
            for row in 0..20 {
                assert!(tiles[row * 10..row * 10 + 10].contains(&Tile::Empty));
            }
        }
        let current = game.current();
        assert!(current.rotation < 4);
        assert!(-3 <= current.x && current.x < 10);
        assert!(-3 <= current.y && current.y < 20);
        assert_eq!(game.preview(), Block::preview(game.preview().kind));
        frames += 1;
    }
    assert!(game.is_over());
    assert!(frames > 100);
}
