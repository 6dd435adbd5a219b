use tetris::block::{random_block, Block, Move, PREVIEW_X, PREVIEW_Y, SPAWN_X, SPAWN_Y};
use tetris::shape::{Kind, ROTATIONS, SHAPE_CELLS};
use tetris::tile::Tile;

const KINDS: [Kind; 7] = [Kind::L, Kind::J, Kind::T, Kind::O, Kind::I, Kind::S, Kind::Z];

fn state(kind: Kind, rotation: usize) -> Vec<(i32, i32)> {
    (0..SHAPE_CELLS).map(|i| kind.offset_at(rotation, i)).collect()
}

fn cells(block: &Block) -> Vec<(i32, i32)> {
    let mut all: Vec<(i32, i32)> = state(block.kind, block.rotation)
        .into_iter()
        .map(|(dx, dy)| (block.x + dx, block.y + dy))
        .collect();
    all.sort();
    all
}

#[test]
fn l_table_has_its_four_states() {
    assert_eq!(state(Kind::L, 0), vec![(0, 0), (1, 0), (1, 1), (1, 2)]);
    assert_eq!(state(Kind::L, 1), vec![(0, 1), (1, 1), (2, 1), (2, 0)]);
    assert_eq!(state(Kind::L, 2), vec![(1, 0), (1, 1), (1, 2), (2, 2)]);
    assert_eq!(state(Kind::L, 3), vec![(0, 1), (0, 2), (1, 1), (2, 1)]);
}

#[test]
fn j_table_has_its_four_states() {
    assert_eq!(state(Kind::J, 0), vec![(0, 2), (1, 2), (1, 1), (1, 0)]);
    assert_eq!(state(Kind::J, 1), vec![(0, 0), (0, 1), (1, 1), (2, 1)]);
    assert_eq!(state(Kind::J, 2), vec![(1, 0), (2, 0), (1, 1), (1, 2)]);
    assert_eq!(state(Kind::J, 3), vec![(0, 1), (1, 1), (2, 1), (2, 2)]);
}

#[test]
fn t_table_has_its_four_states() {
    assert_eq!(state(Kind::T, 0), vec![(1, 0), (0, 1), (1, 1), (2, 1)]);
    assert_eq!(state(Kind::T, 1), vec![(1, 0), (1, 1), (2, 1), (1, 2)]);
    assert_eq!(state(Kind::T, 2), vec![(0, 1), (1, 1), (2, 1), (1, 2)]);
    assert_eq!(state(Kind::T, 3), vec![(0, 1), (1, 1), (1, 2), (1, 0)]);
}

#[test]
fn square_looks_the_same_in_every_state() {
    for rotation in 0..ROTATIONS {
        assert_eq!(state(Kind::O, rotation), vec![(0, 0), (1, 0), (0, 1), (1, 1)]);
    }
}

#[test]
fn bar_alternates_between_two_states() {
    assert_eq!(state(Kind::I, 0), vec![(0, 1), (1, 1), (2, 1), (3, 1)]);
    assert_eq!(state(Kind::I, 1), vec![(1, 0), (1, 1), (1, 2), (1, 3)]);
    assert_eq!(state(Kind::I, 2), state(Kind::I, 0));
    assert_eq!(state(Kind::I, 3), state(Kind::I, 1));
}

#[test]
fn s_alternates_between_two_states() {
    assert_eq!(state(Kind::S, 0), vec![(0, 0), (0, 1), (1, 1), (1, 2)]);
    assert_eq!(state(Kind::S, 1), vec![(0, 1), (1, 1), (1, 0), (2, 0)]);
    assert_eq!(state(Kind::S, 2), state(Kind::S, 0));
    assert_eq!(state(Kind::S, 3), state(Kind::S, 1));
}

#[test]
fn z_alternates_between_two_states() {
    assert_eq!(state(Kind::Z, 0), vec![(0, 0), (1, 0), (1, 1), (2, 1)]);
    assert_eq!(state(Kind::Z, 1), vec![(1, 1), (1, 2), (2, 1), (2, 0)]);
    assert_eq!(state(Kind::Z, 2), state(Kind::Z, 0));
    assert_eq!(state(Kind::Z, 3), state(Kind::Z, 1));
}

#[test]
fn every_kind_has_four_rotation_states() {
    assert_eq!(ROTATIONS, 4);
    for kind in KINDS {
        assert_eq!(kind.rotation_count(), 4);
    }
}

#[test]
fn every_kind_has_its_colour() {
    assert_eq!(Kind::L.tile(), Tile::Yellow);
    assert_eq!(Kind::J.tile(), Tile::Magenta);
    assert_eq!(Kind::T.tile(), Tile::Grey);
    assert_eq!(Kind::O.tile(), Tile::Blue);
    assert_eq!(Kind::I.tile(), Tile::Red);
    assert_eq!(Kind::S.tile(), Tile::Green);
    assert_eq!(Kind::Z.tile(), Tile::Cyan);
}

#[test]
fn a_draw_picks_a_kind_by_its_remainder() {
    assert_eq!(Kind::from_draw(0), Kind::L);
    assert_eq!(Kind::from_draw(1), Kind::T);
    assert_eq!(Kind::from_draw(2), Kind::J);
    assert_eq!(Kind::from_draw(3), Kind::O);
    assert_eq!(Kind::from_draw(4), Kind::I);
    assert_eq!(Kind::from_draw(5), Kind::S);
    assert_eq!(Kind::from_draw(6), Kind::Z);
    assert_eq!(Kind::from_draw(7), Kind::L);
    assert_eq!(Kind::from_draw(13), Kind::Z);
    assert_eq!(Kind::from_draw(255), Kind::O);
}

#[test]
fn a_block_enters_at_the_spawn_anchor() {
    assert_eq!((SPAWN_X, SPAWN_Y), (5, 0));
    for kind in KINDS {
        assert_eq!(Block::spawn(kind), Block { kind, x: 5, y: 0, rotation: 0 });
    }
}

#[test]
fn a_block_waits_at_the_preview_anchor() {
    assert_eq!((PREVIEW_X, PREVIEW_Y), (20, 2));
    for kind in KINDS {
        assert_eq!(Block::preview(kind), Block { kind, x: 20, y: 2, rotation: 0 });
    }
}

#[test]
fn a_random_block_is_a_block_that_enters() {
    for _ in 0..200 {
        let block = random_block();
        assert_eq!(block, Block::spawn(block.kind));
    }
}

#[test]
fn random_blocks_come_in_more_than_one_kind() {
    let first = random_block();
    let mut other = false;
    for _ in 0..2000 {
        if random_block().kind != first.kind {
            other = true;
        }
    }
    assert!(other);
}

#[test]
fn shifts_move_the_anchor_by_one() {
    let mut block = Block { kind: Kind::T, x: 3, y: 7, rotation: 2 };
    block.left();
    assert_eq!(block, Block { kind: Kind::T, x: 2, y: 7, rotation: 2 });
    block.right();
    block.right();
    assert_eq!(block, Block { kind: Kind::T, x: 4, y: 7, rotation: 2 });
    block.down();
    assert_eq!(block, Block { kind: Kind::T, x: 4, y: 8, rotation: 2 });
    block.up();
    assert_eq!(block, Block { kind: Kind::T, x: 4, y: 7, rotation: 2 });
}

#[test]
fn rotation_wraps_around_in_both_directions() {
    let mut block = Block::spawn(Kind::L);
    block.rotate();
    assert_eq!(block.rotation, 1);
    block.rotate();
    block.rotate();
    assert_eq!(block.rotation, 3);
    block.rotate();
    assert_eq!(block.rotation, 0);
    block.rotate_back();
    assert_eq!(block.rotation, 3);
    block.rotate_back();
    assert_eq!(block.rotation, 2);
}

#[test]
fn four_rotations_restore_the_cells() {
    for kind in KINDS {
        for rotation in 0..ROTATIONS {
            let start = Block { kind, x: 4, y: 9, rotation };
            let mut block = start;
            for _ in 0..4 {
                block.rotate();
            }
            assert_eq!(block, start);
            assert_eq!(cells(&block), cells(&start));
        }
    }
}

#[test]
fn two_rotations_restore_the_cells_of_bar_s_and_z() {
    for kind in [Kind::I, Kind::S, Kind::Z] {
        let start = Block { kind, x: 2, y: 3, rotation: 1 };
        let mut block = start;
        block.rotate();
        assert_ne!(cells(&block), cells(&start));
        block.rotate();
        assert_eq!(cells(&block), cells(&start));
    }
}

#[test]
fn a_move_and_its_undoing_cancel() {
    for step in [Move::Rotate, Move::Left, Move::Right, Move::Down] {
        let start = Block { kind: Kind::J, x: 1, y: 2, rotation: 3 };
        let mut block = start;
        block.apply(step);
        assert_ne!(block, start);
        block.undo(step);
        assert_eq!(block, start);
    }
}

#[test]
fn apply_makes_the_named_move() {
    let start = Block { kind: Kind::J, x: 1, y: 2, rotation: 3 };
    let mut block = start;
    block.apply(Move::Rotate);
    assert_eq!(block, Block { kind: Kind::J, x: 1, y: 2, rotation: 0 });
    block.apply(Move::Left);
    assert_eq!(block, Block { kind: Kind::J, x: 0, y: 2, rotation: 0 });
    block.apply(Move::Down);
    assert_eq!(block, Block { kind: Kind::J, x: 0, y: 3, rotation: 0 });
    block.apply(Move::Right);
    assert_eq!(block, Block { kind: Kind::J, x: 1, y: 3, rotation: 0 });
}
