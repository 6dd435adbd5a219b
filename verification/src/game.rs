//! The game: the grid, the block in play, the block that waits, the score
//! and the four timers, and the step that one frame makes of them. A frame
//! takes the inputs that are held and the time since the frame before; it
//! attempts the moves whose timers allow them, lets the block fall when its
//! time has come, settles it where it can fall no further, clears the full
//! rows and counts them.

use vstd::prelude::*;
use crate::block::{random_block, Block, Move, SPAWN_Y};
use crate::gate::MoveTimer;
use crate::fall::{
    bottom_row, drop_block, landing_row, lemma_fall_on_empty_grid,
    lemma_nothing_to_clear_after_first_block,
};
use crate::grid::{
    blocked, collision, empty_grid, in_bounds, in_reach, insert_block, lemma_free_block_in_reach,
    lemma_free_on_empty_grid, with_block, Grid, CELLS, HEIGHT,
};
use crate::rows::{clear_rows, compacted, full_rows, lemma_full_rows_range};
use crate::shape::{lemma_offset_range, Kind};
use crate::tile::Tile;

verus! {

/// Milliseconds between two attempts to rotate.
pub const ROTATE_INTERVAL: u64 = 150;

/// Milliseconds between two attempts to move left, right or down; the three
/// share one timer.
pub const SHIFT_INTERVAL: u64 = 50;

/// Milliseconds between two hard drops.
pub const DROP_INTERVAL: u64 = 200;

/// Milliseconds between two steps of the fall.
pub const FALL_INTERVAL: u64 = 250;

/// The actions that are held during a frame.
#[derive(Clone, Copy, PartialEq, Eq, Structural, Debug)]
pub struct Input {
    pub rotate: bool,
    pub left: bool,
    pub right: bool,
    pub soft_drop: bool,
    pub hard_drop: bool,
    pub quit: bool,
}

/// How things stand after a frame.
#[derive(Clone, Copy, PartialEq, Eq, Structural, Debug)]
pub enum Status {
    /// The game goes on.
    Running,
    /// A block could not fall from the row in which it entered: the grid is
    /// full and the game has ended.
    GameOver,
    /// The player asked to leave; the frame changed nothing.
    Quit,
}

/// The categories of moves. Each has a timer of its own and makes at most
/// one attempt in a frame.
#[derive(Clone, Copy, PartialEq, Eq, Structural, Debug)]
pub enum Category {
    /// The rotation.
    Rotate,
    /// The moves left, right and down.
    Shift,
    /// The hard drop.
    HardDrop,
    /// The fall, which no input holds back.
    Fall,
}

impl Input {
    /// Whether an input of the category is held.
    pub open spec fn holds(self, category: Category) -> bool {
        match category {
            Category::Rotate => self.rotate,
            Category::Shift => self.left || self.right || self.soft_drop,
            Category::HardDrop => self.hard_drop,
            Category::Fall => true,
        }
    }
}

/// The sum of the time steps of the frames.
pub open spec fn time_of(frames: Seq<(Input, u64, Kind)>) -> nat
    decreases frames.len(),
{
    if frames.len() == 0 {
        0
    } else {
        time_of(frames.drop_last()) + frames.last().1 as nat
    }
}

/// What a game consists of, as contracts see it.
pub struct State {
    pub grid: Seq<Tile>,
    pub current: Block,
    pub preview: Block,
    pub score: u64,
    pub rotate: MoveTimer,
    pub shift: MoveTimer,
    pub drop: MoveTimer,
    pub fall: MoveTimer,
    pub over: bool,
}

/// The block after an attempt at a move: moved if the grid lets it be there,
/// else as it was.
pub open spec fn stepped(g: Seq<Tile>, b: Block, step: Move) -> Block {
    if blocked(g, b.moved(step)) {
        b
    } else {
        b.moved(step)
    }
}

/// Whether `next` may be the shape of the block that waits next: any shape
/// may where none is given, and only the given one where one is.
spec fn fits(given: Option<Kind>, next: Kind) -> bool {
    given matches Some(kind) ==> kind == next
}

/// A shape that fits what is given: a witness where no block settles.
spec fn some_kind(given: Option<Kind>) -> Kind {
    match given {
        Some(kind) => kind,
        None => Kind::L,
    }
}

/// The score after `rows` more rows; it stops at the largest value it can
/// hold.
pub open spec fn add_rows(score: u64, rows: int) -> u64 {
    if score + rows > u64::MAX {
        u64::MAX
    } else {
        (score + rows) as u64
    }
}

impl State {
    /// What always holds of a game: the grid has its cells, the block in
    /// play is within reach of the grid, the block that waits is at its
    /// place beside it, and the timers have their intervals.
    pub open spec fn wf(self) -> bool {
        &&& self.grid.len() == CELLS
        &&& self.current.wf()
        &&& in_reach(self.current)
        &&& self.preview == Block::previewed(self.preview.kind)
        &&& self.rotate.interval == ROTATE_INTERVAL
        &&& self.shift.interval == SHIFT_INTERVAL
        &&& self.drop.interval == DROP_INTERVAL
        &&& self.fall.interval == FALL_INTERVAL
    }

    /// A new game: an empty grid, a block of the first shape in play, one of
    /// the second waiting, no score, and every timer at zero.
    pub open spec fn initial(first: Kind, second: Kind) -> State {
        State {
            grid: empty_grid(),
            current: Block::spawned(first),
            preview: Block::previewed(second),
            score: 0,
            rotate: MoveTimer { elapsed: 0, interval: ROTATE_INTERVAL },
            shift: MoveTimer { elapsed: 0, interval: SHIFT_INTERVAL },
            drop: MoveTimer { elapsed: 0, interval: DROP_INTERVAL },
            fall: MoveTimer { elapsed: 0, interval: FALL_INTERVAL },
            over: false,
        }
    }

    /// The game after `dt` milliseconds have passed on every timer.
    pub open spec fn tick(self, dt: u64) -> State {
        State {
            rotate: self.rotate.after(dt),
            shift: self.shift.after(dt),
            drop: self.drop.after(dt),
            fall: self.fall.after(dt),
            ..self
        }
    }

    /// The game after the rotation was asked for: if it is held and its
    /// timer allows, the block turns unless the grid is in the way, and the
    /// timer starts anew either way.
    pub open spec fn try_rotate(self, held: bool) -> State {
        if self.rotate.due(held) {
            State {
                current: stepped(self.grid, self.current, Move::Rotate),
                rotate: self.rotate.polled(held),
                ..self
            }
        } else {
            self
        }
    }

    /// The game after a move left, right or down was asked for: if it is
    /// held and the timer that the three share allows, the block moves
    /// unless the grid is in the way, and the timer starts anew either way.
    pub open spec fn try_shift(self, held: bool, step: Move) -> State {
        if self.shift.due(held) {
            State {
                current: stepped(self.grid, self.current, step),
                shift: self.shift.polled(held),
                ..self
            }
        } else {
            self
        }
    }

    /// The game after the block in play has settled where it is: its tiles
    /// are in the grid, the block that waited enters play, and a block of
    /// shape `next` waits.
    pub open spec fn locked(self, next: Kind) -> State {
        State {
            grid: with_block(self.grid, self.current),
            current: Block::spawned(self.preview.kind),
            preview: Block::previewed(next),
            ..self
        }
    }

    /// The game after the hard drop was asked for: if it is held and its
    /// timer allows, the block falls as far as it can and settles there.
    pub open spec fn try_hard_drop(self, held: bool, next: Kind) -> State {
        if self.drop.due(held) {
            State {
                current: self.current.at(
                    self.current.x as int,
                    landing_row(self.grid, self.current),
                ),
                drop: self.drop.polled(held),
                ..self
            }.locked(next)
        } else {
            self
        }
    }

    /// The game after the fall had its turn: when its timer allows, the
    /// block moves down one row; if it cannot, it settles, unless it is
    /// still in the row in which it entered, which ends the game.
    pub open spec fn gravity(self, next: Kind) -> State {
        if self.fall.due(true) {
            let asked: State = State { fall: self.fall.polled(true), ..self };
            if !blocked(self.grid, self.current.moved(Move::Down)) {
                State { current: self.current.moved(Move::Down), ..asked }
            } else if self.current.y == SPAWN_Y {
                State { over: true, ..asked }
            } else {
                asked.locked(next)
            }
        } else {
            self
        }
    }

    /// The game after its full rows were cleared and counted. A game that
    /// has ended is left alone.
    pub open spec fn cleared(self) -> State {
        if self.over {
            self
        } else {
            State {
                grid: compacted(self.grid),
                score: add_rows(self.score, full_rows(self.grid)),
                ..self
            }
        }
    }

    /// The game after one frame. A game that has ended, and a frame in
    /// which the player asks to leave, change nothing. Otherwise time
    /// passes, then the rotation, the moves left, right and down, the hard
    /// drop and the fall have their turns in this order, and at last the
    /// full rows are cleared. `next` is the shape of the block that waits
    /// after a block has settled.
    pub open spec fn frame(self, input: Input, dt: u64, next: Kind) -> State {
        if self.over || input.quit {
            self
        } else {
            self.tick(dt).try_rotate(input.rotate).try_shift(input.left, Move::Left).try_shift(
                input.right,
                Move::Right,
            ).try_shift(input.soft_drop, Move::Down).try_hard_drop(input.hard_drop, next).gravity(
                next,
            ).cleared()
        }
    }

    /// The timer of a category.
    pub open spec fn timer(self, category: Category) -> MoveTimer {
        match category {
            Category::Rotate => self.rotate,
            Category::Shift => self.shift,
            Category::HardDrop => self.drop,
            Category::Fall => self.fall,
        }
    }

    /// Whether the frame brings an attempt of the category: the game runs,
    /// and once the time of the frame has passed the timer of the category
    /// lets the held input through.
    pub open spec fn attempts_in(self, input: Input, dt: u64, category: Category) -> bool {
        !self.over && !input.quit && self.timer(category).after(dt).due(input.holds(category))
    }

    /// The game after the frames, each an input, a time step and the shape
    /// that waits next if a block settles.
    pub open spec fn played(self, frames: Seq<(Input, u64, Kind)>) -> State
        decreases frames.len(),
    {
        if frames.len() == 0 {
            self
        } else {
            self.played(frames.drop_last()).frame(
                frames.last().0,
                frames.last().1,
                frames.last().2,
            )
        }
    }

    /// How many attempts of the category the frames bring.
    pub open spec fn attempts(self, frames: Seq<(Input, u64, Kind)>, category: Category) -> nat
        decreases frames.len(),
    {
        if frames.len() == 0 {
            0
        } else {
            let before: nat = self.attempts(frames.drop_last(), category);
            if self.played(frames.drop_last()).attempts_in(
                frames.last().0,
                frames.last().1,
                category,
            ) {
                before + 1
            } else {
                before
            }
        }
    }

    /// What the frame reports.
    pub open spec fn status(self, input: Input, dt: u64, next: Kind) -> Status {
        if self.over {
            Status::GameOver
        } else if input.quit {
            Status::Quit
        } else if self.frame(input, dt, next).over {
            Status::GameOver
        } else {
            Status::Running
        }
    }
}

/// Makes one gated attempt at a move. If the input is held and the timer
/// allows, the timer starts anew and the block makes the move; if the grid
/// is then in its way, the move is undone. Else nothing changes.
pub fn move_block(
    timer: &mut MoveTimer,
    held: bool,
    block: &mut Block,
    grid: &Grid,
    step: Move,
)
    requires
        old(block).wf(),
        old(block).has_room(step),
    ensures
        *final(timer) == old(timer).polled(held),
        *final(block) == if old(timer).due(held) {
            stepped(grid@, *old(block), step)
        } else {
            *old(block)
        },
        final(block).wf(),
{
    if timer.poll(held) {
        block.apply(step);
        if collision(block, grid) {
            block.undo(step);
        }
    }
}

/// What changes from frame to frame beside the grid: the two blocks, the
/// score, the timers, and whether the game has ended.
#[derive(Clone, Copy)]
struct Play {
    current: Block,
    preview: Block,
    score: u64,
    rotate: MoveTimer,
    shift: MoveTimer,
    drop: MoveTimer,
    fall: MoveTimer,
    over: bool,
}

impl Play {
    /// With a grid, the game as contracts see it.
    spec fn on(self, grid: Seq<Tile>) -> State {
        State {
            grid,
            current: self.current,
            preview: self.preview,
            score: self.score,
            rotate: self.rotate,
            shift: self.shift,
            drop: self.drop,
            fall: self.fall,
            over: self.over,
        }
    }

    /// With a grid that has its cells, this is a game of which all holds
    /// that always holds of a game.
    #[verifier::type_invariant]
    spec fn inv(self) -> bool {
        self.on(empty_grid()).wf()
    }

    /// Lets time pass on the four timers.
    fn tick(self, grid: &Grid, dt: u64) -> (after: Play)
        ensures
            after.on(grid@) == self.on(grid@).tick(dt),
    {
        proof {
            use_type_invariant(&self);
        }
        let mut rotate: MoveTimer = self.rotate;
        let mut shift: MoveTimer = self.shift;
        let mut drop: MoveTimer = self.drop;
        let mut fall: MoveTimer = self.fall;
        rotate.advance(dt);
        shift.advance(dt);
        drop.advance(dt);
        fall.advance(dt);
        Play { rotate, shift, drop, fall, ..self }
    }

    /// Gives the rotation its turn.
    fn rotate(self, grid: &Grid, held: bool) -> (after: Play)
        ensures
            after.on(grid@) == self.on(grid@).try_rotate(held),
    {
        proof {
            use_type_invariant(&self);
            lemma_stepped_in_reach(grid@, self.current, Move::Rotate);
        }
        let mut timer: MoveTimer = self.rotate;
        let mut block: Block = self.current;
        move_block(&mut timer, held, &mut block, grid, Move::Rotate);
        Play { rotate: timer, current: block, ..self }
    }

    /// Gives a move left, right or down its turn.
    fn shift(self, grid: &Grid, held: bool, step: Move) -> (after: Play)
        ensures
            after.on(grid@) == self.on(grid@).try_shift(held, step),
    {
        proof {
            use_type_invariant(&self);
            lemma_stepped_in_reach(grid@, self.current, step);
        }
        let mut timer: MoveTimer = self.shift;
        let mut block: Block = self.current;
        move_block(&mut timer, held, &mut block, grid, step);
        Play { shift: timer, current: block, ..self }
    }

    /// Settles the block `settled`, which is the block in play where it has
    /// come to rest, lets the block that waits enter, and puts a block in
    /// its place: of the given shape, or of one drawn at random where none
    /// is given.
    fn lock(self, grid: &mut Grid, settled: &Block, given: Option<Kind>) -> (after: Play)
        requires
            settled.wf(),
        ensures
            exists|next: Kind| #[trigger]
                fits(given, next) && after.on(final(grid)@) == (State {
                    current: *settled,
                    ..self.on(old(grid)@)
                }).locked(next),
    {
        proof {
            use_type_invariant(&self);
        }
        insert_block(settled, grid);
        let current: Block = Block::spawn(self.preview.kind);
        let next: Kind = match given {
            Some(kind) => kind,
            None => random_block().kind,
        };
        let after: Play = Play { current, preview: Block::preview(next), ..self };
        assert(fits(given, next) && after.on(grid@) == (State {
            current: *settled,
            ..self.on(old(grid)@)
        }).locked(next));
        after
    }

    /// Gives the hard drop its turn.
    fn hard_drop(self, grid: &mut Grid, held: bool, given: Option<Kind>) -> (after: Play)
        ensures
            exists|next: Kind| #[trigger]
                fits(given, next) && after.on(final(grid)@) == self.on(old(grid)@).try_hard_drop(
                    held,
                    next,
                ),
    {
        proof {
            use_type_invariant(&self);
        }
        let mut timer: MoveTimer = self.drop;
        if timer.poll(held) {
            let mut block: Block = self.current;
            drop_block(&mut block, grid);
            let asked: Play = Play { drop: timer, ..self };
            let after: Play = asked.lock(grid, &block, given);
            proof {
                let next: Kind = choose|next: Kind| #[trigger]
                    fits(given, next) && after.on(grid@) == (State {
                        current: block,
                        ..asked.on(old(grid)@)
                    }).locked(next);
                assert(fits(given, next) && after.on(grid@) == self.on(old(grid)@).try_hard_drop(
                    held,
                    next,
                ));
            }
            after
        } else {
            assert(fits(given, some_kind(given)) && self.on(grid@) == self.on(
                old(grid)@,
            ).try_hard_drop(held, some_kind(given)));
            self
        }
    }

    /// Gives the fall its turn.
    fn fall(self, grid: &mut Grid, given: Option<Kind>) -> (after: Play)
        ensures
            exists|next: Kind| #[trigger]
                fits(given, next) && after.on(final(grid)@) == self.on(old(grid)@).gravity(next),
    {
        proof {
            use_type_invariant(&self);
        }
        let ghost some: Kind = some_kind(given);
        let mut timer: MoveTimer = self.fall;
        if timer.poll(true) {
            let asked: Play = Play { fall: timer, ..self };
            let mut block: Block = self.current;
            block.down();
            if collision(&block, grid) {
                block.up();
                if block.y == SPAWN_Y {
                    let after: Play = Play { over: true, ..asked };
                    assert(fits(given, some) && after.on(grid@) == self.on(old(grid)@).gravity(some));
                    after
                } else {
                    let after: Play = asked.lock(grid, &block, given);
                    proof {
                        let next: Kind = choose|next: Kind| #[trigger]
                            fits(given, next) && after.on(grid@) == (State {
                                current: block,
                                ..asked.on(old(grid)@)
                            }).locked(next);
                        assert(fits(given, next) && after.on(grid@) == self.on(old(grid)@).gravity(
                            next,
                        ));
                    }
                    after
                }
            } else {
                proof {
                    lemma_free_block_in_reach(grid@, block);
                }
                let after: Play = Play { current: block, ..asked };
                assert(fits(given, some) && after.on(grid@) == self.on(old(grid)@).gravity(some));
                after
            }
        } else {
            assert(fits(given, some) && self.on(grid@) == self.on(old(grid)@).gravity(some));
            self
        }
    }

    /// Clears the full rows and adds their number to the score.
    fn clear(self, grid: &mut Grid) -> (after: Play)
        requires
            !self.over,
        ensures
            after.on(final(grid)@) == self.on(old(grid)@).cleared(),
    {
        proof {
            use_type_invariant(&self);
        }
        let rows: i32 = clear_rows(grid);
        Play { score: self.score.saturating_add(rows as u64), ..self }
    }
}

/// A game in progress. Whatever is done with it, all holds of it that
/// always holds of a game.
pub struct Game {
    grid: Grid,
    play: Play,
}

impl Game {
    /// The game as contracts see it.
    pub closed spec fn view(&self) -> State {
        self.play.on(self.grid@)
    }

    /// A new game whose first two blocks have the given shapes.
    pub fn with_kinds(first: Kind, second: Kind) -> (game: Game)
        ensures
            game@ == State::initial(first, second),
            game@.wf(),
    {
        Game {
            grid: Grid::new(),
            play: Play {
                current: Block::spawn(first),
                preview: Block::preview(second),
                score: 0,
                rotate: MoveTimer::new(ROTATE_INTERVAL),
                shift: MoveTimer::new(SHIFT_INTERVAL),
                drop: MoveTimer::new(DROP_INTERVAL),
                fall: MoveTimer::new(FALL_INTERVAL),
                over: false,
            },
        }
    }

    /// A new game whose first two blocks have shapes drawn at random.
    pub fn new() -> (game: Game)
        ensures
            exists|first: Kind, second: Kind| game@ == State::initial(first, second),
            game@.wf(),
    {
        let first: Block = random_block();
        let second: Block = random_block();
        Game::with_kinds(first.kind, second.kind)
    }

    /// Plays one frame. A block that settles in it is followed in waiting by
    /// one of the given shape, or of a shape drawn at random where none is
    /// given; the shape is drawn when the block settles, and not before.
    fn play(&mut self, input: Input, dt: u64, given: Option<Kind>) -> (status: Status)
        ensures
            old(self)@.wf(),
            final(self)@.wf(),
            exists|next: Kind| #[trigger]
                fits(given, next) && final(self)@ == old(self)@.frame(input, dt, next) && status
                    == old(self)@.status(input, dt, next),
    {
        proof {
            use_type_invariant(&self.play);
            use_type_invariant(&self.grid);
        }
        let ghost some: Kind = some_kind(given);
        if self.play.over {
            assert(fits(given, some) && self@ == old(self)@.frame(input, dt, some));
            return Status::GameOver;
        }
        if input.quit {
            assert(fits(given, some) && self@ == old(self)@.frame(input, dt, some));
            return Status::Quit;
        }
        let ticked: Play = self.play.tick(&self.grid, dt);
        let rotated: Play = ticked.rotate(&self.grid, input.rotate);
        let left: Play = rotated.shift(&self.grid, input.left, Move::Left);
        let right: Play = left.shift(&self.grid, input.right, Move::Right);
        let moved: Play = right.shift(&self.grid, input.soft_drop, Move::Down);
        let dropped: Play = moved.hard_drop(&mut self.grid, input.hard_drop, given);
        let ghost dropped_grid: Seq<Tile> = self.grid@;
        let fallen: Play = dropped.fall(&mut self.grid, given);
        let ghost next: Kind = {
            let first: Kind = choose|next: Kind| #[trigger]
                fits(given, next) && dropped.on(dropped_grid) == moved.on(
                    old(self).grid@,
                ).try_hard_drop(input.hard_drop, next);
            let second: Kind = choose|next: Kind| #[trigger]
                fits(given, next) && fallen.on(self.grid@) == dropped.on(dropped_grid).gravity(
                    next,
                );
            if moved.drop.due(input.hard_drop) {
                first
            } else {
                second
            }
        };
        proof {
            use_type_invariant(&dropped);
            use_type_invariant(&fallen);
            use_type_invariant(&self.grid);
        }
        assert(fits(given, next));
        assert(dropped.on(dropped_grid) == moved.on(old(self).grid@).try_hard_drop(
            input.hard_drop,
            next,
        ));
        assert(fallen.on(self.grid@) == dropped.on(dropped_grid).gravity(next));
        if fallen.over {
            self.play = fallen;
            assert(self@ == old(self)@.frame(input, dt, next));
            return Status::GameOver;
        }
        self.play = fallen.clear(&mut self.grid);
        proof {
            use_type_invariant(&self.play);
            use_type_invariant(&self.grid);
        }
        assert(self@ == old(self)@.frame(input, dt, next));
        Status::Running
    }

    /// Plays one frame: `input` says what is held, `dt` how many
    /// milliseconds have passed since the frame before, and `next` which
    /// shape waits next if a block settles in this frame.
    pub fn frame_with(&mut self, input: Input, dt: u64, next: Kind) -> (status: Status)
        ensures
            old(self)@.wf(),
            final(self)@.wf(),
            final(self)@ == old(self)@.frame(input, dt, next),
            status == old(self)@.status(input, dt, next),
    {
        self.play(input, dt, Some(next))
    }

    /// Plays one frame; if a block settles in it, the shape of the block
    /// that waits next is drawn at random.
    pub fn frame(&mut self, input: Input, dt: u64) -> (status: Status)
        ensures
            old(self)@.wf(),
            final(self)@.wf(),
            exists|next: Kind|
                final(self)@ == (#[trigger] old(self)@.frame(input, dt, next)) && status == old(
                    self,
                )@.status(input, dt, next),
    {
        let status: Status = self.play(input, dt, None);
        proof {
            let next: Kind = choose|next: Kind| #[trigger]
                fits(None, next) && self@ == old(self)@.frame(input, dt, next) && status == old(
                    self,
                )@.status(input, dt, next);
            assert(self@ == old(self)@.frame(input, dt, next));
        }
        status
    }

    /// The settled tiles.
    pub fn grid(&self) -> (grid: &Grid)
        ensures
            grid@ == self@.grid,
    {
        &self.grid
    }

    /// The block in play.
    pub fn current(&self) -> (block: Block)
        ensures
            block == self@.current,
            block.wf(),
    {
        proof {
            use_type_invariant(&self.play);
        }
        self.play.current
    }

    /// The block that waits.
    pub fn preview(&self) -> (block: Block)
        ensures
            block == self@.preview,
            block.wf(),
    {
        proof {
            use_type_invariant(&self.play);
        }
        self.play.preview
    }

    /// The number of rows cleared so far.
    pub fn score(&self) -> (score: u64)
        ensures
            score == self@.score,
    {
        self.play.score
    }

    /// Whether the game has ended.
    pub fn is_over(&self) -> (over: bool)
        ensures
            over == self@.over,
    {
        self.play.over
    }
}

/// An attempt at a move leaves a block that is within reach of the grid
/// there, and its rotation state one that the tables hold.
proof fn lemma_stepped_in_reach(g: Seq<Tile>, b: Block, step: Move)
    requires
        b.wf(),
        in_reach(b),
    ensures
        stepped(g, b, step).wf(),
        in_reach(stepped(g, b, step)),
{
    if !blocked(g, b.moved(step)) {
        lemma_free_block_in_reach(g, b.moved(step));
    }
}

/// What always holds of a game holds after every frame.
pub proof fn lemma_frame_keeps_wf(s: State, input: Input, dt: u64, next: Kind)
    requires
        s.wf(),
    ensures
        s.frame(input, dt, next).wf(),
{
    if !(s.over || input.quit) {
        let a: State = s.tick(dt);
        let b: State = a.try_rotate(input.rotate);
        lemma_stepped_in_reach(a.grid, a.current, Move::Rotate);
        let c: State = b.try_shift(input.left, Move::Left);
        lemma_stepped_in_reach(b.grid, b.current, Move::Left);
        let d: State = c.try_shift(input.right, Move::Right);
        lemma_stepped_in_reach(c.grid, c.current, Move::Right);
        let e: State = d.try_shift(input.soft_drop, Move::Down);
        lemma_stepped_in_reach(d.grid, d.current, Move::Down);
        let f: State = e.try_hard_drop(input.hard_drop, next);
        if !blocked(f.grid, f.current.moved(Move::Down)) {
            lemma_free_block_in_reach(f.grid, f.current.moved(Move::Down));
        }
    }
}

/// The score never falls.
pub proof fn lemma_score_never_falls(s: State, input: Input, dt: u64, next: Kind)
    requires
        s.wf(),
    ensures
        s.frame(input, dt, next).score >= s.score,
{
    if !(s.over || input.quit) {
        let before: State = s.tick(dt).try_rotate(input.rotate).try_shift(
            input.left,
            Move::Left,
        ).try_shift(input.right, Move::Right).try_shift(input.soft_drop, Move::Down).try_hard_drop(
            input.hard_drop,
            next,
        ).gravity(next);
        lemma_full_rows_range(before.grid);
    }
}

/// In a frame of a running game every timer is asked once, after the time
/// of the frame has passed on it, for the inputs of its category: the
/// rotation's for the rotation, the one that the moves left, right and down
/// share for any of the three, the hard drop's for the hard drop, and the
/// fall's whatever is held. So each category makes at most one attempt in a
/// frame.
pub proof fn lemma_frame_asks_each_timer_once(
    s: State,
    input: Input,
    dt: u64,
    next: Kind,
    category: Category,
)
    requires
        s.wf(),
        !s.over,
        !input.quit,
    ensures
        s.frame(input, dt, next).timer(category) == s.timer(category).after(dt).polled(
            input.holds(category),
        ),
{
}

/// Every attempt costs a full interval, in every category: over any frames
/// of a game, the intervals of the attempts made and the time that the
/// timer shows at the end together are no more than the time it showed at
/// the start and the time that passed.
pub proof fn lemma_game_attempts_cost_time(
    s: State,
    frames: Seq<(Input, u64, Kind)>,
    category: Category,
)
    requires
        s.wf(),
    ensures
        s.played(frames).wf(),
        s.attempts(frames, category) * s.timer(category).interval + s.played(frames).timer(
            category,
        ).elapsed <= s.timer(category).elapsed + time_of(frames),
    decreases frames.len(),
{
    if frames.len() > 0 {
        let before: State = s.played(frames.drop_last());
        let made: int = s.attempts(frames.drop_last(), category) as int;
        let span: int = s.timer(category).interval as int;
        let input: Input = frames.last().0;
        let dt: u64 = frames.last().1;
        lemma_game_attempts_cost_time(s, frames.drop_last(), category);
        lemma_frame_keeps_wf(before, input, dt, frames.last().2);
        if !before.over && !input.quit {
            lemma_frame_asks_each_timer_once(before, input, dt, frames.last().2, category);
        }
        if before.attempts_in(input, dt, category) {
            assert((made + 1) * span == made * span + span) by (nonlinear_arith);
        }
    } else {
        assert(s.attempts(frames, category) * s.timer(category).interval == 0) by (nonlinear_arith)
            requires
                s.attempts(frames, category) == 0,
        ;
    }
}

/// Frames of equal length add up to their number times that length.
proof fn lemma_time_of_even_frames(frames: Seq<(Input, u64, Kind)>, dt: u64)
    requires
        forall|i: int| 0 <= i < frames.len() ==> (#[trigger] frames[i]).1 == dt,
    ensures
        time_of(frames) == frames.len() * dt,
    decreases frames.len(),
{
    if frames.len() > 0 {
        lemma_time_of_even_frames(frames.drop_last(), dt);
        assert(frames.len() * dt == (frames.len() - 1) * dt + dt) by (nonlinear_arith);
    } else {
        assert(frames.len() * dt == 0) by (nonlinear_arith)
            requires
                frames.len() == 0,
        ;
    }
}

/// The rate of moves: through `n` frames of `dt` milliseconds each, a
/// category whose timer starts at zero makes at most `n * dt / interval`
/// attempts, rounded down, whatever is held; and a move is made only in an
/// attempt.
pub proof fn lemma_move_rate(
    s: State,
    frames: Seq<(Input, u64, Kind)>,
    dt: u64,
    category: Category,
)
    requires
        s.wf(),
        s.timer(category).elapsed == 0,
        forall|i: int| 0 <= i < frames.len() ==> (#[trigger] frames[i]).1 == dt,
    ensures
        s.attempts(frames, category) <= (frames.len() * dt) / (s.timer(category).interval as int),
{
    lemma_game_attempts_cost_time(s, frames, category);
    lemma_time_of_even_frames(frames, dt);
    let made: int = s.attempts(frames, category) as int;
    let span: int = s.timer(category).interval as int;
    let time: int = frames.len() * dt;
    assert(made <= time / span) by (nonlinear_arith)
        requires
            made * span <= time,
            span > 0,
    ;
}

/// A move is made only in an attempt: in a frame of a running game that
/// brings no attempt to rotate, the rotation has no effect, and in one that
/// brings no attempt to move left, right or down, none of the three has.
pub proof fn lemma_no_move_without_attempt(s: State, input: Input, dt: u64)
    requires
        s.wf(),
        !s.over,
        !input.quit,
    ensures
        !s.attempts_in(input, dt, Category::Rotate) ==> s.tick(dt).try_rotate(input.rotate)
            == s.tick(dt),
        !s.attempts_in(input, dt, Category::Shift) ==> s.tick(dt).try_rotate(
            input.rotate,
        ).try_shift(input.left, Move::Left).try_shift(input.right, Move::Right).try_shift(
            input.soft_drop,
            Move::Down,
        ) == s.tick(dt).try_rotate(input.rotate),
{
}

/// A block that has just entered play on a grid without tiles is not
/// blocked.
pub proof fn lemma_spawn_is_free(kind: Kind)
    ensures
        !blocked(empty_grid(), Block::spawned(kind)),
{
    let b: Block = Block::spawned(kind);
    assert forall|i: int| 0 <= i < 4 implies in_bounds(
        (#[trigger] b.cell(i)).0,
        b.cell(i).1,
    ) by {
        lemma_offset_range(kind, 0, i);
    }
    lemma_free_on_empty_grid(b);
}

/// The first hard drop of a game: on a grid without tiles the block comes
/// to rest with its lowest cell in the bottom row, its tiles are all that
/// the grid then holds, no row is cleared, and the score stays.
pub proof fn lemma_hard_drop_on_empty_grid(s: State, next: Kind)
    requires
        s.wf(),
        !s.over,
        s.grid == empty_grid(),
        s.current == Block::spawned(s.current.kind),
        s.drop.due(true),
    ensures
        ({
            let landed: Block = s.current.at(
                s.current.x as int,
                landing_row(empty_grid(), s.current),
            );
            let after: State = s.try_hard_drop(true, next).cleared();
            &&& bottom_row(landed) == HEIGHT - 1
            &&& !blocked(empty_grid(), landed)
            &&& after.grid == with_block(empty_grid(), landed)
            &&& after.score == s.score
            &&& after.current == Block::spawned(s.preview.kind)
            &&& after.preview == Block::previewed(next)
        }),
{
    lemma_spawn_is_free(s.current.kind);
    lemma_fall_on_empty_grid(s.current);
    let landed: Block = s.current.at(s.current.x as int, landing_row(empty_grid(), s.current));
    lemma_nothing_to_clear_after_first_block(landed);
}

} // verus!
