//! The timer that gates one category of moves. It knows how long ago the
//! category last made an attempt and how long it has to wait between two.
//! An attempt is made only when the input is held and that time has passed;
//! the timer then starts anew, whether or not the grid lets the move stand.

use vstd::prelude::*;

verus! {

/// Time since the last attempt and the least time between two attempts, both
/// in milliseconds.
#[derive(Clone, Copy, PartialEq, Eq, Structural, Debug)]
pub struct MoveTimer {
    pub elapsed: u64,
    pub interval: u64,
}

/// The sum of the time steps of the frames.
pub open spec fn total_time(frames: Seq<(u64, bool)>) -> nat
    decreases frames.len(),
{
    if frames.len() == 0 {
        0
    } else {
        total_time(frames.drop_last()) + frames.last().0 as nat
    }
}

impl MoveTimer {
    /// The timer after `dt` more milliseconds. The count stops at the largest
    /// value it can hold.
    pub open spec fn after(self, dt: u64) -> MoveTimer {
        MoveTimer {
            elapsed: if self.elapsed + dt > u64::MAX {
                u64::MAX
            } else {
                (self.elapsed + dt) as u64
            },
            ..self
        }
    }

    /// Whether an attempt is made now: the input is held and the interval
    /// has passed.
    pub open spec fn due(self, held: bool) -> bool {
        held && self.elapsed >= self.interval
    }

    /// The timer after it was asked: started anew if an attempt was due,
    /// unchanged if not.
    pub open spec fn polled(self, held: bool) -> MoveTimer {
        if self.due(held) {
            MoveTimer { elapsed: 0, ..self }
        } else {
            self
        }
    }

    /// The timer after the given frames, and how many attempts it let
    /// through. In each frame, a pair of a time step and whether the input
    /// is held, the time passes first and then the timer is asked once.
    pub open spec fn run(self, frames: Seq<(u64, bool)>) -> (MoveTimer, nat)
        decreases frames.len(),
    {
        if frames.len() == 0 {
            (self, 0)
        } else {
            let before: (MoveTimer, nat) = self.run(frames.drop_last());
            let now: MoveTimer = before.0.after(frames.last().0);
            if now.due(frames.last().1) {
                (now.polled(frames.last().1), before.1 + 1)
            } else {
                (now, before.1)
            }
        }
    }

    /// A timer that has just made an attempt.
    pub fn new(interval: u64) -> (timer: MoveTimer)
        ensures
            timer == (MoveTimer { elapsed: 0, interval }),
    {
        MoveTimer { elapsed: 0, interval }
    }

    /// Lets `dt` milliseconds pass.
    pub fn advance(&mut self, dt: u64)
        ensures
            *final(self) == old(self).after(dt),
    {
        if dt > u64::MAX - self.elapsed {
            self.elapsed = u64::MAX;
        } else {
            self.elapsed = self.elapsed + dt;
        }
    }

    /// Asks whether an attempt is to be made now, and starts the timer anew
    /// if so.
    pub fn poll(&mut self, held: bool) -> (fire: bool)
        ensures
            fire == old(self).due(held),
            *final(self) == old(self).polled(held),
    {
        if held && self.elapsed >= self.interval {
            self.elapsed = 0;
            true
        } else {
            false
        }
    }
}

/// Every attempt costs a full interval: over any frames, the intervals of
/// the attempts made and the time the timer shows at the end together are no
/// more than the time it showed at the start and the time that passed.
pub proof fn lemma_attempts_cost_time(timer: MoveTimer, frames: Seq<(u64, bool)>)
    ensures
        timer.run(frames).0.interval == timer.interval,
        timer.run(frames).1 * timer.interval + timer.run(frames).0.elapsed <= timer.elapsed
            + total_time(frames),
    decreases frames.len(),
{
    if frames.len() > 0 {
        lemma_attempts_cost_time(timer, frames.drop_last());
        let before: (MoveTimer, nat) = timer.run(frames.drop_last());
        let now: MoveTimer = before.0.after(frames.last().0);
        if now.due(frames.last().1) {
            assert((before.1 + 1) * timer.interval == before.1 * timer.interval + timer.interval)
                by (nonlinear_arith);
        }
    }
}

/// An input held through `n` frames of `dt` milliseconds each, on a timer
/// that starts at zero, gets at most `n * dt / interval` attempts, rounded
/// down, and so at most that many moves.
pub proof fn lemma_held_input_rate(timer: MoveTimer, n: nat, dt: u64)
    requires
        timer.elapsed == 0,
        timer.interval > 0,
    ensures
        timer.run(Seq::new(n, |i: int| (dt, true))).1 <= (n * dt) / (timer.interval as int),
{
    let frames: Seq<(u64, bool)> = Seq::new(n, |i: int| (dt, true));
    lemma_attempts_cost_time(timer, frames);
    lemma_total_time_even(n, dt);
    let fired: int = timer.run(frames).1 as int;
    let span: int = timer.interval as int;
    let time: int = n * dt;
    assert(fired <= time / span) by (nonlinear_arith)
        requires
            fired * span <= time,
            span > 0,
    ;
}

/// Frames of equal length add up to their number times that length.
proof fn lemma_total_time_even(n: nat, dt: u64)
    ensures
        total_time(Seq::new(n, |i: int| (dt, true))) == n * dt,
    decreases n,
{
    let frames: Seq<(u64, bool)> = Seq::new(n, |i: int| (dt, true));
    if n > 0 {
        lemma_total_time_even((n - 1) as nat, dt);
        assert(frames.drop_last() =~= Seq::new((n - 1) as nat, |i: int| (dt, true)));
        assert(n * dt == (n - 1) * dt + dt) by (nonlinear_arith);
    } else {
        assert(n * dt == 0) by (nonlinear_arith)
            requires
                n == 0,
        ;
    }
}

} // verus!
