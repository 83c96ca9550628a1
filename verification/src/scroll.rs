//! Scrolling in whole lines.
//!
//! The terminal grid moves in whole lines, while the scroll position glides
//! between them. [`LineSteps`] turns the position, rounded to a line, into the
//! steps that the grid still has to make.
use vstd::prelude::*;

verus! {

/// The line offset that the grid has been moved to.
#[derive(Clone, Copy, PartialEq, Eq, Debug, Structural)]
pub struct LineSteps {
    pub applied: i32,
}

/// The step from the applied offset to a target one.
pub open spec fn step_to(applied: i32, target: i32) -> Option<i32> {
    if target == applied {
        None
    } else {
        Some((target - applied) as i32)
    }
}

impl LineSteps {
    /// A grid at the prompt.
    pub fn new() -> (r: LineSteps)
        ensures
            r.applied == 0,
    {
        LineSteps { applied: 0 }
    }

    /// Move the grid to a target offset: the lines it still has to move, or
    /// `None` where it is there already.
    pub fn step(&mut self, target: i32) -> (r: Option<i32>)
        requires
            old(self).applied >= 0,
            target >= 0,
        ensures
            r == step_to(old(self).applied, target),
            final(self).applied == target,
    {
        let delta: i32 = target - self.applied;
        self.applied = target;
        if delta != 0 {
            Some(delta)
        } else {
            None
        }
    }

    /// Take over an offset after something else moved the grid.
    pub fn resync(&mut self, offset: i32)
        ensures
            final(self).applied == offset,
    {
        self.applied = offset;
    }

    /// Whether something else moved the grid.
    pub fn is_stale(&self, offset: i32) -> (r: bool)
        ensures
            r == (offset != self.applied),
    {
        offset != self.applied
    }
}

/// The lines of a step; no step is none.
pub open spec fn lines_of(step: Option<i32>) -> int {
    match step {
        Some(n) => n as int,
        None => 0,
    }
}

/// The lines that a grid moves on the way along some targets.
pub open spec fn travelled(applied: i32, targets: Seq<i32>) -> int
    decreases targets.len(),
{
    if targets.len() == 0 {
        0
    } else {
        lines_of(step_to(applied, targets[0])) + travelled(targets[0], targets.drop_first())
    }
}

/// However the position wanders, the steps of the grid add up to where it ends.
pub proof fn law_steps_add_up(applied: i32, targets: Seq<i32>)
    requires
        applied >= 0,
        forall|i: int| 0 <= i < targets.len() ==> #[trigger] targets[i] >= 0,
    ensures
        applied + travelled(applied, targets) == (if targets.len() == 0 {
            applied
        } else {
            targets.last()
        }),
    decreases targets.len(),
{
    if targets.len() > 0 {
        let rest = targets.drop_first();
        assert forall|i: int| 0 <= i < rest.len() implies #[trigger] rest[i] >= 0 by {
            assert(rest[i] == targets[i + 1]);
        }
        law_steps_add_up(targets[0], rest);
        if rest.len() > 0 {
            assert(rest.last() == targets.last());
        }
    }
}

/// After the grid was moved by something else and taken over, there is nothing
/// left to move.
pub proof fn law_resync_leaves_no_step(offset: i32)
    ensures
        step_to(offset, offset) is None,
{
}

} // verus!
