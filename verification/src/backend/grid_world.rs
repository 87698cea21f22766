//! The sparse-reward grid world: start in the top-left corner, reach the goal
//! in the bottom-right corner.
use vstd::prelude::*;

verus! {

/// Moves: 0 up, 1 right, 2 down, 3 left; anything else stays put.
pub open spec fn moved(pos: (i32, i32), action: i32, size: i32) -> (i32, i32) {
    let (row, col) = pos;
    if action == 0 {
        (if row - 1 > 0 { (row - 1) as i32 } else { 0 }, col)
    } else if action == 1 {
        (row, if col + 1 < size - 1 { (col + 1) as i32 } else { (size - 1) as i32 })
    } else if action == 2 {
        (if row + 1 < size - 1 { (row + 1) as i32 } else { (size - 1) as i32 }, col)
    } else if action == 3 {
        (row, if col - 1 > 0 { (col - 1) as i32 } else { 0 })
    } else {
        (row, col)
    }
}

/// The coordinates a position can take on a board of the given size: between
/// 0 and `size - 1`, in whichever order those two come.
pub open spec fn on_board(x: int, size: int) -> bool {
    &&& (if size - 1 < 0 { size - 1 } else { 0 }) <= x
    &&& x <= (if size - 1 < 0 { 0 } else { size - 1 })
}

/// What one move did.
#[derive(Clone, Copy, Debug, PartialEq, Eq)]
pub struct StepOutcome {
    pub position: (i32, i32),
    /// The move ended on the goal (reward 1.0; any other move costs 0.01).
    pub reached_goal: bool,
    /// The episode is over: the goal was reached or the step budget is spent.
    pub done: bool,
}

/// A square grid with the start at (0, 0) and the goal at (size-1, size-1).
#[derive(Clone, Copy, Debug, PartialEq, Eq)]
pub struct GridWorld {
    pub size: i32,
    pub position: (i32, i32),
    pub goal: (i32, i32),
    pub steps: i32,
    pub max_steps: i32,
}

impl GridWorld {
    /// The board is well formed: the goal is the far corner, the position is
    /// on the board and the step count is not negative.
    pub open spec fn wf(self) -> bool {
        &&& self.size > i32::MIN + 1
        &&& self.goal == ((self.size - 1) as i32, (self.size - 1) as i32)
        &&& on_board(self.position.0 as int, self.size as int)
        &&& on_board(self.position.1 as int, self.size as int)
        &&& 0 <= self.steps
    }

    /// What `step` does to the world, as a value.
    pub open spec fn stepped(self, action: i32) -> GridWorld {
        GridWorld {
            position: moved(self.position, action, self.size),
            steps: (self.steps + 1) as i32,
            ..self
        }
    }

    /// What `step` reports for that move.
    pub open spec fn step_outcome(self, action: i32) -> StepOutcome {
        let next = self.stepped(action);
        StepOutcome {
            position: next.position,
            reached_goal: next.position == self.goal,
            done: next.position == self.goal || next.steps >= self.max_steps,
        }
    }

    /// A fresh world at the start corner with no step taken.
    pub fn new(size: i32, max_steps: i32) -> (world: Self)
        requires
            size > i32::MIN + 1,
        ensures
            world.wf(),
            world == (GridWorld {
                size,
                position: (0, 0),
                goal: ((size - 1) as i32, (size - 1) as i32),
                steps: 0,
                max_steps,
            }),
    {
        GridWorld { size, position: (0, 0), goal: (size - 1, size - 1), steps: 0, max_steps }
    }

    /// Back to the start corner with the step count cleared; returns the start.
    pub fn reset(&mut self) -> (start: (i32, i32))
        requires
            old(self).wf(),
        ensures
            start == (0i32, 0i32),
            *final(self) == (GridWorld { position: (0, 0), steps: 0, ..*old(self) }),
            final(self).wf(),
    {
        self.position = (0, 0);
        self.steps = 0;
        self.position
    }

    /// Takes one move. The board's edges stop the agent; the goal ends the
    /// episode, and so does the step budget.
    pub fn step(&mut self, action: i32) -> (outcome: StepOutcome)
        requires
            old(self).wf(),
            old(self).steps < i32::MAX,
        ensures
            *final(self) == old(self).stepped(action),
            outcome == old(self).step_outcome(action),
            final(self).wf(),
    {
        self.steps = self.steps + 1;
        let (row, col) = self.position;
        let new_pos = if action == 0 {
            (if row - 1 > 0 { row - 1 } else { 0 }, col)
        } else if action == 1 {
            (row, if col + 1 < self.size - 1 { col + 1 } else { self.size - 1 })
        } else if action == 2 {
            (if row + 1 < self.size - 1 { row + 1 } else { self.size - 1 }, col)
        } else if action == 3 {
            (row, if col - 1 > 0 { col - 1 } else { 0 })
        } else {
            (row, col)
        };
        self.position = new_pos;
        let at_goal = self.position.0 == self.goal.0 && self.position.1 == self.goal.1;
        let done = at_goal || self.steps >= self.max_steps;
        StepOutcome { position: self.position, reached_goal: at_goal, done }
    }
}

/// A move keeps the world well formed.
pub proof fn lemma_stepped_wf(world: GridWorld, action: i32)
    requires
        world.wf(),
        world.steps < i32::MAX,
    ensures
        world.stepped(action).wf(),
{
}

/// On a board of at least one cell, every reachable position lies inside the
/// board: both coordinates are between 0 and size - 1.
pub proof fn lemma_position_inside_board(world: GridWorld)
    requires
        world.wf(),
        world.size >= 1,
    ensures
        0 <= world.position.0 < world.size,
        0 <= world.position.1 < world.size,
{
}

/// A move changes at most one coordinate, and that one by at most one cell.
pub proof fn law_moves_are_single_cells(world: GridWorld, action: i32)
    requires
        world.wf(),
        world.size >= 1,
    ensures
        ({
            let p = world.position;
            let q = moved(p, action, world.size);
            ||| q == p
            ||| (q.0 == p.0 && (q.1 == p.1 + 1 || q.1 == p.1 - 1))
            ||| (q.1 == p.1 && (q.0 == p.0 + 1 || q.0 == p.0 - 1))
        }),
{
}

/// The goal is absorbing in the sense that reaching it always ends the episode.
pub proof fn law_goal_ends_episode(world: GridWorld, action: i32)
    requires
        world.wf(),
    ensures
        world.step_outcome(action).reached_goal ==> world.step_outcome(action).done,
        world.step_outcome(action).reached_goal <==> world.stepped(action).position == world.goal,
{
}

/// Each action moves the agent one cell its way unless a wall is there:
/// up (0) lowers the row, right (1) raises the column, down (2) raises the
/// row, left (3) lowers the column; against the wall, and for any other
/// action, the agent stays. Every move counts one step.
pub proof fn law_actions_move_one_cell(world: GridWorld, action: i32)
    requires
        world.wf(),
        world.size >= 1,
        world.steps < i32::MAX,
    ensures
        ({
            let (row, col) = world.position;
            let last = world.size - 1;
            let p = world.stepped(action).position;
            &&& action == 0 ==> p == (if row > 0 { ((row - 1) as i32, col) } else { (row, col) })
            &&& action == 1 ==> p == (if col < last { (row, (col + 1) as i32) } else { (row, col) })
            &&& action == 2 ==> p == (if row < last { ((row + 1) as i32, col) } else { (row, col) })
            &&& action == 3 ==> p == (if col > 0 { (row, (col - 1) as i32) } else { (row, col) })
            &&& !(0 <= action <= 3) ==> p == (row, col)
            &&& world.stepped(action).steps == world.steps + 1
        }),
{
}

} // verus!
