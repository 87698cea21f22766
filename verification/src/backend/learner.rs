//! Which cells of the Q-table a learning update touches. The values
//! themselves are floating point and are updated by the caller.
use vstd::prelude::*;

verus! {

/// The entries one update reads and writes: the value of `action` at
/// (`row`, `col`) is moved towards the reward plus the best value at
/// (`next_row`, `next_col`).
#[derive(Clone, Copy, Debug, PartialEq, Eq)]
pub struct QCells {
    pub row: usize,
    pub col: usize,
    pub next_row: usize,
    pub next_col: usize,
    pub action: usize,
}

/// A coordinate that lies on a table of `size` rows and columns.
pub open spec fn in_table(x: i32, size: nat) -> bool {
    0 <= x && x < size
}

/// The action's column: actions 0 to 3 name their own, anything else the
/// last one (a negative action, read as a huge unsigned number, too).
pub open spec fn action_column(action: i32) -> nat {
    if 0 <= action && action < 3 {
        action as nat
    } else {
        3
    }
}

/// The cells of an update from `state` by `action` to `next_state` on a
/// `size` x `size` table; none when either position lies off the table, in
/// which case the update is skipped.
pub open spec fn q_cells_spec(size: nat, state: (i32, i32), action: i32, next_state: (i32, i32)) -> Option<QCells> {
    if in_table(state.0, size) && in_table(state.1, size) && in_table(next_state.0, size)
        && in_table(next_state.1, size) {
        Some(
            QCells {
                row: state.0 as usize,
                col: state.1 as usize,
                next_row: next_state.0 as usize,
                next_col: next_state.1 as usize,
                action: action_column(action) as usize,
            },
        )
    } else {
        None
    }
}

/// The cells that a learning update touches, or `None` when it is to be
/// skipped because a position lies off the table.
pub fn q_cells(size: usize, state: (i32, i32), action: i32, next_state: (i32, i32)) -> (cells: Option<QCells>)
    ensures
        cells == q_cells_spec(size as nat, state, action, next_state),
{
    if state.0 < 0 || state.1 < 0 || next_state.0 < 0 || next_state.1 < 0 {
        return None;
    }
    let (r, c) = (state.0 as usize, state.1 as usize);
    let (nr, nc) = (next_state.0 as usize, next_state.1 as usize);
    if r >= size || c >= size || nr >= size || nc >= size {
        return None;
    }
    let a: usize = if 0 <= action && action < 3 { action as usize } else { 3 };
    Some(QCells { row: r, col: c, next_row: nr, next_col: nc, action: a })
}

/// An update on the table writes the column of its action: actions 0 to 3
/// (up, right, down, left) each their own column, any other action the
/// last one; and it reads and writes the cells of the two positions.
pub proof fn law_update_uses_action_column(size: nat, state: (i32, i32), action: i32, next_state: (i32, i32))
    requires
        0 <= state.0 < size,
        0 <= state.1 < size,
        0 <= next_state.0 < size,
        0 <= next_state.1 < size,
    ensures
        q_cells_spec(size, state, action, next_state) matches Some(c) && {
            &&& c.row == state.0 && c.col == state.1
            &&& c.next_row == next_state.0 && c.next_col == next_state.1
            &&& 0 <= action <= 3 ==> c.action == action
            &&& !(0 <= action <= 3) ==> c.action == 3
        },
{
}

/// A position off the table skips the update.
pub proof fn law_off_table_skips(size: nat, state: (i32, i32), action: i32, next_state: (i32, i32))
    requires
        !(0 <= state.0 < size && 0 <= state.1 < size && 0 <= next_state.0 < size && 0
            <= next_state.1 < size),
    ensures
        q_cells_spec(size, state, action, next_state) is None,
{
}

} // verus!
