//! The viewer's state and its reducer: live events update the display and are
//! recorded; recorded events can be replayed step by step or up to a point.
use vstd::prelude::*;
use crate::naming::scout_id;
use crate::frontend::types::{
    ClientCommand, ScoutInfo, RecordedEventType, RecordedEvent, TrainingHistory, copy_values, copy_grid,
};
use crate::frontend::model::{
    StateView, ScoutView, RecordedView, ActionView, HistoryView, VISIT_CAP, ONE_F64_BITS, bumped,
    MIN_SPEED_BITS, MAX_SPEED_BITS, clamped_speed,
    zero_grid, zero_grids, zero_policy, visit, visit_scout, fresh_scout, scouts_upto, placed, moved,
    moved_all, completed, record, recording, applied, replayed, apply_ok, replay_ok, seek_base,
    seek_target, empty_history, indices_have_successors, live_move, live_batch, started, replay_entered, replay_stepped,
    sought, reduced, action_ok, sized_visits, sized_scout_visits, scouts_at_start, scouts_cleared,
    lemma_replay_keeps_controls, initial_state, unnamed_scout, reset_for_training_spec,
};

verus! {

/// The viewer's state.
#[derive(Clone, Debug)]
pub struct AppState {
    pub connected: bool,
    pub training: bool,
    pub paused: bool,
    pub grid_size: i32,
    pub n_scouts: i32,
    pub scouts: Vec<ScoutInfo>,
    pub policy: Vec<Vec<i32>>,
    /// Set by the first policy update.
    pub policy_received: bool,
    /// Visit counts per cell, all scouts together.
    pub visited_cells: Vec<Vec<u64>>,
    /// Visit counts per scout and cell: `[scout][row][col]`.
    pub per_scout_visited_cells: Vec<Vec<Vec<u64>>>,
    pub current_episode: i32,
    pub total_episodes: i32,
    /// Bit pattern of an `f64`.
    pub success_rate: u64,
    /// Bit pattern of an `f64`.
    pub average_steps: u64,
    pub history: TrainingHistory,
    pub error_message: Option<String>,
    pub recorded_events: Vec<RecordedEvent>,
    pub replay_mode: bool,
    pub replay_index: usize,
    pub replay_playing: bool,
    /// Bit pattern of an `f64`: 1.0 on entering replay, and limited to 0.1
    /// to 10.0 whenever it is set.
    pub replay_speed: u64,
}

impl View for AppState {
    type V = StateView;

    open spec fn view(&self) -> StateView {
        StateView {
            connected: self.connected,
            training: self.training,
            paused: self.paused,
            grid_size: self.grid_size,
            n_scouts: self.n_scouts,
            scouts: self.scouts.deep_view(),
            policy: self.policy.deep_view(),
            policy_received: self.policy_received,
            visited_cells: self.visited_cells.deep_view(),
            per_scout_visited_cells: self.per_scout_visited_cells.deep_view(),
            current_episode: self.current_episode,
            total_episodes: self.total_episodes,
            success_rate: self.success_rate,
            average_steps: self.average_steps,
            history: self.history.deep_view(),
            error_message: match &self.error_message {
                Some(m) => Some(m@),
                None => None,
            },
            recorded_events: self.recorded_events.deep_view(),
            replay_mode: self.replay_mode,
            replay_index: self.replay_index,
            replay_playing: self.replay_playing,
            replay_speed: self.replay_speed,
        }
    }
}

/// A count after one more visit, as `f64` counting does it.
pub fn bump(count: u64) -> (next: u64)
    ensures
        next == bumped(count),
{
    if count < VISIT_CAP {
        count + 1
    } else {
        count
    }
}

/// A `size` x `size` grid of zero counts.
pub fn zero_grid_exec(size: usize) -> (grid: Vec<Vec<u64>>)
    ensures
        grid.deep_view() == zero_grid(size as nat),
{
    let mut grid: Vec<Vec<u64>> = Vec::new();
    let mut r: usize = 0;
    while r < size
        invariant
            0 <= r <= size,
            grid@.len() == r,
            forall|j: int| 0 <= j < r ==> #[trigger] grid@[j]@ == Seq::new(size as nat, |c: int| 0u64),
        decreases size - r,
    {
        let mut row: Vec<u64> = Vec::new();
        let mut c: usize = 0;
        while c < size
            invariant
                0 <= c <= size,
                row@ == Seq::new(c as nat, |k: int| 0u64),
            decreases size - c,
        {
            row.push(0);
            c = c + 1;
            proof {
                assert(row@ =~= Seq::new(c as nat, |k: int| 0u64));
            }
        }
        grid.push(row);
        r = r + 1;
    }
    proof {
        assert forall|j: int| 0 <= j < size implies #[trigger] grid.deep_view()[j] == zero_grid(size as nat)[j] by {
            assert(grid.deep_view()[j] =~= grid@[j]@);
        }
        assert(grid.deep_view() =~= zero_grid(size as nat));
    }
    grid
}

/// `n` grids of zero counts.
pub fn zero_grids_exec(n: usize, size: usize) -> (grids: Vec<Vec<Vec<u64>>>)
    ensures
        grids.deep_view() == zero_grids(n as nat, size as nat),
{
    let mut grids: Vec<Vec<Vec<u64>>> = Vec::new();
    let mut i: usize = 0;
    while i < n
        invariant
            0 <= i <= n,
            grids@.len() == i,
            forall|j: int| 0 <= j < i ==> #[trigger] grids@[j].deep_view() == zero_grid(size as nat),
        decreases n - i,
    {
        grids.push(zero_grid_exec(size));
        i = i + 1;
    }
    proof {
        assert(grids.deep_view() =~= zero_grids(n as nat, size as nat));
    }
    grids
}

/// A `size` x `size` policy of action 0.
pub fn zero_policy_exec(size: usize) -> (policy: Vec<Vec<i32>>)
    ensures
        policy.deep_view() == zero_policy(size as nat),
{
    let mut policy: Vec<Vec<i32>> = Vec::new();
    let mut r: usize = 0;
    while r < size
        invariant
            0 <= r <= size,
            policy@.len() == r,
            forall|j: int| 0 <= j < r ==> #[trigger] policy@[j]@ == Seq::new(size as nat, |c: int| 0i32),
        decreases size - r,
    {
        let mut row: Vec<i32> = Vec::new();
        let mut c: usize = 0;
        while c < size
            invariant
                0 <= c <= size,
                row@ == Seq::new(c as nat, |k: int| 0i32),
            decreases size - c,
        {
            row.push(0);
            c = c + 1;
            proof {
                assert(row@ =~= Seq::new(c as nat, |k: int| 0i32));
            }
        }
        policy.push(row);
        r = r + 1;
    }
    proof {
        assert forall|j: int| 0 <= j < size implies #[trigger] policy.deep_view()[j] == zero_policy(size as nat)[j] by {
            assert(policy.deep_view()[j] =~= policy@[j]@);
        }
        assert(policy.deep_view() =~= zero_policy(size as nat));
    }
    policy
}

/// Counts a visit of (row, col) when that cell exists.
pub fn visit_cell(grid: &mut Vec<Vec<u64>>, row: i32, col: i32)
    ensures
        final(grid).deep_view() == visit(old(grid).deep_view(), row, col),
{
    if row >= 0 && col >= 0 {
        let r = row as usize;
        let c = col as usize;
        if r < grid.len() && c < grid[r].len() {
            let ghost g0 = grid.deep_view();
            let mut line: Vec<u64> = Vec::new();
            grid.set_and_swap(r, &mut line);
            let v = line[c];
            line.set(c, bump(v));
            grid.set(r, line);
            proof {
                assert(g0[r as int] =~= old(grid)@[r as int]@);
                assert forall|j: int| 0 <= j < g0.len() implies #[trigger] grid.deep_view()[j] == visit(g0, row, col)[j] by {
                    if j == r {
                        assert(grid.deep_view()[j] =~= visit(g0, row, col)[j]);
                    } else {
                        assert(grid.deep_view()[j] =~= g0[j]);
                    }
                }
                assert(grid.deep_view() =~= visit(g0, row, col));
            }
        }
    }
}

/// Counts a visit of (row, col) in scout `index`'s own grid, when both exist.
pub fn visit_scout_cell(grids: &mut Vec<Vec<Vec<u64>>>, index: usize, row: i32, col: i32)
    ensures
        final(grids).deep_view() == visit_scout(old(grids).deep_view(), index, row, col),
{
    if index < grids.len() {
        let ghost g0 = grids.deep_view();
        let mut grid: Vec<Vec<u64>> = Vec::new();
        grids.set_and_swap(index, &mut grid);
        visit_cell(&mut grid, row, col);
        grids.set(index, grid);
        proof {
            assert(g0[index as int] == old(grids)@[index as int].deep_view());
            assert forall|j: int| 0 <= j < g0.len() implies #[trigger] grids.deep_view()[j] == visit_scout(g0, index, row, col)[j] by {
                if j != index {
                    assert(grids@[j] == old(grids)@[j]);
                }
            }
            assert(grids.deep_view() =~= visit_scout(g0, index, row, col));
        }
    }
}

/// A scout as it appears when first seen: named by its index, at the start.
pub fn new_scout(index: usize) -> (scout: ScoutInfo)
    ensures
        scout.deep_view() == fresh_scout(index as int),
{
    ScoutInfo {
        id: scout_id(index),
        index,
        position: (0, 0),
        rewards: Vec::new(),
        episodes_completed: 0,
        successes: 0,
    }
}

/// Adds scouts until scout `index` exists.
pub fn ensure_scout(scouts: &mut Vec<ScoutInfo>, index: usize)
    requires
        index < usize::MAX,
    ensures
        final(scouts).deep_view() == scouts_upto(old(scouts).deep_view(), index),
{
    let ghost s0 = scouts.deep_view();
    if scouts.len() > index {
        return;
    }
    while scouts.len() <= index
        invariant
            index < usize::MAX,
            s0.len() <= scouts@.len() <= index + 1,
            forall|k: int|
                0 <= k < scouts@.len() ==> #[trigger] scouts@[k].deep_view() == if k < s0.len() {
                    s0[k]
                } else {
                    fresh_scout(k)
                },
        decreases index + 1 - scouts@.len(),
    {
        let k = scouts.len();
        let ghost before = scouts@;
        scouts.push(new_scout(k));
        proof {
            assert forall|j: int| 0 <= j < scouts@.len() implies #[trigger] scouts@[j].deep_view() == if j < s0.len() {
                s0[j]
            } else {
                fresh_scout(j)
            } by {
                if j < k {
                    assert(scouts@[j] == before[j]);
                }
            }
        }
    }
    proof {
        assert(scouts.deep_view() =~= scouts_upto(s0, index));
    }
}

/// Limits a replay speed to 0.1 to 10.0, as `f64::clamp` does, on the bit
/// pattern of the `f64`.
pub fn clamp_replay_speed(speed: u64) -> (clamped: u64)
    ensures
        clamped == clamped_speed(speed),
{
    if (0x7FF0_0000_0000_0000 < speed && speed < 0x8000_0000_0000_0000) || 0xFFF0_0000_0000_0000
        < speed {
        speed
    } else if speed >= 0x8000_0000_0000_0000 || speed < MIN_SPEED_BITS {
        MIN_SPEED_BITS
    } else if speed > MAX_SPEED_BITS {
        MAX_SPEED_BITS
    } else {
        speed
    }
}

/// A placeholder scout, swapped in while a scout is being updated: unnamed,
/// index 0, at the start, with no rewards, episodes or successes.
fn blank_scout() -> (scout: ScoutInfo)
    ensures
        scout.deep_view() == unnamed_scout(0),
{
    let scout = ScoutInfo {
        id: String::new(),
        index: 0,
        position: (0, 0),
        rewards: Vec::new(),
        episodes_completed: 0,
        successes: 0,
    };
    proof {
        assert(scout.deep_view().id =~= Seq::<char>::empty());
        assert(scout.deep_view().rewards =~= Seq::<u64>::empty());
    }
    scout
}

/// Moves scout `index` (which exists) to `position`.
fn place(scouts: &mut Vec<ScoutInfo>, index: usize, position: (i32, i32))
    requires
        index < old(scouts)@.len(),
    ensures
        final(scouts).deep_view() == placed(old(scouts).deep_view(), index, position),
{
    let ghost s0 = scouts.deep_view();
    let mut sc = blank_scout();
    scouts.set_and_swap(index, &mut sc);
    sc.position = position;
    scouts.set(index, sc);
    proof {
        assert forall|j: int| 0 <= j < s0.len() implies #[trigger] scouts.deep_view()[j] == placed(s0, index, position)[j] by {
            if j != index {
                assert(scouts@[j] == old(scouts)@[j]);
            }
        }
        assert(scouts.deep_view() =~= placed(s0, index, position));
    }
}

/// Records the end of scout `index`'s episode (when the scout exists); fails
/// when a counter would pass `i32::MAX`.
fn complete(scouts: &mut Vec<ScoutInfo>, index: usize, reached_goal: bool, total_reward: u64) -> (ok: bool)
    ensures
        ({
            let e = RecordedView::EpisodeComplete { scout_index: index, reached_goal, total_reward };
            let s = StateView { scouts: old(scouts).deep_view(), ..arbitrary_state() };
            &&& ok == apply_ok(s, e)
            &&& ok ==> final(scouts).deep_view() == completed(s, index, reached_goal, total_reward).scouts
        }),
{
    let ghost s0 = scouts.deep_view();
    if index < scouts.len() {
        if scouts[index].episodes_completed == i32::MAX {
            return false;
        }
        if reached_goal && scouts[index].successes == i32::MAX {
            return false;
        }
        let mut sc = blank_scout();
        scouts.set_and_swap(index, &mut sc);
        sc.rewards.push(total_reward);
        sc.episodes_completed = sc.episodes_completed + 1;
        if reached_goal {
            sc.successes = sc.successes + 1;
        }
        sc.position = (0, 0);
        scouts.set(index, sc);
        proof {
            let s = StateView { scouts: s0, ..arbitrary_state() };
            let target = completed(s, index, reached_goal, total_reward).scouts;
            assert forall|j: int| 0 <= j < s0.len() implies #[trigger] scouts.deep_view()[j] == target[j] by {
                if j != index {
                    assert(scouts@[j] == old(scouts)@[j]);
                } else {
                    assert(scouts.deep_view()[j].rewards =~= target[j].rewards);
                }
            }
            assert(scouts.deep_view() =~= target);
        }
    }
    true
}

/// Some state (the parts of it that a helper does not read).
pub closed spec fn arbitrary_state() -> StateView {
    StateView {
        connected: false,
        training: false,
        paused: false,
        grid_size: 0,
        n_scouts: 0,
        scouts: Seq::empty(),
        policy: Seq::empty(),
        policy_received: false,
        visited_cells: Seq::empty(),
        per_scout_visited_cells: Seq::empty(),
        current_episode: 0,
        total_episodes: 0,
        success_rate: 0,
        average_steps: 0,
        history: empty_history(),
        error_message: None,
        recorded_events: Seq::empty(),
        replay_mode: false,
        replay_index: 0,
        replay_playing: false,
        replay_speed: 0,
    }
}

impl AppState {
    /// One move, as a replay applies it: the scout is created if needed and
    /// placed, and the visit is counted in the combined and the scout's grid.
    pub fn apply_move(&mut self, index: usize, position: (i32, i32))
        requires
            index < usize::MAX,
        ensures
            final(self)@ == moved(old(self)@, index, position),
    {
        ensure_scout(&mut self.scouts, index);
        assert(self.scouts@.len() == self.scouts.deep_view().len());
        place(&mut self.scouts, index, position);
        let (row, col) = position;
        if row >= 0 && col >= 0 {
            visit_cell(&mut self.visited_cells, row, col);
            visit_scout_cell(&mut self.per_scout_visited_cells, index, row, col);
        }
    }
}

impl AppState {
    /// The moves of a batch, as a replay applies them, in order. Fails (and
    /// stops) at a scout index without successor.
    pub fn apply_moves(&mut self, moves: &Vec<(usize, (i32, i32))>) -> (ok: bool)
        ensures
            ok == indices_have_successors(moves@),
            ok ==> final(self)@ == moved_all(old(self)@, moves@, moves@.len() as int),
    {
        let ghost s0 = self@;
        let mut i: usize = 0;
        while i < moves.len()
            invariant
                0 <= i <= moves@.len(),
                self@ == moved_all(s0, moves@, i as int),
                forall|j: int| 0 <= j < i ==> (#[trigger] moves@[j]).0 < usize::MAX,
            decreases moves@.len() - i,
        {
            let (index, position) = moves[i];
            if index == usize::MAX {
                return false;
            }
            self.apply_move(index, position);
            i = i + 1;
        }
        true
    }

    /// Applies a recorded event (replay). Fails when the viewer would fail on
    /// it; see `apply_ok`.
    pub fn apply_recorded_event(&mut self, event: &RecordedEventType) -> (ok: bool)
        ensures
            ok == apply_ok(old(self)@, event.deep_view()),
            ok ==> final(self)@ == applied(old(self)@, event.deep_view()),
    {
        match event {
            RecordedEventType::ScoutMove { scout_index, position } => {
                if *scout_index == usize::MAX {
                    return false;
                }
                self.apply_move(*scout_index, *position);
                true
            },
            RecordedEventType::BatchScoutMoves { moves } => self.apply_moves(moves),
            RecordedEventType::EpisodeComplete { scout_index, reached_goal, total_reward } => {
                complete(&mut self.scouts, *scout_index, *reached_goal, *total_reward)
            },
            RecordedEventType::TrainingUpdate { episode, total_episodes, success_rate } => {
                self.current_episode = *episode;
                self.total_episodes = *total_episodes;
                self.success_rate = *success_rate;
                self.history.success_rates.push(*success_rate);
                true
            },
            RecordedEventType::PolicyUpdate { policy } => {
                self.policy = copy_grid(policy);
                self.policy_received = true;
                true
            },
        }
    }
}

/// Something the viewer does: a live event from the server, a command of the
/// user, or a replay control.
#[derive(Debug)]
pub enum Action {
    ScoutMove { scout_index: usize, position: (i32, i32) },
    /// `(scout_index, position)` of every move of one step.
    BatchScoutMoves { moves: Vec<(usize, (i32, i32))>, step: i32 },
    EpisodeComplete { scout_index: usize, reached_goal: bool, total_reward: u64 },
    TrainingUpdate {
        episode: i32,
        total_episodes: i32,
        success_rate: u64,
        average_steps: u64,
        episode_reward: u64,
    },
    PolicyUpdate { policy: Vec<Vec<i32>> },
    TrainingComplete { final_success_rate: u64 },
    StartTraining { grid_size: i32, n_scouts: i32, episodes: i32 },
    SetPaused(bool),
    SetTraining(bool),
    SetError(Option<String>),
    EnterReplayMode,
    ExitReplayMode,
    ReplayPlay,
    ReplayPause,
    ReplayStep,
    ReplaySeek { index: usize },
    /// The requested replay speed (bit pattern of an `f64`); the state keeps
    /// it limited to 0.1 to 10.0.
    ReplaySetSpeed { speed: u64 },
}

impl View for Action {
    type V = ActionView;

    open spec fn view(&self) -> ActionView {
        match self {
            Action::ScoutMove { scout_index, position } => ActionView::ScoutMove {
                scout_index: *scout_index,
                position: *position,
            },
            Action::BatchScoutMoves { moves, step } => ActionView::BatchScoutMoves {
                moves: moves@,
                step: *step,
            },
            Action::EpisodeComplete { scout_index, reached_goal, total_reward } =>
                ActionView::EpisodeComplete {
                scout_index: *scout_index,
                reached_goal: *reached_goal,
                total_reward: *total_reward,
            },
            Action::TrainingUpdate {
                episode,
                total_episodes,
                success_rate,
                average_steps,
                episode_reward,
            } => ActionView::TrainingUpdate {
                episode: *episode,
                total_episodes: *total_episodes,
                success_rate: *success_rate,
                average_steps: *average_steps,
                episode_reward: *episode_reward,
            },
            Action::PolicyUpdate { policy } => ActionView::PolicyUpdate {
                policy: policy.deep_view(),
            },
            Action::TrainingComplete { final_success_rate } => ActionView::TrainingComplete {
                final_success_rate: *final_success_rate,
            },
            Action::StartTraining { grid_size, n_scouts, episodes } => ActionView::StartTraining {
                grid_size: *grid_size,
                n_scouts: *n_scouts,
                episodes: *episodes,
            },
            Action::SetPaused(p) => ActionView::SetPaused(*p),
            Action::SetTraining(t) => ActionView::SetTraining(*t),
            Action::SetError(e) => ActionView::SetError(
                match e {
                    Some(m) => Some(m@),
                    None => None,
                },
            ),
            Action::EnterReplayMode => ActionView::EnterReplayMode,
            Action::ExitReplayMode => ActionView::ExitReplayMode,
            Action::ReplayPlay => ActionView::ReplayPlay,
            Action::ReplayPause => ActionView::ReplayPause,
            Action::ReplayStep => ActionView::ReplayStep,
            Action::ReplaySeek { index } => ActionView::ReplaySeek { index: *index },
            Action::ReplaySetSpeed { speed } => ActionView::ReplaySetSpeed { speed: *speed },
        }
    }
}

/// Every scout back at the start; with `clear`, their totals cleared too.
fn reset_scouts(scouts: &mut Vec<ScoutInfo>, clear: bool)
    ensures
        final(scouts).deep_view() == if clear {
            scouts_cleared(old(scouts).deep_view())
        } else {
            scouts_at_start(old(scouts).deep_view())
        },
{
    let ghost s0 = scouts.deep_view();
    let ghost target = if clear { scouts_cleared(s0) } else { scouts_at_start(s0) };
    let mut i: usize = 0;
    while i < scouts.len()
        invariant
            0 <= i <= scouts@.len(),
            scouts@.len() == s0.len(),
            target.len() == s0.len(),
            target == if clear { scouts_cleared(s0) } else { scouts_at_start(s0) },
            forall|j: int| 0 <= j < i ==> #[trigger] scouts@[j].deep_view() == target[j],
            forall|j: int| i <= j < s0.len() ==> #[trigger] scouts@[j].deep_view() == s0[j],
        decreases s0.len() - i,
    {
        let ghost before = scouts@;
        let mut sc = blank_scout();
        scouts.set_and_swap(i, &mut sc);
        sc.position = (0, 0);
        if clear {
            sc.rewards = Vec::new();
            sc.episodes_completed = 0;
            sc.successes = 0;
        }
        scouts.set(i, sc);
        proof {
            assert(scouts@[i as int].deep_view() == target[i as int]) by {
                assert(before[i as int].deep_view() == s0[i as int]);
                assert(scouts@[i as int].deep_view().rewards =~= target[i as int].rewards);
            }
            assert forall|j: int| 0 <= j < s0.len() && j != i implies scouts@[j] == before[j] by {}
        }
        i = i + 1;
    }
    proof {
        assert(scouts.deep_view() =~= target);
    }
}

/// The scouts of a new run: `0..n`, each named by its index, at the start.
fn new_scouts(n: usize) -> (scouts: Vec<ScoutInfo>)
    ensures
        scouts.deep_view() == Seq::new(n as nat, |i: int| fresh_scout(i)),
{
    let mut scouts: Vec<ScoutInfo> = Vec::new();
    let mut i: usize = 0;
    while i < n
        invariant
            0 <= i <= n,
            scouts@.len() == i,
            forall|j: int| 0 <= j < i ==> #[trigger] scouts@[j].deep_view() == fresh_scout(j),
        decreases n - i,
    {
        scouts.push(new_scout(i));
        i = i + 1;
    }
    proof {
        assert(scouts.deep_view() =~= Seq::new(n as nat, |i: int| fresh_scout(i)));
    }
    scouts
}

impl AppState {
    /// Appends an event to the recording, at its index.
    fn push_record(&mut self, event: RecordedEventType)
        ensures
            final(self)@ == record(old(self)@, event.deep_view()),
    {
        let index = self.recorded_events.len();
        self.recorded_events.push(RecordedEvent { index, event });
        proof {
            assert(self.recorded_events.deep_view() =~= old(self).recorded_events.deep_view().push(
                (index, event.deep_view()),
            ));
        }
    }
}

/// Every move's scout index is below `usize::MAX`.
fn check_indices(moves: &Vec<(usize, (i32, i32))>) -> (ok: bool)
    ensures
        ok == indices_have_successors(moves@),
{
    let mut k: usize = 0;
    while k < moves.len()
        invariant
            0 <= k <= moves@.len(),
            forall|j: int| 0 <= j < k ==> (#[trigger] moves@[j]).0 < usize::MAX,
        decreases moves@.len() - k,
    {
        if moves[k].0 == usize::MAX {
            assert(moves@[k as int].0 == usize::MAX);
            return false;
        }
        k = k + 1;
    }
    true
}

impl AppState {
    fn on_scout_move(&mut self, index: usize, position: (i32, i32)) -> (ok: bool)
        ensures
            ok == action_ok(old(self)@, ActionView::ScoutMove { scout_index: index, position }),
            ok ==> final(self)@ == live_move(old(self)@, index, position),
    {
        let (row, col) = position;
        if index == usize::MAX {
            return false;
        }
        if row >= 0 && col >= 0 && self.grid_size < 0 {
            return false;
        }
        let ghost s0 = self@;
        ensure_scout(&mut self.scouts, index);
        assert(self.scouts@.len() == self.scouts.deep_view().len());
        place(&mut self.scouts, index, position);
        if row >= 0 && col >= 0 {
            let size = self.grid_size as usize;
            if self.visited_cells.len() < size {
                self.visited_cells = zero_grid_exec(size);
            }
            assert(self.visited_cells.deep_view() == sized_visits(s0));
            visit_cell(&mut self.visited_cells, row, col);
            visit_scout_cell(&mut self.per_scout_visited_cells, index, row, col);
        }
        if self.training && !self.replay_mode {
            self.push_record(RecordedEventType::ScoutMove { scout_index: index, position });
        }
        true
    }

    fn on_batch(&mut self, moves: Vec<(usize, (i32, i32))>) -> (ok: bool)
        ensures
            ok == action_ok(old(self)@, ActionView::BatchScoutMoves { moves: moves@, step: 0 }),
            ok ==> final(self)@ == live_batch(old(self)@, moves@),
    {
        if self.grid_size < 0 || self.n_scouts < 0 {
            return false;
        }
        if !check_indices(&moves) {
            return false;
        }
        let ghost s0 = self@;
        let size = self.grid_size as usize;
        if self.visited_cells.len() < size {
            self.visited_cells = zero_grid_exec(size);
        }
        let n = self.n_scouts as usize;
        if self.per_scout_visited_cells.len() < n {
            self.per_scout_visited_cells = zero_grids_exec(n, size);
        }
        let ghost sized = self@;
        assert(sized == StateView {
            visited_cells: sized_visits(s0),
            per_scout_visited_cells: sized_scout_visits(s0),
            ..s0
        });
        let all = self.apply_moves(&moves);
        assert(all);
        proof {
            crate::frontend::model::lemma_moves_keep_controls(sized, moves@, moves@.len() as int);
        }
        if self.training && !self.replay_mode && moves.len() > 0 {
            self.push_record(RecordedEventType::BatchScoutMoves { moves });
        }
        true
    }

    fn on_episode_complete(&mut self, index: usize, reached_goal: bool, total_reward: u64) -> (ok: bool)
        ensures
            ok == action_ok(
                old(self)@,
                ActionView::EpisodeComplete { scout_index: index, reached_goal, total_reward },
            ),
            ok ==> final(self)@ == reduced(
                old(self)@,
                ActionView::EpisodeComplete { scout_index: index, reached_goal, total_reward },
            ),
    {
        let ok = complete(&mut self.scouts, index, reached_goal, total_reward);
        if !ok {
            return false;
        }
        if self.training && !self.replay_mode {
            self.push_record(
                RecordedEventType::EpisodeComplete { scout_index: index, reached_goal, total_reward },
            );
        }
        true
    }

    fn on_training_update(
        &mut self,
        episode: i32,
        total_episodes: i32,
        success_rate: u64,
        average_steps: u64,
        episode_reward: u64,
    ) -> (ok: bool)
        ensures
            ok,
            final(self)@ == reduced(
                old(self)@,
                ActionView::TrainingUpdate {
                    episode,
                    total_episodes,
                    success_rate,
                    average_steps,
                    episode_reward,
                },
            ),
    {
        self.current_episode = episode;
        self.total_episodes = total_episodes;
        self.success_rate = success_rate;
        self.average_steps = average_steps;
        self.history.success_rates.push(success_rate);
        self.history.average_steps.push(average_steps);
        self.history.episode_rewards.push(episode_reward);
        if self.training && !self.replay_mode {
            self.push_record(
                RecordedEventType::TrainingUpdate { episode, total_episodes, success_rate },
            );
        }
        true
    }

    fn on_policy_update(&mut self, policy: Vec<Vec<i32>>) -> (ok: bool)
        ensures
            ok,
            final(self)@ == reduced(old(self)@, ActionView::PolicyUpdate { policy: policy.deep_view() }),
    {
        if self.training && !self.replay_mode {
            self.push_record(RecordedEventType::PolicyUpdate { policy: copy_grid(&policy) });
        }
        self.policy = policy;
        self.policy_received = true;
        true
    }

    fn on_start(&mut self, grid_size: i32, n_scouts: i32, episodes: i32) -> (ok: bool)
        ensures
            ok == (grid_size >= 0 && n_scouts >= 0),
            ok ==> final(self)@ == started(old(self)@, grid_size, n_scouts, episodes),
    {
        if grid_size < 0 || n_scouts < 0 {
            return false;
        }
        self.grid_size = grid_size;
        self.n_scouts = n_scouts;
        self.total_episodes = episodes;
        let size = grid_size as usize;
        let n = n_scouts as usize;
        self.scouts = new_scouts(n);
        self.visited_cells = zero_grid_exec(size);
        self.per_scout_visited_cells = zero_grids_exec(n, size);
        self.policy = zero_policy_exec(size);
        self.policy_received = false;
        self.current_episode = 0;
        self.success_rate = 0;
        self.average_steps = 0;
        self.history = TrainingHistory {
            episode_rewards: Vec::new(),
            success_rates: Vec::new(),
            average_steps: Vec::new(),
        };
        self.error_message = None;
        self.training = true;
        self.paused = false;
        self.recorded_events = Vec::new();
        self.replay_mode = false;
        self.replay_playing = false;
        self.replay_index = 0;
        proof {
            assert(self.recorded_events.deep_view() =~= Seq::<(usize, RecordedView)>::empty());
            assert(self.history.deep_view() =~= empty_history());
        }
        true
    }

    fn on_enter_replay(&mut self) -> (ok: bool)
        ensures
            ok == action_ok(old(self)@, ActionView::EnterReplayMode),
            ok ==> final(self)@ == reduced(old(self)@, ActionView::EnterReplayMode),
    {
        if self.recorded_events.len() > 0 {
            if self.grid_size < 0 || self.n_scouts < 0 {
                return false;
            }
            self.replay_mode = true;
            self.replay_index = 0;
            self.replay_playing = false;
            self.replay_speed = ONE_F64_BITS;
            let size = self.grid_size as usize;
            let n = self.n_scouts as usize;
            self.visited_cells = zero_grid_exec(size);
            self.per_scout_visited_cells = zero_grids_exec(n, size);
            self.policy = zero_policy_exec(size);
            self.policy_received = false;
            reset_scouts(&mut self.scouts, false);
            self.current_episode = 0;
            self.success_rate = 0;
        }
        true
    }

    fn on_replay_step(&mut self) -> (ok: bool)
        ensures
            ok == action_ok(old(self)@, ActionView::ReplayStep),
            ok ==> final(self)@ == replay_stepped(old(self)@),
    {
        if self.replay_index < self.recorded_events.len() {
            let ghost s0 = self@;
            let event = self.recorded_events[self.replay_index].event.clone();
            assert(event.deep_view() == s0.recorded_events[s0.replay_index as int].1);
            if !self.apply_recorded_event(&event) {
                return false;
            }
            proof {
                crate::frontend::model::lemma_applied_keeps_controls(s0, event.deep_view());
            }
            self.replay_index = self.replay_index + 1;
            if self.replay_index >= self.recorded_events.len() {
                self.replay_playing = false;
            }
        }
        true
    }

    fn on_seek(&mut self, index: usize) -> (ok: bool)
        ensures
            ok == action_ok(old(self)@, ActionView::ReplaySeek { index }),
            ok ==> final(self)@ == sought(old(self)@, index),
    {
        if self.grid_size < 0 || self.n_scouts < 0 {
            return false;
        }
        let ghost s0 = self@;
        let size = self.grid_size as usize;
        let n = self.n_scouts as usize;
        self.visited_cells = zero_grid_exec(size);
        self.per_scout_visited_cells = zero_grids_exec(n, size);
        self.policy = zero_policy_exec(size);
        self.policy_received = false;
        reset_scouts(&mut self.scouts, true);
        self.current_episode = 0;
        self.success_rate = 0;
        self.history = TrainingHistory {
            episode_rewards: Vec::new(),
            success_rates: Vec::new(),
            average_steps: Vec::new(),
        };
        let ghost base = self@;
        proof {
            assert(self.history.deep_view() =~= empty_history());
            assert(base == seek_base(s0));
        }
        let target = if index < self.recorded_events.len() {
            index
        } else {
            self.recorded_events.len()
        };
        let mut i: usize = 0;
        while i < target
            invariant
                0 <= i <= target,
                target == seek_target(s0, index),
                s0 == old(self)@,
                base == seek_base(s0),
                self@ == replayed(base, s0.recorded_events, i as int),
                self.recorded_events.deep_view() == s0.recorded_events,
                target <= self.recorded_events@.len(),
                forall|j: int| 0 <= j < i ==> #[trigger] apply_ok(replayed(base, s0.recorded_events, j), s0.recorded_events[j].1),
            decreases target - i,
        {
            let event = self.recorded_events[i].event.clone();
            assert(event.deep_view() == s0.recorded_events[i as int].1);
            let ghost before = self@;
            if !self.apply_recorded_event(&event) {
                assert(!apply_ok(replayed(seek_base(s0), s0.recorded_events, i as int), s0.recorded_events[i as int].1));
                assert(!replay_ok(seek_base(s0), s0.recorded_events, seek_target(s0, index)));
                return false;
            }
            i = i + 1;
            proof {
                lemma_replay_keeps_controls(base, s0.recorded_events, i as int);
            }
        }
        self.replay_index = target;
        true
    }

    /// Carries out an action, as the viewer's reducer does: live events update
    /// positions, visit counts, progress and the policy, and are recorded
    /// while training outside replay; the commands start a run, pause, stop or
    /// report an error; the replay controls enter and leave replay, play,
    /// pause, step through the recording or seek to a position in it.
    ///
    /// Returns false, leaving the state unspecified, exactly when the action
    /// is one the viewer fails on (`action_ok`).
    pub fn reduce(&mut self, action: Action) -> (ok: bool)
        ensures
            ok == action_ok(old(self)@, action@),
            ok ==> final(self)@ == reduced(old(self)@, action@),
    {
        let ghost a = action@;
        match action {
            Action::ScoutMove { scout_index, position } => {
                assert(a == ActionView::ScoutMove { scout_index, position });
                self.on_scout_move(scout_index, position)
            },
            Action::BatchScoutMoves { moves, .. } => self.on_batch(moves),
            Action::EpisodeComplete { scout_index, reached_goal, total_reward } =>
                self.on_episode_complete(scout_index, reached_goal, total_reward),
            Action::TrainingUpdate {
                episode,
                total_episodes,
                success_rate,
                average_steps,
                episode_reward,
            } => self.on_training_update(
                episode,
                total_episodes,
                success_rate,
                average_steps,
                episode_reward,
            ),
            Action::PolicyUpdate { policy } => self.on_policy_update(policy),
            Action::TrainingComplete { final_success_rate } => {
                self.training = false;
                self.success_rate = final_success_rate;
                true
            },
            Action::StartTraining { grid_size, n_scouts, episodes } => self.on_start(
                grid_size,
                n_scouts,
                episodes,
            ),
            Action::SetPaused(paused) => {
                self.paused = paused;
                true
            },
            Action::SetTraining(training) => {
                self.training = training;
                true
            },
            Action::SetError(error) => {
                self.error_message = error;
                true
            },
            Action::EnterReplayMode => self.on_enter_replay(),
            Action::ExitReplayMode => {
                self.replay_mode = false;
                self.replay_playing = false;
                true
            },
            Action::ReplayPlay => {
                self.replay_playing = true;
                true
            },
            Action::ReplayPause => {
                self.replay_playing = false;
                true
            },
            Action::ReplayStep => self.on_replay_step(),
            Action::ReplaySeek { index } => self.on_seek(index),
            Action::ReplaySetSpeed { speed } => {
                self.replay_speed = clamp_replay_speed(speed);
                true
            },
        }
    }
}

impl AppState {
    /// A fresh display for a `grid_size` grid and five scouts.
    pub fn new(grid_size: i32) -> (state: Self)
        requires
            grid_size >= 0,
        ensures
            state@ == initial_state(grid_size, 5),
    {
        Self::new_with_scouts(grid_size, 5)
    }

    /// A fresh display for a `grid_size` grid and `n_scouts` scouts: zero
    /// visit grids (combined and per scout) and a zero policy of that size,
    /// no scouts listed yet, nothing recorded.
    pub fn new_with_scouts(grid_size: i32, n_scouts: i32) -> (state: Self)
        requires
            grid_size >= 0,
            n_scouts >= 0,
        ensures
            state@ == initial_state(grid_size, n_scouts),
    {
        let size = grid_size as usize;
        let n = n_scouts as usize;
        let state = AppState {
            connected: false,
            training: false,
            paused: false,
            grid_size,
            n_scouts,
            scouts: Vec::new(),
            policy: zero_policy_exec(size),
            policy_received: false,
            visited_cells: zero_grid_exec(size),
            per_scout_visited_cells: zero_grids_exec(n, size),
            current_episode: 0,
            total_episodes: 0,
            success_rate: 0,
            average_steps: 0,
            history: TrainingHistory {
                episode_rewards: Vec::new(),
                success_rates: Vec::new(),
                average_steps: Vec::new(),
            },
            error_message: None,
            recorded_events: Vec::new(),
            replay_mode: false,
            replay_index: 0,
            replay_playing: false,
            replay_speed: 0,
        };
        proof {
            assert(state.scouts.deep_view() =~= Seq::<ScoutView>::empty());
            assert(state.recorded_events.deep_view() =~= Seq::<(usize, RecordedView)>::empty());
            assert(state.history.deep_view() =~= empty_history());
        }
        state
    }

    /// Prepares the display for a new training run of `n_scouts` scouts on
    /// the current grid: scouts at the start, zero grids and policy, progress
    /// and history cleared, training on and not paused. The recording and the
    /// replay controls are kept.
    pub fn reset_for_training(&mut self, n_scouts: i32)
        requires
            old(self).grid_size >= 0,
            n_scouts >= 0,
        ensures
            final(self)@ == reset_for_training_spec(old(self)@, n_scouts),
    {
        let size = self.grid_size as usize;
        let n = n_scouts as usize;
        self.n_scouts = n_scouts;
        let mut scouts: Vec<ScoutInfo> = Vec::new();
        let mut i: usize = 0;
        while i < n
            invariant
                0 <= i <= n,
                scouts@.len() == i,
                forall|j: int| 0 <= j < i ==> #[trigger] scouts@[j].deep_view() == unnamed_scout(j),
            decreases n - i,
        {
            scouts.push(ScoutInfo {
                id: String::new(),
                index: i,
                position: (0, 0),
                rewards: Vec::new(),
                episodes_completed: 0,
                successes: 0,
            });
            proof {
                assert(scouts@[i as int].deep_view().rewards =~= Seq::<u64>::empty());
            }
            i = i + 1;
        }
        self.scouts = scouts;
        self.visited_cells = zero_grid_exec(size);
        self.per_scout_visited_cells = zero_grids_exec(n, size);
        self.policy = zero_policy_exec(size);
        self.current_episode = 0;
        self.success_rate = 0;
        self.average_steps = 0;
        self.history = TrainingHistory {
            episode_rewards: Vec::new(),
            success_rates: Vec::new(),
            average_steps: Vec::new(),
        };
        self.error_message = None;
        self.training = true;
        self.paused = false;
        proof {
            assert(self.scouts.deep_view() =~= Seq::new(n_scouts as nat, |i: int| unnamed_scout(i)));
            assert(self.history.deep_view() =~= empty_history());
        }
    }
}

/// What the viewer does itself when the user sends a command: starting
/// prepares a new run, pausing and resuming set the pause flag, stopping ends
/// training; a speed change only goes to the server.
pub open spec fn command_effect(cmd: ClientCommand) -> Option<ActionView> {
    match cmd {
        ClientCommand::Start { config } => Some(
            ActionView::StartTraining {
                grid_size: config.grid_size,
                n_scouts: config.n_scouts,
                episodes: config.episodes,
            },
        ),
        ClientCommand::Pause => Some(ActionView::SetPaused(true)),
        ClientCommand::Resume => Some(ActionView::SetPaused(false)),
        ClientCommand::Stop => Some(ActionView::SetTraining(false)),
        ClientCommand::SetSpeed { .. } => None,
    }
}

/// The action the viewer takes on its own command, if any.
pub fn command_action(cmd: &ClientCommand) -> (action: Option<Action>)
    ensures
        match action {
            Some(a) => command_effect(*cmd) == Some(a@),
            None => command_effect(*cmd) is None,
        },
{
    match cmd {
        ClientCommand::Start { config } => Some(
            Action::StartTraining {
                grid_size: config.grid_size,
                n_scouts: config.n_scouts,
                episodes: config.episodes,
            },
        ),
        ClientCommand::Pause => Some(Action::SetPaused(true)),
        ClientCommand::Resume => Some(Action::SetPaused(false)),
        ClientCommand::Stop => Some(Action::SetTraining(false)),
        ClientCommand::SetSpeed { .. } => None,
    }
}

} // verus!
