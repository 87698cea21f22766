//! The mathematical model of the viewer's state and of what each action does
//! to it.
use vstd::prelude::*;
use crate::naming::scout_id_spec;
use crate::frontend::types::{ScoutInfo, RecordedEventType, RecordedEvent, TrainingHistory};

verus! {

/// A visit count is an `f64` in the viewer that starts at 0.0 and grows by
/// 1.0. It is held here as the integer it equals; past 2^53 adding 1.0 no
/// longer changes an `f64`, so the count stops there.
pub const VISIT_CAP: u64 = 0x20_0000_0000_0000;

/// The bit pattern of the `f64` value 1.0.
pub const ONE_F64_BITS: u64 = 0x3FF0_0000_0000_0000;

/// The bit pattern of the `f64` value 0.1, the slowest replay speed.
pub const MIN_SPEED_BITS: u64 = 0x3FB9_9999_9999_999A;

/// The bit pattern of the `f64` value 10.0, the fastest replay speed.
pub const MAX_SPEED_BITS: u64 = 0x4024_0000_0000_0000;

/// The bit pattern of an `f64` NaN: every exponent bit set and a fraction
/// that is not zero, with either sign.
pub open spec fn is_nan_bits(b: u64) -> bool {
    ||| (0x7FF0_0000_0000_0000 < b && b < 0x8000_0000_0000_0000)
    ||| 0xFFF0_0000_0000_0000 < b
}

/// The bit pattern of `x.clamp(0.1, 10.0)` for the `f64` `x` with bit
/// pattern `b`: a NaN stays a NaN; a value with the sign bit set (negative,
/// or -0.0) lies below 0.1; other values are ordered as their bit patterns.
pub open spec fn clamped_speed(b: u64) -> u64 {
    if is_nan_bits(b) {
        b
    } else if b >= 0x8000_0000_0000_0000 || b < MIN_SPEED_BITS {
        MIN_SPEED_BITS
    } else if b > MAX_SPEED_BITS {
        MAX_SPEED_BITS
    } else {
        b
    }
}

pub struct ScoutView {
    pub id: Seq<char>,
    pub index: usize,
    pub position: (i32, i32),
    pub rewards: Seq<u64>,
    pub episodes_completed: i32,
    pub successes: i32,
}

impl DeepView for ScoutInfo {
    type V = ScoutView;

    open spec fn deep_view(&self) -> ScoutView {
        ScoutView {
            id: self.id@,
            index: self.index,
            position: self.position,
            rewards: self.rewards@,
            episodes_completed: self.episodes_completed,
            successes: self.successes,
        }
    }
}

pub enum RecordedView {
    ScoutMove { scout_index: usize, position: (i32, i32) },
    BatchScoutMoves { moves: Seq<(usize, (i32, i32))> },
    EpisodeComplete { scout_index: usize, reached_goal: bool, total_reward: u64 },
    TrainingUpdate { episode: i32, total_episodes: i32, success_rate: u64 },
    PolicyUpdate { policy: Seq<Seq<i32>> },
}

impl DeepView for RecordedEventType {
    type V = RecordedView;

    open spec fn deep_view(&self) -> RecordedView {
        match self {
            RecordedEventType::ScoutMove { scout_index, position } => RecordedView::ScoutMove {
                scout_index: *scout_index,
                position: *position,
            },
            RecordedEventType::BatchScoutMoves { moves } => RecordedView::BatchScoutMoves {
                moves: moves@,
            },
            RecordedEventType::EpisodeComplete { scout_index, reached_goal, total_reward } =>
                RecordedView::EpisodeComplete {
                scout_index: *scout_index,
                reached_goal: *reached_goal,
                total_reward: *total_reward,
            },
            RecordedEventType::TrainingUpdate { episode, total_episodes, success_rate } =>
                RecordedView::TrainingUpdate {
                episode: *episode,
                total_episodes: *total_episodes,
                success_rate: *success_rate,
            },
            RecordedEventType::PolicyUpdate { policy } => RecordedView::PolicyUpdate {
                policy: policy.deep_view(),
            },
        }
    }
}

impl DeepView for RecordedEvent {
    type V = (usize, RecordedView);

    open spec fn deep_view(&self) -> (usize, RecordedView) {
        (self.index, self.event.deep_view())
    }
}

pub struct HistoryView {
    pub episode_rewards: Seq<u64>,
    pub success_rates: Seq<u64>,
    pub average_steps: Seq<u64>,
}

impl DeepView for TrainingHistory {
    type V = HistoryView;

    open spec fn deep_view(&self) -> HistoryView {
        HistoryView {
            episode_rewards: self.episode_rewards@,
            success_rates: self.success_rates@,
            average_steps: self.average_steps@,
        }
    }
}

pub open spec fn empty_history() -> HistoryView {
    HistoryView {
        episode_rewards: Seq::empty(),
        success_rates: Seq::empty(),
        average_steps: Seq::empty(),
    }
}

/// The viewer's state, as values.
pub struct StateView {
    pub connected: bool,
    pub training: bool,
    pub paused: bool,
    pub grid_size: i32,
    pub n_scouts: i32,
    pub scouts: Seq<ScoutView>,
    pub policy: Seq<Seq<i32>>,
    pub policy_received: bool,
    pub visited_cells: Seq<Seq<u64>>,
    pub per_scout_visited_cells: Seq<Seq<Seq<u64>>>,
    pub current_episode: i32,
    pub total_episodes: i32,
    pub success_rate: u64,
    pub average_steps: u64,
    pub history: HistoryView,
    pub error_message: Option<Seq<char>>,
    pub recorded_events: Seq<(usize, RecordedView)>,
    pub replay_mode: bool,
    pub replay_index: usize,
    pub replay_playing: bool,
    pub replay_speed: u64,
}

/// The viewer's actions, as values.
pub enum ActionView {
    ScoutMove { scout_index: usize, position: (i32, i32) },
    BatchScoutMoves { moves: Seq<(usize, (i32, i32))>, step: i32 },
    EpisodeComplete { scout_index: usize, reached_goal: bool, total_reward: u64 },
    TrainingUpdate {
        episode: i32,
        total_episodes: i32,
        success_rate: u64,
        average_steps: u64,
        episode_reward: u64,
    },
    PolicyUpdate { policy: Seq<Seq<i32>> },
    TrainingComplete { final_success_rate: u64 },
    StartTraining { grid_size: i32, n_scouts: i32, episodes: i32 },
    SetPaused(bool),
    SetTraining(bool),
    SetError(Option<Seq<char>>),
    EnterReplayMode,
    ExitReplayMode,
    ReplayPlay,
    ReplayPause,
    ReplayStep,
    ReplaySeek { index: usize },
    ReplaySetSpeed { speed: u64 },
}

// ---------------------------------------------------------------------------
// Building blocks

/// A count after one more visit.
pub open spec fn bumped(count: u64) -> u64 {
    if count < VISIT_CAP {
        (count + 1) as u64
    } else {
        count
    }
}

/// A `size` x `size` grid of zero counts.
pub open spec fn zero_grid(size: nat) -> Seq<Seq<u64>> {
    Seq::new(size, |r: int| Seq::new(size, |c: int| 0u64))
}

/// `n` zero grids.
pub open spec fn zero_grids(n: nat, size: nat) -> Seq<Seq<Seq<u64>>> {
    Seq::new(n, |i: int| zero_grid(size))
}

/// A `size` x `size` policy of action 0.
pub open spec fn zero_policy(size: nat) -> Seq<Seq<i32>> {
    Seq::new(size, |r: int| Seq::new(size, |c: int| 0i32))
}

/// The count at (row, col) incremented, when that cell exists.
pub open spec fn visit(grid: Seq<Seq<u64>>, row: i32, col: i32) -> Seq<Seq<u64>> {
    if 0 <= row < grid.len() && 0 <= col < grid[row as int].len() {
        grid.update(row as int, grid[row as int].update(col as int, bumped(grid[row as int][col as int])))
    } else {
        grid
    }
}

/// Scout `index`'s own count at (row, col) incremented, when it exists.
pub open spec fn visit_scout(grids: Seq<Seq<Seq<u64>>>, index: usize, row: i32, col: i32) -> Seq<Seq<Seq<u64>>> {
    if index < grids.len() {
        grids.update(index as int, visit(grids[index as int], row, col))
    } else {
        grids
    }
}

/// A newly seen scout, named by its index, at the start.
pub open spec fn fresh_scout(index: int) -> ScoutView {
    ScoutView {
        id: scout_id_spec(index as nat),
        index: index as usize,
        position: (0, 0),
        rewards: Seq::empty(),
        episodes_completed: 0,
        successes: 0,
    }
}

/// The scouts, extended with new ones so that scout `index` exists.
pub open spec fn scouts_upto(scouts: Seq<ScoutView>, index: usize) -> Seq<ScoutView> {
    if index < scouts.len() {
        scouts
    } else {
        Seq::new((index + 1) as nat, |k: int| if k < scouts.len() { scouts[k] } else { fresh_scout(k) })
    }
}

/// Scout `index` moved to `position` (the scout exists).
pub open spec fn placed(scouts: Seq<ScoutView>, index: usize, position: (i32, i32)) -> Seq<ScoutView> {
    scouts.update(index as int, ScoutView { position, ..scouts[index as int] })
}

/// One move: the scout is created if needed and placed, and the visit is
/// counted in the combined and in the scout's own grid.
pub open spec fn moved(s: StateView, index: usize, position: (i32, i32)) -> StateView {
    let (row, col) = position;
    StateView {
        scouts: placed(scouts_upto(s.scouts, index), index, position),
        visited_cells: if row >= 0 && col >= 0 { visit(s.visited_cells, row, col) } else { s.visited_cells },
        per_scout_visited_cells: if row >= 0 && col >= 0 {
            visit_scout(s.per_scout_visited_cells, index, row, col)
        } else {
            s.per_scout_visited_cells
        },
        ..s
    }
}

/// The moves of a batch applied in order, the first `k` of them.
pub open spec fn moved_all(s: StateView, moves: Seq<(usize, (i32, i32))>, k: int) -> StateView
    decreases k,
{
    if k <= 0 {
        s
    } else {
        let t = moved_all(s, moves, k - 1);
        moved(t, moves[k - 1].0, moves[k - 1].1)
    }
}

/// A scout's episode ended: its reward is added, its counters advance and it
/// returns to the start (when the scout exists).
pub open spec fn completed(s: StateView, index: usize, reached_goal: bool, total_reward: u64) -> StateView {
    if index < s.scouts.len() {
        let sc = s.scouts[index as int];
        StateView {
            scouts: s.scouts.update(index as int, ScoutView {
                rewards: sc.rewards.push(total_reward),
                episodes_completed: (sc.episodes_completed + 1) as i32,
                successes: if reached_goal { (sc.successes + 1) as i32 } else { sc.successes },
                position: (0, 0),
                ..sc
            }),
            ..s
        }
    } else {
        s
    }
}

/// Appends an event to the recording, at its index.
pub open spec fn record(s: StateView, e: RecordedView) -> StateView {
    StateView { recorded_events: s.recorded_events.push((s.recorded_events.len() as usize, e)), ..s }
}

/// Live events are recorded while training and not replaying.
pub open spec fn recording(s: StateView) -> bool {
    s.training && !s.replay_mode
}

// ---------------------------------------------------------------------------
// Replay

/// A recorded event applied to the state (replay).
pub open spec fn applied(s: StateView, e: RecordedView) -> StateView {
    match e {
        RecordedView::ScoutMove { scout_index, position } => moved(s, scout_index, position),
        RecordedView::BatchScoutMoves { moves } => moved_all(s, moves, moves.len() as int),
        RecordedView::EpisodeComplete { scout_index, reached_goal, total_reward } =>
            completed(s, scout_index, reached_goal, total_reward),
        RecordedView::TrainingUpdate { episode, total_episodes, success_rate } => StateView {
            current_episode: episode,
            total_episodes,
            success_rate,
            history: HistoryView {
                success_rates: s.history.success_rates.push(success_rate),
                ..s.history
            },
            ..s
        },
        RecordedView::PolicyUpdate { policy } => StateView { policy, policy_received: true, ..s },
    }
}

/// The recorded events `0..k` applied in order.
pub open spec fn replayed(s: StateView, events: Seq<(usize, RecordedView)>, k: int) -> StateView
    decreases k,
{
    if k <= 0 {
        s
    } else {
        applied(replayed(s, events, k - 1), events[k - 1].1)
    }
}

/// Every move's scout index is below `usize::MAX`.
pub open spec fn indices_have_successors(moves: Seq<(usize, (i32, i32))>) -> bool {
    forall|i: int| 0 <= i < moves.len() ==> (#[trigger] moves[i]).0 < usize::MAX
}

/// Applying the event cannot run into a failure of the viewer: no scout index
/// without successor, no counter past `i32::MAX`.
pub open spec fn apply_ok(s: StateView, e: RecordedView) -> bool {
    match e {
        RecordedView::ScoutMove { scout_index, .. } => scout_index < usize::MAX,
        RecordedView::BatchScoutMoves { moves } => indices_have_successors(moves),
        RecordedView::EpisodeComplete { scout_index, reached_goal, .. } => scout_index
            < s.scouts.len() ==> {
            &&& s.scouts[scout_index as int].episodes_completed < i32::MAX
            &&& reached_goal ==> s.scouts[scout_index as int].successes < i32::MAX
        },
        _ => true,
    }
}

/// Replaying events `0..k` from `s` never fails.
pub open spec fn replay_ok(s: StateView, events: Seq<(usize, RecordedView)>, k: int) -> bool {
    forall|j: int| 0 <= j < k ==> #[trigger] apply_ok(replayed(s, events, j), events[j].1)
}

/// The state from which a seek replays: visit counts, policy and progress
/// cleared, every scout back at the start with its totals cleared.
pub open spec fn seek_base(s: StateView) -> StateView {
    StateView {
        visited_cells: zero_grid(s.grid_size as nat),
        per_scout_visited_cells: zero_grids(s.n_scouts as nat, s.grid_size as nat),
        policy: zero_policy(s.grid_size as nat),
        policy_received: false,
        scouts: scouts_cleared(s.scouts),
        current_episode: 0,
        success_rate: 0,
        history: empty_history(),
        ..s
    }
}

/// The smaller of a requested replay position and the recording's length.
pub open spec fn seek_target(s: StateView, index: usize) -> int {
    if index < s.recorded_events.len() {
        index as int
    } else {
        s.recorded_events.len() as int
    }
}

// ---------------------------------------------------------------------------
// Live actions

/// The combined grid, replaced by a zero grid of the configured size when it
/// is smaller than that.
pub open spec fn sized_visits(s: StateView) -> Seq<Seq<u64>> {
    if s.visited_cells.len() < s.grid_size as nat {
        zero_grid(s.grid_size as nat)
    } else {
        s.visited_cells
    }
}

/// The per-scout grids, replaced by zero grids when there are fewer than
/// scouts.
pub open spec fn sized_scout_visits(s: StateView) -> Seq<Seq<Seq<u64>>> {
    if s.per_scout_visited_cells.len() < s.n_scouts as nat {
        zero_grids(s.n_scouts as nat, s.grid_size as nat)
    } else {
        s.per_scout_visited_cells
    }
}

/// A live move of one scout.
pub open spec fn live_move(s: StateView, index: usize, position: (i32, i32)) -> StateView {
    let (row, col) = position;
    let placed_state = StateView { scouts: placed(scouts_upto(s.scouts, index), index, position), ..s };
    let counted = if row >= 0 && col >= 0 {
        let grid = sized_visits(s);
        StateView {
            visited_cells: visit(grid, row, col),
            per_scout_visited_cells: visit_scout(s.per_scout_visited_cells, index, row, col),
            ..placed_state
        }
    } else {
        placed_state
    };
    if recording(counted) {
        record(counted, RecordedView::ScoutMove { scout_index: index, position })
    } else {
        counted
    }
}

/// A live batch of moves.
pub open spec fn live_batch(s: StateView, moves: Seq<(usize, (i32, i32))>) -> StateView {
    let sized = StateView {
        visited_cells: sized_visits(s),
        per_scout_visited_cells: sized_scout_visits(s),
        ..s
    };
    let done = moved_all(sized, moves, moves.len() as int);
    if recording(done) && moves.len() > 0 {
        record(done, RecordedView::BatchScoutMoves { moves })
    } else {
        done
    }
}

/// The state a new training run starts from.
pub open spec fn started(s: StateView, grid_size: i32, n_scouts: i32, episodes: i32) -> StateView {
    StateView {
        grid_size,
        n_scouts,
        total_episodes: episodes,
        scouts: Seq::new(n_scouts as nat, |i: int| fresh_scout(i)),
        visited_cells: zero_grid(grid_size as nat),
        per_scout_visited_cells: zero_grids(n_scouts as nat, grid_size as nat),
        policy: zero_policy(grid_size as nat),
        policy_received: false,
        current_episode: 0,
        success_rate: 0,
        average_steps: 0,
        history: empty_history(),
        error_message: None,
        training: true,
        paused: false,
        recorded_events: Seq::empty(),
        replay_mode: false,
        replay_playing: false,
        replay_index: 0,
        ..s
    }
}

/// The display reset to the beginning of the recording, entering replay.
pub open spec fn replay_entered(s: StateView) -> StateView {
    StateView {
        replay_mode: true,
        replay_index: 0,
        replay_playing: false,
        replay_speed: ONE_F64_BITS,
        visited_cells: zero_grid(s.grid_size as nat),
        per_scout_visited_cells: zero_grids(s.n_scouts as nat, s.grid_size as nat),
        policy: zero_policy(s.grid_size as nat),
        policy_received: false,
        scouts: scouts_at_start(s.scouts),
        current_episode: 0,
        success_rate: 0,
        ..s
    }
}

/// One replay step: the next recorded event is applied; playing stops at the
/// end of the recording.
pub open spec fn replay_stepped(s: StateView) -> StateView {
    if s.replay_index < s.recorded_events.len() {
        let t = applied(s, s.recorded_events[s.replay_index as int].1);
        let i = (s.replay_index + 1) as usize;
        StateView {
            replay_index: i,
            replay_playing: if i >= s.recorded_events.len() { false } else { t.replay_playing },
            ..t
        }
    } else {
        s
    }
}

/// A seek: the display is cleared and the recording is replayed up to the
/// requested position (at most its end).
pub open spec fn sought(s: StateView, index: usize) -> StateView {
    let target = seek_target(s, index);
    StateView {
        replay_index: target as usize,
        ..replayed(seek_base(s), s.recorded_events, target)
    }
}

/// What an action does to the state.
pub open spec fn reduced(s: StateView, a: ActionView) -> StateView {
    match a {
        ActionView::ScoutMove { scout_index, position } => live_move(s, scout_index, position),
        ActionView::BatchScoutMoves { moves, .. } => live_batch(s, moves),
        ActionView::EpisodeComplete { scout_index, reached_goal, total_reward } => {
            let t = completed(s, scout_index, reached_goal, total_reward);
            if recording(t) {
                record(t, RecordedView::EpisodeComplete { scout_index, reached_goal, total_reward })
            } else {
                t
            }
        },
        ActionView::TrainingUpdate {
            episode,
            total_episodes,
            success_rate,
            average_steps,
            episode_reward,
        } => {
            let t = StateView {
                current_episode: episode,
                total_episodes,
                success_rate,
                average_steps,
                history: HistoryView {
                    success_rates: s.history.success_rates.push(success_rate),
                    average_steps: s.history.average_steps.push(average_steps),
                    episode_rewards: s.history.episode_rewards.push(episode_reward),
                },
                ..s
            };
            if recording(t) {
                record(t, RecordedView::TrainingUpdate { episode, total_episodes, success_rate })
            } else {
                t
            }
        },
        ActionView::PolicyUpdate { policy } => {
            let t = if recording(s) {
                record(s, RecordedView::PolicyUpdate { policy })
            } else {
                s
            };
            StateView { policy, policy_received: true, ..t }
        },
        ActionView::TrainingComplete { final_success_rate } => StateView {
            training: false,
            success_rate: final_success_rate,
            ..s
        },
        ActionView::StartTraining { grid_size, n_scouts, episodes } => started(
            s,
            grid_size,
            n_scouts,
            episodes,
        ),
        ActionView::SetPaused(paused) => StateView { paused, ..s },
        ActionView::SetTraining(training) => StateView { training, ..s },
        ActionView::SetError(error_message) => StateView { error_message, ..s },
        ActionView::EnterReplayMode => if s.recorded_events.len() > 0 {
            replay_entered(s)
        } else {
            s
        },
        ActionView::ExitReplayMode => StateView { replay_mode: false, replay_playing: false, ..s },
        ActionView::ReplayPlay => StateView { replay_playing: true, ..s },
        ActionView::ReplayPause => StateView { replay_playing: false, ..s },
        ActionView::ReplayStep => replay_stepped(s),
        ActionView::ReplaySeek { index } => sought(s, index),
        ActionView::ReplaySetSpeed { speed } => StateView { replay_speed: clamped_speed(speed), ..s },
    }
}

/// The action can be carried out: the viewer would not fail on it (no grid
/// or scout count that is negative where grids are rebuilt, no scout index
/// without successor, no counter past `i32::MAX`).
pub open spec fn action_ok(s: StateView, a: ActionView) -> bool {
    match a {
        ActionView::ScoutMove { scout_index, position } => {
            &&& scout_index < usize::MAX
            &&& (position.0 >= 0 && position.1 >= 0) ==> s.grid_size >= 0
        },
        ActionView::BatchScoutMoves { moves, .. } => {
            &&& s.grid_size >= 0
            &&& s.n_scouts >= 0
            &&& indices_have_successors(moves)
        },
        ActionView::EpisodeComplete { scout_index, reached_goal, total_reward } => apply_ok(
            s,
            RecordedView::EpisodeComplete { scout_index, reached_goal, total_reward },
        ),
        ActionView::StartTraining { grid_size, n_scouts, .. } => grid_size >= 0 && n_scouts >= 0,
        ActionView::EnterReplayMode => s.recorded_events.len() > 0 ==> (s.grid_size >= 0
            && s.n_scouts >= 0),
        ActionView::ReplayStep => s.replay_index < s.recorded_events.len() ==> apply_ok(
            s,
            s.recorded_events[s.replay_index as int].1,
        ),
        ActionView::ReplaySeek { index } => {
            &&& s.grid_size >= 0
            &&& s.n_scouts >= 0
            &&& replay_ok(seek_base(s), s.recorded_events, seek_target(s, index))
        },
        _ => true,
    }
}

/// Scouts back at the start, everything else kept.
pub open spec fn scouts_at_start(scouts: Seq<ScoutView>) -> Seq<ScoutView> {
    Seq::new(scouts.len(), |i: int| ScoutView { position: (0, 0), ..scouts[i] })
}

/// Scouts back at the start with their totals cleared.
pub open spec fn scouts_cleared(scouts: Seq<ScoutView>) -> Seq<ScoutView> {
    Seq::new(
        scouts.len(),
        |i: int| ScoutView {
            position: (0, 0),
            rewards: Seq::empty(),
            episodes_completed: 0,
            successes: 0,
            ..scouts[i]
        },
    )
}

/// Applying an event changes neither the recording nor the replay controls
/// nor the configuration.
pub proof fn lemma_applied_keeps_controls(s: StateView, e: RecordedView)
    ensures
        ({
            let t = applied(s, e);
            &&& t.recorded_events == s.recorded_events
            &&& t.replay_mode == s.replay_mode
            &&& t.replay_index == s.replay_index
            &&& t.replay_playing == s.replay_playing
            &&& t.replay_speed == s.replay_speed
            &&& t.training == s.training
            &&& t.paused == s.paused
            &&& t.connected == s.connected
            &&& t.grid_size == s.grid_size
            &&& t.n_scouts == s.n_scouts
        }),
{
    match e {
        RecordedView::BatchScoutMoves { moves } => {
            lemma_moves_keep_controls(s, moves, moves.len() as int);
        },
        _ => {},
    }
}

/// A replay changes neither the recording nor the replay controls nor the
/// configuration.
pub proof fn lemma_replay_keeps_controls(s: StateView, events: Seq<(usize, RecordedView)>, k: int)
    ensures
        ({
            let t = replayed(s, events, k);
            &&& t.recorded_events == s.recorded_events
            &&& t.replay_mode == s.replay_mode
            &&& t.replay_index == s.replay_index
            &&& t.replay_playing == s.replay_playing
            &&& t.replay_speed == s.replay_speed
            &&& t.training == s.training
            &&& t.paused == s.paused
            &&& t.connected == s.connected
            &&& t.grid_size == s.grid_size
            &&& t.n_scouts == s.n_scouts
        }),
    decreases k,
{
    if k > 0 {
        lemma_replay_keeps_controls(s, events, k - 1);
        lemma_applied_keeps_controls(replayed(s, events, k - 1), events[k - 1].1);
    }
}

/// Moves change neither the recording nor the controls nor the configuration.
pub proof fn lemma_moves_keep_controls(s: StateView, moves: Seq<(usize, (i32, i32))>, k: int)
    ensures
        ({
            let t = moved_all(s, moves, k);
            &&& t.recorded_events == s.recorded_events
            &&& t.replay_mode == s.replay_mode
            &&& t.replay_index == s.replay_index
            &&& t.replay_playing == s.replay_playing
            &&& t.replay_speed == s.replay_speed
            &&& t.training == s.training
            &&& t.paused == s.paused
            &&& t.connected == s.connected
            &&& t.grid_size == s.grid_size
            &&& t.n_scouts == s.n_scouts
        }),
    decreases k,
{
    if k > 0 {
        lemma_moves_keep_controls(s, moves, k - 1);
    }
}

// ---------------------------------------------------------------------------
// Construction

/// A fresh display for a `grid_size` grid and `n_scouts` scouts: empty grids
/// and policy of that size, no scouts yet, nothing recorded, every flag off
/// and every number zero.
pub open spec fn initial_state(grid_size: i32, n_scouts: i32) -> StateView {
    StateView {
        connected: false,
        training: false,
        paused: false,
        grid_size,
        n_scouts,
        scouts: Seq::empty(),
        policy: zero_policy(grid_size as nat),
        policy_received: false,
        visited_cells: zero_grid(grid_size as nat),
        per_scout_visited_cells: zero_grids(n_scouts as nat, grid_size as nat),
        current_episode: 0,
        total_episodes: 0,
        success_rate: 0,
        average_steps: 0,
        history: empty_history(),
        error_message: None,
        recorded_events: Seq::empty(),
        replay_mode: false,
        replay_index: 0,
        replay_playing: false,
        replay_speed: 0,
    }
}

/// A scout as a training reset creates it: at the start, with an empty name.
pub open spec fn unnamed_scout(index: int) -> ScoutView {
    ScoutView {
        id: Seq::empty(),
        index: index as usize,
        position: (0, 0),
        rewards: Seq::empty(),
        episodes_completed: 0,
        successes: 0,
    }
}

/// The display prepared for a new training run of `n_scouts` scouts on the
/// current grid.
pub open spec fn reset_for_training_spec(s: StateView, n_scouts: i32) -> StateView {
    StateView {
        n_scouts,
        scouts: Seq::new(n_scouts as nat, |i: int| unnamed_scout(i)),
        visited_cells: zero_grid(s.grid_size as nat),
        per_scout_visited_cells: zero_grids(n_scouts as nat, s.grid_size as nat),
        policy: zero_policy(s.grid_size as nat),
        current_episode: 0,
        success_rate: 0,
        average_steps: 0,
        history: empty_history(),
        error_message: None,
        training: true,
        paused: false,
        ..s
    }
}

} // verus!
