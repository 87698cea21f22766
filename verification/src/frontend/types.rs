//! Types the viewer exchanges with the server and keeps for display.
//!
//! Floating-point quantities (rewards, rates, averages, speeds) are carried as
//! the bit patterns of their `f64` values; the viewer never computes with them
//! here, it stores and forwards them.
use vstd::prelude::*;

verus! {

/// The configuration the viewer sends to start training.
#[derive(Clone, Copy, Debug, PartialEq, Eq)]
pub struct TrainingConfig {
    pub n_scouts: i32,
    pub grid_size: i32,
    pub episodes: i32,
    pub steps_per_episode: i32,
    pub with_obstacles: bool,
    /// Left out of the message when absent.
    pub seed: Option<i32>,
}

impl Default for TrainingConfig {
    /// All counts zero, no obstacles, no seed.
    fn default() -> (config: Self)
        ensures
            config == (TrainingConfig {
                n_scouts: 0,
                grid_size: 0,
                episodes: 0,
                steps_per_episode: 0,
                with_obstacles: false,
                seed: None,
            }),
    {
        TrainingConfig {
            n_scouts: 0,
            grid_size: 0,
            episodes: 0,
            steps_per_episode: 0,
            with_obstacles: false,
            seed: None,
        }
    }
}

/// Commands from the viewer to the server.
#[derive(Clone, Copy, Debug, PartialEq, Eq)]
pub enum ClientCommand {
    Start { config: TrainingConfig },
    Pause,
    Resume,
    /// The requested speed factor (bit pattern of an `f64`).
    SetSpeed { speed: u64 },
    Stop,
}

/// The learned greedy action per cell.
#[derive(Clone, Debug)]
pub struct PolicyUpdateEvent {
    pub policy: Vec<Vec<i32>>,
}

/// An error the server reports.
#[derive(Clone, Debug)]
pub struct ErrorEvent {
    pub message: String,
}

/// Per-episode series shown in the learning chart (bit patterns of `f64`s).
#[derive(Clone, Debug)]
pub struct TrainingHistory {
    pub episode_rewards: Vec<u64>,
    pub success_rates: Vec<u64>,
    pub average_steps: Vec<u64>,
}

/// What the viewer shows of one scout.
#[derive(Debug)]
pub struct ScoutInfo {
    pub id: String,
    pub index: usize,
    pub position: (i32, i32),
    /// The episode rewards added to this scout since its total was last
    /// cleared, in order (bit patterns of `f64`s). The scout's total reward is
    /// `0.0` plus these, added left to right.
    pub rewards: Vec<u64>,
    pub episodes_completed: i32,
    pub successes: i32,
}

/// A recorded event, kept for replay.
#[derive(Debug)]
pub enum RecordedEventType {
    ScoutMove { scout_index: usize, position: (i32, i32) },
    /// `(scout_index, position)` of every move of one step.
    BatchScoutMoves { moves: Vec<(usize, (i32, i32))> },
    EpisodeComplete { scout_index: usize, reached_goal: bool, total_reward: u64 },
    TrainingUpdate { episode: i32, total_episodes: i32, success_rate: u64 },
    PolicyUpdate { policy: Vec<Vec<i32>> },
}

/// A recorded event with its position in the recording.
#[derive(Debug)]
pub struct RecordedEvent {
    pub index: usize,
    pub event: RecordedEventType,
}

/// A copy of a sequence of plain values.
pub fn copy_values<T: Copy>(v: &Vec<T>) -> (copy: Vec<T>)
    ensures
        copy@ == v@,
{
    let mut out: Vec<T> = Vec::new();
    let mut i: usize = 0;
    while i < v.len()
        invariant
            0 <= i <= v@.len(),
            out@ == v@.take(i as int),
        decreases v@.len() - i,
    {
        out.push(v[i]);
        i = i + 1;
        proof {
            assert(out@ =~= v@.take(i as int));
        }
    }
    assert(v@.take(v@.len() as int) =~= v@);
    out
}

/// A copy of a grid of actions.
pub fn copy_grid(g: &Vec<Vec<i32>>) -> (copy: Vec<Vec<i32>>)
    ensures
        copy.deep_view() == g.deep_view(),
{
    let mut out: Vec<Vec<i32>> = Vec::new();
    let mut i: usize = 0;
    while i < g.len()
        invariant
            0 <= i <= g@.len(),
            out@.len() == i,
            forall|j: int| 0 <= j < i ==> #[trigger] out@[j]@ == g@[j]@,
        decreases g@.len() - i,
    {
        let row = copy_values(&g[i]);
        out.push(row);
        i = i + 1;
    }
    assert(out.deep_view() =~= g.deep_view()) by {
        assert forall|j: int| 0 <= j < g@.len() implies #[trigger] out.deep_view()[j] == g.deep_view()[j] by {
            assert(out@[j]@ == g@[j]@);
            assert(out.deep_view()[j] =~= out@[j]@);
            assert(g.deep_view()[j] =~= g@[j]@);
        }
    }
    out
}

impl Clone for ScoutInfo {
    /// An equal copy.
    fn clone(&self) -> (copy: Self)
        ensures
            copy.deep_view() == self.deep_view(),
    {
        ScoutInfo {
            id: self.id.clone(),
            index: self.index,
            position: self.position,
            rewards: copy_values(&self.rewards),
            episodes_completed: self.episodes_completed,
            successes: self.successes,
        }
    }
}

impl Clone for RecordedEventType {
    /// An equal copy.
    fn clone(&self) -> (copy: Self)
        ensures
            copy.deep_view() == self.deep_view(),
    {
        match self {
            RecordedEventType::ScoutMove { scout_index, position } => RecordedEventType::ScoutMove {
                scout_index: *scout_index,
                position: *position,
            },
            RecordedEventType::BatchScoutMoves { moves } => RecordedEventType::BatchScoutMoves {
                moves: copy_values(moves),
            },
            RecordedEventType::EpisodeComplete { scout_index, reached_goal, total_reward } =>
                RecordedEventType::EpisodeComplete {
                scout_index: *scout_index,
                reached_goal: *reached_goal,
                total_reward: *total_reward,
            },
            RecordedEventType::TrainingUpdate { episode, total_episodes, success_rate } =>
                RecordedEventType::TrainingUpdate {
                episode: *episode,
                total_episodes: *total_episodes,
                success_rate: *success_rate,
            },
            RecordedEventType::PolicyUpdate { policy } => RecordedEventType::PolicyUpdate {
                policy: copy_grid(policy),
            },
        }
    }
}

impl Clone for RecordedEvent {
    /// An equal copy.
    fn clone(&self) -> (copy: Self)
        ensures
            copy.deep_view() == self.deep_view(),
    {
        RecordedEvent { index: self.index, event: self.event.clone() }
    }
}

} // verus!
