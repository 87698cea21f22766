use many_eyes::frontend::state::{clamp_replay_speed, command_action, Action, AppState};
use many_eyes::frontend::types::{ClientCommand, RecordedEventType, TrainingConfig};

fn f(x: f64) -> u64 {
    x.to_bits()
}

fn live(grid: i32, scouts: i32) -> AppState {
    let mut s = AppState::new_with_scouts(grid, scouts);
    assert!(s.reduce(Action::StartTraining { grid_size: grid, n_scouts: scouts, episodes: 10 }));
    s
}

#[test]
fn new_state_has_empty_grids() {
    let s = AppState::new(5);
    assert_eq!(s.grid_size, 5);
    assert_eq!(s.n_scouts, 5);
    assert_eq!(s.visited_cells, vec![vec![0u64; 5]; 5]);
    assert_eq!(s.per_scout_visited_cells.len(), 5);
    assert_eq!(s.policy, vec![vec![0; 5]; 5]);
    assert!(s.scouts.is_empty());
    assert!(!s.training && !s.replay_mode);
    assert_eq!(s.replay_speed, 0);
}

#[test]
fn start_training_prepares_scouts_and_clears_recording() {
    let mut s = live(3, 2);
    assert!(s.reduce(Action::ScoutMove { scout_index: 0, position: (0, 1) }));
    assert_eq!(s.recorded_events.len(), 1);
    assert!(s.reduce(Action::StartTraining { grid_size: 4, n_scouts: 3, episodes: 7 }));
    assert_eq!(s.scouts.len(), 3);
    assert_eq!(s.scouts[2].id, "scout_2");
    assert_eq!(s.scouts[2].index, 2);
    assert_eq!(s.visited_cells, vec![vec![0u64; 4]; 4]);
    assert_eq!(s.per_scout_visited_cells.len(), 3);
    assert_eq!(s.total_episodes, 7);
    assert!(s.training && !s.paused);
    assert!(s.recorded_events.is_empty());
    // A negative grid size is refused.
    assert!(!s.reduce(Action::StartTraining { grid_size: -1, n_scouts: 3, episodes: 7 }));
}

#[test]
fn scout_move_counts_visits_and_records() {
    let mut s = live(3, 2);
    assert!(s.reduce(Action::ScoutMove { scout_index: 1, position: (1, 2) }));
    assert_eq!(s.scouts[1].position, (1, 2));
    assert_eq!(s.visited_cells[1][2], 1);
    assert_eq!(s.per_scout_visited_cells[1][1][2], 1);
    assert_eq!(s.per_scout_visited_cells[0][1][2], 0);
    assert_eq!(s.recorded_events.len(), 1);
    assert_eq!(s.recorded_events[0].index, 0);
    // A move off the grid places the scout but counts nothing.
    assert!(s.reduce(Action::ScoutMove { scout_index: 0, position: (-1, 0) }));
    assert_eq!(s.scouts[0].position, (-1, 0));
    assert_eq!(s.visited_cells.iter().flatten().sum::<u64>(), 1);
    // An unknown scout is added, with the scouts before it.
    assert!(s.reduce(Action::ScoutMove { scout_index: 4, position: (0, 0) }));
    assert_eq!(s.scouts.len(), 5);
    assert_eq!(s.scouts[3].id, "scout_3");
    assert_eq!(s.scouts[4].position, (0, 0));
    assert_eq!(s.recorded_events.len(), 3);
    assert_eq!(s.recorded_events[2].index, 2);
}

#[test]
fn batch_moves_are_recorded_once() {
    let mut s = live(3, 2);
    let moves = vec![(0usize, (0, 1)), (1usize, (1, 0)), (0usize, (0, 2))];
    assert!(s.reduce(Action::BatchScoutMoves { moves, step: 1 }));
    assert_eq!(s.scouts[0].position, (0, 2));
    assert_eq!(s.scouts[1].position, (1, 0));
    assert_eq!(s.visited_cells[0][1], 1);
    assert_eq!(s.per_scout_visited_cells[0][0][2], 1);
    assert_eq!(s.recorded_events.len(), 1);
    match &s.recorded_events[0].event {
        RecordedEventType::BatchScoutMoves { moves } => assert_eq!(moves.len(), 3),
        other => panic!("unexpected {:?}", other),
    }
    // An empty batch records nothing.
    assert!(s.reduce(Action::BatchScoutMoves { moves: vec![], step: 2 }));
    assert_eq!(s.recorded_events.len(), 1);
}

#[test]
fn episode_completion_updates_scout() {
    let mut s = live(3, 2);
    assert!(s.reduce(Action::ScoutMove { scout_index: 0, position: (2, 2) }));
    assert!(s.reduce(Action::EpisodeComplete { scout_index: 0, reached_goal: true, total_reward: f(0.98) }));
    assert_eq!(s.scouts[0].position, (0, 0));
    assert_eq!(s.scouts[0].episodes_completed, 1);
    assert_eq!(s.scouts[0].successes, 1);
    assert_eq!(s.scouts[0].rewards, vec![f(0.98)]);
    assert!(s.reduce(Action::EpisodeComplete { scout_index: 0, reached_goal: false, total_reward: f(-1.0) }));
    assert_eq!(s.scouts[0].successes, 1);
    assert_eq!(s.scouts[0].episodes_completed, 2);
    // An unknown scout is ignored (but the event is still recorded).
    assert!(s.reduce(Action::EpisodeComplete { scout_index: 9, reached_goal: true, total_reward: f(1.0) }));
    assert_eq!(s.scouts.len(), 2);
    assert_eq!(s.recorded_events.len(), 4);
}

#[test]
fn training_update_and_completion() {
    let mut s = live(3, 2);
    assert!(s.reduce(Action::TrainingUpdate {
        episode: 1,
        total_episodes: 10,
        success_rate: f(0.5),
        average_steps: f(12.0),
        episode_reward: f(0.3),
    }));
    assert_eq!(s.current_episode, 1);
    assert_eq!(s.history.success_rates, vec![f(0.5)]);
    assert_eq!(s.history.average_steps, vec![f(12.0)]);
    assert_eq!(s.history.episode_rewards, vec![f(0.3)]);
    assert!(s.reduce(Action::PolicyUpdate { policy: vec![vec![1, 2, 3]; 3] }));
    assert!(s.policy_received);
    assert_eq!(s.policy[0], vec![1, 2, 3]);
    assert_eq!(s.recorded_events.len(), 2);
    assert!(s.reduce(Action::TrainingComplete { final_success_rate: f(0.75) }));
    assert!(!s.training);
    assert_eq!(s.success_rate, f(0.75));
    // Not training: live events are no longer recorded.
    assert!(s.reduce(Action::ScoutMove { scout_index: 0, position: (0, 1) }));
    assert_eq!(s.recorded_events.len(), 2);
}

#[test]
fn replay_steps_and_seeks() {
    let mut s = live(3, 1);
    assert!(s.reduce(Action::ScoutMove { scout_index: 0, position: (0, 1) }));
    assert!(s.reduce(Action::ScoutMove { scout_index: 0, position: (1, 1) }));
    assert!(s.reduce(Action::EpisodeComplete { scout_index: 0, reached_goal: false, total_reward: f(-0.02) }));
    assert!(s.reduce(Action::TrainingUpdate {
        episode: 1,
        total_episodes: 10,
        success_rate: f(0.0),
        average_steps: f(2.0),
        episode_reward: f(-0.02),
    }));
    assert_eq!(s.recorded_events.len(), 4);
    // Entering replay resets the display but keeps totals.
    assert!(s.reduce(Action::EnterReplayMode));
    assert!(s.replay_mode && !s.replay_playing);
    assert_eq!(s.replay_index, 0);
    assert_eq!(s.replay_speed, f(1.0));
    assert_eq!(s.visited_cells[0][1], 0);
    assert_eq!(s.scouts[0].episodes_completed, 1);
    // Stepping applies the recorded events in order; replay records nothing.
    assert!(s.reduce(Action::ReplayPlay));
    assert!(s.reduce(Action::ReplayStep));
    assert_eq!(s.scouts[0].position, (0, 1));
    assert_eq!(s.visited_cells[0][1], 1);
    assert_eq!(s.replay_index, 1);
    assert_eq!(s.recorded_events.len(), 4);
    // Seeking to 3 clears and replays the first three events.
    assert!(s.reduce(Action::ReplaySeek { index: 3 }));
    assert_eq!(s.replay_index, 3);
    assert_eq!(s.scouts[0].position, (0, 0));
    assert_eq!(s.scouts[0].episodes_completed, 1);
    assert_eq!(s.scouts[0].rewards, vec![f(-0.02)]);
    assert_eq!(s.visited_cells[1][1], 1);
    assert!(s.history.success_rates.is_empty());
    // The last step reaches the end and stops playing.
    assert!(s.replay_playing);
    assert!(s.reduce(Action::ReplayStep));
    assert_eq!(s.replay_index, 4);
    assert!(!s.replay_playing);
    assert_eq!(s.current_episode, 1);
    assert_eq!(s.history.success_rates, vec![f(0.0)]);
    // Past the end, a step does nothing; a seek past the end stops at it.
    assert!(s.reduce(Action::ReplayStep));
    assert_eq!(s.replay_index, 4);
    assert!(s.reduce(Action::ReplaySeek { index: 99 }));
    assert_eq!(s.replay_index, 4);
    assert!(s.reduce(Action::ReplaySetSpeed { speed: f(2.5) }));
    assert_eq!(s.replay_speed, f(2.5));
    assert!(s.reduce(Action::ReplaySetSpeed { speed: f(50.0) }));
    assert_eq!(s.replay_speed, f(10.0));
    assert!(s.reduce(Action::ReplaySetSpeed { speed: f(0.01) }));
    assert_eq!(s.replay_speed, f(0.1));
    assert!(s.reduce(Action::ExitReplayMode));
    assert!(!s.replay_mode && !s.replay_playing);
}

#[test]
fn stepping_from_a_seek_equals_seeking_one_further() {
    let mut base = live(3, 2);
    assert!(base.reduce(Action::BatchScoutMoves { moves: vec![(0, (0, 1)), (1, (1, 0))], step: 1 }));
    assert!(base.reduce(Action::BatchScoutMoves { moves: vec![(0, (0, 2)), (1, (2, 0))], step: 2 }));
    assert!(base.reduce(Action::EpisodeComplete { scout_index: 1, reached_goal: false, total_reward: f(-0.02) }));
    assert!(base.reduce(Action::EnterReplayMode));
    let mut a = base.clone();
    let mut b = base.clone();
    assert!(a.reduce(Action::ReplaySeek { index: 1 }));
    assert!(a.reduce(Action::ReplayStep));
    assert!(b.reduce(Action::ReplaySeek { index: 2 }));
    assert_eq!(a.replay_index, b.replay_index);
    assert_eq!(a.visited_cells, b.visited_cells);
    assert_eq!(a.per_scout_visited_cells, b.per_scout_visited_cells);
    assert_eq!(a.scouts[1].position, b.scouts[1].position);
}

#[test]
fn enter_replay_needs_a_recording() {
    let mut s = AppState::new(3);
    assert!(s.reduce(Action::EnterReplayMode));
    assert!(!s.replay_mode);
}

#[test]
fn flags_and_errors() {
    let mut s = AppState::new(3);
    assert!(s.reduce(Action::SetPaused(true)));
    assert!(s.paused);
    assert!(s.reduce(Action::SetTraining(true)));
    assert!(s.training);
    assert!(s.reduce(Action::SetError(Some("boom".to_string()))));
    assert_eq!(s.error_message.as_deref(), Some("boom"));
    assert!(s.reduce(Action::SetError(None)));
    assert!(s.error_message.is_none());
}

#[test]
fn failures_are_reported() {
    let mut s = live(3, 1);
    assert!(!s.clone().reduce(Action::ScoutMove { scout_index: usize::MAX, position: (0, 0) }));
    s.scouts[0].episodes_completed = i32::MAX;
    assert!(!s.clone().reduce(Action::EpisodeComplete { scout_index: 0, reached_goal: false, total_reward: 0 }));
    s.grid_size = -2;
    assert!(!s.clone().reduce(Action::BatchScoutMoves { moves: vec![], step: 0 }));
    // A move off the grid needs no grid.
    assert!(s.clone().reduce(Action::ScoutMove { scout_index: 0, position: (-1, 0) }));
}

#[test]
fn reset_for_training_leaves_names_empty() {
    let mut s = AppState::new(4);
    s.reset_for_training(2);
    assert_eq!(s.scouts.len(), 2);
    assert_eq!(s.scouts[1].index, 1);
    assert_eq!(s.scouts[1].id, "");
    assert_eq!(s.n_scouts, 2);
    assert!(s.training);
    assert_eq!(s.per_scout_visited_cells.len(), 2);
}

#[test]
fn commands_drive_the_viewer() {
    let config = TrainingConfig { n_scouts: 3, grid_size: 6, episodes: 40, ..TrainingConfig::default() };
    match command_action(&ClientCommand::Start { config }) {
        Some(Action::StartTraining { grid_size, n_scouts, episodes }) => {
            assert_eq!((grid_size, n_scouts, episodes), (6, 3, 40));
        }
        other => panic!("unexpected {:?}", other),
    }
    assert!(matches!(command_action(&ClientCommand::Pause), Some(Action::SetPaused(true))));
    assert!(matches!(command_action(&ClientCommand::Resume), Some(Action::SetPaused(false))));
    assert!(matches!(command_action(&ClientCommand::Stop), Some(Action::SetTraining(false))));
    assert!(command_action(&ClientCommand::SetSpeed { speed: f(3.0) }).is_none());
}

#[test]
fn replay_speed_is_clamped_like_f64_clamp() {
    let samples = [
        0.0, -0.0, 0.05, 0.1, 0.100000001, 1.0, 2.5, 9.99, 10.0, 10.5, 1e300, -3.0, -1e-300, 1e-310,
        f64::INFINITY, f64::NEG_INFINITY, f64::MIN_POSITIVE,
    ];
    for x in samples {
        assert_eq!(clamp_replay_speed(x.to_bits()), x.clamp(0.1, 10.0).to_bits(), "{}", x);
    }
    assert!(f64::from_bits(clamp_replay_speed(f64::NAN.to_bits())).is_nan());
    assert!(f64::from_bits(clamp_replay_speed((-f64::NAN).to_bits())).is_nan());
}

#[test]
fn seeking_twice_equals_seeking_once() {
    let mut base = live(3, 2);
    assert!(base.reduce(Action::BatchScoutMoves { moves: vec![(0, (0, 1)), (1, (1, 0))], step: 1 }));
    assert!(base.reduce(Action::EpisodeComplete { scout_index: 0, reached_goal: true, total_reward: f(0.99) }));
    assert!(base.reduce(Action::TrainingUpdate {
        episode: 1,
        total_episodes: 10,
        success_rate: f(0.5),
        average_steps: f(2.0),
        episode_reward: f(0.5),
    }));
    assert!(base.reduce(Action::ScoutMove { scout_index: 1, position: (2, 0) }));
    assert!(base.reduce(Action::EnterReplayMode));
    for index in 0..6 {
        let mut once = base.clone();
        assert!(once.reduce(Action::ReplaySeek { index }));
        let mut twice = once.clone();
        assert!(twice.reduce(Action::ReplaySeek { index }));
        assert_eq!(format!("{:?}", once), format!("{:?}", twice));
        assert_eq!(once.replay_index, index.min(4));
    }
}

#[test]
fn seeking_twice_differs_when_a_completion_precedes_its_scout() {
    let mut base = live(3, 0);
    assert!(base.reduce(Action::EpisodeComplete { scout_index: 1, reached_goal: false, total_reward: f(-0.01) }));
    assert!(base.reduce(Action::ScoutMove { scout_index: 1, position: (0, 1) }));
    assert!(base.reduce(Action::EnterReplayMode));
    // A display whose scout list no longer holds the recorded scouts.
    base.scouts.clear();
    let mut once = base.clone();
    assert!(once.reduce(Action::ReplaySeek { index: 2 }));
    assert_eq!(once.scouts[1].episodes_completed, 0);
    let mut twice = once.clone();
    assert!(twice.reduce(Action::ReplaySeek { index: 2 }));
    assert_eq!(twice.scouts[1].episodes_completed, 1);
}
