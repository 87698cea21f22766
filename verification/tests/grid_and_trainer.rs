use many_eyes::backend::events::{ExplorationMode, TrainingConfig};
use many_eyes::backend::grid_world::GridWorld;
use many_eyes::backend::learner::{q_cells, QCells};
use many_eyes::backend::trainer::{explores_at_random, StepWork, StreamingTrainer, TrainerEvent, TrainerPhase};
use many_eyes::naming::{push_decimal, scout_id};

/// The scout, position and step of an event that must be a position update.
fn report_of(e: Option<TrainerEvent>) -> (usize, (i32, i32), i32) {
    match e {
        Some(TrainerEvent::ScoutMove { scout_move, step }) => (scout_move.scout_index, scout_move.position, step),
        other => panic!("expected a position update, got {:?}", other),
    }
}

/// Takes the next pending event, which must be a position update.
fn next_report(t: &mut StreamingTrainer) -> (usize, (i32, i32), i32) {
    report_of(t.pop_pending())
}

fn config(n_scouts: i32, grid_size: i32, episodes: i32, steps: i32) -> TrainingConfig {
    TrainingConfig {
        n_scouts,
        grid_size,
        episodes,
        steps_per_episode: steps,
        with_obstacles: false,
        seed: Some(7),
        exploration_mode: ExplorationMode::DiversePaths,
    }
}

#[test]
fn scout_names_are_decimal() {
    assert_eq!(scout_id(0), "scout_0");
    assert_eq!(scout_id(7), "scout_7");
    assert_eq!(scout_id(42), "scout_42");
    assert_eq!(scout_id(1000), "scout_1000");
    let mut s = String::from("n=");
    push_decimal(&mut s, 905);
    assert_eq!(s, "n=905");
}

#[test]
fn default_config_matches_documented_values() {
    let c = TrainingConfig::default();
    assert_eq!(c.n_scouts, 5);
    assert_eq!(c.grid_size, 5);
    assert_eq!(c.episodes, 100);
    assert_eq!(c.steps_per_episode, 100);
    assert!(!c.with_obstacles);
    assert_eq!(c.seed, None);
    assert_eq!(c.exploration_mode, ExplorationMode::SharedPolicy);
    assert_eq!(ExplorationMode::default(), ExplorationMode::SharedPolicy);
    assert_eq!(c.seed_or_default(), 42);
    assert_eq!(config(1, 5, 1, 1).seed_or_default(), 7);
}

#[test]
fn grid_world_moves_and_walls() {
    let mut w = GridWorld::new(3, 10);
    assert_eq!(w.goal, (2, 2));
    assert_eq!(w.position, (0, 0));
    // Up and left at the start corner hit the walls.
    let o = w.step(0);
    assert_eq!(o.position, (0, 0));
    let o = w.step(3);
    assert_eq!(o.position, (0, 0));
    // Right, right, right: the last one hits the wall.
    assert_eq!(w.step(1).position, (0, 1));
    assert_eq!(w.step(1).position, (0, 2));
    assert_eq!(w.step(1).position, (0, 2));
    // An unknown action stays put.
    assert_eq!(w.step(9).position, (0, 2));
    assert_eq!(w.steps, 6);
    // Down twice reaches the goal.
    let o = w.step(2);
    assert_eq!(o.position, (1, 2));
    assert!(!o.reached_goal && !o.done);
    let o = w.step(2);
    assert_eq!(o.position, (2, 2));
    assert!(o.reached_goal && o.done);
    assert_eq!(w.reset(), (0, 0));
    assert_eq!(w.steps, 0);
}

#[test]
fn grid_world_step_budget_ends_episode() {
    let mut w = GridWorld::new(5, 2);
    let o = w.step(1);
    assert!(!o.done);
    let o = w.step(1);
    assert!(o.done);
    assert!(!o.reached_goal);
}

#[test]
fn trainer_runs_an_episode_and_reports_it() {
    // Two scouts on a 2x2 grid, one episode of at most 3 steps.
    let mut t = StreamingTrainer::new(config(2, 2, 1, 3));
    assert!(t.pop_pending().is_none());
    assert_eq!(t.awaiting_positions(), vec![Some((0, 0)), Some((0, 0))]);
    assert!(t.episode_steps_fit());
    // Scout 0 goes right, scout 1 goes down.
    let (event, moves) = t.explore_step(&vec![1, 2]);
    assert_eq!(moves.len(), 2);
    assert_eq!(moves[0].scout_index, 0);
    assert_eq!(moves[0].from, (0, 0));
    assert_eq!(moves[0].position, (0, 1));
    assert_eq!(moves[1].position, (1, 0));
    assert!(!moves[0].done && !moves[1].done);
    // Each move's position update is reported once, in scout order.
    assert_eq!(report_of(event), (0, (0, 1), 1));
    assert_eq!(t.step_work(), StepWork::Pending);
    assert_eq!(next_report(&mut t), (1, (1, 0), 1));
    assert!(t.pop_pending().is_none());
    assert_eq!(t.step_work(), StepWork::Explore);
    assert_eq!(t.awaiting_positions(), vec![Some((0, 1)), Some((1, 0))]);
    // Scout 0 goes down to the goal; scout 1 goes up.
    let (event, moves) = t.explore_step(&vec![2, 0]);
    assert!(moves[0].reached_goal && moves[0].done);
    assert_eq!(moves[1].position, (0, 0));
    assert_eq!(report_of(event), (0, (1, 1), 2));
    assert_eq!(next_report(&mut t), (1, (0, 0), 2));
    // Only scout 1 is still exploring; its third move spends the budget.
    assert_eq!(t.awaiting_positions(), vec![None, Some((0, 0))]);
    let (event, moves) = t.explore_step(&vec![0, 3]);
    assert_eq!(moves.len(), 1);
    assert_eq!(moves[0].scout_index, 1);
    assert!(moves[0].done && !moves[0].reached_goal);
    assert_eq!(report_of(event), (1, (0, 0), 3));
    assert!(matches!(t.phase, TrainerPhase::EpisodeDone { .. }));
    // The completions are queued by scout index, after the position updates.
    match t.pop_pending() {
        Some(TrainerEvent::EpisodeComplete { scout_index, reached_goal, steps }) => {
            assert_eq!((scout_index, reached_goal, steps), (0, true, 2));
        }
        other => panic!("unexpected {:?}", other),
    }
    match t.pop_pending() {
        Some(TrainerEvent::EpisodeComplete { scout_index, reached_goal, steps }) => {
            assert_eq!((scout_index, reached_goal, steps), (1, false, 3));
        }
        other => panic!("unexpected {:?}", other),
    }
    assert!(t.pop_pending().is_none());
    assert_eq!(t.step_work(), StepWork::FinishEpisode);
    let (event, refresh) = t.finish_episode();
    assert!(!refresh);
    match event {
        TrainerEvent::TrainingUpdate { episode, total_episodes, summary } => {
            assert_eq!(episode, 1);
            assert_eq!(total_episodes, 1);
            assert_eq!(summary.successes, 1);
            assert_eq!(summary.total_steps, 5);
            assert_eq!(summary.outcomes.len(), 2);
        }
        other => panic!("unexpected {:?}", other),
    }
    assert_eq!(t.current_episode, 1);
    assert_eq!(t.history.len(), 1);
    assert!(matches!(t.phase, TrainerPhase::Finished));
    assert_eq!(t.step_work(), StepWork::Complete);
}

#[test]
fn trainer_publishes_policy_every_fifth_episode() {
    // One scout, a 1x1 grid: every move is on the goal.
    let mut t = StreamingTrainer::new(config(1, 1, 6, 10));
    for episode in 1..=6 {
        let (e, _) = t.explore_step(&vec![0]);
        assert_eq!(report_of(e), (0, (0, 0), 1));
        assert!(matches!(t.pop_pending(), Some(TrainerEvent::EpisodeComplete { reached_goal: true, steps: 1, .. })));
        let (_, refresh) = t.finish_episode();
        assert_eq!(refresh, episode % 5 == 0);
        if refresh {
            t.queue_policy_update(vec![vec![2]]);
            assert!(matches!(t.pop_pending(), Some(TrainerEvent::PolicyUpdate { .. })));
        }
        assert_eq!(t.current_episode, episode);
    }
    assert!(matches!(t.phase, TrainerPhase::Finished));
    assert_eq!(t.history.len(), 6);
}

#[test]
fn trainer_without_scouts_has_nothing_to_report() {
    let mut t = StreamingTrainer::new(config(0, 5, 3, 10));
    assert!(t.awaiting_positions().is_empty());
    let (e, moves) = t.explore_step(&vec![]);
    assert!(e.is_none() && moves.is_empty());
    assert!(matches!(t.phase, TrainerPhase::EpisodeDone { .. }));
}

#[test]
fn trainer_pause_and_resume() {
    let mut t = StreamingTrainer::new(config(1, 3, 1, 5));
    assert!(!t.paused);
    assert_eq!(t.step_work(), StepWork::Explore);
    t.pause();
    assert!(t.paused);
    assert_eq!(t.step_work(), StepWork::Wait);
    t.resume();
    assert!(!t.paused);
    assert_eq!(t.step_work(), StepWork::Explore);
}

#[test]
fn pending_events_come_before_waiting() {
    let mut t = StreamingTrainer::new(config(2, 3, 1, 5));
    let (e, _) = t.explore_step(&vec![1, 2]);
    assert_eq!(report_of(e), (0, (0, 1), 1));
    t.pause();
    // The other position update is still reported while paused.
    assert_eq!(t.step_work(), StepWork::Pending);
    assert_eq!(next_report(&mut t), (1, (1, 0), 1));
    assert_eq!(t.step_work(), StepWork::Wait);
}

#[test]
fn only_scout_zero_explores_at_random() {
    assert!(explores_at_random(0));
    assert!(!explores_at_random(1));
    assert!(!explores_at_random(4));
}

#[test]
fn q_update_cells_on_the_table() {
    assert_eq!(
        q_cells(5, (1, 2), 1, (1, 3)),
        Some(QCells { row: 1, col: 2, next_row: 1, next_col: 3, action: 1 })
    );
    // Actions past the last, and negative ones, use the last column.
    assert_eq!(q_cells(5, (0, 0), 7, (0, 0)).map(|c| c.action), Some(3));
    assert_eq!(q_cells(5, (0, 0), -1, (0, 0)).map(|c| c.action), Some(3));
    assert_eq!(q_cells(5, (0, 0), 3, (0, 0)).map(|c| c.action), Some(3));
}

#[test]
fn q_update_off_the_table_is_skipped() {
    assert_eq!(q_cells(5, (-1, 0), 0, (0, 0)), None);
    assert_eq!(q_cells(5, (0, 0), 0, (0, 5)), None);
    assert_eq!(q_cells(5, (5, 0), 2, (4, 0)), None);
    assert_eq!(q_cells(0, (0, 0), 0, (0, 0)), None);
}

/// Drives a trainer as the server does, every exploring scout moving right
/// when it can and down otherwise; returns the reported events.
fn drive(t: &mut StreamingTrainer, calls: usize) -> Vec<Option<TrainerEvent>> {
    let mut events = Vec::new();
    for _ in 0..calls {
        let e = match t.step_work() {
            StepWork::Pending => t.pop_pending(),
            StepWork::Wait => continue,
            StepWork::Explore => {
                let g = t.config.grid_size;
                let actions: Vec<i32> = t
                    .awaiting_positions()
                    .iter()
                    .map(|p| match p {
                        Some((_, c)) if *c < g - 1 => 1,
                        _ => 2,
                    })
                    .collect();
                assert!(t.episode_steps_fit());
                t.explore_step(&actions).0
            }
            StepWork::FinishEpisode => {
                let (e, refresh) = t.finish_episode();
                if refresh {
                    t.queue_policy_update(vec![vec![1; 3]; 3]);
                }
                Some(e)
            }
            StepWork::Complete => Some(TrainerEvent::TrainingComplete),
        };
        events.push(e);
    }
    events
}

#[test]
fn a_whole_run_reports_every_episode_then_completes() {
    // Two scouts, 3x3 grid, 6 episodes: each scout takes 4 moves to the goal.
    let mut t = StreamingTrainer::new(config(2, 3, 6, 10));
    let events = drive(&mut t, 200);
    assert!(events.iter().all(|e| e.is_some()));
    let updates: Vec<i32> = events
        .iter()
        .filter_map(|e| match e {
            Some(TrainerEvent::TrainingUpdate { episode, .. }) => Some(*episode),
            _ => None,
        })
        .collect();
    assert_eq!(updates, vec![1, 2, 3, 4, 5, 6]);
    let policies = events.iter().filter(|e| matches!(e, Some(TrainerEvent::PolicyUpdate { .. }))).count();
    assert_eq!(policies, 1);
    let moves = events.iter().filter(|e| matches!(e, Some(TrainerEvent::ScoutMove { .. }))).count();
    assert_eq!(moves, 6 * 2 * 4);
    // Each episode: 8 position updates, 2 completions, 1 update; then completion.
    let first_complete = events.iter().position(|e| matches!(e, Some(TrainerEvent::TrainingComplete))).unwrap();
    assert_eq!(first_complete, 6 * 11 + 1);
    assert!(events[first_complete..].iter().all(|e| matches!(e, Some(TrainerEvent::TrainingComplete))));
    assert_eq!(t.history.len(), 6);
}

#[test]
fn a_paused_run_only_reports_what_was_pending() {
    let mut t = StreamingTrainer::new(config(2, 3, 1, 10));
    let first = drive(&mut t, 1);
    assert!(matches!(first[0], Some(TrainerEvent::ScoutMove { .. })));
    t.pause();
    let during = drive(&mut t, 5);
    // The second position update of the step, and nothing more.
    assert_eq!(during.len(), 1);
    assert!(matches!(during[0], Some(TrainerEvent::ScoutMove { .. })));
    t.resume();
    let after = drive(&mut t, 40);
    assert!(matches!(after.last(), Some(Some(TrainerEvent::TrainingComplete))));
}
