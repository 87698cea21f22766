use many_eyes::backend::events::TrainingConfig;
use many_eyes::backend::server::{
    control_effect, ends_training, frontend_dist_candidate, frontend_dist_path, start_config,
    ClientCommand, ControlEffect,
};
use many_eyes::backend::trainer::TrainerEvent;

#[test]
fn dist_path_prefers_first_existing_candidate() {
    assert_eq!(frontend_dist_candidate(0), "../frontend/dist");
    assert_eq!(frontend_dist_candidate(1), "web/frontend/dist");
    assert_eq!(frontend_dist_candidate(2), "frontend/dist");
    assert_eq!(frontend_dist_path(&vec![false, true, true]), "web/frontend/dist");
    assert_eq!(frontend_dist_path(&vec![false, false, true]), "frontend/dist");
    assert_eq!(frontend_dist_path(&vec![true, true, true]), "../frontend/dist");
    // None exists: the first candidate.
    assert_eq!(frontend_dist_path(&vec![false, false, false]), "../frontend/dist");
    assert_eq!(frontend_dist_path(&vec![]), "../frontend/dist");
}

#[test]
fn commands_while_waiting_and_while_training() {
    let c = TrainingConfig::default();
    assert_eq!(start_config(&ClientCommand::Start { config: c }), Some(c));
    assert_eq!(start_config(&ClientCommand::Pause), None);
    assert_eq!(start_config(&ClientCommand::Stop), None);
    assert_eq!(control_effect(&ClientCommand::Stop), ControlEffect::EndTraining);
    assert_eq!(control_effect(&ClientCommand::Pause), ControlEffect::Pause);
    assert_eq!(control_effect(&ClientCommand::Resume), ControlEffect::Resume);
    let speed = 2.5f64.to_bits();
    assert_eq!(control_effect(&ClientCommand::SetSpeed { speed }), ControlEffect::SetSpeed(speed));
    assert_eq!(control_effect(&ClientCommand::Start { config: c }), ControlEffect::Ignore);
}

#[test]
fn training_ends_on_completion_or_silence() {
    assert!(ends_training(&Some(TrainerEvent::TrainingComplete)));
    assert!(ends_training(&None));
    assert!(!ends_training(&Some(TrainerEvent::EpisodeComplete { scout_index: 0, reached_goal: false, steps: 3 })));
}
