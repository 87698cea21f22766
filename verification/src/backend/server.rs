//! The decisions of the training server: where the viewer's files are served
//! from, and what a client's commands do to a training session.
use vstd::prelude::*;
use crate::backend::events::TrainingConfig;
use crate::backend::trainer::TrainerEvent;

verus! {

/// The places where the built viewer may be found, in order of preference:
/// next to the server's directory, then relative to the repository root, then
/// to the web directory.
pub open spec fn dist_candidate(i: int) -> Seq<char> {
    if i == 0 {
        "../frontend/dist"@
    } else if i == 1 {
        "web/frontend/dist"@
    } else {
        "frontend/dist"@
    }
}

/// How many places are tried.
pub const DIST_CANDIDATES: usize = 3;

/// The `i`-th place where the built viewer may be found.
pub fn frontend_dist_candidate(i: usize) -> (path: String)
    requires
        i < DIST_CANDIDATES,
    ensures
        path@ == dist_candidate(i as int),
{
    if i == 0 {
        String::from_str("../frontend/dist")
    } else if i == 1 {
        String::from_str("web/frontend/dist")
    } else {
        String::from_str("frontend/dist")
    }
}

/// Candidate `i` is known to exist.
pub open spec fn candidate_exists(exists: Seq<bool>, i: int) -> bool {
    0 <= i < exists.len() && exists[i]
}

/// The first existing candidate, or the first candidate when none exists.
pub open spec fn dist_choice(exists: Seq<bool>) -> int {
    if candidate_exists(exists, 0) {
        0
    } else if candidate_exists(exists, 1) {
        1
    } else if candidate_exists(exists, 2) {
        2
    } else {
        0
    }
}

/// The directory to serve the viewer from: the first candidate that exists
/// (`exists[i]` tells whether candidate `i` does; missing entries count as
/// absent), or the first candidate when none does.
pub fn frontend_dist_path(exists: &Vec<bool>) -> (path: String)
    ensures
        path@ == dist_candidate(dist_choice(exists@)),
{
    let mut i: usize = 0;
    while i < DIST_CANDIDATES
        invariant
            0 <= i <= DIST_CANDIDATES,
            forall|j: int| 0 <= j < i ==> !candidate_exists(exists@, j),
        decreases DIST_CANDIDATES - i,
    {
        if i < exists.len() && exists[i] {
            assert(candidate_exists(exists@, i as int));
            return frontend_dist_candidate(i);
        }
        i = i + 1;
    }
    frontend_dist_candidate(0)
}

/// Commands from a client to the server.
#[derive(Clone, Copy, Debug, PartialEq, Eq)]
pub enum ClientCommand {
    Start { config: TrainingConfig },
    Pause,
    Resume,
    /// The requested speed factor (bit pattern of an `f64`).
    SetSpeed { speed: u64 },
    Stop,
}

/// A waiting session starts training on a `Start` command and ignores every
/// other command.
pub fn start_config(cmd: &ClientCommand) -> (config: Option<TrainingConfig>)
    ensures
        config == match *cmd {
            ClientCommand::Start { config } => Some(config),
            _ => None,
        },
{
    match cmd {
        ClientCommand::Start { config } => Some(*config),
        _ => None,
    }
}

/// What a command received during training does.
#[derive(Clone, Copy, Debug, PartialEq, Eq)]
pub enum ControlEffect {
    /// End the training run: no further event of it is sent, and the session
    /// waits for the next `Start`.
    EndTraining,
    Pause,
    Resume,
    /// Set the speed (bit pattern of the requested `f64`).
    SetSpeed(u64),
    /// A second `Start` while training is ignored.
    Ignore,
}

/// The effect of a command that arrives while training runs.
pub fn control_effect(cmd: &ClientCommand) -> (effect: ControlEffect)
    ensures
        effect == match *cmd {
            ClientCommand::Stop => ControlEffect::EndTraining,
            ClientCommand::Pause => ControlEffect::Pause,
            ClientCommand::Resume => ControlEffect::Resume,
            ClientCommand::SetSpeed { speed } => ControlEffect::SetSpeed(speed),
            ClientCommand::Start { .. } => ControlEffect::Ignore,
        },
{
    match cmd {
        ClientCommand::Stop => ControlEffect::EndTraining,
        ClientCommand::Pause => ControlEffect::Pause,
        ClientCommand::Resume => ControlEffect::Resume,
        ClientCommand::SetSpeed { speed } => ControlEffect::SetSpeed(*speed),
        ClientCommand::Start { .. } => ControlEffect::Ignore,
    }
}

/// The session's training loop ends after sending the training-complete
/// event, and when the trainer has nothing to report.
pub fn ends_training(event: &Option<TrainerEvent>) -> (ends: bool)
    ensures
        ends == match *event {
            Some(TrainerEvent::TrainingComplete) => true,
            Some(_) => false,
            None => true,
        },
{
    match event {
        Some(TrainerEvent::TrainingComplete) => true,
        Some(_) => false,
        None => true,
    }
}

} // verus!
