//! Configuration that a client sends to start training.
use vstd::prelude::*;

verus! {

/// How scouts explore the environment.
#[derive(Clone, Copy, Debug, PartialEq, Eq)]
pub enum ExplorationMode {
    /// All scouts follow the same learned policy (deterministic argmax).
    SharedPolicy,
    /// Each scout has directional biases for diverse path exploration.
    DiversePaths,
    /// All scouts keep exploring at a fixed rate (epsilon stays at 0.5).
    HighExploration,
    /// Scouts use Boltzmann (softmax) action selection with a temperature.
    Boltzmann,
}

impl Default for ExplorationMode {
    /// `SharedPolicy` is the mode a configuration gets when it names none.
    fn default() -> (mode: Self)
        ensures
            mode == ExplorationMode::SharedPolicy,
    {
        ExplorationMode::SharedPolicy
    }
}

/// The parameters of one training run.
#[derive(Clone, Copy, Debug, PartialEq, Eq)]
pub struct TrainingConfig {
    pub n_scouts: i32,
    pub grid_size: i32,
    pub episodes: i32,
    pub steps_per_episode: i32,
    /// Reserved for obstacle support; training ignores it.
    pub with_obstacles: bool,
    pub seed: Option<u64>,
    pub exploration_mode: ExplorationMode,
}

/// The configuration used when a client names no parameters.
pub open spec fn default_training_config() -> TrainingConfig {
    TrainingConfig {
        n_scouts: 5,
        grid_size: 5,
        episodes: 100,
        steps_per_episode: 100,
        with_obstacles: false,
        seed: None,
        exploration_mode: ExplorationMode::SharedPolicy,
    }
}

impl Default for TrainingConfig {
    /// Five scouts on a 5x5 grid, 100 episodes of at most 100 steps, no seed,
    /// shared policy.
    fn default() -> (config: Self)
        ensures
            config == default_training_config(),
    {
        TrainingConfig {
            n_scouts: 5,
            grid_size: 5,
            episodes: 100,
            steps_per_episode: 100,
            with_obstacles: false,
            seed: None,
            exploration_mode: ExplorationMode::SharedPolicy,
        }
    }
}

impl TrainingConfig {
    /// The seed the scouts' random generators start from: the configured one,
    /// or 42.
    pub fn seed_or_default(&self) -> (seed: u64)
        ensures
            seed == match self.seed {
                Some(s) => s,
                None => 42u64,
            },
    {
        match self.seed {
            Some(s) => s,
            None => 42,
        }
    }
}

} // verus!
