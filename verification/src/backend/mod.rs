//! The training server: its configuration, the grid world, the cells that a
//! learning update touches, the step-by-step trainer and the decisions of a
//! training session.
pub mod events;
pub mod grid_world;
pub mod learner;
pub mod run;
pub mod trainer;
pub mod server;
