//! A verified core for the many-eyes training visualiser: the grid world and
//! the scouts' episode bookkeeping on the server side, and the state that the
//! browser viewer keeps, records and replays.
pub mod naming;
pub mod backend;
pub mod frontend;
