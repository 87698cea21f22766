//! The browser viewer's side: the messages it exchanges with the server and the
//! state it keeps, records and replays.
pub mod types;
pub mod model;
pub mod state;
pub mod laws;
