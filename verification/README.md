# many_eyes

A training visualiser for multi-scout reinforcement learning: a server runs
several scouts in a sparse-reward grid world and streams their moves over a
WebSocket; a browser viewer draws the grids, the learned policy and the
learning curves, records the session and replays it.

The logic is a library verified with Verus:

- `src/backend/grid_world.rs`: the grid world (moves, walls, goal, step budget).
- `src/backend/trainer.rs`: the trainer's episode bookkeeping (parallel
  exploration, completion events, summaries, history, policy period).
- `src/backend/learner.rs`: which Q-table cells a learning update touches.
- `src/backend/run.rs`: the trainer as values, what one call of its step
  does, and the laws of a whole run (it ends after its episodes; a paused
  trainer only reports what was pending).
- `src/backend/server.rs`: where the viewer is served from, and what the
  client's commands do to a session.
- `src/frontend/`: the viewer's state, its reducer, recording and replay
  (`model.rs` holds the mathematical model, `state.rs` the code, `laws.rs`
  the properties that span several actions).
- `src/naming.rs`: scout names.

Floating-point values (rewards, rates, speeds) travel through the library as
`f64` bit patterns; the arithmetic on them, the scouts' random action choice,
the Q-value updates, the web server and the Yew components live in `app/`.
