//! Properties that hold of the viewer's state across actions.
use vstd::prelude::*;
use crate::frontend::model::{
    StateView, ScoutView, RecordedView, ActionView, reduced, action_ok, record, moved, moved_all,
    applied, replayed, completed, seek_base, seek_target, sought, replay_stepped, live_move,
    live_batch, started, replay_entered, fresh_scout, scouts_upto, placed, scouts_cleared,
    scouts_at_start, lemma_moves_keep_controls, lemma_replay_keeps_controls,
    lemma_applied_keeps_controls, initial_state, replay_ok, recording, apply_ok,
};

verus! {

/// Every recorded event carries its own position in the recording.
pub open spec fn recording_indexed(s: StateView) -> bool {
    forall|i: int| 0 <= i < s.recorded_events.len() ==> (#[trigger] s.recorded_events[i]).0 == i
}

/// Every scout carries its own position in the scout list.
pub open spec fn scouts_indexed(s: StateView) -> bool {
    forall|i: int| 0 <= i < s.scouts.len() ==> (#[trigger] s.scouts[i]).index == i
}

/// The replay position lies within the recording.
pub open spec fn replay_within(s: StateView) -> bool {
    s.replay_index <= s.recorded_events.len()
}

proof fn lemma_record_indexed(s: StateView, e: RecordedView)
    requires
        recording_indexed(s),
        s.recorded_events.len() < usize::MAX,
    ensures
        recording_indexed(record(s, e)),
{
    let t = record(s, e);
    assert forall|i: int| 0 <= i < t.recorded_events.len() implies (#[trigger] t.recorded_events[i]).0 == i by {
        if i < s.recorded_events.len() {
            assert(t.recorded_events[i] == s.recorded_events[i]);
        }
    }
}

/// Recording an event keeps the recording indexed: each new event is appended
/// with its position as index. (A recording held in memory is shorter than
/// `usize::MAX`.)
pub proof fn law_recording_stays_indexed(s: StateView, a: ActionView)
    requires
        recording_indexed(s),
        s.recorded_events.len() < usize::MAX,
        action_ok(s, a),
    ensures
        recording_indexed(reduced(s, a)),
{
    match a {
        ActionView::ScoutMove { scout_index, position } => {
            let (row, col) = position;
            let p = StateView { scouts: placed(scouts_upto(s.scouts, scout_index), scout_index, position), ..s };
            if recording(live_move(s, scout_index, position)) {
                let c = if row >= 0 && col >= 0 {
                    StateView {
                        visited_cells: crate::frontend::model::visit(crate::frontend::model::sized_visits(s), row, col),
                        per_scout_visited_cells: crate::frontend::model::visit_scout(s.per_scout_visited_cells, scout_index, row, col),
                        ..p
                    }
                } else {
                    p
                };
                lemma_record_indexed(c, RecordedView::ScoutMove { scout_index, position });
            }
        },
        ActionView::BatchScoutMoves { moves, .. } => {
            let sized = StateView {
                visited_cells: crate::frontend::model::sized_visits(s),
                per_scout_visited_cells: crate::frontend::model::sized_scout_visits(s),
                ..s
            };
            lemma_moves_keep_controls(sized, moves, moves.len() as int);
            let done = moved_all(sized, moves, moves.len() as int);
            assert(recording_indexed(done));
            if recording(done) && moves.len() > 0 {
                lemma_record_indexed(done, RecordedView::BatchScoutMoves { moves });
            }
        },
        ActionView::EpisodeComplete { scout_index, reached_goal, total_reward } => {
            let t = completed(s, scout_index, reached_goal, total_reward);
            if recording(t) {
                lemma_record_indexed(t, RecordedView::EpisodeComplete { scout_index, reached_goal, total_reward });
            }
        },
        ActionView::TrainingUpdate { episode, total_episodes, success_rate, average_steps, episode_reward } => {
            let t = StateView {
                current_episode: episode,
                total_episodes,
                success_rate,
                average_steps,
                history: crate::frontend::model::HistoryView {
                    success_rates: s.history.success_rates.push(success_rate),
                    average_steps: s.history.average_steps.push(average_steps),
                    episode_rewards: s.history.episode_rewards.push(episode_reward),
                },
                ..s
            };
            if recording(t) {
                lemma_record_indexed(t, RecordedView::TrainingUpdate { episode, total_episodes, success_rate });
            }
        },
        ActionView::PolicyUpdate { policy } => {
            if recording(s) {
                lemma_record_indexed(s, RecordedView::PolicyUpdate { policy });
            }
        },
        ActionView::ReplayStep => {
            if s.replay_index < s.recorded_events.len() {
                lemma_applied_keeps_controls(s, s.recorded_events[s.replay_index as int].1);
            }
        },
        ActionView::ReplaySeek { index } => {
            lemma_replay_keeps_controls(seek_base(s), s.recorded_events, seek_target(s, index));
        },
        _ => {},
    }
}

/// The replay position never passes the end of the recording.
pub proof fn law_replay_position_within_recording(s: StateView, a: ActionView)
    requires
        replay_within(s),
        action_ok(s, a),
    ensures
        replay_within(reduced(s, a)),
{
    match a {
        ActionView::BatchScoutMoves { moves, .. } => {
            let sized = StateView {
                visited_cells: crate::frontend::model::sized_visits(s),
                per_scout_visited_cells: crate::frontend::model::sized_scout_visits(s),
                ..s
            };
            lemma_moves_keep_controls(sized, moves, moves.len() as int);
        },
        ActionView::ReplayStep => {
            if s.replay_index < s.recorded_events.len() {
                lemma_applied_keeps_controls(s, s.recorded_events[s.replay_index as int].1);
            }
        },
        ActionView::ReplaySeek { index } => {
            lemma_replay_keeps_controls(seek_base(s), s.recorded_events, seek_target(s, index));
        },
        _ => {},
    }
}

/// While replaying, nothing but starting a new run changes the recording.
pub proof fn law_replay_keeps_recording(s: StateView, a: ActionView)
    requires
        s.replay_mode,
        action_ok(s, a),
        !(a is StartTraining),
    ensures
        reduced(s, a).recorded_events == s.recorded_events,
{
    match a {
        ActionView::BatchScoutMoves { moves, .. } => {
            let sized = StateView {
                visited_cells: crate::frontend::model::sized_visits(s),
                per_scout_visited_cells: crate::frontend::model::sized_scout_visits(s),
                ..s
            };
            lemma_moves_keep_controls(sized, moves, moves.len() as int);
        },
        ActionView::ReplayStep => {
            if s.replay_index < s.recorded_events.len() {
                lemma_applied_keeps_controls(s, s.recorded_events[s.replay_index as int].1);
            }
        },
        ActionView::ReplaySeek { index } => {
            lemma_replay_keeps_controls(seek_base(s), s.recorded_events, seek_target(s, index));
        },
        _ => {},
    }
}

/// Starting a run clears the recording and leaves replay.
pub proof fn law_start_clears_recording(s: StateView, grid_size: i32, n_scouts: i32, episodes: i32)
    requires
        grid_size >= 0,
        n_scouts >= 0,
    ensures
        ({
            let t = reduced(s, ActionView::StartTraining { grid_size, n_scouts, episodes });
            &&& t.recorded_events.len() == 0
            &&& !t.replay_mode
            &&& !t.replay_playing
            &&& t.replay_index == 0
            &&& t.training
            &&& t.scouts.len() == n_scouts
        }),
{
}

/// The state with a different replay position.
pub open spec fn at_replay_index(s: StateView, i: usize) -> StateView {
    StateView { replay_index: i, ..s }
}

proof fn lemma_moves_ignore_replay_index(s: StateView, moves: Seq<(usize, (i32, i32))>, k: int, i: usize)
    ensures
        moved_all(at_replay_index(s, i), moves, k) == at_replay_index(moved_all(s, moves, k), i),
    decreases k,
{
    if k > 0 {
        lemma_moves_ignore_replay_index(s, moves, k - 1, i);
    }
}

proof fn lemma_applied_ignores_replay_index(s: StateView, e: RecordedView, i: usize)
    ensures
        applied(at_replay_index(s, i), e) == at_replay_index(applied(s, e), i),
{
    match e {
        RecordedView::BatchScoutMoves { moves } => {
            lemma_moves_ignore_replay_index(s, moves, moves.len() as int, i);
        },
        _ => {},
    }
}

/// Stepping the replay from position `k` gives the display that seeking to
/// `k + 1` gives; playing stops when that is the end of the recording.
pub proof fn law_step_continues_seek(s: StateView, k: usize)
    requires
        (k as int) < s.recorded_events.len() <= usize::MAX,
        action_ok(s, ActionView::ReplaySeek { index: (k + 1) as usize }),
    ensures
        ({
            let t = reduced(s, ActionView::ReplaySeek { index: k });
            let u = reduced(t, ActionView::ReplayStep);
            &&& action_ok(s, ActionView::ReplaySeek { index: k })
            &&& action_ok(t, ActionView::ReplayStep)
            &&& u == StateView {
                replay_playing: u.replay_playing,
                ..reduced(s, ActionView::ReplaySeek { index: (k + 1) as usize })
            }
            &&& u.replay_playing == ((k + 1) < s.recorded_events.len() && s.replay_playing)
        }),
{
    let base = seek_base(s);
    let rec = s.recorded_events;
    let r = replayed(base, rec, k as int);
    lemma_replay_keeps_controls(base, rec, k as int);
    lemma_replay_keeps_controls(base, rec, k + 1);
    assert(seek_target(s, k) == k);
    assert(seek_target(s, (k + 1) as usize) == k + 1);
    assert(apply_ok_at(base, rec, k as int));
    let t = reduced(s, ActionView::ReplaySeek { index: k });
    assert(t == at_replay_index(r, k));
    lemma_applied_ignores_replay_index(r, rec[k as int].1, k);
    lemma_applied_keeps_controls(r, rec[k as int].1);
}

spec fn apply_ok_at(base: StateView, rec: Seq<(usize, RecordedView)>, k: int) -> bool {
    crate::frontend::model::apply_ok(replayed(base, rec, k), rec[k].1)
}

/// A scout that moved stands where it moved.
pub proof fn law_moved_scout_stands_there(s: StateView, index: usize, position: (i32, i32))
    requires
        action_ok(s, ActionView::ScoutMove { scout_index: index, position }),
    ensures
        ({
            let t = reduced(s, ActionView::ScoutMove { scout_index: index, position });
            &&& index < t.scouts.len()
            &&& t.scouts[index as int].position == position
        }),
{
}

/// A scout whose episode ends returns to the start, with its episode counted
/// and, when it reached the goal, its success.
pub proof fn law_completed_scout_returns_to_start(
    s: StateView,
    index: usize,
    reached_goal: bool,
    total_reward: u64,
)
    requires
        index < s.scouts.len(),
        action_ok(s, ActionView::EpisodeComplete { scout_index: index, reached_goal, total_reward }),
    ensures
        ({
            let t = reduced(s, ActionView::EpisodeComplete { scout_index: index, reached_goal, total_reward });
            let before = s.scouts[index as int];
            let after = t.scouts[index as int];
            &&& after.position == (0i32, 0i32)
            &&& after.episodes_completed == before.episodes_completed + 1
            &&& after.successes == before.successes + if reached_goal { 1int } else { 0int }
            &&& after.rewards == before.rewards.push(total_reward)
        }),
{
}

proof fn lemma_moved_indexed(s: StateView, index: usize, position: (i32, i32))
    requires
        scouts_indexed(s),
    ensures
        scouts_indexed(moved(s, index, position)),
{
    let up = scouts_upto(s.scouts, index);
    assert forall|i: int| 0 <= i < up.len() implies (#[trigger] up[i]).index == i by {
        if i < s.scouts.len() {
            assert(up[i] == s.scouts[i]);
        }
    }
    let t = moved(s, index, position);
    assert forall|i: int| 0 <= i < t.scouts.len() implies (#[trigger] t.scouts[i]).index == i by {
        assert(t.scouts[i].index == up[i].index);
    }
}

proof fn lemma_moved_all_indexed(s: StateView, moves: Seq<(usize, (i32, i32))>, k: int)
    requires
        scouts_indexed(s),
    ensures
        scouts_indexed(moved_all(s, moves, k)),
    decreases k,
{
    if k > 0 {
        lemma_moved_all_indexed(s, moves, k - 1);
        lemma_moved_indexed(moved_all(s, moves, k - 1), moves[k - 1].0, moves[k - 1].1);
    }
}

proof fn lemma_applied_indexed(s: StateView, e: RecordedView)
    requires
        scouts_indexed(s),
    ensures
        scouts_indexed(applied(s, e)),
{
    match e {
        RecordedView::ScoutMove { scout_index, position } => {
            lemma_moved_indexed(s, scout_index, position);
        },
        RecordedView::BatchScoutMoves { moves } => {
            lemma_moved_all_indexed(s, moves, moves.len() as int);
        },
        RecordedView::EpisodeComplete { scout_index, reached_goal, total_reward } => {
            let t = completed(s, scout_index, reached_goal, total_reward);
            assert forall|i: int| 0 <= i < t.scouts.len() implies (#[trigger] t.scouts[i]).index == i by {
                assert(t.scouts[i].index == s.scouts[i].index);
            }
        },
        _ => {},
    }
}

proof fn lemma_replayed_indexed(s: StateView, events: Seq<(usize, RecordedView)>, k: int)
    requires
        scouts_indexed(s),
    ensures
        scouts_indexed(replayed(s, events, k)),
    decreases k,
{
    if k > 0 {
        lemma_replayed_indexed(s, events, k - 1);
        lemma_applied_indexed(replayed(s, events, k - 1), events[k - 1].1);
    }
}

/// Every action keeps each listed scout at its own index.
pub proof fn law_scouts_stay_indexed(s: StateView, a: ActionView)
    requires
        scouts_indexed(s),
        action_ok(s, a),
    ensures
        scouts_indexed(reduced(s, a)),
{
    match a {
        ActionView::ScoutMove { scout_index, position } => {
            lemma_moved_indexed(s, scout_index, position);
        },
        ActionView::BatchScoutMoves { moves, .. } => {
            let sized = StateView {
                visited_cells: crate::frontend::model::sized_visits(s),
                per_scout_visited_cells: crate::frontend::model::sized_scout_visits(s),
                ..s
            };
            lemma_moved_all_indexed(sized, moves, moves.len() as int);
        },
        ActionView::EpisodeComplete { scout_index, reached_goal, total_reward } => {
            lemma_applied_indexed(s, RecordedView::EpisodeComplete { scout_index, reached_goal, total_reward });
        },
        ActionView::ReplayStep => {
            if s.replay_index < s.recorded_events.len() {
                lemma_applied_indexed(s, s.recorded_events[s.replay_index as int].1);
            }
        },
        ActionView::ReplaySeek { index } => {
            let b = seek_base(s);
            assert(scouts_indexed(b)) by {
                assert forall|i: int| 0 <= i < b.scouts.len() implies (#[trigger] b.scouts[i]).index == i by {
                    assert(b.scouts[i].index == s.scouts[i].index);
                }
            }
            lemma_replayed_indexed(b, s.recorded_events, seek_target(s, index));
        },
        ActionView::EnterReplayMode => {
            let t = reduced(s, a);
            assert forall|i: int| 0 <= i < t.scouts.len() implies (#[trigger] t.scouts[i]).index == i by {
                assert(t.scouts[i].index == s.scouts[i].index);
            }
        },
        _ => {},
    }
}

// ---------------------------------------------------------------------------
// Seeking twice

/// A scout with its position and totals cleared, as a seek starts it.
pub open spec fn stripped(sc: ScoutView) -> ScoutView {
    ScoutView { position: (0, 0), rewards: Seq::empty(), episodes_completed: 0, successes: 0, ..sc }
}

/// Scout `i` stripped, for a replay that started with the scouts `start`:
/// the scout it started as, or a newly seen scout.
spec fn origin(start: Seq<ScoutView>, i: int) -> ScoutView {
    if i < start.len() {
        start[i]
    } else {
        fresh_scout(i)
    }
}

/// The scouts descend from `start`: none is lost, and each one stripped is
/// its origin.
spec fn scouts_from(scouts: Seq<ScoutView>, start: Seq<ScoutView>) -> bool {
    &&& scouts.len() >= start.len()
    &&& forall|i: int| 0 <= i < scouts.len() ==> stripped(#[trigger] scouts[i]) == origin(start, i)
}

/// `s` with the part of the display that a replay rebuilds taken from `t`.
spec fn with_display(s: StateView, t: StateView) -> StateView {
    StateView {
        scouts: t.scouts,
        visited_cells: t.visited_cells,
        per_scout_visited_cells: t.per_scout_visited_cells,
        current_episode: t.current_episode,
        total_episodes: t.total_episodes,
        success_rate: t.success_rate,
        history: t.history,
        policy: t.policy,
        policy_received: t.policy_received,
        ..s
    }
}

/// Every move of the event names a scout below `n`.
spec fn indices_below(e: RecordedView, n: int) -> bool {
    match e {
        RecordedView::ScoutMove { scout_index, .. } => scout_index < n,
        RecordedView::BatchScoutMoves { moves } => forall|q: int|
            0 <= q < moves.len() ==> (#[trigger] moves[q]).0 < n,
        _ => true,
    }
}

/// An episode-complete event at position `j` of the replay names a scout
/// that exists at that point, or one that does not exist by position `k`
/// either.
pub open spec fn completion_settled(base: StateView, rec: Seq<(usize, RecordedView)>, j: int, k: int) -> bool {
    match rec[j].1 {
        RecordedView::EpisodeComplete { scout_index, .. } => scout_index < replayed(
            base,
            rec,
            j,
        ).scouts.len() || scout_index >= replayed(base, rec, k).scouts.len(),
        _ => true,
    }
}

proof fn lemma_moved_all_frame(s: StateView, moves: Seq<(usize, (i32, i32))>, m: int)
    requires
        0 <= m <= moves.len(),
    ensures
        moved_all(s, moves, m) == with_display(s, moved_all(s, moves, m)),
        moved_all(s, moves, m).scouts.len() >= s.scouts.len(),
        moved_all(s, moves, m).total_episodes == s.total_episodes,
        forall|q: int| 0 <= q < m ==> (#[trigger] moves[q]).0 < moved_all(s, moves, m).scouts.len(),
    decreases m,
{
    if m > 0 {
        lemma_moved_all_frame(s, moves, m - 1);
    }
}

proof fn lemma_applied_frame(s: StateView, e: RecordedView)
    ensures
        applied(s, e) == with_display(s, applied(s, e)),
        applied(s, e).scouts.len() >= s.scouts.len(),
        indices_below(e, applied(s, e).scouts.len() as int),
        !(e is TrainingUpdate) ==> applied(s, e).total_episodes == s.total_episodes,
{
    match e {
        RecordedView::BatchScoutMoves { moves } => {
            lemma_moved_all_frame(s, moves, moves.len() as int);
        },
        _ => {},
    }
}

proof fn lemma_replayed_frame(s: StateView, rec: Seq<(usize, RecordedView)>, k: int)
    requires
        0 <= k,
    ensures
        replayed(s, rec, k) == with_display(s, replayed(s, rec, k)),
        replayed(s, rec, k).scouts.len() >= s.scouts.len(),
    decreases k,
{
    if k > 0 {
        lemma_replayed_frame(s, rec, k - 1);
        lemma_applied_frame(replayed(s, rec, k - 1), rec[k - 1].1);
    }
}

/// The scouts only grow during a replay, and every move of the first `k`
/// events names a scout that exists after them.
proof fn lemma_replay_grows(s: StateView, rec: Seq<(usize, RecordedView)>, j: int, k: int)
    requires
        0 <= j <= k,
    ensures
        replayed(s, rec, j).scouts.len() <= replayed(s, rec, k).scouts.len(),
        j < k ==> indices_below(rec[j].1, replayed(s, rec, k).scouts.len() as int),
    decreases k - j,
{
    if j < k {
        lemma_replay_grows(s, rec, j + 1, k);
        lemma_applied_frame(replayed(s, rec, j), rec[j].1);
    }
}

proof fn lemma_moved_from(x: StateView, index: usize, position: (i32, i32), start: Seq<ScoutView>)
    requires
        scouts_from(x.scouts, start),
    ensures
        scouts_from(moved(x, index, position).scouts, start),
{
    let up = scouts_upto(x.scouts, index);
    let t = moved(x, index, position).scouts;
    assert forall|i: int| 0 <= i < t.len() implies stripped(#[trigger] t[i]) == origin(start, i) by {
        if i < x.scouts.len() {
            assert(up[i] == x.scouts[i]);
            assert(stripped(x.scouts[i]) == origin(start, i));
        } else {
            assert(up[i] == fresh_scout(i));
        }
    }
}

proof fn lemma_moved_all_from(x: StateView, moves: Seq<(usize, (i32, i32))>, m: int, start: Seq<ScoutView>)
    requires
        scouts_from(x.scouts, start),
    ensures
        scouts_from(moved_all(x, moves, m).scouts, start),
    decreases m,
{
    if m > 0 {
        lemma_moved_all_from(x, moves, m - 1, start);
        lemma_moved_from(moved_all(x, moves, m - 1), moves[m - 1].0, moves[m - 1].1, start);
    }
}

proof fn lemma_replayed_from(x: StateView, rec: Seq<(usize, RecordedView)>, k: int, start: Seq<ScoutView>)
    requires
        scouts_from(x.scouts, start),
    ensures
        scouts_from(replayed(x, rec, k).scouts, start),
    decreases k,
{
    if k > 0 {
        lemma_replayed_from(x, rec, k - 1, start);
        let r = replayed(x, rec, k - 1);
        match rec[k - 1].1 {
            RecordedView::ScoutMove { scout_index, position } => {
                lemma_moved_from(r, scout_index, position, start);
            },
            RecordedView::BatchScoutMoves { moves } => {
                lemma_moved_all_from(r, moves, moves.len() as int, start);
            },
            RecordedView::EpisodeComplete { scout_index, reached_goal, total_reward } => {
                let t = applied(r, rec[k - 1].1).scouts;
                assert forall|i: int| 0 <= i < t.len() implies stripped(#[trigger] t[i]) == origin(start, i) by {
                    assert(stripped(r.scouts[i]) == origin(start, i));
                }
            },
            _ => {},
        }
    }
}

/// `y` is `x` with the scouts extended to `n` by newly seen scouts, and
/// possibly another total of episodes and replay position.
spec fn shadows(x: StateView, y: StateView, n: int) -> bool {
    &&& y == StateView {
        scouts: y.scouts,
        total_episodes: y.total_episodes,
        replay_index: y.replay_index,
        ..x
    }
    &&& x.scouts.len() <= n
    &&& y.scouts.len() == n
    &&& forall|i: int| 0 <= i < x.scouts.len() ==> #[trigger] y.scouts[i] == x.scouts[i]
    &&& forall|i: int| x.scouts.len() <= i < n ==> #[trigger] y.scouts[i] == fresh_scout(i)
}

proof fn lemma_moved_shadows(x: StateView, y: StateView, n: int, index: usize, position: (i32, i32))
    requires
        shadows(x, y, n),
        index < n,
    ensures
        shadows(moved(x, index, position), moved(y, index, position), n),
{
    let x2 = moved(x, index, position);
    let y2 = moved(y, index, position);
    let up = scouts_upto(x.scouts, index);
    assert(scouts_upto(y.scouts, index) == y.scouts);
    assert forall|i: int| 0 <= i < x2.scouts.len() implies #[trigger] y2.scouts[i] == x2.scouts[i] by {
        if i < x.scouts.len() {
            assert(up[i] == x.scouts[i]);
            assert(y.scouts[i] == x.scouts[i]);
        } else {
            assert(up[i] == fresh_scout(i));
            assert(y.scouts[i] == fresh_scout(i));
        }
    }
    assert forall|i: int| x2.scouts.len() <= i < n implies #[trigger] y2.scouts[i] == fresh_scout(i) by {
        assert(y.scouts[i] == fresh_scout(i));
    }
    assert(y2 == StateView {
        scouts: y2.scouts,
        total_episodes: y2.total_episodes,
        replay_index: y2.replay_index,
        ..x2
    });
}

proof fn lemma_moved_all_shadows(
    x: StateView,
    y: StateView,
    n: int,
    moves: Seq<(usize, (i32, i32))>,
    m: int,
)
    requires
        shadows(x, y, n),
        m <= moves.len(),
        forall|q: int| 0 <= q < moves.len() ==> (#[trigger] moves[q]).0 < n,
    ensures
        shadows(moved_all(x, moves, m), moved_all(y, moves, m), n),
    decreases m,
{
    if m > 0 {
        lemma_moved_all_shadows(x, y, n, moves, m - 1);
        assert(moves[m - 1].0 < n);
        lemma_moved_shadows(
            moved_all(x, moves, m - 1),
            moved_all(y, moves, m - 1),
            n,
            moves[m - 1].0,
            moves[m - 1].1,
        );
    }
}

/// One event keeps the shadow, fails on both states alike, and sets or keeps
/// the total of episodes on both alike.
proof fn lemma_applied_shadows(x: StateView, y: StateView, n: int, e: RecordedView)
    requires
        shadows(x, y, n),
        indices_below(e, n),
        e matches RecordedView::EpisodeComplete { scout_index, .. } ==> (scout_index
            < x.scouts.len() || scout_index >= n),
    ensures
        shadows(applied(x, e), applied(y, e), n),
        apply_ok(x, e) == apply_ok(y, e),
        e is TrainingUpdate ==> applied(x, e).total_episodes == applied(y, e).total_episodes,
        !(e is TrainingUpdate) ==> applied(x, e).total_episodes == x.total_episodes
            && applied(y, e).total_episodes == y.total_episodes,
{
    lemma_applied_frame(x, e);
    lemma_applied_frame(y, e);
    match e {
        RecordedView::ScoutMove { scout_index, position } => {
            lemma_moved_shadows(x, y, n, scout_index, position);
        },
        RecordedView::BatchScoutMoves { moves } => {
            lemma_moved_all_shadows(x, y, n, moves, moves.len() as int);
        },
        RecordedView::EpisodeComplete { scout_index, reached_goal, total_reward } => {
            let x2 = applied(x, e);
            let y2 = applied(y, e);
            if scout_index < x.scouts.len() {
                assert(y.scouts[scout_index as int] == x.scouts[scout_index as int]);
                assert forall|i: int| 0 <= i < x2.scouts.len() implies #[trigger] y2.scouts[i] == x2.scouts[i] by {
                    assert(y.scouts[i] == x.scouts[i]);
                }
                assert forall|i: int| x2.scouts.len() <= i < n implies #[trigger] y2.scouts[i] == fresh_scout(i) by {
                    assert(y.scouts[i] == fresh_scout(i));
                }
            }
            assert(y2 == StateView {
                scouts: y2.scouts,
                total_episodes: y2.total_episodes,
                replay_index: y2.replay_index,
                ..x2
            });
        },
        _ => {
            let x2 = applied(x, e);
            let y2 = applied(y, e);
            assert(y2 == StateView {
                scouts: y2.scouts,
                total_episodes: y2.total_episodes,
                replay_index: y2.replay_index,
                ..x2
            });
        },
    }
}

proof fn lemma_replays_shadow(
    b1: StateView,
    b2: StateView,
    n: int,
    rec: Seq<(usize, RecordedView)>,
    k: int,
    j: int,
)
    requires
        shadows(b1, b2, n),
        0 <= j <= k,
        forall|i: int| 0 <= i < k ==> indices_below((#[trigger] rec[i]).1, n),
        forall|i: int| 0 <= i < k ==> #[trigger] completion_settled(b1, rec, i, k),
        n == replayed(b1, rec, k).scouts.len(),
    ensures
        shadows(replayed(b1, rec, j), replayed(b2, rec, j), n),
        forall|i: int|
            0 <= i < j ==> #[trigger] apply_ok(replayed(b1, rec, i), rec[i].1) == apply_ok(
                replayed(b2, rec, i),
                rec[i].1,
            ),
        replayed(b1, rec, j).total_episodes == replayed(b2, rec, j).total_episodes || (replayed(
            b1,
            rec,
            j,
        ).total_episodes == b1.total_episodes && replayed(b2, rec, j).total_episodes
            == b2.total_episodes),
    decreases j,
{
    if j > 0 {
        lemma_replays_shadow(b1, b2, n, rec, k, j - 1);
        let x = replayed(b1, rec, j - 1);
        let y = replayed(b2, rec, j - 1);
        assert(indices_below(rec[j - 1].1, n));
        assert(completion_settled(b1, rec, j - 1, k));
        lemma_applied_shadows(x, y, n, rec[j - 1].1);
    }
}

/// Seeking a second time to the same position changes nothing: the display
/// that the first seek rebuilt is the one the position stands for.
///
/// A replay may name scouts that do not exist yet, and a seek keeps the
/// scouts that it created; so this holds where every episode-complete event
/// before the position names a scout that exists when it is replayed, or one
/// that the replay up to the position never creates.
pub proof fn law_seek_twice(s: StateView, index: usize)
    requires
        action_ok(s, ActionView::ReplaySeek { index }),
        forall|j: int|
            0 <= j < seek_target(s, index) ==> #[trigger] completion_settled(
                seek_base(s),
                s.recorded_events,
                j,
                seek_target(s, index),
            ),
    ensures
        ({
            let t = reduced(s, ActionView::ReplaySeek { index });
            &&& t.replay_index == seek_target(s, index)
            &&& t.recorded_events == s.recorded_events
            &&& action_ok(t, ActionView::ReplaySeek { index })
            &&& reduced(t, ActionView::ReplaySeek { index }) == t
        }),
{
    let rec = s.recorded_events;
    let k = seek_target(s, index);
    let b1 = seek_base(s);
    let r1 = replayed(b1, rec, k);
    let t = reduced(s, ActionView::ReplaySeek { index });
    lemma_replay_keeps_controls(b1, rec, k);
    lemma_replayed_frame(b1, rec, k);
    assert(t == StateView { replay_index: k as usize, ..r1 });
    let b2 = seek_base(t);
    let n = r1.scouts.len() as int;
    assert(scouts_from(b1.scouts, b1.scouts));
    lemma_replayed_from(b1, rec, k, b1.scouts);
    assert forall|i: int| 0 <= i < b1.scouts.len() implies #[trigger] b2.scouts[i] == b1.scouts[i] by {
        assert(stripped(r1.scouts[i]) == origin(b1.scouts, i));
    }
    assert forall|i: int| b1.scouts.len() <= i < n implies #[trigger] b2.scouts[i] == fresh_scout(i) by {
        assert(stripped(r1.scouts[i]) == origin(b1.scouts, i));
    }
    assert(b2 == StateView {
        scouts: b2.scouts,
        total_episodes: b2.total_episodes,
        replay_index: b2.replay_index,
        ..b1
    });
    assert(shadows(b1, b2, n));
    assert forall|i: int| 0 <= i < k implies indices_below((#[trigger] rec[i]).1, n) by {
        lemma_replay_grows(b1, rec, i, k);
    }
    lemma_replays_shadow(b1, b2, n, rec, k, k);
    assert(seek_target(t, index) == k);
    let y = replayed(b2, rec, k);
    lemma_replay_keeps_controls(b2, rec, k);
    assert(y.scouts =~= r1.scouts);
    assert(y.total_episodes == r1.total_episodes);
    assert(replay_ok(b2, rec, k)) by {
        assert forall|j: int| 0 <= j < k implies #[trigger] apply_ok(replayed(b2, rec, j), rec[j].1) by {
            assert(apply_ok(replayed(b1, rec, j), rec[j].1));
        }
    }
}

// ---------------------------------------------------------------------------
// Live updates and entering replay

/// A grid of `size` rows of `size` zero counts.
pub open spec fn all_zero(grid: Seq<Seq<u64>>, size: int) -> bool {
    &&& grid.len() == size
    &&& forall|r: int| 0 <= r < size ==> (#[trigger] grid[r]).len() == size
    &&& forall|r: int, c: int| 0 <= r < size && 0 <= c < size ==> #[trigger] grid[r][c] == 0
}

/// A policy update shows the policy received, and while training outside
/// replay it appends to the recording, at the next index, an event carrying
/// exactly that policy, so that replaying it shows the same policy; nothing
/// else is recorded otherwise.
pub proof fn law_policy_update_recorded(s: StateView, policy: Seq<Seq<i32>>)
    ensures
        ({
            let t = reduced(s, ActionView::PolicyUpdate { policy });
            &&& t.policy == policy
            &&& t.policy_received
            &&& s.training && !s.replay_mode ==> t.recorded_events == s.recorded_events.push(
                (s.recorded_events.len() as usize, RecordedView::PolicyUpdate { policy }),
            )
            &&& !(s.training && !s.replay_mode) ==> t.recorded_events == s.recorded_events
            &&& s.training && !s.replay_mode ==> applied(
                s,
                t.recorded_events[s.recorded_events.len() as int].1,
            ).policy == policy
        }),
{
}

/// A training update shows its episode, total, success rate and average
/// steps, and adds the rate, the average and the reward to the learning
/// curves; while training outside replay it is recorded, at the next index,
/// with its episode, total and success rate.
pub proof fn law_training_update_shown(
    s: StateView,
    episode: i32,
    total_episodes: i32,
    success_rate: u64,
    average_steps: u64,
    episode_reward: u64,
)
    ensures
        ({
            let t = reduced(
                s,
                ActionView::TrainingUpdate {
                    episode,
                    total_episodes,
                    success_rate,
                    average_steps,
                    episode_reward,
                },
            );
            &&& t.current_episode == episode
            &&& t.total_episodes == total_episodes
            &&& t.success_rate == success_rate
            &&& t.average_steps == average_steps
            &&& t.history.success_rates == s.history.success_rates.push(success_rate)
            &&& t.history.average_steps == s.history.average_steps.push(average_steps)
            &&& t.history.episode_rewards == s.history.episode_rewards.push(episode_reward)
            &&& t.scouts == s.scouts
            &&& t.visited_cells == s.visited_cells
            &&& s.training && !s.replay_mode ==> t.recorded_events == s.recorded_events.push(
                (
                    s.recorded_events.len() as usize,
                    RecordedView::TrainingUpdate { episode, total_episodes, success_rate },
                ),
            )
            &&& !(s.training && !s.replay_mode) ==> t.recorded_events == s.recorded_events
        }),
{
}

/// Entering replay with something recorded starts the display from zero:
/// the combined grid and every scout's own grid (one per configured scout)
/// hold zero counts, the policy is not yet received, every scout stands at
/// the start, and the replay is at the beginning, not playing, at speed 1.0.
/// Without a recording nothing changes.
pub proof fn law_enter_replay_clears_display(s: StateView)
    requires
        s.grid_size >= 0,
        s.n_scouts >= 0,
    ensures
        ({
            let t = reduced(s, ActionView::EnterReplayMode);
            let size = s.grid_size as int;
            &&& s.recorded_events.len() > 0 ==> {
                &&& t.replay_mode
                &&& t.replay_index == 0
                &&& !t.replay_playing
                &&& t.replay_speed == crate::frontend::model::ONE_F64_BITS
                &&& all_zero(t.visited_cells, size)
                &&& t.per_scout_visited_cells.len() == s.n_scouts
                &&& forall|i: int|
                    0 <= i < s.n_scouts ==> all_zero(#[trigger] t.per_scout_visited_cells[i], size)
                &&& !t.policy_received
                &&& t.scouts.len() == s.scouts.len()
                &&& forall|i: int|
                    0 <= i < s.scouts.len() ==> (#[trigger] t.scouts[i]).position == (0i32, 0i32)
                &&& t.recorded_events == s.recorded_events
            }
            &&& s.recorded_events.len() == 0 ==> t == s
        }),
{
}

} // verus!
