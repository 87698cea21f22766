//! A training run as values: the trainer's state, what one call of its step
//! does (pending events first, then waiting while paused, then the phase's
//! work), and the laws of a whole run.
use vstd::prelude::*;
use crate::backend::events::TrainingConfig;
use crate::backend::trainer::{
    StreamingTrainer, TrainerEvent, TrainerEventView, TrainerPhase, EpisodeSummaryView, ScoutRun,
    StepWork, POLICY_PERIOD, advanced_runs, any_active, completion_events, fresh_runs,
    move_events, runs_ok, step_bound, step_moves, summary_consistent, summary_of,
    events_view, summaries_view, lemma_fresh_runs_wf, lemma_next_runs_wf,
    lemma_moves_upto_exact, lemma_moves_upto_len,
};

verus! {

/// The trainer's phase, as values.
pub enum PhaseView {
    Exploring { runs: Seq<ScoutRun>, global_step: i32 },
    EpisodeDone { summary: EpisodeSummaryView },
    Finished,
}

/// The trainer's state, as values.
pub struct TrainerView {
    pub config: TrainingConfig,
    pub n_scouts: usize,
    pub current_episode: i32,
    pub paused: bool,
    pub phase: PhaseView,
    pub pending: Seq<TrainerEventView>,
    pub history: Seq<EpisodeSummaryView>,
}

impl View for StreamingTrainer {
    type V = TrainerView;

    open spec fn view(&self) -> TrainerView {
        TrainerView {
            config: self.config,
            n_scouts: self.n_scouts,
            current_episode: self.current_episode,
            paused: self.paused,
            phase: match self.phase {
                TrainerPhase::ParallelExploring { runs, global_step } => PhaseView::Exploring {
                    runs: runs@,
                    global_step,
                },
                TrainerPhase::EpisodeDone { summary } => PhaseView::EpisodeDone {
                    summary: summary@,
                },
                TrainerPhase::Finished => PhaseView::Finished,
            },
            pending: events_view(self.pending@),
            history: summaries_view(self.history@),
        }
    }
}

/// The view of an event that may be absent.
pub open spec fn event_view(e: Option<TrainerEvent>) -> Option<TrainerEventView> {
    match e {
        Some(e) => Some(e@),
        None => None,
    }
}

/// The number of episodes a run has: the configured number, and at least one.
pub open spec fn episodes_of(config: TrainingConfig) -> int {
    if config.episodes > 1 {
        config.episodes as int
    } else {
        1
    }
}

impl TrainerView {
    /// The runs of the exploring phase.
    pub open spec fn runs(self) -> Seq<ScoutRun> {
        match self.phase {
            PhaseView::Exploring { runs, .. } => runs,
            _ => Seq::empty(),
        }
    }

    /// The step counter of the exploring phase.
    pub open spec fn global_step(self) -> i32 {
        match self.phase {
            PhaseView::Exploring { global_step, .. } => global_step,
            _ => 0,
        }
    }

    /// The summary waiting in the episode-done phase.
    pub open spec fn done_summary(self) -> EpisodeSummaryView {
        match self.phase {
            PhaseView::EpisodeDone { summary } => summary,
            _ => EpisodeSummaryView { successes: 0, total_steps: 0, outcomes: Seq::empty() },
        }
    }

    /// The trainer's invariant, as `StreamingTrainer::wf` states it.
    pub open spec fn wf(self) -> bool {
        &&& self.config.n_scouts >= 0
        &&& self.config.grid_size >= 0
        &&& self.n_scouts == self.config.n_scouts
        &&& 0 <= self.current_episode
        &&& self.history.len() == self.current_episode
        &&& forall|i: int|
            0 <= i < self.history.len() ==> summary_consistent(
                #[trigger] self.history[i],
                self.n_scouts as nat,
                step_bound(self.config),
            )
        &&& match self.phase {
            PhaseView::Exploring { runs, global_step } => {
                &&& runs_ok(self.config, self.n_scouts as nat, runs, global_step)
                &&& (self.current_episode == 0 || self.current_episode < self.config.episodes)
            },
            PhaseView::EpisodeDone { summary } => {
                &&& summary_consistent(summary, self.n_scouts as nat, step_bound(self.config))
                &&& (self.current_episode == 0 || self.current_episode < self.config.episodes)
            },
            PhaseView::Finished => true,
        }
    }
}

/// What a call of the trainer's step does: report the oldest pending event,
/// even while paused; wait while paused; otherwise the phase's work.
pub open spec fn work_of(v: TrainerView) -> StepWork {
    if v.pending.len() > 0 {
        StepWork::Pending
    } else if v.paused {
        StepWork::Wait
    } else {
        match v.phase {
            PhaseView::Exploring { .. } => StepWork::Explore,
            PhaseView::EpisodeDone { .. } => StepWork::FinishEpisode,
            PhaseView::Finished => StepWork::Complete,
        }
    }
}

/// The oldest pending event taken from the queue.
pub open spec fn popped(v: TrainerView) -> (Option<TrainerEventView>, TrainerView) {
    if v.pending.len() > 0 {
        (Some(v.pending[0]), TrainerView { pending: v.pending.drop_first(), ..v })
    } else {
        (None, v)
    }
}

/// One exploring step with the scouts' `actions`: each exploring scout
/// moves; the moves' position updates are queued, and, when the episode is
/// over, every scout's completion after them; the oldest pending event is
/// taken from the queue.
pub open spec fn explored(v: TrainerView, actions: Seq<i32>) -> (Option<TrainerEventView>, TrainerView) {
    let runs = v.runs();
    let next = advanced_runs(runs, actions);
    let step = (v.global_step() + 1) as i32;
    let ends = if any_active(next) {
        Seq::<TrainerEventView>::empty()
    } else {
        completion_events(next)
    };
    let queued = v.pending + move_events(step_moves(runs, actions), step) + ends;
    let phase = if any_active(next) {
        PhaseView::Exploring { runs: next, global_step: step }
    } else {
        PhaseView::EpisodeDone { summary: summary_of(next) }
    };
    popped(TrainerView { pending: queued, phase, ..v })
}

/// The end of an episode: its summary joins the history and is reported as a
/// training update; the run is finished after the configured number of
/// episodes, otherwise a new episode starts with every scout at the start.
pub open spec fn episode_closed(v: TrainerView) -> (TrainerEventView, TrainerView) {
    let episode = (v.current_episode + 1) as i32;
    (
        TrainerEventView::TrainingUpdate {
            episode,
            total_episodes: v.config.episodes,
            summary: v.done_summary(),
        },
        TrainerView {
            current_episode: episode,
            history: v.history.push(v.done_summary()),
            phase: if episode >= v.config.episodes {
                PhaseView::Finished
            } else {
                PhaseView::Exploring {
                    runs: fresh_runs(v.config, v.n_scouts as nat),
                    global_step: 0,
                }
            },
            ..v
        },
    )
}

/// The learned policy queued for publication.
pub open spec fn policy_queued(v: TrainerView, policy: Seq<Seq<i32>>) -> TrainerView {
    TrainerView {
        pending: v.pending.push(TrainerEventView::PolicyUpdate { policy }),
        ..v
    }
}

/// What one call of the trainer's step reported.
pub enum Called {
    /// The trainer was paused with nothing pending: nothing was reported.
    Waited,
    /// The event reported, if the trainer had one.
    Reported(Option<TrainerEventView>),
}

/// One call of the trainer's step, the caller choosing the exploring
/// scouts' `actions` and, after every fifth episode, the `policy` to publish.
pub open spec fn called(v: TrainerView, actions: Seq<i32>, policy: Seq<Seq<i32>>) -> (Called, TrainerView) {
    match work_of(v) {
        StepWork::Pending => (Called::Reported(popped(v).0), popped(v).1),
        StepWork::Wait => (Called::Waited, v),
        StepWork::Explore => (Called::Reported(explored(v, actions).0), explored(v, actions).1),
        StepWork::FinishEpisode => {
            let (e, w) = episode_closed(v);
            (
                Called::Reported(Some(e)),
                if w.current_episode % POLICY_PERIOD == 0 {
                    policy_queued(w, policy)
                } else {
                    w
                },
            )
        },
        StepWork::Complete => (Called::Reported(Some(TrainerEventView::TrainingComplete)), v),
    }
}

/// The trainer after `k` calls, call `j` with `actions[j]` and `policies[j]`.
pub open spec fn after_calls(
    v: TrainerView,
    actions: Seq<Seq<i32>>,
    policies: Seq<Seq<Seq<i32>>>,
    k: int,
) -> TrainerView
    decreases k,
{
    if k <= 0 {
        v
    } else {
        called(after_calls(v, actions, policies, k - 1), actions[k - 1], policies[k - 1]).1
    }
}

/// What call `j` reports.
pub open spec fn report_of_call(
    v: TrainerView,
    actions: Seq<Seq<i32>>,
    policies: Seq<Seq<Seq<i32>>>,
    j: int,
) -> Called {
    called(after_calls(v, actions, policies, j), actions[j], policies[j]).0
}

// ---------------------------------------------------------------------------
// A whole run

/// No training update or completion waits in the queue: those are reported
/// when they happen.
pub open spec fn queue_ok(q: Seq<TrainerEventView>) -> bool {
    forall|i: int|
        0 <= i < q.len() ==> !((#[trigger] q[i]) is TrainingUpdate) && !(q[i] is TrainingComplete)
}

/// What holds of the trainer throughout a run: the configuration is usable,
/// one history entry per episode done, the exploring runs agree with the
/// configuration, and the episode counter has reached the run's number of
/// episodes exactly when the run is finished.
pub open spec fn run_inv(v: TrainerView) -> bool {
    &&& v.config.n_scouts >= 0
    &&& v.config.grid_size >= 0
    &&& v.n_scouts == v.config.n_scouts
    &&& 0 <= v.current_episode
    &&& v.history.len() == v.current_episode
    &&& queue_ok(v.pending)
    &&& match v.phase {
        PhaseView::Exploring { runs, global_step } => {
            &&& runs_ok(v.config, v.n_scouts as nat, runs, global_step)
            &&& v.current_episode < episodes_of(v.config)
        },
        PhaseView::EpisodeDone { .. } => v.current_episode < episodes_of(v.config),
        PhaseView::Finished => v.current_episode == episodes_of(v.config),
    }
}

/// The run is over: finished, with nothing left to report but its completion.
pub open spec fn run_over(v: TrainerView) -> bool {
    v.phase is Finished && v.pending.len() == 0
}

/// The calls one episode takes at most: a step per step of the budget, each
/// reporting up to one update per scout, then the scouts' completions, the
/// training update and the policy.
pub open spec fn episode_cost(v: TrainerView) -> int {
    step_bound(v.config) * (v.n_scouts + 1) + v.n_scouts + 2
}

/// A bound on the calls left before the run is over.
pub open spec fn work_left(v: TrainerView) -> int {
    let left = episodes_of(v.config) - v.current_episode - 1;
    v.pending.len() + match v.phase {
        PhaseView::Exploring { global_step, .. } => left * episode_cost(v) + (step_bound(v.config)
            - global_step) * (v.n_scouts + 1) + v.n_scouts + 2,
        PhaseView::EpisodeDone { .. } => left * episode_cost(v) + 2,
        PhaseView::Finished => 0,
    }
}

proof fn lemma_work_left_positive(v: TrainerView)
    requires
        run_inv(v),
    ensures
        work_left(v) >= 0,
        !run_over(v) ==> work_left(v) >= 1,
{
    let left = episodes_of(v.config) - v.current_episode - 1;
    let c = episode_cost(v);
    assert(c >= 0) by (nonlinear_arith)
        requires c == step_bound(v.config) * (v.n_scouts + 1) + v.n_scouts + 2, step_bound(v.config) >= 1;
    match v.phase {
        PhaseView::Exploring { runs, global_step } => {
            if global_step > 0 {
                let j = choose|j: int| 0 <= j < runs.len() && !runs[j].done;
                assert(runs[j].step_count == global_step);
            }
            let d = step_bound(v.config) - global_step;
            assert(left * c >= 0 && d * (v.n_scouts + 1) >= 0) by (nonlinear_arith)
                requires left >= 0, c >= 0, d >= 0, v.n_scouts >= 0;
        },
        PhaseView::EpisodeDone { .. } => {
            assert(left * c >= 0) by (nonlinear_arith)
                requires left >= 0, c >= 0;
        },
        PhaseView::Finished => {},
    }
}

proof fn lemma_move_events_ok(moves: Seq<crate::backend::trainer::ScoutMove>, step: i32)
    ensures
        queue_ok(move_events(moves, step)),
        move_events(moves, step).len() == moves.len(),
{
}

proof fn lemma_queue_ok_concat(a: Seq<TrainerEventView>, b: Seq<TrainerEventView>)
    requires
        queue_ok(a),
        queue_ok(b),
    ensures
        queue_ok(a + b),
{
    assert forall|i: int| 0 <= i < (a + b).len() implies !((#[trigger] (a + b)[i]) is TrainingUpdate)
        && !((a + b)[i] is TrainingComplete) by {
        if i < a.len() {
            assert((a + b)[i] == a[i]);
        } else {
            assert((a + b)[i] == b[i - a.len()]);
        }
    }
}

/// An exploring step keeps the run's invariant and takes the run closer to
/// its end; it reports an event unless there are no scouts.
proof fn lemma_explored_progress(v: TrainerView, actions: Seq<i32>)
    requires
        run_inv(v),
        v.phase is Exploring,
        v.pending.len() == 0,
        actions.len() == v.n_scouts,
    ensures
        run_inv(explored(v, actions).1),
        explored(v, actions).1.paused == v.paused,
        explored(v, actions).1.current_episode == v.current_episode,
        work_left(explored(v, actions).1) < work_left(v),
        v.n_scouts >= 1 ==> explored(v, actions).0 is Some,
        explored(v, actions).0 matches Some(e) ==> !(e is TrainingUpdate) && !(e is TrainingComplete),
{
    let runs = v.runs();
    let gs = v.global_step();
    let n = v.n_scouts as int;
    let next = advanced_runs(runs, actions);
    let moves = step_moves(runs, actions);
    let step = (gs + 1) as i32;
    let ends = if any_active(next) {
        Seq::<TrainerEventView>::empty()
    } else {
        completion_events(next)
    };
    let queued = v.pending + move_events(moves, step) + ends;
    let w = explored(v, actions).1;
    lemma_moves_upto_len(runs, actions, runs.len() as int);
    lemma_moves_upto_exact(runs, actions, runs.len() as int);
    lemma_move_events_ok(moves, step);
    assert(queue_ok(ends));
    assert(v.pending + move_events(moves, step) =~= move_events(moves, step));
    lemma_queue_ok_concat(move_events(moves, step), ends);
    if queued.len() > 0 {
        assert(queue_ok(queued.drop_first())) by {
            assert forall|i: int| 0 <= i < queued.drop_first().len() implies !((#[trigger] queued.drop_first()[i]) is TrainingUpdate)
                && !(queued.drop_first()[i] is TrainingComplete) by {
                assert(queued.drop_first()[i] == queued[i + 1]);
            }
        }
        assert(queued[0] == queued[0]);
    }
    // Step counter bounds.
    if any_active(runs) {
        let j = choose|j: int| 0 <= j < runs.len() && !runs[j].done;
        assert(runs[j].step_count == gs);
        assert(runs[j].wf(v.config));
        assert(exists|q: int| 0 <= q < moves.len() && (#[trigger] moves[q]).scout_index == j);
        assert(moves.len() >= 1);
    }
    if gs > 0 {
        assert(any_active(runs));
    }
    let left = episodes_of(v.config) - v.current_episode - 1;
    let c = episode_cost(v);
    let s = step_bound(v.config);
    if any_active(next) {
        assert(any_active(runs)) by {
            let j = choose|j: int| 0 <= j < next.len() && !next[j].done;
            assert(!runs[j].done);
        }
        lemma_next_runs_wf(v.config, v.n_scouts as nat, runs, actions, gs);
        let j = choose|j: int| 0 <= j < next.len() && !next[j].done;
        assert(next[j].step_count == step);
        assert(step < v.config.steps_per_episode);
        assert((s - gs) * (n + 1) == (s - step) * (n + 1) + (n + 1)) by (nonlinear_arith)
            requires step == gs + 1;
        assert(w.pending.len() <= n);
    } else {
        if !any_active(runs) {
            assert(moves.len() == 0) by {
                if moves.len() > 0 {
                    let i = moves[0].scout_index as int;
                    assert(!runs[i].done);
                }
            }
            assert(gs == 0);
        }
        assert(s - gs >= 1);
        assert((s - gs) * (n + 1) >= n + 1) by (nonlinear_arith)
            requires s - gs >= 1, n >= 0;
        assert(w.pending.len() <= 2 * n);
        if n >= 1 {
            assert(queued.len() >= 1);
        }
    }
    if n >= 1 && any_active(runs) {
        assert(queued.len() >= 1);
    }
}

/// Closing an episode keeps the run's invariant, counts the episode and takes
/// the run closer to its end.
proof fn lemma_closed_progress(v: TrainerView, policy: Seq<Seq<i32>>)
    requires
        run_inv(v),
        v.phase is EpisodeDone,
        v.pending.len() == 0,
        !v.paused,
    ensures
        ({
            let w = called(v, Seq::empty(), policy).1;
            &&& run_inv(w)
            &&& w.paused == v.paused
            &&& w.current_episode == v.current_episode + 1
            &&& work_left(w) < work_left(v)
        }),
{
    let (e, w0) = episode_closed(v);
    let left = episodes_of(v.config) - v.current_episode - 1;
    let c = episode_cost(v);
    let n = v.n_scouts as int;
    let s = step_bound(v.config);
    assert(left * c >= 0) by (nonlinear_arith)
        requires left >= 0, c >= 0;
    if w0.current_episode < v.config.episodes {
        lemma_fresh_runs_wf(v.config, v.n_scouts as nat);
        assert(left * c == (left - 1) * c + c) by (nonlinear_arith);
    }
    let w = called(v, Seq::empty(), policy).1;
    assert(work_of(v) == StepWork::FinishEpisode);
    assert(w == (if w0.current_episode % POLICY_PERIOD == 0 {
        policy_queued(w0, policy)
    } else {
        w0
    }));
    assert(w.pending.len() <= 1);
    assert(queue_ok(w.pending));
    assert(run_inv(w0));
    assert(run_inv(w));
    assert(work_left(w0) <= left * c + 1);
    assert(work_left(w) < work_left(v));
}

/// The episode of a training update that a call reported.
pub open spec fn update_of(r: Called) -> Option<i32> {
    match r {
        Called::Reported(Some(TrainerEventView::TrainingUpdate { episode, .. })) => Some(episode),
        _ => None,
    }
}

/// The episodes of the training updates that the first `k` calls reported,
/// in order.
pub open spec fn updates_reported(
    v: TrainerView,
    actions: Seq<Seq<i32>>,
    policies: Seq<Seq<Seq<i32>>>,
    k: int,
) -> Seq<i32>
    decreases k,
{
    if k <= 0 {
        Seq::empty()
    } else {
        let before = updates_reported(v, actions, policies, k - 1);
        match update_of(report_of_call(v, actions, policies, k - 1)) {
            Some(e) => before.push(e),
            None => before,
        }
    }
}

proof fn lemma_call_progress(v: TrainerView, actions: Seq<i32>, policy: Seq<Seq<i32>>)
    requires
        run_inv(v),
        !v.paused,
        actions.len() == v.n_scouts,
    ensures
        ({
            let (r, w) = called(v, actions, policy);
            &&& run_inv(w)
            &&& !w.paused
            &&& r is Reported
            &&& run_over(v) ==> w == v && r == Called::Reported(Some(TrainerEventView::TrainingComplete))
            &&& !run_over(v) ==> work_left(w) < work_left(v)
            &&& (w.current_episode == v.current_episode || w.current_episode == v.current_episode + 1)
            &&& update_of(r) == (if w.current_episode == v.current_episode + 1 {
                Some(w.current_episode)
            } else {
                None
            })
            &&& v.n_scouts >= 1 ==> r != Called::Reported(None)
        }),
{
    let (r, w) = called(v, actions, policy);
    match work_of(v) {
        StepWork::Pending => {
            assert(!(v.pending[0] is TrainingUpdate));
            assert(queue_ok(w.pending)) by {
                assert forall|i: int| 0 <= i < w.pending.len() implies !((#[trigger] w.pending[i]) is TrainingUpdate)
                    && !(w.pending[i] is TrainingComplete) by {
                    assert(w.pending[i] == v.pending[i + 1]);
                }
            }
        },
        StepWork::Wait => {},
        StepWork::Explore => {
            lemma_explored_progress(v, actions);
        },
        StepWork::FinishEpisode => {
            lemma_closed_progress(v, policy);
            assert(called(v, Seq::empty(), policy).1 == w);
        },
        StepWork::Complete => {},
    }
}

/// Over `k` calls of an unpaused run: the invariant holds, every call
/// reports, the run gets closer to its end by at least one call each time
/// until it is over, and the training updates reported are for the episodes
/// after the starting one, in order, one per episode counted.
proof fn lemma_calls(v: TrainerView, actions: Seq<Seq<i32>>, policies: Seq<Seq<Seq<i32>>>, k: int)
    requires
        run_inv(v),
        !v.paused,
        0 <= k,
        forall|j: int| 0 <= j < k ==> (#[trigger] actions[j]).len() == v.n_scouts,
    ensures
        ({
            let w = after_calls(v, actions, policies, k);
            &&& run_inv(w)
            &&& !w.paused
            &&& w.config == v.config
            &&& w.n_scouts == v.n_scouts
            &&& run_over(w) || work_left(w) + k <= work_left(v)
            &&& v.current_episode <= w.current_episode
            &&& updates_reported(v, actions, policies, k) == Seq::new(
                (w.current_episode - v.current_episode) as nat,
                |i: int| (v.current_episode + i + 1) as i32,
            )
        }),
        forall|j: int| 0 <= j < k ==> #[trigger] report_of_call(v, actions, policies, j) is Reported,
        v.n_scouts >= 1 ==> forall|j: int|
            0 <= j < k ==> #[trigger] report_of_call(v, actions, policies, j) != Called::Reported(None),
    decreases k,
{
    if k > 0 {
        lemma_calls(v, actions, policies, k - 1);
        let u = after_calls(v, actions, policies, k - 1);
        assert(actions[k - 1].len() == v.n_scouts);
        lemma_call_progress(u, actions[k - 1], policies[k - 1]);
        let w = after_calls(v, actions, policies, k);
        let before = updates_reported(v, actions, policies, k - 1);
        let now = updates_reported(v, actions, policies, k);
        if w.current_episode == u.current_episode + 1 {
            assert(now =~= Seq::new(
                (w.current_episode - v.current_episode) as nat,
                |i: int| (v.current_episode + i + 1) as i32,
            ));
        } else {
            assert(now =~= Seq::new(
                (w.current_episode - v.current_episode) as nat,
                |i: int| (v.current_episode + i + 1) as i32,
            ));
        }
        if run_over(u) {
            assert(run_over(w));
        }
    }
}

/// The trainer as `new` makes it for `config`.
pub open spec fn started(config: TrainingConfig) -> TrainerView {
    TrainerView {
        config,
        n_scouts: config.n_scouts as usize,
        current_episode: 0,
        paused: false,
        phase: PhaseView::Exploring {
            runs: fresh_runs(config, config.n_scouts as nat),
            global_step: 0,
        },
        pending: Seq::empty(),
        history: Seq::empty(),
    }
}

/// A run, once over, reports its completion on every further call and no
/// longer changes.
pub proof fn law_finished_run_repeats(v: TrainerView, actions: Seq<i32>, policy: Seq<Seq<i32>>)
    requires
        run_over(v),
        !v.paused,
    ensures
        called(v, actions, policy) == (
        Called::Reported(Some(TrainerEventView::TrainingComplete)),
        v,
        ),
{
}

/// A training run, unpaused, ends: started as `new` starts it and stepped
/// with any choice of moves and policies, it is over after at most the
/// run's number of episodes times `episode_cost` calls. By then it has
/// reported one training update per episode, for episodes 1, 2, ... up to the
/// configured number (at least one) in order, and keeps one history entry per
/// episode; every call has reported something, an event whenever there is a
/// scout; and every further call reports that training is complete.
pub proof fn law_run_completes(
    config: TrainingConfig,
    actions: Seq<Seq<i32>>,
    policies: Seq<Seq<Seq<i32>>>,
    k: int,
)
    requires
        config.n_scouts >= 0,
        config.grid_size >= 0,
        k >= episodes_of(config) * episode_cost(started(config)),
        forall|j: int| 0 <= j < k ==> (#[trigger] actions[j]).len() == config.n_scouts,
    ensures
        ({
            let v = started(config);
            let w = after_calls(v, actions, policies, k);
            &&& run_over(w)
            &&& w.current_episode == episodes_of(config)
            &&& w.history.len() == episodes_of(config)
            &&& updates_reported(v, actions, policies, k) == Seq::new(
                episodes_of(config) as nat,
                |i: int| (i + 1) as i32,
            )
            &&& forall|j: int| 0 <= j < k ==> #[trigger] report_of_call(v, actions, policies, j) is Reported
            &&& config.n_scouts >= 1 ==> forall|j: int|
                0 <= j < k ==> #[trigger] report_of_call(v, actions, policies, j) != Called::Reported(
                    None,
                )
            &&& called(w, actions[k], policies[k]) == (
            Called::Reported(Some(TrainerEventView::TrainingComplete)),
            w,
            )
        }),
{
    let v = started(config);
    lemma_fresh_runs_wf(config, config.n_scouts as nat);
    assert(run_inv(v));
    let c = episode_cost(v);
    let e = episodes_of(config);
    assert(work_left(v) == (e - 1) * c + c);
    assert((e - 1) * c + c == e * c) by (nonlinear_arith);
    lemma_calls(v, actions, policies, k);
    let w = after_calls(v, actions, policies, k);
    lemma_work_left_positive(w);
}

/// While the trainer is paused, calls report the events that were already
/// pending, oldest first, and then only wait: nothing else changes, and no
/// new event is made. Resuming afterwards gives back the trainer as it was,
/// less the events reported.
pub proof fn law_paused_calls(v: TrainerView, actions: Seq<Seq<i32>>, policies: Seq<Seq<Seq<i32>>>, k: int)
    requires
        v.paused,
        0 <= k,
    ensures
        run_inv(v) ==> run_inv(after_calls(v, actions, policies, k)),
        ({
            let q = v.pending.len() as int;
            let done = if k < q { k } else { q };
            &&& after_calls(v, actions, policies, k) == TrainerView {
                pending: v.pending.subrange(done, q),
                ..v
            }
            &&& forall|j: int|
                0 <= j < k ==> #[trigger] report_of_call(v, actions, policies, j) == if j < q {
                    Called::Reported(Some(v.pending[j]))
                } else {
                    Called::Waited
                }
        }),
    decreases k,
{
    let q = v.pending.len() as int;
    if k > 0 {
        law_paused_calls(v, actions, policies, k - 1);
        let u = after_calls(v, actions, policies, k - 1);
        let d = if k - 1 < q { k - 1 } else { q };
        if k - 1 < q {
            assert(u.pending[0] == v.pending[k - 1]);
            assert(u.pending.drop_first() =~= v.pending.subrange(k, q));
            if run_inv(v) {
                let w = after_calls(v, actions, policies, k);
                assert forall|i: int| 0 <= i < w.pending.len() implies !((#[trigger] w.pending[i]) is TrainingUpdate)
                    && !(w.pending[i] is TrainingComplete) by {
                    assert(w.pending[i] == v.pending[k + i]);
                }
            }
        } else {
            assert(u.pending =~= Seq::<TrainerEventView>::empty());
        }
    } else {
        assert(v.pending.subrange(0, q) =~= v.pending);
    }
}

/// From any point of a run at which the trainer is not paused: the run's
/// invariant keeps holding, and after at most `work_left` calls the run is
/// over, having reported the training updates of the remaining episodes in
/// order. With `law_paused_calls` (a paused stretch only reports what was
/// pending) this covers a run that is paused and later resumed: it still
/// ends with its training updates and its completion.
pub proof fn law_run_ends_from(v: TrainerView, actions: Seq<Seq<i32>>, policies: Seq<Seq<Seq<i32>>>, k: int)
    requires
        run_inv(v),
        !v.paused,
        0 <= k,
        forall|j: int| 0 <= j < k ==> (#[trigger] actions[j]).len() == v.n_scouts,
    ensures
        ({
            let w = after_calls(v, actions, policies, k);
            &&& run_inv(w)
            &&& !w.paused
            &&& k >= work_left(v) ==> {
                &&& run_over(w)
                &&& w.current_episode == episodes_of(v.config)
                &&& updates_reported(v, actions, policies, k) == Seq::new(
                    (episodes_of(v.config) - v.current_episode) as nat,
                    |i: int| (v.current_episode + i + 1) as i32,
                )
            }
        }),
{
    lemma_calls(v, actions, policies, k);
    let w = after_calls(v, actions, policies, k);
    lemma_work_left_positive(w);
}

/// The trainer as `new` makes it satisfies the run's invariant.
pub proof fn law_started_run(config: TrainingConfig)
    requires
        config.n_scouts >= 0,
        config.grid_size >= 0,
    ensures
        run_inv(started(config)),
        work_left(started(config)) == episodes_of(config) * episode_cost(started(config)),
{
    lemma_fresh_runs_wf(config, config.n_scouts as nat);
    let c = episode_cost(started(config));
    let e = episodes_of(config);
    assert((e - 1) * c + c == e * c) by (nonlinear_arith);
}

} // verus!
