//! The episode bookkeeping of the streaming trainer.
//!
//! All scouts explore the same grid world in parallel, one move each per step.
//! When every scout is done the episode is summarised, the episode counter
//! advances and, every fifth episode, the learned policy is published. The
//! choice of moves and the learning itself work on floating-point values and
//! are made by the caller; this type takes the chosen moves and does the rest.
use vstd::prelude::*;
use std::collections::VecDeque;
use crate::backend::events::TrainingConfig;
use crate::backend::grid_world::{GridWorld, StepOutcome, moved};
use crate::backend::run::{
    event_view, explored, episode_closed, policy_queued, popped, started, work_of, TrainerView,
};

verus! {

/// How often (in episodes) the learned policy is handed to the scouts and
/// published.
pub const POLICY_PERIOD: i32 = 5;

/// Scout 0 always explores at random: it is the baseline that the learning
/// scouts are compared with.
pub fn explores_at_random(index: usize) -> (random: bool)
    ensures
        random == (index == 0),
{
    index == 0
}

/// One scout's progress through the current episode.
#[derive(Clone, Copy, Debug, PartialEq, Eq)]
pub struct ScoutRun {
    pub env: GridWorld,
    /// Where the scout stands (not moved by the final, episode-ending step).
    pub pos: (i32, i32),
    pub step_count: i32,
    pub done: bool,
    pub reached_goal: bool,
}

/// One scout's move within a step.
#[derive(Clone, Copy, Debug, PartialEq, Eq)]
pub struct ScoutMove {
    pub scout_index: usize,
    /// The position the move started from.
    pub from: (i32, i32),
    /// The position the move led to.
    pub position: (i32, i32),
    pub action: i32,
    /// The move reached the goal (reward 1.0, otherwise -0.01).
    pub reached_goal: bool,
    pub done: bool,
}

/// How one scout's episode ended. Its rewards were -0.01 for every move but a
/// final goal move, which earned 1.0.
#[derive(Clone, Copy, Debug, PartialEq, Eq)]
pub struct EpisodeOutcome {
    pub steps: i32,
    pub reached_goal: bool,
}

/// The result of one episode over all scouts.
#[derive(Debug)]
pub struct EpisodeSummary {
    /// How many scouts reached the goal.
    pub successes: i32,
    /// The moves made by all scouts together.
    pub total_steps: i32,
    /// Each scout's outcome, by scout index.
    pub outcomes: Vec<EpisodeOutcome>,
}

pub struct EpisodeSummaryView {
    pub successes: i32,
    pub total_steps: i32,
    pub outcomes: Seq<EpisodeOutcome>,
}

impl View for EpisodeSummary {
    type V = EpisodeSummaryView;

    open spec fn view(&self) -> EpisodeSummaryView {
        EpisodeSummaryView {
            successes: self.successes,
            total_steps: self.total_steps,
            outcomes: self.outcomes@,
        }
    }
}

/// What the trainer reports to the client.
#[derive(Debug)]
pub enum TrainerEvent {
    /// One scout's position update: one move of the given step.
    ScoutMove { scout_move: ScoutMove, step: i32 },
    /// One scout's episode has ended.
    EpisodeComplete { scout_index: usize, reached_goal: bool, steps: i32 },
    /// An episode is over; `episode` counts the episodes done so far.
    TrainingUpdate { episode: i32, total_episodes: i32, summary: EpisodeSummary },
    /// The greedy action in each cell.
    PolicyUpdate { policy: Vec<Vec<i32>> },
    /// All episodes are done; the history goes with it.
    TrainingComplete,
}

pub enum TrainerEventView {
    ScoutMove { scout_move: ScoutMove, step: i32 },
    EpisodeComplete { scout_index: usize, reached_goal: bool, steps: i32 },
    TrainingUpdate { episode: i32, total_episodes: i32, summary: EpisodeSummaryView },
    PolicyUpdate { policy: Seq<Seq<i32>> },
    TrainingComplete,
}

impl View for TrainerEvent {
    type V = TrainerEventView;

    open spec fn view(&self) -> TrainerEventView {
        match self {
            TrainerEvent::ScoutMove { scout_move, step } => TrainerEventView::ScoutMove {
                scout_move: *scout_move,
                step: *step,
            },
            TrainerEvent::EpisodeComplete { scout_index, reached_goal, steps } =>
                TrainerEventView::EpisodeComplete {
                scout_index: *scout_index,
                reached_goal: *reached_goal,
                steps: *steps,
            },
            TrainerEvent::TrainingUpdate { episode, total_episodes, summary } =>
                TrainerEventView::TrainingUpdate {
                episode: *episode,
                total_episodes: *total_episodes,
                summary: summary@,
            },
            TrainerEvent::PolicyUpdate { policy } => TrainerEventView::PolicyUpdate {
                policy: policy.deep_view(),
            },
            TrainerEvent::TrainingComplete => TrainerEventView::TrainingComplete,
        }
    }
}

/// The views of a sequence of events.
pub open spec fn events_view(events: Seq<TrainerEvent>) -> Seq<TrainerEventView> {
    events.map_values(|e: TrainerEvent| e@)
}

/// The views of a sequence of summaries.
pub open spec fn summaries_view(s: Seq<EpisodeSummary>) -> Seq<EpisodeSummaryView> {
    s.map_values(|e: EpisodeSummary| e@)
}

/// Where the trainer is within the run.
pub enum TrainerPhase {
    /// All scouts are exploring in parallel; `global_step` counts the steps.
    ParallelExploring { runs: Vec<ScoutRun>, global_step: i32 },
    /// All scouts are done; the summary waits to be reported.
    EpisodeDone { summary: EpisodeSummary },
    /// All episodes are done.
    Finished,
}

/// A scout at the start of an episode of the given configuration.
pub open spec fn fresh_run(config: TrainingConfig) -> ScoutRun {
    ScoutRun {
        env: GridWorld {
            size: config.grid_size,
            position: (0, 0),
            goal: ((config.grid_size - 1) as i32, (config.grid_size - 1) as i32),
            steps: 0,
            max_steps: config.steps_per_episode,
        },
        pos: (0, 0),
        step_count: 0,
        done: false,
        reached_goal: false,
    }
}

/// `n` scouts at the start of an episode.
pub open spec fn fresh_runs(config: TrainingConfig, n: nat) -> Seq<ScoutRun> {
    Seq::new(n, |i: int| fresh_run(config))
}

/// The most moves a scout makes in one episode: the step budget, and at
/// least one.
pub open spec fn step_bound(config: TrainingConfig) -> int {
    if config.steps_per_episode > 1 {
        config.steps_per_episode as int
    } else {
        1
    }
}

impl ScoutRun {
    /// The run belongs to an episode of this configuration and its fields agree.
    pub open spec fn wf(self, config: TrainingConfig) -> bool {
        &&& self.step_count <= step_bound(config)
        &&& self.env.wf()
        &&& self.env.size == config.grid_size
        &&& self.env.max_steps == config.steps_per_episode
        &&& self.step_count == self.env.steps
        &&& !self.done ==> self.pos == self.env.position
        &&& self.reached_goal ==> self.done
    }

    /// The run after the scout takes `action`.
    pub open spec fn advanced(self, action: i32) -> ScoutRun {
        let out = self.env.step_outcome(action);
        ScoutRun {
            env: self.env.stepped(action),
            pos: if out.done { self.pos } else { out.position },
            step_count: (self.step_count + 1) as i32,
            done: out.done,
            reached_goal: if out.done { out.reached_goal } else { self.reached_goal },
        }
    }

    /// The record of that move.
    pub open spec fn move_record(self, index: int, action: i32) -> ScoutMove {
        let out = self.env.step_outcome(action);
        ScoutMove {
            scout_index: index as usize,
            from: self.pos,
            position: out.position,
            action,
            reached_goal: out.reached_goal,
            done: out.done,
        }
    }
}

/// Every scout still exploring takes its action; finished scouts stay put.
pub open spec fn advanced_runs(runs: Seq<ScoutRun>, actions: Seq<i32>) -> Seq<ScoutRun> {
    Seq::new(
        runs.len(),
        |i: int| if runs[i].done { runs[i] } else { runs[i].advanced(actions[i]) },
    )
}

/// The moves of the first `k` scouts, in index order, skipping finished ones.
pub open spec fn moves_upto(runs: Seq<ScoutRun>, actions: Seq<i32>, k: int) -> Seq<ScoutMove>
    decreases k,
{
    if k <= 0 {
        Seq::empty()
    } else {
        let before = moves_upto(runs, actions, k - 1);
        if runs[k - 1].done {
            before
        } else {
            before.push(runs[k - 1].move_record(k - 1, actions[k - 1]))
        }
    }
}

/// The moves of one step.
pub open spec fn step_moves(runs: Seq<ScoutRun>, actions: Seq<i32>) -> Seq<ScoutMove> {
    moves_upto(runs, actions, runs.len() as int)
}

/// Some scout is still exploring.
pub open spec fn any_active(runs: Seq<ScoutRun>) -> bool {
    exists|i: int| 0 <= i < runs.len() && !runs[i].done
}

/// How many scouts are still exploring.
pub open spec fn active_count(runs: Seq<ScoutRun>) -> int
    decreases runs.len(),
{
    if runs.len() == 0 {
        0
    } else {
        active_count(runs.drop_last()) + if runs.last().done { 0int } else { 1int }
    }
}

/// How many scouts reached the goal.
pub open spec fn goal_count(runs: Seq<ScoutRun>) -> int
    decreases runs.len(),
{
    if runs.len() == 0 {
        0
    } else {
        goal_count(runs.drop_last()) + if runs.last().reached_goal { 1int } else { 0int }
    }
}

/// All scouts' moves together.
pub open spec fn steps_sum(runs: Seq<ScoutRun>) -> int
    decreases runs.len(),
{
    if runs.len() == 0 {
        0
    } else {
        steps_sum(runs.drop_last()) + runs.last().step_count
    }
}

/// Each scout's outcome.
pub open spec fn outcomes_of(runs: Seq<ScoutRun>) -> Seq<EpisodeOutcome> {
    Seq::new(
        runs.len(),
        |i: int| EpisodeOutcome { steps: runs[i].step_count, reached_goal: runs[i].reached_goal },
    )
}

/// The summary of an episode whose scouts ended as `runs` say.
pub open spec fn summary_of(runs: Seq<ScoutRun>) -> EpisodeSummaryView {
    EpisodeSummaryView {
        successes: goal_count(runs) as i32,
        total_steps: steps_sum(runs) as i32,
        outcomes: outcomes_of(runs),
    }
}

/// The position update of each move of a step, in the order of the moves.
pub open spec fn move_events(moves: Seq<ScoutMove>, step: i32) -> Seq<TrainerEventView> {
    Seq::new(moves.len(), |j: int| TrainerEventView::ScoutMove { scout_move: moves[j], step })
}

/// The per-scout completion events of an episode, by scout index.
pub open spec fn completion_events(runs: Seq<ScoutRun>) -> Seq<TrainerEventView> {
    Seq::new(
        runs.len(),
        |i: int|
            TrainerEventView::EpisodeComplete {
                scout_index: i as usize,
                reached_goal: runs[i].reached_goal,
                steps: runs[i].step_count,
            },
    )
}

/// The summary's counts agree with its outcomes, and every scout's episode
/// lasted at most `bound` moves.
pub open spec fn summary_consistent(s: EpisodeSummaryView, n: nat, bound: int) -> bool {
    &&& s.outcomes.len() == n
    &&& forall|i: int| 0 <= i < n ==> 0 <= (#[trigger] s.outcomes[i]).steps <= bound
    &&& s.successes == outcome_goals(s.outcomes)
    &&& s.total_steps == outcome_steps(s.outcomes)
}

pub open spec fn outcome_goals(o: Seq<EpisodeOutcome>) -> int
    decreases o.len(),
{
    if o.len() == 0 {
        0
    } else {
        outcome_goals(o.drop_last()) + if o.last().reached_goal { 1int } else { 0int }
    }
}

pub open spec fn outcome_steps(o: Seq<EpisodeOutcome>) -> int
    decreases o.len(),
{
    if o.len() == 0 {
        0
    } else {
        outcome_steps(o.drop_last()) + o.last().steps
    }
}

/// The step-by-step trainer's bookkeeping.
pub struct StreamingTrainer {
    pub config: TrainingConfig,
    /// The number of scouts (`config.n_scouts`).
    pub n_scouts: usize,
    /// The episodes finished so far.
    pub current_episode: i32,
    pub paused: bool,
    pub phase: TrainerPhase,
    /// Events waiting to be reported, first in first out.
    pub pending: VecDeque<TrainerEvent>,
    /// The summary of every finished episode, in order.
    pub history: Vec<EpisodeSummary>,
}

/// The runs of an exploring phase agree with the configuration and with the
/// step counter: `n` of them, each well formed, the ones still exploring all
/// at the counter, which stays below the step budget once a step is taken.
pub open spec fn runs_ok(config: TrainingConfig, n: nat, runs: Seq<ScoutRun>, global_step: i32) -> bool {
    &&& runs.len() == n
    &&& forall|i: int| 0 <= i < runs.len() ==> #[trigger] runs[i].wf(config)
    &&& forall|i: int|
        0 <= i < runs.len() && !runs[i].done ==> {
            &&& #[trigger] runs[i].step_count == global_step
            &&& (global_step == 0 || global_step < config.steps_per_episode)
        }
    &&& 0 <= global_step
    &&& global_step > 0 ==> any_active(runs)
}

impl StreamingTrainer {
    /// The exploring phase's runs agree with the configuration and with the
    /// step counter.
    pub open spec fn runs_wf(self, runs: Seq<ScoutRun>, global_step: i32) -> bool {
        runs_ok(self.config, self.n_scouts as nat, runs, global_step)
    }

    /// The trainer's invariant.
    pub open spec fn wf(self) -> bool {
        &&& self.config.n_scouts >= 0
        &&& self.config.grid_size >= 0
        &&& self.n_scouts == self.config.n_scouts
        &&& 0 <= self.current_episode
        &&& self.history@.len() == self.current_episode
        &&& forall|i: int|
            0 <= i < self.history@.len() ==> summary_consistent(
                #[trigger] self.history@[i]@,
                self.n_scouts as nat,
                step_bound(self.config),
            )
        &&& match self.phase {
            TrainerPhase::ParallelExploring { runs, global_step } => {
                &&& self.runs_wf(runs@, global_step)
                &&& (self.current_episode == 0 || self.current_episode < self.config.episodes)
            },
            TrainerPhase::EpisodeDone { summary } => {
                &&& summary_consistent(summary@, self.n_scouts as nat, step_bound(self.config))
                &&& (self.current_episode == 0 || self.current_episode < self.config.episodes)
            },
            TrainerPhase::Finished => true,
        }
    }

    pub open spec fn is_exploring(self) -> bool {
        self.phase is ParallelExploring
    }

    pub open spec fn is_episode_done(self) -> bool {
        self.phase is EpisodeDone
    }

    pub open spec fn is_finished(self) -> bool {
        self.phase is Finished
    }

    /// The runs of the exploring phase.
    pub open spec fn runs(self) -> Seq<ScoutRun> {
        match self.phase {
            TrainerPhase::ParallelExploring { runs, .. } => runs@,
            _ => Seq::empty(),
        }
    }

    /// The step counter of the exploring phase.
    pub open spec fn global_step(self) -> i32 {
        match self.phase {
            TrainerPhase::ParallelExploring { global_step, .. } => global_step,
            _ => 0,
        }
    }

    /// The summary waiting in the episode-done phase.
    pub open spec fn done_summary(self) -> EpisodeSummaryView {
        match self.phase {
            TrainerPhase::EpisodeDone { summary } => summary@,
            _ => EpisodeSummaryView { successes: 0, total_steps: 0, outcomes: Seq::empty() },
        }
    }

    pub open spec fn pending_view(self) -> Seq<TrainerEventView> {
        events_view(self.pending@)
    }

    pub open spec fn history_view(self) -> Seq<EpisodeSummaryView> {
        summaries_view(self.history@)
    }
}

fn fresh_runs_exec(config: TrainingConfig, n: usize) -> (runs: Vec<ScoutRun>)
    requires
        config.grid_size >= 0,
    ensures
        runs@ == fresh_runs(config, n as nat),
{
    let mut runs: Vec<ScoutRun> = Vec::new();
    let mut i: usize = 0;
    while i < n
        invariant
            i <= n,
            config.grid_size >= 0,
            runs@ == fresh_runs(config, i as nat),
        decreases n - i,
    {
        let mut env = GridWorld::new(config.grid_size, config.steps_per_episode);
        let pos = env.reset();
        runs.push(ScoutRun { env, pos, step_count: 0, done: false, reached_goal: false });
        i = i + 1;
        proof {
            assert(runs@ =~= fresh_runs(config, i as nat));
        }
    }
    runs
}

pub proof fn lemma_fresh_runs_wf(config: TrainingConfig, n: nat)
    requires
        config.grid_size >= 0,
    ensures
        runs_ok(config, n, fresh_runs(config, n), 0),
{
}

impl StreamingTrainer {
    /// A trainer at the start of the first episode, not paused, with nothing
    /// pending and no history.
    pub fn new(config: TrainingConfig) -> (trainer: Self)
        requires
            config.n_scouts >= 0,
            config.grid_size >= 0,
        ensures
            trainer@ == started(config),
            trainer.wf(),
            trainer.config == config,
            trainer.n_scouts == config.n_scouts,
            trainer.current_episode == 0,
            !trainer.paused,
            trainer.is_exploring(),
            trainer.runs() == fresh_runs(config, config.n_scouts as nat),
            trainer.global_step() == 0,
            trainer.pending@.len() == 0,
            trainer.history@.len() == 0,
    {
        let n = config.n_scouts as usize;
        let runs = fresh_runs_exec(config, n);
        let trainer = StreamingTrainer {
            config,
            n_scouts: n,
            current_episode: 0,
            paused: false,
            phase: TrainerPhase::ParallelExploring { runs, global_step: 0 },
            pending: VecDeque::new(),
            history: Vec::new(),
        };
        proof {
            lemma_fresh_runs_wf(config, n as nat);
            assert(events_view(trainer.pending@) =~= Seq::<TrainerEventView>::empty());
            assert(summaries_view(trainer.history@) =~= Seq::<EpisodeSummaryView>::empty());
        }
        trainer
    }

    /// Stops the trainer from stepping until `resume`.
    pub fn pause(&mut self)
        ensures
            final(self)@ == (TrainerView { paused: true, ..old(self)@ }),
            final(self).paused,
            final(self).config == old(self).config,
            final(self).n_scouts == old(self).n_scouts,
            final(self).current_episode == old(self).current_episode,
            final(self).phase == old(self).phase,
            final(self).pending == old(self).pending,
            final(self).history == old(self).history,
    {
        self.paused = true;
    }

    /// Lets a paused trainer step again.
    pub fn resume(&mut self)
        ensures
            final(self)@ == (TrainerView { paused: false, ..old(self)@ }),
            !final(self).paused,
            final(self).config == old(self).config,
            final(self).n_scouts == old(self).n_scouts,
            final(self).current_episode == old(self).current_episode,
            final(self).phase == old(self).phase,
            final(self).pending == old(self).pending,
            final(self).history == old(self).history,
    {
        self.paused = false;
    }

    /// Takes the oldest pending event, if any.
    pub fn pop_pending(&mut self) -> (event: Option<TrainerEvent>)
        ensures
            (event_view(event), final(self)@) == popped(old(self)@),
            old(self).pending@.len() == 0 ==> event is None && final(self).pending@ == old(
                self,
            ).pending@,
            old(self).pending@.len() > 0 ==> event == Some(old(self).pending@[0])
                && final(self).pending@ == old(self).pending@.drop_first(),
            final(self).config == old(self).config,
            final(self).n_scouts == old(self).n_scouts,
            final(self).current_episode == old(self).current_episode,
            final(self).paused == old(self).paused,
            final(self).phase == old(self).phase,
            final(self).history == old(self).history,
    {
        let e = self.pending.pop_front();
        proof {
            if old(self).pending@.len() > 0 {
                assert(self.pending@ =~= old(self).pending@.drop_first());
                assert(events_view(self.pending@) =~= events_view(old(self).pending@).drop_first());
            }
        }
        e
    }
}


proof fn lemma_prefix_counts(runs: Seq<ScoutRun>, actions: Seq<i32>, k: int)
    requires
        0 <= k <= runs.len(),
        actions.len() == runs.len(),
        forall|i: int| 0 <= i < runs.len() ==> #[trigger] runs[i].step_count >= 0,
        forall|i: int| 0 <= i < runs.len() && !runs[i].done ==> #[trigger] runs[i].step_count < i32::MAX,
    ensures
        steps_sum(advanced_runs(runs, actions).take(k)) == steps_sum(runs.take(k))
            + active_count(runs.take(k)),
        steps_sum(runs.take(k)) >= 0,
        0 <= active_count(runs.take(k)) <= k,
        0 <= goal_count(advanced_runs(runs, actions).take(k)) <= k,
    decreases k,
{
    let next = advanced_runs(runs, actions);
    if k > 0 {
        lemma_prefix_counts(runs, actions, k - 1);
        assert(next.take(k).drop_last() =~= next.take(k - 1));
        assert(runs.take(k).drop_last() =~= runs.take(k - 1));
        assert(next.take(k).last() == next[k - 1]);
        assert(runs.take(k).last() == runs[k - 1]);
    } else {
        assert(next.take(0) =~= Seq::<ScoutRun>::empty());
        assert(runs.take(0) =~= Seq::<ScoutRun>::empty());
    }
}

proof fn lemma_outcome_counts(runs: Seq<ScoutRun>)
    ensures
        outcome_goals(outcomes_of(runs)) == goal_count(runs),
        outcome_steps(outcomes_of(runs)) == steps_sum(runs),
    decreases runs.len(),
{
    if runs.len() > 0 {
        lemma_outcome_counts(runs.drop_last());
        assert(outcomes_of(runs).drop_last() =~= outcomes_of(runs.drop_last()));
    } else {
        assert(outcomes_of(runs) =~= Seq::<EpisodeOutcome>::empty());
    }
}

proof fn lemma_goal_count_bound(runs: Seq<ScoutRun>)
    ensures
        0 <= goal_count(runs) <= runs.len(),
    decreases runs.len(),
{
    if runs.len() > 0 {
        lemma_goal_count_bound(runs.drop_last());
    }
}

proof fn lemma_steps_sum_nonneg(runs: Seq<ScoutRun>)
    requires
        forall|i: int| 0 <= i < runs.len() ==> #[trigger] runs[i].step_count >= 0,
    ensures
        steps_sum(runs) >= 0,
    decreases runs.len(),
{
    if runs.len() > 0 {
        assert forall|i: int| 0 <= i < runs.drop_last().len() implies #[trigger] runs.drop_last()[i].step_count >= 0 by {
            assert(runs.drop_last()[i] == runs[i]);
        }
        lemma_steps_sum_nonneg(runs.drop_last());
    }
}

impl StreamingTrainer {
    /// Moves every scout that is still exploring by its action
    /// (`actions[i]` for scout `i`; the entries of finished scouts are not
    /// used). Each move's position update is queued, in the order of the
    /// moves. When the step ends the episode for all scouts, the episode
    /// summary is kept and each scout's completion is queued after them, by
    /// scout index.
    ///
    /// Returns the oldest pending event, taken from the queue (the first
    /// position update when nothing was pending before), and the step's moves.
    pub fn explore_step(&mut self, actions: &Vec<i32>) -> (res: (Option<TrainerEvent>, Vec<ScoutMove>))
        requires
            old(self).wf(),
            old(self).is_exploring(),
            actions@.len() == old(self).n_scouts,
            steps_sum(old(self).runs()) + active_count(old(self).runs()) <= i32::MAX,
        ensures
            (event_view(res.0), final(self)@) == explored(old(self)@, actions@),
            final(self).wf(),
            final(self).config == old(self).config,
            final(self).n_scouts == old(self).n_scouts,
            final(self).current_episode == old(self).current_episode,
            final(self).paused == old(self).paused,
            final(self).history == old(self).history,
            ({
                let runs = old(self).runs();
                let next = advanced_runs(runs, actions@);
                let reports = move_events(
                    step_moves(runs, actions@),
                    (old(self).global_step() + 1) as i32,
                );
                let ends = if any_active(next) {
                    Seq::<TrainerEventView>::empty()
                } else {
                    completion_events(next)
                };
                let queued = old(self).pending_view() + reports + ends;
                &&& res.1@ == step_moves(runs, actions@)
                &&& queued.len() == 0 ==> res.0 is None && final(self).pending_view() == queued
                &&& queued.len() > 0 ==> (res.0 matches Some(e) && e@ == queued[0]
                    && final(self).pending_view() == queued.drop_first())
                &&& any_active(next) ==> {
                    &&& final(self).is_exploring()
                    &&& final(self).runs() == next
                    &&& final(self).global_step() == old(self).global_step() + 1
                }
                &&& !any_active(next) ==> {
                    &&& final(self).is_episode_done()
                    &&& final(self).done_summary() == summary_of(next)
                }
            }),
    {
        let ghost old_runs = self.runs();
        let ghost old_pending = self.pending_view();
        let ghost gs0 = self.global_step();
        let mut phase = TrainerPhase::Finished;
        std::mem::swap(&mut phase, &mut self.phase);
        let (mut runs, global_step) = match phase {
            TrainerPhase::ParallelExploring { runs, global_step } => (runs, global_step),
            _ => {
                proof {
                    assert(false);
                }
                (Vec::new(), 0)
            },
        };
        assert(runs@ == old_runs);
        let ghost next = advanced_runs(old_runs, actions@);
        proof {
            assert forall|i: int| 0 <= i < old_runs.len() implies #[trigger] old_runs[i].step_count
                >= 0 by {
                assert(old_runs[i].wf(self.config));
            }
            if any_active(old_runs) {
                let j = choose|j: int| 0 <= j < old_runs.len() && !old_runs[j].done;
                assert(old_runs[j].step_count == global_step);
                assert(old_runs[j].wf(self.config));
            }
            assert forall|i: int| 0 <= i < old_runs.len() && !old_runs[i].done implies #[trigger] old_runs[i].step_count < i32::MAX by {
                assert(old_runs[i].step_count == global_step);
            }
            lemma_prefix_counts(old_runs, actions@, old_runs.len() as int);
            assert(old_runs.take(old_runs.len() as int) =~= old_runs);
            assert(next.take(next.len() as int) =~= next);
            if any_active(old_runs) {
                let j = choose|j: int| 0 <= j < old_runs.len() && !old_runs[j].done;
                assert(old_runs[j].step_count == global_step);
            }
        }
        let current_step = if global_step < i32::MAX { global_step + 1 } else { global_step };
        let mut moves: Vec<ScoutMove> = Vec::new();
        let mut active = false;
        let n = runs.len();
        let mut i: usize = 0;
        while i < n
            invariant
                n == old_runs.len(),
                n == actions@.len(),
                0 <= i <= n,
                runs@.len() == n,
                forall|j: int| 0 <= j < i ==> #[trigger] runs@[j] == next[j],
                forall|j: int| i <= j < n ==> #[trigger] runs@[j] == old_runs[j],
                forall|j: int| 0 <= j < n ==> #[trigger] old_runs[j].wf(self.config),
                forall|j: int|
                    0 <= j < n && !old_runs[j].done ==> #[trigger] old_runs[j].step_count
                        == global_step,
                any_active(old_runs) ==> global_step < i32::MAX,
                next == advanced_runs(old_runs, actions@),
                moves@ == moves_upto(old_runs, actions@, i as int),
                active == (exists|j: int| 0 <= j < i && !old_runs[j].done),
                !active ==> moves@.len() == 0,
            decreases n - i,
        {
            let run = runs[i];
            assert(run == old_runs[i as int]);
            assert(old_runs[i as int].wf(self.config));
            if !run.done {
                assert(any_active(old_runs));
                let mut env = run.env;
                let out = env.step(actions[i]);
                let next_run = ScoutRun {
                    env,
                    pos: if out.done { run.pos } else { out.position },
                    step_count: run.step_count + 1,
                    done: out.done,
                    reached_goal: if out.done { out.reached_goal } else { run.reached_goal },
                };
                runs.set(i, next_run);
                moves.push(ScoutMove {
                    scout_index: i,
                    from: run.pos,
                    position: out.position,
                    action: actions[i],
                    reached_goal: out.reached_goal,
                    done: out.done,
                });
                active = true;
            }
            i = i + 1;
        }
        assert(runs@ =~= next);
        assert(moves@ == step_moves(old_runs, actions@));
        // Each move's position update, in the order of the moves.
        let ghost reports = move_events(moves@, current_step);
        let mut j: usize = 0;
        while j < moves.len()
            invariant
                0 <= j <= moves@.len(),
                reports == move_events(moves@, current_step),
                events_view(self.pending@) == old_pending + reports.take(j as int),
                self.config == old(self).config,
                self.n_scouts == old(self).n_scouts,
                self.current_episode == old(self).current_episode,
                self.paused == old(self).paused,
                self.history == old(self).history,
            decreases moves@.len() - j,
        {
            let ghost before = self.pending@;
            self.pending.push_back(TrainerEvent::ScoutMove { scout_move: moves[j], step: current_step });
            j = j + 1;
            proof {
                assert(events_view(self.pending@) =~= events_view(before).push(reports[j - 1]));
                assert(reports.take(j as int) =~= reports.take(j - 1).push(reports[j - 1]));
            }
        }
        assert(reports.take(moves@.len() as int) =~= reports);
        let ghost reported = old_pending + reports;
        proof {
            assert forall|j: int| 0 <= j < n implies #[trigger] next[j].wf(self.config) by {
                assert(old_runs[j].wf(self.config));
            }
        }
        // Is any scout still exploring?
        let mut still = false;
        let mut k: usize = 0;
        while k < n
            invariant
                0 <= k <= n,
                runs@ == next,
                n == next.len(),
                still == (exists|j: int| 0 <= j < k && !next[j].done),
            decreases n - k,
        {
            if !runs[k].done {
                still = true;
            }
            k = k + 1;
        }
        if still {
            self.phase = TrainerPhase::ParallelExploring { runs, global_step: current_step };
            proof {
                assert(any_active(next));
                assert(any_active(old_runs)) by {
                    let j = choose|j: int| 0 <= j < n && !next[j].done;
                    assert(!old_runs[j].done);
                }
                assert(current_step == global_step + 1);
                lemma_next_runs_wf(self.config, self.n_scouts as nat, old_runs, actions@, global_step);
            }
        } else {
            let summary = summarize(&runs);
            let mut idx: usize = 0;
            while idx < n
                invariant
                    0 <= idx <= n,
                    runs@ == next,
                    n == next.len(),
                    events_view(self.pending@) == reported + completion_events(next).take(
                        idx as int,
                    ),
                    self.config == old(self).config,
                    self.n_scouts == old(self).n_scouts,
                    self.current_episode == old(self).current_episode,
                    self.paused == old(self).paused,
                    self.history == old(self).history,
                decreases n - idx,
            {
                let ghost before = self.pending@;
                self.pending.push_back(
                    TrainerEvent::EpisodeComplete {
                        scout_index: idx,
                        reached_goal: runs[idx].reached_goal,
                        steps: runs[idx].step_count,
                    },
                );
                idx = idx + 1;
                proof {
                    assert(events_view(self.pending@) =~= events_view(before).push(
                        completion_events(next)[idx - 1],
                    ));
                    assert(completion_events(next).take(idx as int) =~= completion_events(
                        next,
                    ).take(idx - 1).push(completion_events(next)[idx - 1]));
                }
            }
            assert(completion_events(next).take(n as int) =~= completion_events(next));
            self.phase = TrainerPhase::EpisodeDone { summary };
            proof {
                assert forall|i: int| 0 <= i < n implies 0 <= (#[trigger] outcomes_of(next)[i]).steps
                    <= step_bound(self.config) by {
                    assert(next[i].wf(self.config));
                }
                lemma_outcome_counts(next);
                lemma_goal_count_bound(next);
                lemma_steps_sum_nonneg(next);
            }
        }
        proof {
            let spec_reports = move_events(
                step_moves(old_runs, actions@),
                (gs0 + 1) as i32,
            );
            if active {
                assert(current_step == gs0 + 1);
            } else {
                assert(reports =~= Seq::<TrainerEventView>::empty());
                assert(spec_reports =~= Seq::<TrainerEventView>::empty());
            }
            assert(reports == spec_reports);
            if still {
                assert(self.pending_view() =~= reported + Seq::<TrainerEventView>::empty());
            }
        }
        let ghost queued = self.pending_view();
        let e = self.pending.pop_front();
        proof {
            if queued.len() > 0 {
                assert(self.pending_view() =~= queued.drop_first());
            } else {
                assert(self.pending_view() =~= queued);
            }
        }
        (e, moves)
    }
}

/// What the trainer does when it is asked for its next event.
#[derive(Clone, Copy, Debug, PartialEq, Eq)]
pub enum StepWork {
    /// Report the oldest pending event (`pop_pending`).
    Pending,
    /// Paused: report nothing and wait for `resume`.
    Wait,
    /// The exploring scouts make their moves (`explore_step`).
    Explore,
    /// Close the finished episode (`finish_episode`).
    FinishEpisode,
    /// Report that training is complete, as on every later call.
    Complete,
}

/// Pending events come first, even while paused; then a paused trainer
/// waits; otherwise the phase decides.
pub open spec fn step_work_spec(t: StreamingTrainer) -> StepWork {
    if t.pending@.len() > 0 {
        StepWork::Pending
    } else if t.paused {
        StepWork::Wait
    } else {
        match t.phase {
            TrainerPhase::ParallelExploring { .. } => StepWork::Explore,
            TrainerPhase::EpisodeDone { .. } => StepWork::FinishEpisode,
            TrainerPhase::Finished => StepWork::Complete,
        }
    }
}

impl StreamingTrainer {
    /// What the trainer does next when asked for an event.
    pub fn step_work(&self) -> (work: StepWork)
        ensures
            work == step_work_spec(*self),
            work == work_of(self@),
    {
        if self.pending.len() > 0 {
            StepWork::Pending
        } else if self.paused {
            StepWork::Wait
        } else {
            match &self.phase {
                TrainerPhase::ParallelExploring { .. } => StepWork::Explore,
                TrainerPhase::EpisodeDone { .. } => StepWork::FinishEpisode,
                TrainerPhase::Finished => StepWork::Complete,
            }
        }
    }
}

/// Counts the successes and steps of an episode whose scouts are all done.
fn summarize(runs: &Vec<ScoutRun>) -> (summary: EpisodeSummary)
    requires
        steps_sum(runs@) <= i32::MAX,
        runs@.len() <= i32::MAX,
        forall|j: int| 0 <= j < runs@.len() ==> #[trigger] runs@[j].step_count >= 0,
    ensures
        summary@ == summary_of(runs@),
{
    let mut successes: i32 = 0;
    let mut total_steps: i32 = 0;
    let mut outcomes: Vec<EpisodeOutcome> = Vec::new();
    let n = runs.len();
    let mut i: usize = 0;
    while i < n
        invariant
            0 <= i <= n,
            n == runs@.len(),
            n <= i32::MAX,
            steps_sum(runs@) <= i32::MAX,
            forall|j: int| 0 <= j < n ==> #[trigger] runs@[j].step_count >= 0,
            successes == goal_count(runs@.take(i as int)),
            total_steps == steps_sum(runs@.take(i as int)),
            outcomes@ == outcomes_of(runs@.take(i as int)),
        decreases n - i,
    {
        proof {
            assert(runs@.take(i + 1).drop_last() =~= runs@.take(i as int));
            lemma_goal_count_bound(runs@.take(i as int));
            lemma_prefix_sum_bound(runs@, i + 1);
        }
        let run = runs[i];
        if run.reached_goal {
            successes = successes + 1;
        }
        total_steps = total_steps + run.step_count;
        outcomes.push(EpisodeOutcome { steps: run.step_count, reached_goal: run.reached_goal });
        i = i + 1;
        proof {
            assert(outcomes@ =~= outcomes_of(runs@.take(i as int)));
        }
    }
    assert(runs@.take(n as int) =~= runs@);
    EpisodeSummary { successes, total_steps, outcomes }
}

pub proof fn lemma_next_runs_wf(
    config: TrainingConfig,
    n: nat,
    runs: Seq<ScoutRun>,
    actions: Seq<i32>,
    global_step: i32,
)
    requires
        runs_ok(config, n, runs, global_step),
        actions.len() == runs.len(),
        global_step < i32::MAX,
        any_active(advanced_runs(runs, actions)),
    ensures
        runs_ok(config, n, advanced_runs(runs, actions), (global_step + 1) as i32),
{
    let next = advanced_runs(runs, actions);
    assert forall|i: int| 0 <= i < next.len() implies #[trigger] next[i].wf(config) by {
        assert(runs[i].wf(config));
        if !runs[i].done {
            crate::backend::grid_world::lemma_stepped_wf(runs[i].env, actions[i]);
        }
    }
    assert forall|i: int| 0 <= i < next.len() && !next[i].done implies {
        &&& #[trigger] next[i].step_count == global_step + 1
        &&& (global_step + 1 == 0 || global_step + 1 < config.steps_per_episode)
    } by {
        assert(!runs[i].done);
        assert(runs[i].wf(config));
    }
}

proof fn lemma_prefix_sum_bound(runs: Seq<ScoutRun>, k: int)
    requires
        0 <= k <= runs.len(),
        forall|j: int| 0 <= j < runs.len() ==> #[trigger] runs[j].step_count >= 0,
    ensures
        steps_sum(runs.take(k)) <= steps_sum(runs),
    decreases runs.len() - k,
{
    if k < runs.len() {
        lemma_prefix_sum_bound(runs, k + 1);
        assert(runs.take(k + 1).drop_last() =~= runs.take(k));
        assert(runs.take(k + 1)[k] == runs[k]);
    } else {
        assert(runs.take(k) =~= runs);
    }
}


impl EpisodeSummary {
    /// A copy of the summary.
    pub fn duplicate(&self) -> (copy: EpisodeSummary)
        ensures
            copy@ == self@,
    {
        let mut outcomes: Vec<EpisodeOutcome> = Vec::new();
        let mut i: usize = 0;
        while i < self.outcomes.len()
            invariant
                0 <= i <= self.outcomes@.len(),
                outcomes@ == self.outcomes@.take(i as int),
            decreases self.outcomes@.len() - i,
        {
            outcomes.push(self.outcomes[i]);
            i = i + 1;
            proof {
                assert(outcomes@ =~= self.outcomes@.take(i as int));
            }
        }
        assert(self.outcomes@.take(self.outcomes@.len() as int) =~= self.outcomes@);
        EpisodeSummary {
            successes: self.successes,
            total_steps: self.total_steps,
            outcomes,
        }
    }
}

impl StreamingTrainer {
    /// Where each scout stands while it waits for its next action: `None` for
    /// a scout whose episode is over. Empty outside the exploring phase.
    pub fn awaiting_positions(&self) -> (out: Vec<Option<(i32, i32)>>)
        ensures
            self.is_exploring() ==> out@.len() == self.runs().len() && forall|i: int|
                0 <= i < out@.len() ==> #[trigger] out@[i] == if self.runs()[i].done {
                    None
                } else {
                    Some(self.runs()[i].pos)
                },
            !self.is_exploring() ==> out@.len() == 0,
    {
        let mut out: Vec<Option<(i32, i32)>> = Vec::new();
        match &self.phase {
            TrainerPhase::ParallelExploring { runs, .. } => {
                let mut i: usize = 0;
                while i < runs.len()
                    invariant
                        0 <= i <= runs@.len(),
                        runs@ == self.runs(),
                        out@.len() == i,
                        forall|j: int|
                            0 <= j < i ==> #[trigger] out@[j] == if runs@[j].done {
                                None
                            } else {
                                Some(runs@[j].pos)
                            },
                    decreases runs@.len() - i,
                {
                    let run = runs[i];
                    if run.done {
                        out.push(None);
                    } else {
                        out.push(Some(run.pos));
                    }
                    i = i + 1;
                }
            },
            _ => {},
        }
        out
    }

    /// The steps of this episode, counting the scouts' coming moves, still
    /// fit in an `i32` (the episode's total is an `i32`).
    pub fn episode_steps_fit(&self) -> (fits: bool)
        requires
            self.wf(),
        ensures
            self.is_exploring() ==> fits == (steps_sum(self.runs()) + active_count(self.runs())
                <= i32::MAX),
    {
        match &self.phase {
            TrainerPhase::ParallelExploring { runs, .. } => {
                let mut total: i64 = 0;
                let mut i: usize = 0;
                let n = runs.len();
                proof {
                    assert forall|j: int| 0 <= j < n implies #[trigger] runs@[j].step_count >= 0 by {
                        assert(runs@[j].wf(self.config));
                    }
                }
                while i < n
                    invariant
                        0 <= i <= n,
                        n == runs@.len(),
                        n <= i32::MAX,
                        forall|j: int| 0 <= j < n ==> #[trigger] runs@[j].step_count >= 0,
                        0 <= total <= i * (i32::MAX as int + 1),
                        total == steps_sum(runs@.take(i as int)) + active_count(
                            runs@.take(i as int),
                        ),
                    decreases n - i,
                {
                    proof {
                        assert(runs@.take(i + 1).drop_last() =~= runs@.take(i as int));
                        assert(runs@.take(i + 1).last() == runs@[i as int]);
                        assert((i + 1) * (i32::MAX as int + 1) == i * (i32::MAX as int + 1)
                            + (i32::MAX as int + 1)) by (nonlinear_arith);
                        assert((i + 1) * (i32::MAX as int + 1) <= (i32::MAX as int) * (i32::MAX as int + 1)) by (nonlinear_arith)
                            requires i + 1 <= i32::MAX as int;
                    }
                    let run = runs[i];
                    total = total + run.step_count as i64;
                    if !run.done {
                        total = total + 1;
                    }
                    i = i + 1;
                }
                assert(runs@.take(n as int) =~= runs@);
                total <= i32::MAX as i64
            },
            _ => true,
        }
    }

    /// Closes the finished episode: its summary joins the history, the
    /// episode counter advances and the summary is returned as a training
    /// update. The flag says whether this is a policy episode (every fifth),
    /// after which the caller hands the learned values to the scouts and
    /// queues the policy. Training is finished after the configured number
    /// of episodes; otherwise a new episode starts with all scouts back at
    /// the start.
    pub fn finish_episode(&mut self) -> (res: (TrainerEvent, bool))
        requires
            old(self).wf(),
            old(self).is_episode_done(),
        ensures
            (res.0@, final(self)@) == episode_closed(old(self)@),
            final(self).wf(),
            final(self).config == old(self).config,
            final(self).n_scouts == old(self).n_scouts,
            final(self).paused == old(self).paused,
            final(self).pending == old(self).pending,
            final(self).current_episode == old(self).current_episode + 1,
            final(self).history_view() == old(self).history_view().push(old(self).done_summary()),
            res.0@ == (TrainerEventView::TrainingUpdate {
                episode: final(self).current_episode,
                total_episodes: old(self).config.episodes,
                summary: old(self).done_summary(),
            }),
            res.1 == (final(self).current_episode % POLICY_PERIOD == 0),
            final(self).current_episode >= old(self).config.episodes ==> final(self).is_finished(),
            final(self).current_episode < old(self).config.episodes ==> {
                &&& final(self).is_exploring()
                &&& final(self).runs() == fresh_runs(old(self).config, old(self).n_scouts as nat)
                &&& final(self).global_step() == 0
            },
    {
        let ghost old_history = self.history_view();
        let mut phase = TrainerPhase::Finished;
        std::mem::swap(&mut phase, &mut self.phase);
        let summary = match phase {
            TrainerPhase::EpisodeDone { summary } => summary,
            _ => {
                proof {
                    assert(false);
                }
                EpisodeSummary { successes: 0, total_steps: 0, outcomes: Vec::new() }
            },
        };
        let recorded = summary.duplicate();
        self.history.push(recorded);
        self.current_episode = self.current_episode + 1;
        proof {
            assert(self.history_view() =~= old_history.push(summary@));
            assert forall|i: int|
                0 <= i < self.history@.len() implies summary_consistent(
                #[trigger] self.history@[i]@,
                self.n_scouts as nat,
                step_bound(self.config),
            ) by {
                if i < old_history.len() {
                    assert(self.history@[i] == old(self).history@[i]);
                }
            }
        }
        let refresh = self.current_episode % POLICY_PERIOD == 0;
        if self.current_episode >= self.config.episodes {
            self.phase = TrainerPhase::Finished;
        } else {
            let runs = fresh_runs_exec(self.config, self.n_scouts);
            self.phase = TrainerPhase::ParallelExploring { runs, global_step: 0 };
            proof {
                lemma_fresh_runs_wf(self.config, self.n_scouts as nat);
            }
        }
        let event = TrainerEvent::TrainingUpdate {
            episode: self.current_episode,
            total_episodes: self.config.episodes,
            summary,
        };
        (event, refresh)
    }

    /// Queues the learned policy for publication.
    pub fn queue_policy_update(&mut self, policy: Vec<Vec<i32>>)
        ensures
            final(self)@ == policy_queued(old(self)@, policy.deep_view()),
            final(self).pending@ == old(self).pending@.push(TrainerEvent::PolicyUpdate { policy }),
            final(self).config == old(self).config,
            final(self).n_scouts == old(self).n_scouts,
            final(self).current_episode == old(self).current_episode,
            final(self).paused == old(self).paused,
            final(self).phase == old(self).phase,
            final(self).history == old(self).history,
    {
        let ghost p = policy.deep_view();
        self.pending.push_back(TrainerEvent::PolicyUpdate { policy });
        proof {
            assert(events_view(self.pending@) =~= events_view(old(self).pending@).push(
                TrainerEventView::PolicyUpdate { policy: p },
            ));
        }
    }
}

proof fn lemma_goal_steps_bounds(o: Seq<EpisodeOutcome>, bound: int)
    requires
        forall|i: int| 0 <= i < o.len() ==> 0 <= (#[trigger] o[i]).steps <= bound,
    ensures
        0 <= outcome_goals(o) <= o.len(),
        0 <= outcome_steps(o) <= o.len() * bound,
    decreases o.len(),
{
    if o.len() > 0 {
        let p = o.drop_last();
        assert forall|i: int| 0 <= i < p.len() implies 0 <= (#[trigger] p[i]).steps <= bound by {
            assert(p[i] == o[i]);
        }
        lemma_goal_steps_bounds(p, bound);
        assert(o.last() == o[o.len() - 1]);
        assert(o.len() * bound == p.len() * bound + bound) by (nonlinear_arith)
            requires o.len() == p.len() + 1;
    }
}

/// In every episode summary, no more scouts succeed than there are, and the
/// scouts' moves together are at most the scouts times the step bound.
pub proof fn law_summary_bounds(s: EpisodeSummaryView, n: nat, bound: int)
    requires
        summary_consistent(s, n, bound),
    ensures
        0 <= s.successes <= n,
        0 <= s.total_steps <= n * bound,
{
    lemma_goal_steps_bounds(s.outcomes, bound);
}

proof fn lemma_moves_on_board(runs: Seq<ScoutRun>, actions: Seq<i32>, config: TrainingConfig, k: int)
    requires
        0 <= k <= runs.len() <= usize::MAX,
        actions.len() == runs.len(),
        config.grid_size >= 1,
        forall|i: int| 0 <= i < runs.len() ==> #[trigger] runs[i].wf(config),
        forall|i: int| 0 <= i < runs.len() && !runs[i].done ==> #[trigger] runs[i].step_count < i32::MAX,
    ensures
        forall|j: int|
            0 <= j < moves_upto(runs, actions, k).len() ==> {
                let m = #[trigger] moves_upto(runs, actions, k)[j];
                &&& 0 <= m.position.0 < config.grid_size
                &&& 0 <= m.position.1 < config.grid_size
                &&& (m.scout_index as int) < k
            },
    decreases k,
{
    if k > 0 {
        lemma_moves_on_board(runs, actions, config, k - 1);
        let r = runs[k - 1];
        assert(r.wf(config));
        if !r.done {
            crate::backend::grid_world::lemma_stepped_wf(r.env, actions[k - 1]);
            crate::backend::grid_world::lemma_position_inside_board(r.env.stepped(actions[k - 1]));
            let before = moves_upto(runs, actions, k - 1);
            assert forall|j: int| 0 <= j < moves_upto(runs, actions, k).len() implies {
                let m = #[trigger] moves_upto(runs, actions, k)[j];
                &&& 0 <= m.position.0 < config.grid_size
                &&& 0 <= m.position.1 < config.grid_size
                &&& (m.scout_index as int) < k
            } by {
                if j < before.len() {
                    assert(moves_upto(runs, actions, k)[j] == before[j]);
                }
            }
        } else {
            let before = moves_upto(runs, actions, k - 1);
            assert(moves_upto(runs, actions, k) == before);
            assert forall|j: int| 0 <= j < moves_upto(runs, actions, k).len() implies {
                let m = #[trigger] moves_upto(runs, actions, k)[j];
                &&& 0 <= m.position.0 < config.grid_size
                &&& 0 <= m.position.1 < config.grid_size
                &&& (m.scout_index as int) < k
            } by {
                assert(moves_upto(runs, actions, k)[j] == before[j]);
            }
        }
    }
}

/// A step reports at most one move per scout.
pub proof fn lemma_moves_upto_len(runs: Seq<ScoutRun>, actions: Seq<i32>, k: int)
    requires
        0 <= k,
    ensures
        moves_upto(runs, actions, k).len() <= k,
    decreases k,
{
    if k > 0 {
        lemma_moves_upto_len(runs, actions, k - 1);
    }
}

/// The moves of the first `k` scouts name exactly the exploring ones among
/// them, by increasing index, and each is that scout's move by its action.
pub proof fn lemma_moves_upto_exact(runs: Seq<ScoutRun>, actions: Seq<i32>, k: int)
    requires
        0 <= k <= runs.len() <= usize::MAX,
        actions.len() == runs.len(),
    ensures
        ({
            let ms = moves_upto(runs, actions, k);
            &&& forall|j: int|
                0 <= j < ms.len() ==> {
                    let i = (#[trigger] ms[j]).scout_index as int;
                    &&& 0 <= i < k
                    &&& !runs[i].done
                    &&& ms[j] == runs[i].move_record(i, actions[i])
                }
            &&& forall|j1: int, j2: int|
                0 <= j1 < j2 < ms.len() ==> (#[trigger] ms[j1]).scout_index < (
                #[trigger] ms[j2]).scout_index
            &&& forall|i: int|
                0 <= i < k && !(#[trigger] runs[i]).done ==> exists|j: int|
                    0 <= j < ms.len() && (#[trigger] ms[j]).scout_index == i
        }),
    decreases k,
{
    if k > 0 {
        lemma_moves_upto_exact(runs, actions, k - 1);
        let before = moves_upto(runs, actions, k - 1);
        let ms = moves_upto(runs, actions, k);
        if !runs[k - 1].done {
            assert(ms == before.push(runs[k - 1].move_record(k - 1, actions[k - 1])));
            assert(ms[before.len() as int].scout_index == k - 1);
            assert forall|j: int| 0 <= j < before.len() implies #[trigger] ms[j] == before[j] by {}
            assert forall|i: int| 0 <= i < k && !(#[trigger] runs[i]).done implies exists|j: int|
                0 <= j < ms.len() && (#[trigger] ms[j]).scout_index == i by {
                if i == k - 1 {
                    assert(ms[before.len() as int].scout_index == i);
                } else {
                    let j = choose|j: int| 0 <= j < before.len() && (#[trigger] before[j]).scout_index == i;
                    assert(ms[j] == before[j]);
                }
            }
        }
    }
}

/// Each reported move of a step: the reports name exactly the scouts still
/// exploring, by increasing index; each starts where its scout stands and
/// ends where its action leads, the board's edges stopping it; it reaches
/// the goal when it ends on the far corner; and it ends the scout's episode
/// when it reaches the goal or spends the step budget.
pub proof fn law_step_moves_exact(t: StreamingTrainer, actions: Seq<i32>)
    requires
        t.wf(),
        t.is_exploring(),
        actions.len() == t.n_scouts,
    ensures
        ({
            let runs = t.runs();
            let ms = step_moves(runs, actions);
            let g = t.config.grid_size;
            &&& forall|j: int|
                0 <= j < ms.len() ==> {
                    let m = #[trigger] ms[j];
                    let i = m.scout_index as int;
                    &&& 0 <= i < runs.len()
                    &&& !runs[i].done
                    &&& m.action == actions[i]
                    &&& m.from == runs[i].env.position
                    &&& m.position == moved(m.from, m.action, g)
                    &&& m.reached_goal == (m.position == ((g - 1) as i32, (g - 1) as i32))
                    &&& m.done == (m.reached_goal || t.global_step() + 1
                        >= t.config.steps_per_episode)
                }
            &&& forall|j1: int, j2: int|
                0 <= j1 < j2 < ms.len() ==> (#[trigger] ms[j1]).scout_index < (
                #[trigger] ms[j2]).scout_index
            &&& forall|i: int|
                0 <= i < runs.len() && !(#[trigger] runs[i]).done ==> exists|j: int|
                    0 <= j < ms.len() && (#[trigger] ms[j]).scout_index == i
        }),
{
    let runs = t.runs();
    lemma_moves_upto_exact(runs, actions, runs.len() as int);
    let ms = step_moves(runs, actions);
    let g = t.config.grid_size;
    assert forall|j: int| 0 <= j < ms.len() implies {
        let m = #[trigger] ms[j];
        let i = m.scout_index as int;
        &&& 0 <= i < runs.len()
        &&& !runs[i].done
        &&& m.action == actions[i]
        &&& m.from == runs[i].env.position
        &&& m.position == moved(m.from, m.action, g)
        &&& m.reached_goal == (m.position == ((g - 1) as i32, (g - 1) as i32))
        &&& m.done == (m.reached_goal || t.global_step() + 1 >= t.config.steps_per_episode)
    } by {
        let i = ms[j].scout_index as int;
        assert(0 <= i < runs.len());
        assert(ms[j] == runs[i].move_record(i, actions[i]));
        assert(runs[i].wf(t.config));
        assert(runs[i].step_count == t.global_step());
    }
}

/// The runs after `k` steps, the `j`-th step taking the actions `acts[j]`.
pub open spec fn runs_after(runs: Seq<ScoutRun>, acts: Seq<Seq<i32>>, k: int) -> Seq<ScoutRun>
    decreases k,
{
    if k <= 0 {
        runs
    } else {
        advanced_runs(runs_after(runs, acts, k - 1), acts[k - 1])
    }
}

/// In how many of the first `k` steps scout `i` made a move, that is, was
/// still exploring (each such step reports exactly one move of it).
pub open spec fn moves_of_scout(runs: Seq<ScoutRun>, acts: Seq<Seq<i32>>, i: int, k: int) -> int
    decreases k,
{
    if k <= 0 {
        0
    } else {
        moves_of_scout(runs, acts, i, k - 1) + if runs_after(runs, acts, k - 1)[i].done {
            0int
        } else {
            1int
        }
    }
}

/// Over the steps of an episode, a scout's step count grows by one for each
/// of its moves, so its completion event reports as many steps as it made
/// moves; once its episode is over it no longer changes; and a scout whose
/// episode ended did so by a move that ended it, whose goal flag is the one
/// its completion reports.
pub proof fn law_episode_moves_counted(runs: Seq<ScoutRun>, acts: Seq<Seq<i32>>, i: int, k: int)
    requires
        0 <= i < runs.len(),
        0 <= k,
        forall|j: int| 0 <= j < k ==> (#[trigger] acts[j]).len() == runs.len(),
        runs[i].step_count + k <= i32::MAX,
        !runs[i].done,
    ensures
        runs_after(runs, acts, k).len() == runs.len(),
        0 <= moves_of_scout(runs, acts, i, k) <= k,
        runs_after(runs, acts, k)[i].step_count == runs[i].step_count + moves_of_scout(
            runs,
            acts,
            i,
            k,
        ),
        completion_events(runs_after(runs, acts, k))[i] == (TrainerEventView::EpisodeComplete {
            scout_index: i as usize,
            reached_goal: runs_after(runs, acts, k)[i].reached_goal,
            steps: (runs[i].step_count + moves_of_scout(runs, acts, i, k)) as i32,
        }),
        runs_after(runs, acts, k)[i].done ==> exists|j: int|
            0 <= j < k && !(#[trigger] runs_after(runs, acts, j))[i].done && {
                let m = runs_after(runs, acts, j)[i].move_record(i, acts[j][i]);
                &&& m.done
                &&& m.reached_goal == runs_after(runs, acts, k)[i].reached_goal
                &&& runs_after(runs, acts, j + 1)[i] == runs_after(runs, acts, k)[i]
            },
    decreases k,
{
    if k > 0 {
        law_episode_moves_counted(runs, acts, i, k - 1);
        let prev = runs_after(runs, acts, k - 1);
        let cur = runs_after(runs, acts, k);
        assert(cur[i] == if prev[i].done { prev[i] } else { prev[i].advanced(acts[k - 1][i]) });
        if cur[i].done {
            if prev[i].done {
                let j = choose|j: int|
                    0 <= j < k - 1 && !(#[trigger] runs_after(runs, acts, j))[i].done && {
                        let m = runs_after(runs, acts, j)[i].move_record(i, acts[j][i]);
                        &&& m.done
                        &&& m.reached_goal == prev[i].reached_goal
                        &&& runs_after(runs, acts, j + 1)[i] == prev[i]
                    };
                assert(0 <= j < k && !runs_after(runs, acts, j)[i].done);
            } else {
                assert(runs_after(runs, acts, k - 1 + 1) == cur);
                assert(!runs_after(runs, acts, k - 1)[i].done);
            }
        }
    }
}

/// While scouts are exploring, the step that the next batch reports lies
/// between 1 and the step budget (1 when the budget is smaller): an
/// episode's exploring phase lasts at most that many steps.
pub proof fn law_steps_within_budget(t: StreamingTrainer)
    requires
        t.wf(),
        t.is_exploring(),
        any_active(t.runs()),
    ensures
        1 <= t.global_step() + 1 <= step_bound(t.config),
{
    let runs = t.runs();
    let j = choose|j: int| 0 <= j < runs.len() && !runs[j].done;
    assert(runs[j].step_count == t.global_step());
}

/// On a grid of at least one cell, every reported move leads to a cell of
/// the grid, and names a scout that exists.
pub proof fn law_moves_stay_on_board(t: StreamingTrainer, actions: Seq<i32>)
    requires
        t.wf(),
        t.is_exploring(),
        actions.len() == t.n_scouts,
        t.config.grid_size >= 1,
    ensures
        forall|j: int|
            0 <= j < step_moves(t.runs(), actions).len() ==> {
                let m = #[trigger] step_moves(t.runs(), actions)[j];
                &&& 0 <= m.position.0 < t.config.grid_size
                &&& 0 <= m.position.1 < t.config.grid_size
                &&& (m.scout_index as int) < t.n_scouts
            },
{
    let runs = t.runs();
    assert forall|i: int| 0 <= i < runs.len() && !runs[i].done implies #[trigger] runs[i].step_count < i32::MAX by {
        assert(runs[i].wf(t.config));
    }
    lemma_moves_on_board(runs, actions, t.config, runs.len() as int);
}

} // verus!
