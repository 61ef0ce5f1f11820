//! Training from the first round to the last: what comes when, and what ends it.

use crate::booster::{build_step, buildable, Booster, BuildEvent};
use crate::call::{asks_once, Request, Step};
use crate::ctext::holds_nul;
use crate::error::XGBResult;
use crate::evaluation::{line_scores, line_text, put_score, readable_line, ScoreTable};
use crate::matrix::DMatrix;
use crate::predict_config;
use crate::prediction::matrix_request;
use crate::report::{evaluation_line, ordered_entries, round_head};
use crate::scores::{evaluation_entry, evaluation_scores, metrics_insert, Evaluation};
use crate::training::{
    custom_step, eval_dmats, eval_names, eval_request, CustomEvent, CustomStep,
};
use vstd::prelude::*;

verus! {

broadcast use vstd::string::group_string_axioms;

/// How a model is to be trained.
pub struct TrainingParameters<'a> {
    /// The matrix to train with.
    pub dtrain: DMatrix,
    /// The matrices to evaluate during training, each under a name.
    pub evaluation_sets: Option<&'a [(DMatrix, &'a str)]>,
    /// The booster's parameters.
    pub booster_params: &'a [(String, String)],
    /// The number of rounds.
    pub boost_rounds: u32,
    /// Every how many rounds the matrices are evaluated; 0 means 1.
    pub eval_period: u32,
    /// Whether the rounds have an objective of the caller's.
    pub custom_objective: bool,
    /// Whether the caller adds a score to each evaluation.
    pub custom_evaluation: bool,
    /// Whether evaluations are printed.
    pub verbose_eval: bool,
    /// The number of callbacks, where there are any to be called.
    pub callbacks: Option<usize>,
}

impl<'a> TrainingParameters<'a> {
    /// The number of rounds.
    pub open spec fn rounds(self) -> int {
        self.boost_rounds as int
    }

    /// The evaluation period: at least 1.
    pub open spec fn period(self) -> int {
        if self.eval_period == 0 {
            1
        } else {
            self.eval_period as int
        }
    }

    /// The round is one in which the matrices are evaluated: it is on the schedule, or it is
    /// the last.
    pub open spec fn evaluates(self, round: int) -> bool {
        self.evaluation_sets is Some && (round % self.period() == 0 || round == self.rounds() - 1)
    }

    /// The evaluated matrices.
    pub open spec fn sets(self) -> Seq<(DMatrix, &'a str)> {
        match self.evaluation_sets {
            Some(sets) => sets@,
            None => Seq::empty(),
        }
    }

    /// The matrices that the booster caches: that to train with, then the evaluated ones.
    pub open spec fn cached(self) -> Seq<usize> {
        seq![self.dtrain.handle] + eval_dmats(self.sets())
    }

    /// Rounds can be counted, and their evaluations timed, by the C library's 32-bit signed
    /// counter.
    pub open spec fn countable(self) -> bool {
        self.boost_rounds <= i32::MAX && self.eval_period <= i32::MAX
    }

    fn is_evaluated(&self, round: u32) -> (r: bool)
        requires
            round < self.rounds(),
        ensures
            r == self.evaluates(round as int),
    {
        let period: u32 = if self.eval_period == 0 {
            1
        } else {
            self.eval_period
        };
        self.evaluation_sets.is_some() && (round % period == 0 || round == self.boost_rounds - 1)
    }

    fn cached_dmats(&self) -> (r: Vec<usize>)
        ensures
            r@ == self.cached(),
    {
        let mut dmats: Vec<usize> = Vec::new();
        dmats.push(self.dtrain.handle);
        if let Some(sets) = self.evaluation_sets {
            let mut i: usize = 0;
            assert(dmats@ =~= seq![self.dtrain.handle] + eval_dmats(sets@).take(0));
            while i < sets.len()
                invariant
                    i <= sets.len(),
                    dmats@ == seq![self.dtrain.handle] + eval_dmats(sets@).take(i as int),
                decreases sets.len() - i,
            {
                dmats.push(sets[i].0.handle);
                assert(dmats@ =~= seq![self.dtrain.handle] + eval_dmats(sets@).take(i + 1));
                i = i + 1;
            }
            assert(eval_dmats(sets@).take(i as int) =~= eval_dmats(sets@));
        }
        assert(dmats@ =~= self.cached());
        dmats
    }
}

/// Where training stands.
#[derive(Clone, Copy, Debug, PartialEq, Eq, Structural)]
pub enum Phase {
    /// Nothing has been done.
    Start,
    /// The booster is being made.
    Creating,
    /// The round is being trained.
    Updating,
    /// The matrices are being evaluated.
    Evaluating,
    /// The caller's score of a matrix is being computed.
    Scoring { set: usize },
    /// The evaluation is being printed.
    Reporting,
    /// A callback is being called.
    Calling { index: usize },
    /// Training has ended.
    Ended,
}

/// Training in progress, as values.
#[verifier::ext_equal]
pub struct TrainingState {
    /// Where it stands.
    pub phase: Phase,
    /// How many rounds have begun. The current round is one less.
    pub begun: int,
    /// The current round's evaluation, once there is one.
    pub results: Option<ScoreTable>,
}

/// Training in progress.
pub struct Training {
    phase: Phase,
    begun: u32,
    results: Option<Evaluation>,
}

impl View for Training {
    type V = TrainingState;

    closed spec fn view(&self) -> TrainingState {
        TrainingState {
            phase: self.phase,
            begun: self.begun as int,
            results: match self.results {
                Some(results) => Some(evaluation_scores(results)),
                None => None,
            },
        }
    }
}

/// What happened since the last step.
pub enum TrainEvent {
    /// Training begins.
    Begin,
    /// The booster was made.
    Created(XGBResult<()>),
    /// The round was trained.
    Updated(XGBResult<()>),
    /// The matrices were evaluated. Scores are as they print.
    Evaluated(XGBResult<Evaluation>),
    /// The caller's score of a matrix was computed; it is as it prints.
    Scored(XGBResult<String>),
    /// The evaluation was printed.
    Printed,
    /// A callback returned: whether to go on.
    Returned(bool),
}

/// What training wants next.
pub enum TrainStep {
    /// A booster that caches these matrices: see `Booster::create_step`.
    Create { dmats: Vec<usize> },
    /// A round with the booster's own objective: see `Booster::update_step`.
    Update { iteration: i32 },
    /// A round with the caller's objective: see `Booster::update_custom_step`.
    UpdateCustom { iteration: i32 },
    /// An evaluation of the matrices: see `Booster::evaluate_step`.
    Evaluate { iteration: i32 },
    /// The caller's score of the margins predicted on a matrix: see `Booster::score_step`.
    Score { set: usize },
    /// A line on the standard output.
    Print(String),
    /// A call of a callback.
    Callback { index: usize, iteration: i32, total_rounds: u32 },
    /// Nothing: training has ended.
    Finish(XGBResult<()>),
}

/// What a step asks for, as values.
#[verifier::ext_equal]
pub enum Task {
    Create { dmats: Seq<usize> },
    Update { iteration: int },
    UpdateCustom { iteration: int },
    Evaluate { iteration: int },
    Score { set: int },
    Print(Seq<char>),
    Callback { index: int, iteration: int, total_rounds: u32 },
    Finish(XGBResult<()>),
}

impl View for TrainStep {
    type V = Task;

    open spec fn view(&self) -> Task {
        match *self {
            TrainStep::Create { dmats } => Task::Create { dmats: dmats@ },
            TrainStep::Update { iteration } => Task::Update { iteration: iteration as int },
            TrainStep::UpdateCustom { iteration } => Task::UpdateCustom {
                iteration: iteration as int,
            },
            TrainStep::Evaluate { iteration } => Task::Evaluate { iteration: iteration as int },
            TrainStep::Score { set } => Task::Score { set: set as int },
            TrainStep::Print(line) => Task::Print(line@),
            TrainStep::Callback { index, iteration, total_rounds } => Task::Callback {
                index: index as int,
                iteration: iteration as int,
                total_rounds,
            },
            TrainStep::Finish(r) => Task::Finish(r),
        }
    }
}

/// Training before anything was done.
pub open spec fn untrained() -> TrainingState {
    TrainingState { phase: Phase::Start, begun: 0, results: None }
}

/// The end of training.
pub open spec fn ends(s: TrainingState, r: XGBResult<()>) -> (TrainingState, Task) {
    (TrainingState { phase: Phase::Ended, ..s }, Task::Finish(r))
}

/// The next round, if there is one.
pub open spec fn begins_round(p: TrainingParameters, s: TrainingState) -> (TrainingState, Task) {
    if s.begun < p.rounds() {
        (
            TrainingState { phase: Phase::Updating, begun: s.begun + 1, results: None },
            if p.custom_objective {
                Task::UpdateCustom { iteration: s.begun }
            } else {
                Task::Update { iteration: s.begun }
            },
        )
    } else {
        ends(s, Ok(()))
    }
}

/// The callbacks from `index` on, then the next round.
pub open spec fn calls_back(p: TrainingParameters, s: TrainingState, index: int) -> (
    TrainingState,
    Task,
) {
    if p.callbacks is Some && index < p.callbacks->0 {
        (
            TrainingState { phase: Phase::Calling { index: index as usize }, ..s },
            Task::Callback { index, iteration: s.begun - 1, total_rounds: p.boost_rounds },
        )
    } else {
        begins_round(p, s)
    }
}

/// The printing of the evaluation, if it is wanted, then the callbacks.
pub open spec fn reports(p: TrainingParameters, s: TrainingState) -> (TrainingState, Task) {
    if p.verbose_eval {
        (
            TrainingState { phase: Phase::Reporting, ..s },
            Task::Print(line_text(round_head(s.begun - 1), ordered_entries(s.results->0))),
        )
    } else {
        calls_back(p, s, 0)
    }
}

/// The caller's scores of the matrices from `set` on, then the printing.
pub open spec fn scores_from(p: TrainingParameters, s: TrainingState, set: int) -> (
    TrainingState,
    Task,
) {
    if p.custom_evaluation && set < p.sets().len() {
        (
            TrainingState { phase: Phase::Scoring { set: set as usize }, ..s },
            Task::Score { set },
        )
    } else {
        reports(p, s)
    }
}

/// What training does on an event: a booster is made; each round is trained, evaluated if its
/// turn has come, and shown to the callbacks. A failure ends training, and so does a callback
/// that says so.
pub open spec fn advances(p: TrainingParameters, s: TrainingState, event: TrainEvent) -> (
    TrainingState,
    Task,
) {
    match event {
        TrainEvent::Begin => (
            TrainingState { phase: Phase::Creating, ..s },
            Task::Create { dmats: p.cached() },
        ),
        TrainEvent::Created(Ok(_)) => begins_round(p, s),
        TrainEvent::Created(Err(e)) => ends(s, Err(e)),
        TrainEvent::Updated(Ok(_)) => if p.evaluates(s.begun - 1) {
            (
                TrainingState { phase: Phase::Evaluating, ..s },
                Task::Evaluate { iteration: s.begun - 1 },
            )
        } else {
            calls_back(p, s, 0)
        },
        TrainEvent::Updated(Err(e)) => ends(s, Err(e)),
        TrainEvent::Evaluated(Ok(results)) => scores_from(
            p,
            TrainingState { results: Some(evaluation_scores(results)), ..s },
            0,
        ),
        TrainEvent::Evaluated(Err(e)) => ends(s, Err(e)),
        TrainEvent::Scored(Ok(score)) => {
            let set = s.phase->set as int;
            let table = put_score(s.results->0, "custom"@, p.sets()[set].1@, score@);
            scores_from(p, TrainingState { results: Some(table), ..s }, set + 1)
        },
        TrainEvent::Scored(Err(e)) => ends(s, Err(e)),
        TrainEvent::Printed => calls_back(p, s, 0),
        TrainEvent::Returned(go_on) => if go_on {
            calls_back(p, s, s.phase->index + 1)
        } else {
            ends(s, Ok(()))
        },
    }
}

/// The event answers what training asked for.
pub open spec fn answers(s: TrainingState, event: TrainEvent) -> bool {
    match event {
        TrainEvent::Begin => s.phase is Start,
        TrainEvent::Created(_) => s.phase is Creating,
        TrainEvent::Updated(_) => s.phase is Updating,
        TrainEvent::Evaluated(_) => s.phase is Evaluating,
        TrainEvent::Scored(_) => s.phase is Scoring,
        TrainEvent::Printed => s.phase is Reporting,
        TrainEvent::Returned(_) => s.phase is Calling,
    }
}

/// What holds of training in progress. In particular a callback sees an evaluation exactly in
/// the rounds that are evaluated.
pub open spec fn in_order(p: TrainingParameters, s: TrainingState) -> bool {
    &&& 0 <= s.begun <= p.rounds()
    &&& match s.phase {
        Phase::Start | Phase::Creating => s.begun == 0,
        Phase::Updating => s.begun > 0 && s.results is None,
        Phase::Evaluating => s.begun > 0 && p.evaluates(s.begun - 1),
        Phase::Scoring { set } => s.begun > 0 && p.evaluates(s.begun - 1) && s.results is Some
            && p.custom_evaluation && set < p.sets().len(),
        Phase::Reporting => s.begun > 0 && p.evaluates(s.begun - 1) && s.results is Some
            && p.verbose_eval,
        Phase::Calling { index } => s.begun > 0 && (s.results is Some <==> p.evaluates(
            s.begun - 1,
        )) && p.callbacks is Some && index < p.callbacks->0,
        Phase::Ended => true,
    }
}

impl Training {
    /// Training before anything was done.
    pub fn new() -> (r: Training)
        ensures
            r@ == untrained(),
    {
        Training { phase: Phase::Start, begun: 0, results: None }
    }

    /// The current round's evaluation.
    pub fn results(&self) -> (r: Option<&Evaluation>)
        ensures
            match r {
                Some(results) => self@.results == Some(evaluation_scores(*results)),
                None => self@.results is None,
            },
    {
        match &self.results {
            Some(results) => Some(results),
            None => None,
        }
    }

    fn end(self, r: XGBResult<()>) -> (out: (Training, TrainStep))
        ensures
            (out.0@, out.1@) == ends(self@, r),
    {
        (
            Training { phase: Phase::Ended, begun: self.begun, results: self.results },
            TrainStep::Finish(r),
        )
    }

    fn begin_round(self, p: &TrainingParameters) -> (out: (Training, TrainStep))
        requires
            p.countable(),
            0 <= self@.begun <= p.rounds(),
        ensures
            (out.0@, out.1@) == begins_round(*p, self@),
            in_order(*p, out.0@),
    {
        if self.begun < p.boost_rounds {
            let iteration: i32 = self.begun as i32;
            (
                Training { phase: Phase::Updating, begun: self.begun + 1, results: None },
                if p.custom_objective {
                    TrainStep::UpdateCustom { iteration }
                } else {
                    TrainStep::Update { iteration }
                },
            )
        } else {
            self.end(Ok(()))
        }
    }

    fn call_back(self, p: &TrainingParameters, index: usize) -> (out: (Training, TrainStep))
        requires
            p.countable(),
            0 < self@.begun <= p.rounds(),
            self@.results is Some <==> p.evaluates(self@.begun - 1),
        ensures
            (out.0@, out.1@) == calls_back(*p, self@, index as int),
            in_order(*p, out.0@),
    {
        if let Some(count) = p.callbacks {
            if index < count {
                let iteration: i32 = (self.begun - 1) as i32;
                return (
                    Training {
                        phase: Phase::Calling { index },
                        begun: self.begun,
                        results: self.results,
                    },
                    TrainStep::Callback { index, iteration, total_rounds: p.boost_rounds },
                );
            }
        }
        self.begin_round(p)
    }

    fn report(begun: u32, results: Evaluation, p: &TrainingParameters) -> (out: (
        Training,
        TrainStep,
    ))
        requires
            p.countable(),
            0 < begun <= p.rounds(),
            p.evaluates(begun - 1),
        ensures
            ({
                let s = TrainingState {
                    phase: out.0@.phase,
                    begun: begun as int,
                    results: Some(evaluation_scores(results)),
                };
                (out.0@, out.1@) == reports(*p, s)
            }),
            in_order(*p, out.0@),
    {
        if p.verbose_eval {
            let line: String = evaluation_line((begun - 1) as i32, &results);
            (
                Training { phase: Phase::Reporting, begun, results: Some(results) },
                TrainStep::Print(line),
            )
        } else {
            Training { phase: Phase::Reporting, begun, results: Some(results) }.call_back(p, 0)
        }
    }

    fn score_from(begun: u32, results: Evaluation, p: &TrainingParameters, set: usize) -> (out: (
        Training,
        TrainStep,
    ))
        requires
            p.countable(),
            0 < begun <= p.rounds(),
            p.evaluates(begun - 1),
        ensures
            ({
                let s = TrainingState {
                    phase: out.0@.phase,
                    begun: begun as int,
                    results: Some(evaluation_scores(results)),
                };
                (out.0@, out.1@) == scores_from(*p, s, set as int)
            }),
            in_order(*p, out.0@),
    {
        let count: usize = match p.evaluation_sets {
            Some(sets) => sets.len(),
            None => 0,
        };
        if p.custom_evaluation && set < count {
            (
                Training { phase: Phase::Scoring { set }, begun, results: Some(results) },
                TrainStep::Score { set },
            )
        } else {
            Training::report(begun, results, p)
        }
    }
}

impl Booster {
    /// Makes a booster and trains it: the next step of it, on what happened since the last.
    ///
    /// Each evaluation is a prediction for every matrix, so it keeps to the schedule; the last
    /// round is always evaluated.
    pub fn train(params: &TrainingParameters, training: Training, event: TrainEvent) -> (r: (
        Training,
        TrainStep,
    ))
        requires
            params.countable(),
            in_order(*params, training@),
            answers(training@, event),
        ensures
            (r.0@, r.1@) == advances(*params, training@, event),
            in_order(*params, r.0@),
    {
        let Training { phase, begun, results } = training;
        match (phase, event) {
            (Phase::Start, TrainEvent::Begin) => (
                Training { phase: Phase::Creating, begun, results },
                TrainStep::Create { dmats: params.cached_dmats() },
            ),
            (Phase::Creating, TrainEvent::Created(Ok(_))) => Training {
                phase,
                begun,
                results,
            }.begin_round(params),
            (Phase::Updating, TrainEvent::Updated(Ok(_))) => {
                if params.is_evaluated(begun - 1) {
                    (
                        Training { phase: Phase::Evaluating, begun, results },
                        TrainStep::Evaluate { iteration: (begun - 1) as i32 },
                    )
                } else {
                    Training { phase, begun, results }.call_back(params, 0)
                }
            },
            (Phase::Evaluating, TrainEvent::Evaluated(Ok(results))) => Training::score_from(
                begun,
                results,
                params,
                0,
            ),
            (Phase::Scoring { set }, TrainEvent::Scored(Ok(score))) => {
                let mut results: Evaluation = results.unwrap();
                let name: &str = params.evaluation_sets.unwrap()[set].1;
                let metrics = evaluation_entry(&mut results, "custom".to_owned());
                metrics_insert(metrics, name.to_owned(), score);
                Training::score_from(begun, results, params, set + 1)
            },
            (Phase::Reporting, TrainEvent::Printed) => Training {
                phase,
                begun,
                results,
            }.call_back(params, 0),
            (Phase::Calling { index }, TrainEvent::Returned(true)) => Training {
                phase,
                begun,
                results,
            }.call_back(params, index + 1),
            (Phase::Calling { .. }, TrainEvent::Returned(false)) => Training {
                phase,
                begun,
                results,
            }.end(Ok(())),
            (_, TrainEvent::Created(Err(e)))
            | (_, TrainEvent::Updated(Err(e)))
            | (_, TrainEvent::Evaluated(Err(e)))
            | (_, TrainEvent::Scored(Err(e))) => Training { phase, begun, results }.end(Err(e)),
            _ => vstd::pervasive::unreached(),
        }
    }
}

impl Booster {
    /// The step of making the booster that `TrainStep::Create` asks for: with the parameters
    /// given, and with the matrices to be cached.
    pub fn create_step(params: &TrainingParameters, event: BuildEvent) -> (r: Step<
        'static,
        Booster,
    >)
        requires
            buildable(params.booster_params@, event),
        ensures
            build_step(r, params.booster_params@, params.cached(), event),
    {
        let dmats: Vec<usize> = params.cached_dmats();
        Booster::new_with_cached_dmats(params.booster_params, dmats.as_slice(), event)
    }

    /// The step of the round that `TrainStep::Update` asks for: on the matrix to train with.
    pub fn update_step(
        &self,
        params: &TrainingParameters,
        iteration: i32,
        reply: Option<XGBResult<()>>,
    ) -> (r: Step<'static, ()>)
        ensures
            asks_once(
                r,
                Request::BoosterUpdateOneIter {
                    booster: self@.handle,
                    iteration,
                    dtrain: params.dtrain.handle,
                },
                reply,
            ),
    {
        self.update(&params.dtrain, iteration, reply)
    }

    /// The step of the round that `TrainStep::UpdateCustom` asks for: on the matrix to train
    /// with.
    pub fn update_custom_step(
        &self,
        params: &TrainingParameters,
        iteration: i32,
        event: CustomEvent,
    ) -> (r: CustomStep<'static>)
        ensures
            custom_step(r, self@.handle, params.dtrain, iteration, event),
    {
        self.update_custom(&params.dtrain, iteration, event)
    }

    /// The step of the evaluation that `TrainStep::Evaluate` asks for: of all evaluated
    /// matrices, under their names.
    pub fn evaluate_step(
        &self,
        params: &TrainingParameters,
        iteration: i32,
        reply: Option<XGBResult<String>>,
    ) -> (r: Step<'static, Evaluation>)
        requires
            params.evaluation_sets is Some,
            forall|i: int|
                0 <= i < params.sets().len() ==> !holds_nul((#[trigger] params.sets()[i]).1@),
            reply matches Some(Ok(out)) ==> readable_line(out@, eval_names(params.sets())),
        ensures
            match reply {
                None => r.performs(eval_request(self@.handle, params.sets(), iteration)),
                Some(Ok(out)) => r matches Step::Finish(Ok(results)) && evaluation_scores(results)
                    == line_scores(out@, eval_names(params.sets())),
                Some(Err(e)) => r.gives_error(e),
            },
    {
        self.eval_set(params.evaluation_sets.unwrap(), iteration, reply)
    }

    /// The step of the score that `TrainStep::Score` asks for: the caller's score is computed
    /// from the margins predicted on the matrix, which are given here as they came.
    pub fn score_step<'r, T>(
        &self,
        params: &TrainingParameters,
        set: usize,
        reply: Option<XGBResult<(&'r [T], &'r [u64])>>,
    ) -> (r: Step<'static, (&'r [T], &'r [u64])>)
        requires
            set < params.sets().len(),
        ensures
            asks_once(
                r,
                matrix_request(self@.handle, params.sets()[set as int].0, predict_config::MARGIN@),
                reply,
            ),
    {
        let (dmat, _name): (DMatrix, &str) = params.evaluation_sets.unwrap()[set];
        self.predict_margin_borrowed(&dmat, reply)
    }
}

} // verus!
