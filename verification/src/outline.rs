//! The outline of a training run: every task of it, in order.

use crate::course::{asked, in_turn, run, stopped, succeeded};
use crate::evaluation::line_text;
use crate::reading::{law_put_score_changes_one_place, metrics_under};
use crate::report::{ordered_entries, round_head};
use crate::scores::{evaluation_scores, lookup};
use crate::train::{
    advances, answers, calls_back, in_order, reports, scores_from, Phase, Task, TrainEvent,
    TrainingParameters, TrainingState,
};
use crate::training::eval_dmats;
use vstd::prelude::*;

verus! {

/// `round` is a number of whole periods.
pub open spec fn whole_periods(round: int, period: int) -> bool {
    exists|k: nat| round == #[trigger] (k * period)
}

/// The round is to be evaluated: there are matrices to evaluate, and it is the last round or a
/// number of whole periods, a period of 0 being one of 1.
pub open spec fn due(p: TrainingParameters, round: int) -> bool {
    p.evaluation_sets is Some && (round == p.boost_rounds - 1 || whole_periods(
        round,
        if p.eval_period == 0 {
            1
        } else {
            p.eval_period as int
        },
    ))
}

/// With matrices to evaluate and a period of at least 1, every round that is a number of whole
/// periods is evaluated, and one that is not, and not the last, is not.
pub proof fn law_evaluation_schedule(p: TrainingParameters, k: nat, round: int)
    requires
        p.evaluation_sets is Some,
        p.eval_period >= 1,
    ensures
        k * p.eval_period < p.boost_rounds ==> p.evaluates(k * p.eval_period),
        p.evaluates(p.boost_rounds - 1),
        0 <= round < p.boost_rounds - 1 && p.evaluates(round) ==> exists|n: nat|
            round == #[trigger] (n * p.eval_period),
{
    vstd::arithmetic::div_mod::lemma_mod_multiples_basic(k as int, p.eval_period as int);
    if 0 <= round < p.boost_rounds - 1 && p.evaluates(round) {
        lemma_due(p, round);
    }
}

/// Without matrices to evaluate no round is evaluated.
pub proof fn law_nothing_to_evaluate(p: TrainingParameters, round: int)
    requires
        p.evaluation_sets is None,
    ensures
        !p.evaluates(round),
{
}

proof fn lemma_due(p: TrainingParameters, round: int)
    requires
        round >= 0,
    ensures
        p.evaluates(round) <==> due(p, round),
{
    let period = if p.eval_period == 0 {
        1
    } else {
        p.eval_period as int
    };
    if round % period == 0 {
        vstd::arithmetic::div_mod::lemma_fundamental_div_mod(round, period);
        vstd::arithmetic::div_mod::lemma_div_pos_is_pos(round, period);
        let k = (round / period) as nat;
        assert(period * (round / period) == (round / period) * period) by (nonlinear_arith);
        assert(round == k * period);
    }
    if whole_periods(round, period) {
        let k = choose|k: nat| round == #[trigger] (k * period);
        vstd::arithmetic::div_mod::lemma_mod_multiples_basic(k as int, period);
    }
}

/// A task without the text of a printed line.
pub open spec fn outline(t: Task) -> Task {
    match t {
        Task::Print(_) => Task::Print(Seq::empty()),
        _ => t,
    }
}

/// Tasks without the texts of printed lines.
pub open spec fn outlines(tasks: Seq<Task>) -> Seq<Task> {
    tasks.map_values(|t: Task| outline(t))
}

/// The task that makes the booster: it caches the matrix to train with, then the evaluated ones
/// in order.
pub open spec fn making(p: TrainingParameters) -> Seq<Task> {
    let sets = match p.evaluation_sets {
        Some(sets) => sets@,
        None => Seq::empty(),
    };
    seq![
        Task::Create {
            dmats: seq![p.dtrain.handle] + Seq::new(sets.len(), |i: int| sets[i].0.handle),
        },
    ]
}

/// The task that trains a round.
pub open spec fn training_of(p: TrainingParameters, round: int) -> Seq<Task> {
    seq![
        if p.custom_objective {
            Task::UpdateCustom { iteration: round }
        } else {
            Task::Update { iteration: round }
        },
    ]
}

/// The tasks of the caller's scores: one for each evaluated matrix, in order.
pub open spec fn scoring(p: TrainingParameters) -> Seq<Task> {
    if p.custom_evaluation && p.evaluation_sets is Some {
        Seq::new(p.evaluation_sets->0@.len(), |k: int| Task::Score { set: k })
    } else {
        Seq::empty()
    }
}

/// The tasks of an evaluation: the matrices' scores, the caller's scores, and a printed line, as
/// far as they are wanted.
pub open spec fn evaluation_of(p: TrainingParameters, round: int) -> Seq<Task> {
    seq![Task::Evaluate { iteration: round }] + scoring(p) + (if p.verbose_eval {
        seq![Task::Print(Seq::empty())]
    } else {
        Seq::empty()
    })
}

/// The tasks that call the callbacks, in order.
pub open spec fn calling(p: TrainingParameters, round: int) -> Seq<Task> {
    Seq::new(
        match p.callbacks {
            Some(n) => n as nat,
            None => 0,
        },
        |j: int|
            Task::Callback { index: j, iteration: round, total_rounds: p.boost_rounds },
    )
}

/// The tasks of a round: it is trained, evaluated if it is due, and shown to every callback.
pub open spec fn round_of(p: TrainingParameters, round: int) -> Seq<Task> {
    training_of(p, round) + (if due(p, round) {
        evaluation_of(p, round)
    } else {
        Seq::empty()
    }) + calling(p, round)
}

/// The tasks of the first `n` rounds.
pub open spec fn rounds_of(p: TrainingParameters, n: nat) -> Seq<Task>
    decreases n,
{
    if n == 0 {
        Seq::empty()
    } else {
        rounds_of(p, (n - 1) as nat) + round_of(p, n - 1)
    }
}

/// All tasks that training asks for before its end.
pub open spec fn whole_course(p: TrainingParameters) -> Seq<Task> {
    making(p) + rounds_of(p, p.boost_rounds as nat)
}

/// What was asked for in the current round.
spec fn current(p: TrainingParameters, s: TrainingState) -> Seq<Task> {
    let round = s.begun - 1;
    let first = training_of(p, round);
    let looked = seq![Task::Evaluate { iteration: round }];
    match s.phase {
        Phase::Updating => first,
        Phase::Evaluating => first + looked,
        Phase::Scoring { set } => first + looked + scoring(p).take(set + 1),
        Phase::Reporting => first + evaluation_of(p, round),
        Phase::Calling { index } => first + (if due(p, round) {
            evaluation_of(p, round)
        } else {
            Seq::empty()
        }) + calling(p, round).take(index + 1),
        _ => Seq::empty(),
    }
}

/// What was asked for so far.
spec fn so_far(p: TrainingParameters, s: TrainingState) -> Seq<Task> {
    match s.phase {
        Phase::Start => Seq::empty(),
        Phase::Creating => making(p),
        _ => making(p) + rounds_of(p, (s.begun - 1) as nat) + current(p, s),
    }
}

/// `next` goes on from what was asked for, or has come to the end of all of it.
spec fn goes_on(p: TrainingParameters, tasks: Seq<Task>, next: (TrainingState, Task)) -> bool {
    if next.0.phase is Ended {
        next.1 == Task::Finish(Ok(())) && tasks == whole_course(p)
    } else {
        so_far(p, next.0) == tasks.push(outline(next.1))
    }
}

proof fn lemma_making(p: TrainingParameters)
    ensures
        making(p) == seq![Task::Create { dmats: p.cached() }],
{
    let sets = match p.evaluation_sets {
        Some(sets) => sets@,
        None => Seq::empty(),
    };
    assert(eval_dmats(p.sets()) =~= Seq::new(sets.len(), |i: int| sets[i].0.handle));
}

proof fn lemma_calls_back(p: TrainingParameters, s: TrainingState, index: int, tasks: Seq<Task>)
    requires
        0 < s.begun <= p.rounds(),
        0 <= index <= calling(p, s.begun - 1).len(),
        tasks == making(p) + rounds_of(p, (s.begun - 1) as nat) + (training_of(p, s.begun - 1) + (
        if due(p, s.begun - 1) {
            evaluation_of(p, s.begun - 1)
        } else {
            Seq::empty()
        }) + calling(p, s.begun - 1).take(index)),
    ensures
        goes_on(p, tasks, calls_back(p, s, index)),
{
    let round = s.begun - 1;
    let all = calling(p, round);
    let (t, task) = calls_back(p, s, index);
    if index < all.len() {
        assert(all.take(index + 1) =~= all.take(index).push(task));
        assert(so_far(p, t) =~= tasks.push(outline(task)));
    } else {
        assert(all.take(index) =~= all);
        assert(tasks =~= making(p) + rounds_of(p, s.begun as nat));
        if s.begun < p.rounds() {
            assert(so_far(p, t) =~= tasks.push(outline(task)));
        }
    }
}

proof fn lemma_reports(p: TrainingParameters, s: TrainingState, tasks: Seq<Task>)
    requires
        0 < s.begun <= p.rounds(),
        due(p, s.begun - 1),
        tasks == making(p) + rounds_of(p, (s.begun - 1) as nat) + (training_of(p, s.begun - 1)
            + seq![Task::Evaluate { iteration: s.begun - 1 }] + scoring(p)),
    ensures
        goes_on(p, tasks, reports(p, s)),
{
    let (t, task) = reports(p, s);
    let round = s.begun - 1;
    if p.verbose_eval {
        assert(so_far(p, t) =~= tasks.push(outline(task)));
    } else {
        assert(calling(p, round).take(0) =~= Seq::empty());
        assert(tasks =~= making(p) + rounds_of(p, (s.begun - 1) as nat) + (training_of(p, round)
            + evaluation_of(p, round) + calling(p, round).take(0)));
        lemma_calls_back(p, s, 0, tasks);
    }
}

proof fn lemma_scores_from(p: TrainingParameters, s: TrainingState, set: int, tasks: Seq<Task>)
    requires
        0 < s.begun <= p.rounds(),
        due(p, s.begun - 1),
        0 <= set <= scoring(p).len(),
        tasks == making(p) + rounds_of(p, (s.begun - 1) as nat) + (training_of(p, s.begun - 1)
            + seq![Task::Evaluate { iteration: s.begun - 1 }] + scoring(p).take(set)),
    ensures
        goes_on(p, tasks, scores_from(p, s, set)),
{
    let (t, task) = scores_from(p, s, set);
    if let Some(sets) = p.evaluation_sets {
        assert(sets@.len() == sets.len());
    }
    if set < scoring(p).len() {
        assert(scoring(p).take(set + 1) =~= scoring(p).take(set).push(task));
        assert(so_far(p, t) =~= tasks.push(outline(task)));
    } else {
        assert(scoring(p).take(set) =~= scoring(p));
        lemma_reports(p, s, tasks);
    }
}

proof fn lemma_goes_on(p: TrainingParameters, s: TrainingState, event: TrainEvent)
    requires
        in_order(p, s),
        answers(s, event),
        !(advances(p, s, event).1 matches Task::Finish(Err(_))),
        event != TrainEvent::Returned(false),
    ensures
        goes_on(p, so_far(p, s), advances(p, s, event)),
{
    let round = s.begun - 1;
    let (t, task) = advances(p, s, event);
    let tasks = so_far(p, s);
    if s.begun > 0 {
        lemma_due(p, round);
    }
    match event {
        TrainEvent::Begin => {
            lemma_making(p);
            assert(so_far(p, t) =~= tasks.push(outline(task)));
        },
        TrainEvent::Created(_) => {
            assert(rounds_of(p, 0) =~= Seq::empty());
            if s.begun < p.rounds() {
                assert(so_far(p, t) =~= tasks.push(outline(task)));
            } else {
                assert(tasks =~= whole_course(p));
            }
        },
        TrainEvent::Updated(_) => {
            if due(p, round) {
                assert(so_far(p, t) =~= tasks.push(outline(task)));
            } else {
                assert(calling(p, round).take(0) =~= Seq::empty());
                assert(tasks =~= making(p) + rounds_of(p, (s.begun - 1) as nat) + (training_of(
                    p,
                    round,
                ) + Seq::<Task>::empty() + calling(p, round).take(0)));
                lemma_calls_back(p, s, 0, tasks);
            }
        },
        TrainEvent::Evaluated(Ok(results)) => {
            let s2 = TrainingState { results: Some(evaluation_scores(results)), ..s };
            assert(scoring(p).take(0) =~= Seq::empty());
            assert(tasks =~= making(p) + rounds_of(p, (s.begun - 1) as nat) + (training_of(p, round)
                + seq![Task::Evaluate { iteration: round }] + scoring(p).take(0)));
            lemma_scores_from(p, s2, 0, tasks);
        },
        TrainEvent::Scored(Ok(score)) => {
            let set = s.phase->set as int;
            let table = crate::evaluation::put_score(
                s.results->0,
                "custom"@,
                p.sets()[set].1@,
                score@,
            );
            let s2 = TrainingState { results: Some(table), ..s };
            lemma_scores_from(p, s2, set + 1, tasks);
        },
        TrainEvent::Printed => {
            assert(calling(p, round).take(0) =~= Seq::empty());
            assert(tasks =~= making(p) + rounds_of(p, (s.begun - 1) as nat) + (training_of(p, round)
                + evaluation_of(p, round) + calling(p, round).take(0)));
            lemma_calls_back(p, s, 0, tasks);
        },
        TrainEvent::Returned(_) => {
            lemma_calls_back(p, s, s.phase->index + 1, tasks);
        },
        _ => {},
    }
}

/// What holds after the events: what was asked for follows the whole course, and it is all of it
/// where training succeeded and no callback stopped it.
spec fn follows(p: TrainingParameters, events: Seq<TrainEvent>) -> bool {
    let s = run(p, events);
    let tasks = outlines(asked(p, events));
    &&& in_order(p, s)
    &&& s.phase !is Ended ==> tasks == so_far(p, s)
    &&& s.phase is Ended ==> tasks.len() > 0 && tasks.last() is Finish
        && tasks.drop_last().is_prefix_of(whole_course(p))
    &&& s.phase is Ended ==> (succeeded(p, events) && !stopped(events) ==> tasks.drop_last()
        == whole_course(p))
}

proof fn lemma_rounds_prefix(p: TrainingParameters, a: nat, b: nat)
    requires
        a <= b,
    ensures
        rounds_of(p, a).is_prefix_of(rounds_of(p, b)),
    decreases b,
{
    if a < b {
        lemma_rounds_prefix(p, a, (b - 1) as nat);
        assert(rounds_of(p, a) =~= rounds_of(p, b).subrange(0, rounds_of(p, a).len() as int)) by {
            let (x, y, z) = (rounds_of(p, a), rounds_of(p, (b - 1) as nat), rounds_of(p, b));
            assert forall|i: int| 0 <= i < x.len() implies x[i] == z[i] by {
                assert(x[i] == y.subrange(0, x.len() as int)[i]);
                assert(z[i] == y[i]);
            }
        }
    }
}

proof fn lemma_so_far_prefix(p: TrainingParameters, s: TrainingState)
    requires
        in_order(p, s),
        s.phase !is Ended,
    ensures
        so_far(p, s).is_prefix_of(whole_course(p)),
{
    let whole = whole_course(p);
    if s.begun > 0 {
        let round = s.begun - 1;
        lemma_due(p, round);
        lemma_rounds_prefix(p, s.begun as nat, p.boost_rounds as nat);
        let part = rounds_of(p, s.begun as nat);
        let cur = current(p, s);
        let full = round_of(p, round);
        assert(cur.len() <= full.len());
        assert forall|i: int| 0 <= i < cur.len() implies cur[i] == full[i] by {}
        let mine = so_far(p, s);
        assert forall|i: int| 0 <= i < mine.len() implies mine[i] == whole[i] by {
            if i >= making(p).len() {
                let k = i - making(p).len();
                assert(part[k] == rounds_of(p, p.boost_rounds as nat).subrange(
                    0,
                    part.len() as int,
                )[k]);
            }
        }
        assert(mine =~= whole.subrange(0, mine.len() as int));
    } else {
        assert(so_far(p, s) =~= whole.subrange(0, so_far(p, s).len() as int));
    }
}

proof fn lemma_follows(p: TrainingParameters, events: Seq<TrainEvent>)
    requires
        in_turn(p, events),
    ensures
        follows(p, events),
    decreases events.len(),
{
    if events.len() == 0 {
        assert(outlines(asked(p, events)) =~= Seq::empty());
    } else {
        let before = events.drop_last();
        let s = run(p, before);
        let event = events.last();
        let (t, task) = advances(p, s, event);
        let tasks = outlines(asked(p, before));
        let all = outlines(asked(p, events));
        lemma_follows(p, before);
        assert(asked(p, events) == asked(p, before).push(task));
        assert(all =~= tasks.push(outline(task)));
        assert(all.drop_last() =~= tasks);
        assert(in_order(p, t));
        lemma_so_far_prefix(p, s);
        assert(event == TrainEvent::Returned(false) ==> stopped(events)) by {
            assert(events[events.len() - 1] == event);
        }
        if !(task matches Task::Finish(Err(_))) && event != TrainEvent::Returned(false) {
            lemma_goes_on(p, s, event);
        }
    }
}

/// Training that succeeds, and that no callback stops, asks for exactly this, in this order: the
/// booster; then for each round from the first to the last its training, if it is due its
/// evaluation with the caller's scores and a printed line as far as they are wanted, and every
/// callback; then the end. Training that ends before, or has not ended, has asked for the
/// beginning of that.
pub proof fn law_course_of_training(p: TrainingParameters, events: Seq<TrainEvent>)
    requires
        in_turn(p, events),
    ensures
        succeeded(p, events) && !stopped(events) ==> outlines(asked(p, events)) == whole_course(
            p,
        ).push(Task::Finish(Ok(()))),
        ({
            let tasks = outlines(asked(p, events));
            tasks.is_prefix_of(whole_course(p)) || (tasks.len() > 0 && tasks.last() is Finish
                && tasks.drop_last().is_prefix_of(whole_course(p)))
        }),
{
    lemma_follows(p, events);
    let s = run(p, events);
    let tasks = outlines(asked(p, events));
    if s.phase !is Ended {
        lemma_so_far_prefix(p, s);
    }
    if succeeded(p, events) && !stopped(events) {
        lemma_success_ends(p, events);
        assert(tasks =~= tasks.drop_last().push(tasks.last()));
        assert(asked(p, events).len() > 0);
        assert(tasks.last() == outline(asked(p, events).last()));
    }
}

proof fn lemma_success_ends(p: TrainingParameters, events: Seq<TrainEvent>)
    requires
        in_turn(p, events),
        succeeded(p, events),
    ensures
        run(p, events).phase is Ended,
{
    lemma_follows(p, events.drop_last());
    let before = events.drop_last();
    assert(asked(p, events).last() == advances(p, run(p, before), events.last()).1);
}

/// In training that succeeds, and that no callback stops, the rounds that are evaluated are those
/// that are due: the last one, and those that are a number of whole periods, a period of 0 being
/// one of 1; none where there is nothing to evaluate.
pub proof fn law_due_rounds_are_evaluated(
    p: TrainingParameters,
    events: Seq<TrainEvent>,
    round: int,
)
    requires
        in_turn(p, events),
        succeeded(p, events),
        !stopped(events),
        0 <= round < p.boost_rounds,
    ensures
        asked(p, events).contains(Task::Evaluate { iteration: round }) <==> due(p, round),
{
    lemma_due(p, round);
    crate::course::law_rounds_in_order(p, events);
    crate::course::law_evaluations_keep_schedule(p, events, round);
}

/// An evaluation is kept as it came until the next round begins, but for the caller's scores:
/// each stands under `custom` and its matrix's name, and adding it changes nothing else.
pub proof fn law_results_of_a_round(
    p: TrainingParameters,
    s: TrainingState,
    event: TrainEvent,
    name: Seq<char>,
    metric: Seq<char>,
)
    requires
        in_order(p, s),
        answers(s, event),
        advances(p, s, event).0.begun == s.begun,
    ensures
        ({
            let t = advances(p, s, event).0;
            match event {
                TrainEvent::Evaluated(Ok(results)) => t.results == Some(evaluation_scores(results)),
                TrainEvent::Scored(Ok(score)) => t.results is Some && ({
                    let set = p.evaluation_sets->0@[s.phase->set as int].1@;
                    &&& lookup(metrics_under(t.results->0, "custom"@), set) == Some(score@)
                    &&& name != "custom"@ || metric != set ==> lookup(
                        metrics_under(t.results->0, name),
                        metric,
                    ) == lookup(metrics_under(s.results->0, name), metric)
                }),
                _ => t.results == s.results,
            }
        }),
{
    if let TrainEvent::Scored(Ok(score)) = event {
        law_put_score_changes_one_place(
            s.results->0,
            "custom"@,
            p.sets()[s.phase->set as int].1@,
            score@,
            name,
            metric,
        );
    }
}

/// A new round begins without an evaluation.
pub proof fn law_rounds_begin_without_results(
    p: TrainingParameters,
    s: TrainingState,
    event: TrainEvent,
)
    requires
        in_order(p, s),
        answers(s, event),
        advances(p, s, event).0.begun != s.begun,
    ensures
        advances(p, s, event).0.results is None,
        advances(p, s, event).0.begun == s.begun + 1,
        advances(p, s, event).0.phase is Updating,
{
}

/// A printed line is the report of the current round's evaluation.
pub proof fn law_printed_lines_report_the_round(
    p: TrainingParameters,
    s: TrainingState,
    event: TrainEvent,
    line: Seq<char>,
)
    requires
        in_order(p, s),
        answers(s, event),
        advances(p, s, event).1 == Task::Print(line),
    ensures
        advances(p, s, event).0.results matches Some(table) && line == line_text(
            round_head(s.begun - 1),
            ordered_entries(table),
        ),
{
}

} // verus!
