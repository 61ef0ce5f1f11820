//! The course of training: what holds of every run.

use crate::error::XGBError;
use crate::train::{
    advances, answers, in_order, untrained, Phase, Task, TrainEvent, TrainingParameters,
    TrainingState,
};
use vstd::prelude::*;

verus! {

/// Where training stands after the events.
pub open spec fn run(p: TrainingParameters, events: Seq<TrainEvent>) -> TrainingState
    decreases events.len(),
{
    if events.len() == 0 {
        untrained()
    } else {
        advances(p, run(p, events.drop_last()), events.last()).0
    }
}

/// What training asked for on the events.
pub open spec fn asked(p: TrainingParameters, events: Seq<TrainEvent>) -> Seq<Task>
    decreases events.len(),
{
    if events.len() == 0 {
        Seq::empty()
    } else {
        asked(p, events.drop_last()).push(
            advances(p, run(p, events.drop_last()), events.last()).1,
        )
    }
}

/// Each event answers what training asked for before it.
pub open spec fn in_turn(p: TrainingParameters, events: Seq<TrainEvent>) -> bool
    decreases events.len(),
{
    events.len() > 0 ==> in_turn(p, events.drop_last()) && answers(
        run(p, events.drop_last()),
        events.last(),
    )
}

/// Training came to its end without a failure.
pub open spec fn succeeded(p: TrainingParameters, events: Seq<TrainEvent>) -> bool {
    events.len() > 0 && asked(p, events).last() == Task::Finish(Ok(()))
}

/// A callback asked for an end.
pub open spec fn stopped(events: Seq<TrainEvent>) -> bool {
    events.contains(TrainEvent::Returned(false))
}

/// The rounds that the tasks train, in order.
pub open spec fn trained(tasks: Seq<Task>) -> Seq<int>
    decreases tasks.len(),
{
    if tasks.len() == 0 {
        Seq::empty()
    } else {
        match tasks.last() {
            Task::Update { iteration } => trained(tasks.drop_last()).push(iteration),
            Task::UpdateCustom { iteration } => trained(tasks.drop_last()).push(iteration),
            _ => trained(tasks.drop_last()),
        }
    }
}

/// The tasks that make or train the model, in order; the others only look at it.
pub open spec fn model_tasks(tasks: Seq<Task>) -> Seq<Task>
    decreases tasks.len(),
{
    if tasks.len() == 0 {
        Seq::empty()
    } else {
        let before = model_tasks(tasks.drop_last());
        match tasks.last() {
            Task::Create { .. } => before.push(tasks.last()),
            Task::Update { .. } => before.push(tasks.last()),
            Task::UpdateCustom { .. } => before.push(tasks.last()),
            _ => before,
        }
    }
}

/// The first `begun` rounds of a plain loop, behind the making of the booster.
pub open spec fn plain_loop(p: TrainingParameters, begun: int) -> Seq<Task> {
    seq![Task::Create { dmats: p.cached() }] + Seq::new(
        begun as nat,
        |i: int|
            if p.custom_objective {
                Task::UpdateCustom { iteration: i }
            } else {
                Task::Update { iteration: i }
            },
    )
}

/// The round was evaluated, as far as that was its turn.
pub open spec fn evaluated(p: TrainingParameters, tasks: Seq<Task>, round: int) -> bool {
    p.evaluates(round) ==> tasks.contains(Task::Evaluate { iteration: round })
}

proof fn lemma_order_kept(p: TrainingParameters, s: TrainingState, event: TrainEvent)
    requires
        in_order(p, s),
        answers(s, event),
    ensures
        in_order(p, advances(p, s, event).0),
        s.begun <= advances(p, s, event).0.begun <= s.begun + 1,
{
}

/// What holds after the events, round by round.
spec fn kept(p: TrainingParameters, events: Seq<TrainEvent>) -> bool {
    let s = run(p, events);
    let tasks = asked(p, events);
    &&& in_order(p, s)
    &&& trained(tasks) == Seq::new(s.begun as nat, |i: int| i)
    &&& model_tasks(tasks) == (if s.phase is Start {
        Seq::empty()
    } else {
        plain_loop(p, s.begun)
    })
    &&& forall|i: int| 0 <= i < s.begun - 1 ==> #[trigger] evaluated(p, tasks, i)
    &&& (s.begun > 0 && !(s.phase is Updating) && (s.phase is Ended ==> succeeded(p, events)))
        ==> evaluated(p, tasks, s.begun - 1)
    &&& (succeeded(p, events) && !stopped(events)) ==> s.begun == p.rounds()
    &&& succeeded(p, events) ==> s.phase is Ended
    &&& forall|i: int|
        #[trigger] tasks.contains(Task::Evaluate { iteration: i }) ==> p.evaluates(i) && i < s.begun
}

proof fn lemma_kept(p: TrainingParameters, events: Seq<TrainEvent>)
    requires
        in_turn(p, events),
    ensures
        kept(p, events),
    decreases events.len(),
{
    if events.len() == 0 {
        assert(trained(asked(p, events)) =~= Seq::new(0, |i: int| i));
        assert(model_tasks(asked(p, events)) =~= Seq::empty());
    } else {
        let before = events.drop_last();
        let s = run(p, before);
        let tasks = asked(p, before);
        let (t, task) = advances(p, s, events.last());
        let all = asked(p, events);
        lemma_kept(p, before);
        lemma_order_kept(p, s, events.last());
        assert(all == tasks.push(task));
        assert(all.drop_last() =~= tasks);
        assert(all.last() == task);
        assert forall|x: Task| #[trigger] all.contains(x) <==> tasks.contains(x) || x == task by {
            if tasks.contains(x) {
                let i = choose|i: int| 0 <= i < tasks.len() && tasks[i] == x;
                assert(all[i] == x);
            }
            if x == task {
                assert(all[tasks.len() as int] == x);
            }
            if all.contains(x) {
                let i = choose|i: int| 0 <= i < all.len() && all[i] == x;
                if i < tasks.len() {
                    assert(tasks[i] == x);
                }
            }
        }
        assert(trained(all) =~= Seq::new(t.begun as nat, |i: int| i));
        assert(model_tasks(all) =~= plain_loop(p, t.begun));
        assert(!stopped(events) ==> !stopped(before)) by {
            if stopped(before) {
                let i = choose|i: int|
                    0 <= i < before.len() && before[i] == TrainEvent::Returned(false);
                assert(events[i] == TrainEvent::Returned(false));
            }
        }
        assert(events.last() == TrainEvent::Returned(false) ==> stopped(events)) by {
            assert(events[events.len() - 1] == events.last());
        }
        assert forall|i: int| 0 <= i < t.begun - 1 implies #[trigger] evaluated(p, all, i) by {
            assert(evaluated(p, tasks, i));
        }
        if t.begun > 0 && !(t.phase is Updating) && (t.phase is Ended ==> succeeded(p, events)) {
            if t.begun == s.begun {
                assert(evaluated(p, all, t.begun - 1));
            }
        }
        assert forall|i: int|
            #[trigger] all.contains(Task::Evaluate { iteration: i }) implies p.evaluates(i) && i
            < t.begun by {
            if tasks.contains(Task::Evaluate { iteration: i }) {
            } else {
                assert(task == Task::Evaluate { iteration: i });
            }
        }
    }
}

/// The rounds are trained in order from 0 on, each once, and no more of them than there are.
/// Training that came to its end without a failure, and without a callback's asking for it, has
/// trained all of them.
pub proof fn law_rounds_in_order(p: TrainingParameters, events: Seq<TrainEvent>)
    requires
        in_turn(p, events),
    ensures
        trained(asked(p, events)).len() <= p.rounds(),
        forall|i: int|
            0 <= i < trained(asked(p, events)).len() ==> #[trigger] trained(asked(p, events))[i]
                == i,
        succeeded(p, events) && !stopped(events) ==> trained(asked(p, events)).len() == p.rounds(),
{
    lemma_kept(p, events);
}

/// Training does to the model what a plain loop does, in the same order: it makes the booster
/// and trains the rounds from 0 on, and evaluations, reports and callbacks come between without
/// adding or leaving out any of that. All rounds are trained where training succeeds and no
/// callback asks for an end.
pub proof fn law_training_is_a_plain_loop(p: TrainingParameters, events: Seq<TrainEvent>)
    requires
        in_turn(p, events),
        events.len() > 0,
    ensures
        model_tasks(asked(p, events)) == plain_loop(p, run(p, events).begun),
        succeeded(p, events) && !stopped(events) ==> model_tasks(asked(p, events)) == plain_loop(
            p,
            p.rounds(),
        ),
{
    lemma_kept(p, events);
}

/// A round is evaluated if and only if it is its turn: no evaluation is asked for in another
/// round, and none is left out of a round that was followed by another one or by the end.
pub proof fn law_evaluations_keep_schedule(
    p: TrainingParameters,
    events: Seq<TrainEvent>,
    round: int,
)
    requires
        in_turn(p, events),
    ensures
        asked(p, events).contains(Task::Evaluate { iteration: round }) ==> p.evaluates(round),
        0 <= round < trained(asked(p, events)).len() && p.evaluates(round) && (round + 1 < trained(
            asked(p, events),
        ).len() || succeeded(p, events)) ==> asked(p, events).contains(
            Task::Evaluate { iteration: round },
        ),
{
    lemma_kept(p, events);
    let tasks = asked(p, events);
    if tasks.contains(Task::Evaluate { iteration: round }) {
        assert(p.evaluates(round));
    }
    if 0 <= round < trained(tasks).len() {
        assert(evaluated(p, tasks, round) || round == run(p, events).begun - 1);
    }
}

/// Training with evaluation sets never ends without a metric: all rounds done, the last one was
/// evaluated.
pub proof fn law_last_round_is_evaluated(p: TrainingParameters, events: Seq<TrainEvent>)
    requires
        in_turn(p, events),
        succeeded(p, events),
        !stopped(events),
        p.evaluation_sets is Some,
        p.rounds() > 0,
    ensures
        asked(p, events).contains(Task::Evaluate { iteration: p.rounds() - 1 }),
{
    law_rounds_in_order(p, events);
    law_evaluations_keep_schedule(p, events, p.rounds() - 1);
}

/// A period of 0 means 1, and then every round is evaluated.
pub proof fn law_period_zero_means_one(p: TrainingParameters, q: TrainingParameters, round: int)
    requires
        p.eval_period == 0,
        q == (TrainingParameters { eval_period: 1, ..p }),
    ensures
        p.evaluates(round) == q.evaluates(round),
        p.evaluates(round) == p.evaluation_sets is Some,
{
}

/// A failure ends training with that failure.
pub proof fn law_failure_ends_training(
    p: TrainingParameters,
    s: TrainingState,
    event: TrainEvent,
    e: XGBError,
)
    requires
        answers(s, event),
        match event {
            TrainEvent::Created(r) => r == Err::<(), XGBError>(e),
            TrainEvent::Updated(r) => r == Err::<(), XGBError>(e),
            TrainEvent::Evaluated(Err(x)) => x == e,
            TrainEvent::Scored(Err(x)) => x == e,
            _ => false,
        },
    ensures
        advances(p, s, event).0.phase is Ended,
        advances(p, s, event).1 == Task::Finish(Err(e)),
{
}

/// A callback that returns false ends training, without a failure and before any callback that
/// follows; one that returns true is followed by the next callback, if there is one.
pub proof fn law_callback_stops_training(p: TrainingParameters, s: TrainingState, index: usize)
    requires
        in_order(p, s),
        s.phase == (Phase::Calling { index }),
    ensures
        advances(p, s, TrainEvent::Returned(false)).0.phase is Ended,
        advances(p, s, TrainEvent::Returned(false)).1 == Task::Finish(Ok(())),
        index + 1 < p.callbacks->0 ==> advances(p, s, TrainEvent::Returned(true)).1 == (
        Task::Callback {
            index: index + 1,
            iteration: s.begun - 1,
            total_rounds: p.boost_rounds,
        }),
{
}

/// A callback sees an evaluation if and only if the round was evaluated.
pub proof fn law_callbacks_see_evaluations(p: TrainingParameters, events: Seq<TrainEvent>)
    requires
        in_turn(p, events),
        run(p, events).phase is Calling,
    ensures
        run(p, events).results is Some <==> p.evaluates(run(p, events).begun - 1),
{
    lemma_kept(p, events);
}

/// How many steps a round has left at most.
pub open spec fn steps_left(p: TrainingParameters, s: TrainingState) -> int {
    let callbacks = match p.callbacks {
        Some(n) => n as int,
        None => 0,
    };
    let sets = p.sets().len() as int;
    match s.phase {
        Phase::Start => 1,
        Phase::Creating => 0,
        Phase::Updating => callbacks + sets + 3,
        Phase::Evaluating => callbacks + sets + 2,
        Phase::Scoring { set } => callbacks + 1 + sets - set,
        Phase::Reporting => callbacks + 1,
        Phase::Calling { index } => callbacks - index,
        Phase::Ended => 0,
    }
}

/// Training comes to an end: each event ends it, or leaves it fewer rounds, or the round fewer
/// steps.
pub proof fn law_training_advances(p: TrainingParameters, s: TrainingState, event: TrainEvent)
    requires
        in_order(p, s),
        answers(s, event),
    ensures
        ({
            let t = advances(p, s, event).0;
            ||| t.phase is Ended
            ||| 0 <= p.rounds() - t.begun < p.rounds() - s.begun
            ||| t.begun == s.begun && 0 <= steps_left(p, t) < steps_left(p, s)
        }),
{
    lemma_order_kept(p, s, event);
    if let Some(sets) = p.evaluation_sets {
        assert(sets@.len() == sets.len());
    }
}

} // verus!
