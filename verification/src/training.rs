//! Training rounds, and the evaluation of a model.

use crate::array_interface::{
    interface_1d, interface_2d, law_interface_fits, write_interface_1d, write_interface_2d,
    ARRAY_INTERFACE_BUF,
};
use crate::booster::Booster;
use crate::call::{ask_once, asks_once, Call, Config, Request, Step};
use crate::cbuf::CBuf;
use crate::ctext::{holds_nul, terminated, with_nul};
use crate::error::{fails_with, XGBError, XGBResult};
use crate::evaluation::{line_scores, name_texts, readable_line};
use crate::matrix::{ArrayRef, DMatrix};
use crate::predict_config;
use crate::prediction::matrix_request;
use crate::scores::{
    evaluation_scores, evaluation_swap_remove, lookup, metric_scores, Evaluation, Metrics,
};
use crate::text::{
    decimal, joined_by, law_split_finds_pieces, lemma_concat_without, lemma_decimal_without,
    push_decimal, split, views,
};
use vstd::prelude::*;
use vstd::utf8::encode_utf8;

verus! {

broadcast use vstd::string::group_string_axioms;

/// How far a round with given gradients has come.
pub enum BoostEvent {
    /// It begins.
    Start,
    /// The number of features was asked for.
    Features(XGBResult<u64>),
    /// The round was trained.
    Trained(XGBResult<()>),
}

/// How many gradients each row has: more than one only where they divide evenly among the rows.
pub open spec fn num_targets(len: nat, num_rows: nat) -> nat {
    if num_rows > 0 && len > 0 && len % num_rows == 0 {
        len / num_rows
    } else {
        1
    }
}

/// The description of an array of gradients: one-dimensional, or with a column per target where
/// there are several targets.
pub open spec fn gradient_text(array: ArrayRef, num_rows: nat) -> Seq<char> {
    let targets = num_targets(array.len as nat, num_rows);
    if targets > 1 {
        interface_2d(array.addr as nat, num_rows, targets)
    } else {
        interface_1d(array.addr as nat, array.len as nat, "<f4"@)
    }
}

/// What is said of gradients and hessians that differ in number.
pub open spec fn length_mismatch(gradient: nat, hessian: nat) -> Seq<char> {
    "Mismatch between length of gradient and hessian arrays ("@ + decimal(gradient) + " != "@
        + decimal(hessian) + ")"@
}

/// What is said of a matrix that the model was not made for.
pub open spec fn feature_mismatch(features: nat, columns: nat) -> Seq<char> {
    "Feature count mismatch: booster has "@ + decimal(features) + " features but DMatrix has "@
        + decimal(columns) + " columns"@
}

/// The number of features, where it is known; 0 otherwise.
pub open spec fn known_features(num_features: XGBResult<usize>) -> usize {
    match num_features {
        Ok(n) => n,
        Err(_) => 0,
    }
}

/// The matrix may be used with the model: the counts are equal, or one of them is unknown.
pub open spec fn compatible(num_features: usize, num_cols: usize) -> bool {
    num_features == 0 || num_cols == 0 || num_features == num_cols
}

/// The call that trains a round with given gradients.
pub open spec fn boost_request(
    handle: usize,
    dtrain: DMatrix,
    iteration: i32,
    gradient: ArrayRef,
    hessian: ArrayRef,
) -> Request {
    Request::BoosterTrainOneIter {
        booster: handle,
        dtrain: dtrain.handle,
        iteration,
        gradient: encode_utf8(gradient_text(gradient, dtrain.num_rows as nat)),
        hessian: encode_utf8(gradient_text(hessian, dtrain.num_rows as nat)),
    }
}

/// The step of a round with given gradients: arrays of different lengths are refused, then a
/// matrix with the wrong number of columns; then the round is trained.
pub open spec fn boost_step(
    step: Step<'_, ()>,
    handle: usize,
    dtrain: DMatrix,
    iteration: i32,
    gradient: ArrayRef,
    hessian: ArrayRef,
    event: BoostEvent,
) -> bool {
    if gradient.len != hessian.len {
        step.fails(length_mismatch(gradient.len as nat, hessian.len as nat))
    } else {
        match event {
            BoostEvent::Start => step.performs(Request::BoosterGetNumFeature { booster: handle }),
            BoostEvent::Features(reply) => {
                let features = match reply {
                    Ok(n) => n as usize,
                    Err(_) => 0,
                };
                if compatible(features, dtrain.num_cols) {
                    step.performs(boost_request(handle, dtrain, iteration, gradient, hessian))
                } else {
                    step.fails(feature_mismatch(features as nat, dtrain.num_cols as nat))
                }
            },
            BoostEvent::Trained(reply) => step == Step::<'_, ()>::Finish(reply),
        }
    }
}

/// Describes an array of gradients, in a buffer of its own.
fn describe_gradients(array: ArrayRef, num_rows: usize) -> (r: CBuf<ARRAY_INTERFACE_BUF>)
    ensures
        r@ == encode_utf8(gradient_text(array, num_rows as nat)),
{
    let n_targets: usize = if num_rows > 0 && array.len > 0 && array.len % num_rows == 0 {
        array.len / num_rows
    } else {
        1
    };
    let mut buf: CBuf<ARRAY_INTERFACE_BUF> = CBuf::new();
    proof {
        reveal_strlit("<f4");
        law_interface_fits(array.addr, num_rows, n_targets, "<f4"@);
        law_interface_fits(array.addr, array.len, 0, "<f4"@);
    }
    if n_targets > 1 {
        write_interface_2d(&mut buf, array.addr, num_rows, n_targets);
    } else {
        write_interface_1d(&mut buf, array.addr, array.len, "<f4");
    }
    assert(buf@ =~= encode_utf8(gradient_text(array, num_rows as nat)));
    buf
}

impl Booster {
    /// Trains the model for one round, with the objective that its parameters name.
    pub fn update(&self, dtrain: &DMatrix, iteration: i32, reply: Option<XGBResult<()>>) -> (r: Step<
        'static,
        (),
    >)
        ensures
            asks_once(
                r,
                Request::BoosterUpdateOneIter {
                    booster: self@.handle,
                    iteration,
                    dtrain: dtrain.handle,
                },
                reply,
            ),
    {
        ask_once(
            Call::BoosterUpdateOneIter {
                booster: self.handle(),
                iteration,
                dtrain: dtrain.handle,
            },
            reply,
        )
    }

    /// Gets the number of features that the model was configured for.
    pub fn num_features(&self, reply: Option<XGBResult<u64>>) -> (r: Step<'static, usize>)
        ensures
            match reply {
                None => r.performs(Request::BoosterGetNumFeature { booster: self@.handle }),
                Some(Ok(n)) => r == Step::<'static, usize>::Finish(Ok(n as usize)),
                Some(Err(e)) => r.gives_error(e),
            },
    {
        match reply {
            None => Step::Perform(Call::BoosterGetNumFeature { booster: self.handle() }),
            Some(Ok(n)) => Step::Finish(Ok(n as usize)),
            Some(Err(e)) => Step::Finish(Err(e)),
        }
    }

    /// Checks the model's number of features, as far as it is known, against the matrix's number
    /// of columns, as far as that is known. A failure to get the number of features means that
    /// the model has none yet.
    pub fn validate_features(dmat: &DMatrix, num_features: XGBResult<usize>) -> (r: XGBResult<()>)
        ensures
            compatible(known_features(num_features), dmat.num_cols) ==> r is Ok,
            !compatible(known_features(num_features), dmat.num_cols) ==> fails_with(
                r,
                feature_mismatch(known_features(num_features) as nat, dmat.num_cols as nat),
            ),
    {
        let num_features: usize = match num_features {
            Ok(n) => n,
            Err(_) => 0,
        };
        if num_features == 0 {
            return Ok(());
        }
        let num_cols: usize = dmat.num_cols;
        if num_cols == 0 {
            return Ok(());
        }
        if num_features != num_cols {
            let mut message: String = "Feature count mismatch: booster has ".to_owned();
            push_decimal(&mut message, num_features as u64);
            message.append(" features but DMatrix has ");
            push_decimal(&mut message, num_cols as u64);
            message.append(" columns");
            return Err(XGBError::new(message));
        }
        Ok(())
    }

    /// Trains the model for one round with given first and second order gradients.
    ///
    /// For several targets the gradients are row-major, one column per target; the number of
    /// targets is that of the gradients over that of the rows.
    pub fn boost(
        &self,
        dtrain: &DMatrix,
        iteration: i32,
        gradient: ArrayRef,
        hessian: ArrayRef,
        event: BoostEvent,
    ) -> (r: Step<'static, ()>)
        ensures
            boost_step(r, self@.handle, *dtrain, iteration, gradient, hessian, event),
    {
        if gradient.len != hessian.len {
            let mut message: String =
                "Mismatch between length of gradient and hessian arrays (".to_owned();
            push_decimal(&mut message, gradient.len as u64);
            message.append(" != ");
            push_decimal(&mut message, hessian.len as u64);
            message.append(")");
            return Step::Finish(Err(XGBError::new(message)));
        }
        let num_features: XGBResult<usize> = match event {
            BoostEvent::Start => {
                return Step::Perform(Call::BoosterGetNumFeature { booster: self.handle() });
            },
            BoostEvent::Trained(reply) => {
                return Step::Finish(reply);
            },
            BoostEvent::Features(Ok(n)) => Ok(n as usize),
            BoostEvent::Features(Err(e)) => Err(e),
        };
        match Booster::validate_features(dtrain, num_features) {
            Err(e) => Step::Finish(Err(e)),
            Ok(_) => Step::Perform(
                Call::BoosterTrainOneIter {
                    booster: self.handle(),
                    dtrain: dtrain.handle,
                    iteration,
                    gradient: describe_gradients(gradient, dtrain.num_rows),
                    hessian: describe_gradients(hessian, dtrain.num_rows),
                },
            ),
        }
    }
}

/// How far a round with an objective of the caller's has come.
pub enum CustomEvent {
    /// It begins.
    Start,
    /// The matrix was predicted on.
    Predicted(XGBResult<()>),
    /// The objective gave gradients; `event` is how far the round with them has come.
    Boosting { gradient: ArrayRef, hessian: ArrayRef, event: BoostEvent },
}

/// What a round with an objective of the caller's wants next.
pub enum CustomStep<'a> {
    /// A call whose reply goes back.
    Perform(Call<'a>),
    /// The objective's gradients for what was just predicted.
    RunObjective,
    /// Nothing: this is how the round ended.
    Finish(XGBResult<()>),
}

/// The step of a round with an objective of the caller's: a prediction, the objective on it,
/// and a round with the objective's gradients.
pub open spec fn custom_step(
    step: CustomStep<'_>,
    handle: usize,
    dtrain: DMatrix,
    iteration: i32,
    event: CustomEvent,
) -> bool {
    match event {
        CustomEvent::Start => step matches CustomStep::Perform(call) && call@ == matrix_request(
            handle,
            dtrain,
            predict_config::NORMAL@,
        ),
        CustomEvent::Predicted(Ok(_)) => step is RunObjective,
        CustomEvent::Predicted(Err(e)) => step matches CustomStep::Finish(Err(x)) && x == e,
        CustomEvent::Boosting { gradient, hessian, event } => match step {
            CustomStep::Perform(call) => boost_step(
                Step::Perform(call),
                handle,
                dtrain,
                iteration,
                gradient,
                hessian,
                event,
            ),
            CustomStep::Finish(r) => boost_step(
                Step::Finish(r),
                handle,
                dtrain,
                iteration,
                gradient,
                hessian,
                event,
            ),
            CustomStep::RunObjective => false,
        },
    }
}

/// The names under which matrices are evaluated.
pub open spec fn eval_names(evals: Seq<(DMatrix, &str)>) -> Seq<Seq<char>> {
    evals.map_values(|e: (DMatrix, &str)| e.1@)
}

/// The handles of the evaluated matrices.
pub open spec fn eval_dmats(evals: Seq<(DMatrix, &str)>) -> Seq<usize> {
    evals.map_values(|e: (DMatrix, &str)| e.0.handle)
}

/// The call that evaluates matrices.
pub open spec fn eval_request(
    handle: usize,
    evals: Seq<(DMatrix, &str)>,
    iteration: i32,
) -> Request {
    Request::BoosterEvalOneIter {
        booster: handle,
        iteration,
        dmats: eval_dmats(evals),
        names: eval_names(evals).map_values(|n: Seq<char>| terminated(n)),
    }
}

impl Booster {
    /// Trains the model for one round with an objective of the caller's.
    pub fn update_custom(&self, dtrain: &DMatrix, iteration: i32, event: CustomEvent) -> (r:
        CustomStep<'static>)
        ensures
            custom_step(r, self@.handle, *dtrain, iteration, event),
    {
        match event {
            CustomEvent::Start => CustomStep::Perform(
                Call::BoosterPredictFromDMatrix {
                    booster: self.handle(),
                    dmat: dtrain.handle,
                    config: Config::Borrowed(predict_config::NORMAL),
                },
            ),
            CustomEvent::Predicted(Ok(_)) => CustomStep::RunObjective,
            CustomEvent::Predicted(Err(e)) => CustomStep::Finish(Err(e)),
            CustomEvent::Boosting { gradient, hessian, event } => match self.boost(
                dtrain,
                iteration,
                gradient,
                hessian,
                event,
            ) {
                Step::Perform(call) => CustomStep::Perform(call),
                Step::Finish(r) => CustomStep::Finish(r),
            },
        }
    }

    /// Evaluates matrices, each under a name. The reply is the evaluation line.
    pub fn eval_set(
        &self,
        evals: &[(DMatrix, &str)],
        iteration: i32,
        reply: Option<XGBResult<String>>,
    ) -> (r: Step<'static, Evaluation>)
        requires
            forall|i: int| 0 <= i < evals@.len() ==> !holds_nul((#[trigger] evals@[i]).1@),
            reply matches Some(Ok(out)) ==> readable_line(out@, eval_names(evals@)),
        ensures
            match reply {
                None => r.performs(eval_request(self@.handle, evals@, iteration)),
                Some(Ok(out)) => r matches Step::Finish(Ok(results)) && evaluation_scores(results)
                    == line_scores(out@, eval_names(evals@)),
                Some(Err(e)) => r.gives_error(e),
            },
    {
        let mut dmats: Vec<usize> = Vec::new();
        let mut names: Vec<&str> = Vec::new();
        let mut evnames: Vec<String> = Vec::new();
        let mut i: usize = 0;
        while i < evals.len()
            invariant
                i <= evals.len(),
                dmats@ == eval_dmats(evals@).take(i as int),
                name_texts(names@) == eval_names(evals@).take(i as int),
                evnames@.len() == i,
                forall|k: int| 0 <= k < i ==> (#[trigger] evnames@[k])@ == terminated(evals@[k].1@),
            decreases evals.len() - i,
        {
            let ghost before = name_texts(names@);
            let (dmat, name): (DMatrix, &str) = evals[i];
            dmats.push(dmat.handle);
            names.push(name);
            evnames.push(with_nul(name));
            assert(name_texts(names@) =~= before.push(name@));
            assert(eval_names(evals@).take(i + 1) =~= eval_names(evals@).take(i as int).push(name@));
            assert(eval_dmats(evals@).take(i + 1) =~= eval_dmats(evals@).take(i as int).push(
                dmat.handle,
            ));
            i = i + 1;
        }
        assert(eval_names(evals@).take(i as int) =~= eval_names(evals@));
        assert(eval_dmats(evals@).take(i as int) =~= eval_dmats(evals@));
        match reply {
            None => {
                assert(views(evnames@) =~= eval_names(evals@).map_values(
                    |n: Seq<char>| terminated(n),
                ));
                Step::Perform(
                    Call::BoosterEvalOneIter {
                        booster: self.handle(),
                        iteration,
                        dmats,
                        names: evnames,
                    },
                )
            },
            Some(Ok(out)) => Step::Finish(
                Ok(Booster::parse_eval_string(out.as_str(), names.as_slice())),
            ),
            Some(Err(e)) => Step::Finish(Err(e)),
        }
    }

    /// Evaluates one matrix: a score for each metric of the model's parameters.
    pub fn evaluate(&self, dmat: &DMatrix, reply: Option<XGBResult<String>>) -> (r: Step<
        'static,
        Metrics,
    >)
        requires
            reply matches Some(Ok(out)) ==> readable_line(out@, seq!["default"@]) && lookup(
                line_scores(out@, seq!["default"@]),
                "default"@,
            ) is Some,
        ensures
            match reply {
                None => r.performs(
                    Request::BoosterEvalOneIter {
                        booster: self@.handle,
                        iteration: 0,
                        dmats: seq![dmat.handle],
                        names: seq![terminated("default"@)],
                    },
                ),
                Some(Ok(out)) => r matches Step::Finish(Ok(metrics)) && Some(metric_scores(metrics))
                    == lookup(line_scores(out@, seq!["default"@]), "default"@),
                Some(Err(e)) => r.gives_error(e),
            },
    {
        let mut evals: Vec<(DMatrix, &str)> = Vec::new();
        evals.push((*dmat, "default"));
        proof {
            reveal_strlit("default");
            assert(eval_names(evals@) =~= seq!["default"@]);
            assert(eval_dmats(evals@) =~= seq![dmat.handle]);
            assert(eval_names(evals@).map_values(|n: Seq<char>| terminated(n)) =~= seq![
                terminated("default"@),
            ]);
        }
        match self.eval_set(evals.as_slice(), 0, reply) {
            Step::Perform(call) => Step::Perform(call),
            Step::Finish(Err(e)) => Step::Finish(Err(e)),
            Step::Finish(Ok(results)) => {
                let mut eval: Evaluation = results;
                let metrics: Metrics = evaluation_swap_remove(&mut eval, "default").unwrap();
                Step::Finish(Ok(metrics))
            },
        }
    }
}

/// Gradients with a column per target are all described: rows times targets is their number.
pub proof fn law_targets_cover_gradients(len: nat, num_rows: nat)
    requires
        num_targets(len, num_rows) > 1,
    ensures
        num_rows * num_targets(len, num_rows) == len,
{
    vstd::arithmetic::div_mod::lemma_fundamental_div_mod(len as int, num_rows as int);
}

/// Gradients of several targets go by row: `rows * targets` of them are described as a matrix of
/// that many rows, with a column per target, for every number of targets; so are the hessians.
pub proof fn law_gradients_of_targets_go_by_row(
    handle: usize,
    dtrain: DMatrix,
    iteration: i32,
    gradient: ArrayRef,
    hessian: ArrayRef,
    targets: nat,
)
    requires
        dtrain.num_rows > 0,
        targets > 1,
        gradient.len == dtrain.num_rows * targets,
        hessian.len == dtrain.num_rows * targets,
    ensures
        boost_request(handle, dtrain, iteration, gradient, hessian) == (
        Request::BoosterTrainOneIter {
            booster: handle,
            dtrain: dtrain.handle,
            iteration,
            gradient: encode_utf8(
                interface_2d(gradient.addr as nat, dtrain.num_rows as nat, targets),
            ),
            hessian: encode_utf8(
                interface_2d(hessian.addr as nat, dtrain.num_rows as nat, targets),
            ),
        }),
{
    let rows = dtrain.num_rows as int;
    vstd::arithmetic::div_mod::lemma_mod_multiples_basic(targets as int, rows);
    vstd::arithmetic::div_mod::lemma_div_by_multiple(targets as int, rows);
    assert(rows * targets == targets * rows) by (nonlinear_arith);
    assert(rows * targets > 0) by (nonlinear_arith)
        requires
            rows > 0,
            targets > 1,
    ;
}

/// `len` is a number of values for more than one target per row.
pub open spec fn several_targets(len: nat, num_rows: nat) -> bool {
    exists|targets: nat| targets > 1 && len == #[trigger] (num_rows * targets)
}

/// Gradients that are not those of several targets are described as a vector of their number; so
/// are the hessians.
pub proof fn law_other_gradients_are_a_vector(
    handle: usize,
    dtrain: DMatrix,
    iteration: i32,
    gradient: ArrayRef,
    hessian: ArrayRef,
)
    requires
        gradient.len == hessian.len,
        dtrain.num_rows == 0 || !several_targets(gradient.len as nat, dtrain.num_rows as nat),
    ensures
        boost_request(handle, dtrain, iteration, gradient, hessian) == (
        Request::BoosterTrainOneIter {
            booster: handle,
            dtrain: dtrain.handle,
            iteration,
            gradient: encode_utf8(
                interface_1d(gradient.addr as nat, gradient.len as nat, "<f4"@),
            ),
            hessian: encode_utf8(interface_1d(hessian.addr as nat, hessian.len as nat, "<f4"@)),
        }),
{
    let (len, rows) = (gradient.len as nat, dtrain.num_rows as nat);
    if num_targets(len, rows) > 1 {
        law_targets_cover_gradients(len, rows);
        assert(len == rows * num_targets(len, rows));
    }
}

/// A round with gradients begins by asking for the number of features, goes on to train if that
/// number or the matrix's number of columns is unknown (0, or a failure) or the two are equal,
/// and only then, and gives what training gave. Gradients and hessians of different number are
/// refused at every turn.
pub proof fn law_course_of_a_boost(
    step: Step<'_, ()>,
    handle: usize,
    dtrain: DMatrix,
    iteration: i32,
    gradient: ArrayRef,
    hessian: ArrayRef,
    event: BoostEvent,
)
    requires
        boost_step(step, handle, dtrain, iteration, gradient, hessian, event),
    ensures
        gradient.len != hessian.len ==> step matches Step::Finish(Err(_)),
        gradient.len == hessian.len ==> match event {
            BoostEvent::Start => step.performs(Request::BoosterGetNumFeature { booster: handle }),
            BoostEvent::Features(Err(_)) => step is Perform,
            BoostEvent::Features(Ok(n)) => (step is Perform <==> n as usize == 0
                || dtrain.num_cols == 0 || n as usize == dtrain.num_cols) && (step !is Perform
                ==> step matches Step::Finish(Err(_))),
            BoostEvent::Trained(reply) => step == Step::<'_, ()>::Finish(reply),
        },
        gradient.len == hessian.len && event is Features && step is Perform ==> step.performs(
            boost_request(handle, dtrain, iteration, gradient, hessian),
        ),
{
}

/// The complaint about gradients and hessians of different number tells both numbers.
pub proof fn law_length_mismatch_tells_both(gradient: nat, hessian: nat)
    ensures
        ({
            let head = "Mismatch between length of gradient and hessian arrays ("@;
            let text = length_mismatch(gradient, hessian);
            &&& text.take(head.len() as int) == head
            &&& split(text.skip(head.len() as int), ' ') == seq![
                decimal(gradient),
                "!="@,
                decimal(hessian) + ")"@,
            ]
        }),
{
    let head = "Mismatch between length of gradient and hessian arrays ("@;
    let text = length_mismatch(gradient, hessian);
    reveal_strlit(" != ");
    reveal_strlit("!=");
    reveal_strlit(")");
    lemma_decimal_without(gradient as int, ' ');
    lemma_decimal_without(hessian as int, ' ');
    lemma_concat_without(decimal(hessian), ")"@, ' ');
    let f = seq![decimal(gradient), "!="@, decimal(hessian) + ")"@];
    let f1 = f.drop_last();
    let f2 = f1.drop_last();
    assert(joined_by(f2, ' ') == f[0]);
    assert(joined_by(f1, ' ') == f[0] + seq![' '] + f[1]);
    assert(text.take(head.len() as int) =~= head);
    assert(text.skip(head.len() as int) =~= joined_by(f, ' '));
    law_split_finds_pieces(f, ' ');
}

/// The complaint about a matrix that the model was not made for tells both numbers.
pub proof fn law_feature_mismatch_tells_both(features: nat, columns: nat)
    ensures
        ({
            let head = "Feature count mismatch: booster has "@;
            let text = feature_mismatch(features, columns);
            &&& text.take(head.len() as int) == head
            &&& split(text.skip(head.len() as int), ' ') == seq![
                decimal(features),
                "features"@,
                "but"@,
                "DMatrix"@,
                "has"@,
                decimal(columns),
                "columns"@,
            ]
        }),
{
    let head = "Feature count mismatch: booster has "@;
    let text = feature_mismatch(features, columns);
    reveal_strlit(" features but DMatrix has ");
    reveal_strlit(" columns");
    reveal_strlit("features");
    reveal_strlit("but");
    reveal_strlit("DMatrix");
    reveal_strlit("has");
    reveal_strlit("columns");
    lemma_decimal_without(features as int, ' ');
    lemma_decimal_without(columns as int, ' ');
    let f = seq![
        decimal(features),
        "features"@,
        "but"@,
        "DMatrix"@,
        "has"@,
        decimal(columns),
        "columns"@,
    ];
    let f1 = f.drop_last();
    let f2 = f1.drop_last();
    let f3 = f2.drop_last();
    let f4 = f3.drop_last();
    let f5 = f4.drop_last();
    let f6 = f5.drop_last();
    assert(joined_by(f6, ' ') == f[0]);
    assert(joined_by(f5, ' ') == f[0] + seq![' '] + f[1]);
    assert(joined_by(f4, ' ') == joined_by(f5, ' ') + seq![' '] + f[2]);
    assert(joined_by(f3, ' ') == joined_by(f4, ' ') + seq![' '] + f[3]);
    assert(joined_by(f2, ' ') == joined_by(f3, ' ') + seq![' '] + f[4]);
    assert(joined_by(f1, ' ') == joined_by(f2, ' ') + seq![' '] + f[5]);
    assert(text.take(head.len() as int) =~= head);
    assert(text.skip(head.len() as int) =~= joined_by(f, ' '));
    law_split_finds_pieces(f, ' ');
}

/// Matrices are evaluated in the order in which they are given, each under its own name, on the
/// booster and in the round that the caller names.
pub proof fn law_evaluation_keeps_the_order(
    handle: usize,
    evals: Seq<(DMatrix, &str)>,
    iteration: i32,
    i: int,
)
    requires
        0 <= i < evals.len(),
    ensures
        eval_request(handle, evals, iteration) matches Request::BoosterEvalOneIter {
            booster,
            iteration: round,
            dmats,
            names,
        } && booster == handle && round == iteration && dmats.len() == evals.len() && names.len()
            == evals.len() && dmats[i] == evals[i].0.handle && names[i] == evals[i].1@ + seq!['\0'],
{
    assert(terminated(evals[i].1@) =~= evals[i].1@ + seq!['\0']);
}

/// A round with the caller's objective predicts on the matrix, hands that to the objective, and
/// trains with what the objective gave; a prediction that fails ends it.
pub proof fn law_course_of_a_custom_round(
    step: CustomStep<'_>,
    handle: usize,
    dtrain: DMatrix,
    iteration: i32,
    event: CustomEvent,
)
    requires
        custom_step(step, handle, dtrain, iteration, event),
    ensures
        match event {
            CustomEvent::Start => step matches CustomStep::Perform(call) && call@ == (
            Request::BoosterPredictFromDMatrix {
                booster: handle,
                dmat: dtrain.handle,
                config: predict_config::NORMAL@,
            }),
            CustomEvent::Predicted(Ok(_)) => step is RunObjective,
            CustomEvent::Predicted(Err(e)) => step == CustomStep::Finish(Err(e)),
            CustomEvent::Boosting { gradient, hessian, event } => match (step, event) {
                (CustomStep::RunObjective, _) => false,
                (CustomStep::Perform(call), BoostEvent::Start) => gradient.len == hessian.len
                    && call@ == (Request::BoosterGetNumFeature { booster: handle }),
                (CustomStep::Perform(call), BoostEvent::Features(_)) => gradient.len
                    == hessian.len && call@ == boost_request(
                    handle,
                    dtrain,
                    iteration,
                    gradient,
                    hessian,
                ),
                (CustomStep::Perform(call), BoostEvent::Trained(_)) => false,
                (CustomStep::Finish(r), BoostEvent::Trained(reply)) => gradient.len == hessian.len
                    ==> r == reply,
                (CustomStep::Finish(r), _) => r is Err,
            },
        },
{
}

/// A matrix is refused exactly if the model's number of features and the matrix's number of
/// columns are both known, as numbers other than 0, and differ.
pub proof fn law_refused_matrices(num_features: XGBResult<usize>, num_cols: usize)
    ensures
        !compatible(known_features(num_features), num_cols) <==> (num_features matches Ok(n) && n
            != 0 && num_cols != 0 && n != num_cols),
        num_features matches Ok(n) ==> known_features(num_features) == n,
{
}

} // verus!
