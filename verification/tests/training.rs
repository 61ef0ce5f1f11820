//! Rounds, evaluations and whole training runs.

use indexmap::IndexMap;
use xgb::report::evaluation_line;
use xgb::{
    ArrayRef, BoostEvent, Booster, BuildEvent, Call, CustomEvent, CustomStep, DMatrix, Evaluation, Step,
    TrainEvent, TrainStep, Training, TrainingParameters, XGBError, XGBResult,
};

fn matrix(handle: usize, num_rows: usize, num_cols: usize) -> DMatrix {
    DMatrix { handle, num_rows, num_cols }
}

fn numbers(evaluation: &Evaluation) -> IndexMap<String, IndexMap<String, f32>> {
    let mut out = IndexMap::new();
    for (name, metrics) in evaluation {
        let mut scores = IndexMap::new();
        for (metric, score) in metrics {
            scores.insert(metric.clone(), score.parse::<f32>().unwrap());
        }
        out.insert(name.clone(), scores);
    }
    out
}

fn scores(entries: &[(&str, &str, &str)]) -> Evaluation {
    let mut out: Evaluation = IndexMap::new();
    for (name, metric, score) in entries {
        let metrics = out.entry(name.to_string()).or_insert_with(IndexMap::new);
        metrics.insert(metric.to_string(), score.to_string());
    }
    out
}

#[test]
fn parse_eval_string() {
    let s = "[0]\ttrain-map@4-:0.5\ttrain-logloss:1.0\ttest-map@4-:0.25\ttest-logloss:0.75";
    let mut metrics = IndexMap::new();

    let mut train_metrics = IndexMap::new();
    train_metrics.insert("map@4-".to_owned(), 0.5);
    train_metrics.insert("logloss".to_owned(), 1.0);

    let mut test_metrics = IndexMap::new();
    test_metrics.insert("map@4-".to_owned(), 0.25);
    test_metrics.insert("logloss".to_owned(), 0.75);

    metrics.insert("train".to_owned(), train_metrics);
    metrics.insert("test".to_owned(), test_metrics);
    assert!(xgb::evaluation::is_readable_line(s, &["train", "test"]));
    let parsed = numbers(&Booster::parse_eval_string(s, &["train", "test"]));
    assert_eq!(parsed, metrics);
    let order: Vec<&String> = parsed.keys().collect();
    assert_eq!(order, vec!["train", "test"]);
}

#[test]
fn parse_eval_string_prefix_names() {
    // "val" is a prefix of "val2"; entries must not cross-match.
    let s = "[0]\tval-logloss:1.0\tval2-logloss:0.5";
    let metrics = numbers(&Booster::parse_eval_string(s, &["val", "val2"]));
    assert_eq!(metrics["val"].len(), 1);
    assert_eq!(metrics["val"]["logloss"], 1.0);
    assert_eq!(metrics["val2"].len(), 1);
    assert_eq!(metrics["val2"]["logloss"], 0.5);
}

#[test]
fn a_repeated_entry_keeps_its_place_and_takes_the_last_score() {
    let s = "[3]\ta-x:1\ta-y:2\ta-x:3\tother-x:9";
    let metrics = Booster::parse_eval_string(s, &["a"]);
    assert_eq!(metrics.len(), 1);
    let entries: Vec<(&String, &String)> = metrics["a"].iter().collect();
    assert_eq!(entries[0], (&"x".to_owned(), &"3".to_owned()));
    assert_eq!(entries[1], (&"y".to_owned(), &"2".to_owned()));
}

#[test]
fn a_line_with_a_missing_or_a_second_colon_is_not_readable() {
    assert!(!xgb::evaluation::is_readable_line("[0]\ta-x", &["a"]));
    assert!(!xgb::evaluation::is_readable_line("[0]\ta-x:1:2", &["a"]));
    assert!(xgb::evaluation::is_readable_line("[0]\ta-x:1:2", &["b"]));
    assert!(xgb::evaluation::is_readable_line("", &["a"]));
}

#[test]
fn a_line_with_a_score_that_is_no_number_is_not_readable() {
    assert!(!xgb::evaluation::is_readable_line("[0]\ttrain-logloss:abc", &["train"]));
    assert!(!xgb::evaluation::is_readable_line("[0]\ttrain-logloss:", &["train"]));
    assert!(!xgb::evaluation::is_readable_line("[0]\ta-x:1\ta-y:1,5", &["a"]));
    // Neither what stands before the first tab nor an unlisted name matters.
    assert!(xgb::evaluation::is_readable_line("a-x:abc\ta-x:1e-3\tb-x:abc", &["a"]));
    assert!(xgb::evaluation::is_readable_line("[0]\ta-x:-NaN\ta-y:inf", &["a"]));
}

#[test]
fn a_table_goes_by_first_entries_and_holds_last_scores() {
    let s = "[0]\tb-y:1\ta-x:2\tb-x:3\ta-x:4\tb-y:5\tc-x:6";
    let table = Booster::parse_eval_string(s, &["a", "b"]);
    let flat: Vec<(&str, &str, &str)> = table
        .iter()
        .flat_map(|(n, ms)| ms.iter().map(move |(m, v)| (n.as_str(), m.as_str(), v.as_str())))
        .collect();
    assert_eq!(flat, vec![("b", "y", "5"), ("b", "x", "3"), ("a", "x", "4")]);
}

#[test]
fn a_report_goes_by_metric_and_then_by_matrix() {
    let results = scores(&[
        ("train", "map@4-", "0.5"),
        ("train", "logloss", "1"),
        ("test", "map@4-", "0.25"),
        ("test", "logloss", "0.75"),
        ("custom", "train", "7"),
    ]);
    assert_eq!(
        evaluation_line(12, &results),
        "[12]\ttest-logloss:0.75\ttrain-logloss:1\ttest-map@4-:0.25\ttrain-map@4-:0.5\tcustom-train:7"
    );
    assert_eq!(evaluation_line(-1, &scores(&[])), "[-1]");
}

#[test]
fn a_report_reads_back() {
    let results = scores(&[("val", "logloss", "1"), ("val2", "logloss", "2"), ("val", "auc", "3")]);
    let line = evaluation_line(0, &results);
    assert_eq!(Booster::parse_eval_string(&line, &["val", "val2"]), results);
}

#[test]
fn evaluating_takes_the_default_names_scores() {
    let booster = Booster::from_handle(3);
    let dmat = matrix(4, 1, 1);
    match booster.evaluate(&dmat, None) {
        Step::Perform(Call::BoosterEvalOneIter { booster, iteration, dmats, names }) => {
            assert_eq!((booster, iteration), (3, 0));
            assert_eq!(dmats, vec![4]);
            assert_eq!(names, vec!["default\0"]);
        }
        _ => panic!("a call was expected"),
    }
    let line = "[0]\tdefault-rmse:0.5\tdefault-mae:0.25".to_owned();
    match booster.evaluate(&dmat, Some(Ok(line))) {
        Step::Finish(Ok(metrics)) => {
            assert_eq!(metrics.len(), 2);
            assert_eq!(metrics["rmse"], "0.5");
            assert_eq!(metrics["mae"], "0.25");
        }
        _ => panic!("scores were expected"),
    }
}

#[test]
fn evaluation_sets_are_handed_over_in_order() {
    let booster = Booster::from_handle(3);
    let evals = [(matrix(8, 1, 1), "train"), (matrix(5, 1, 1), "test")];
    match booster.eval_set(&evals, 6, None) {
        Step::Perform(Call::BoosterEvalOneIter { iteration, dmats, names, .. }) => {
            assert_eq!(iteration, 6);
            assert_eq!(dmats, vec![8, 5]);
            assert_eq!(names, vec!["train\0", "test\0"]);
        }
        _ => panic!("a call was expected"),
    }
    let failed = Some(Err(XGBError::new("broken".to_owned())));
    match booster.eval_set(&evals, 6, failed) {
        Step::Finish(Err(e)) => assert_eq!(e.desc, "broken"),
        _ => panic!("a failure was expected"),
    }
}

/// The descriptions of the gradients in the call that trains the round.
fn trained_with(dtrain: &DMatrix, len: usize) -> (String, String) {
    let booster = Booster::from_handle(1);
    let gradient = ArrayRef { addr: 4096, len };
    let hessian = ArrayRef { addr: 8192, len };
    let step = booster.boost(dtrain, 2, gradient, hessian, BoostEvent::Features(Ok(0)));
    match step {
        Step::Perform(Call::BoosterTrainOneIter { iteration, mut gradient, mut hessian, .. }) => {
            assert_eq!(iteration, 2);
            let text = |b: &[u8]| String::from_utf8(b.to_vec()).unwrap();
            (text(gradient.as_cstr()), text(hessian.as_cstr()))
        }
        _ => panic!("the round was expected"),
    }
}

#[test]
fn gradients_of_one_target_are_a_vector() {
    let (gradient, hessian) = trained_with(&matrix(2, 60, 5), 60);
    assert_eq!(
        gradient,
        "{\"data\":[4096,false],\"shape\":[60],\"strides\":null,\"typestr\":\"<f4\",\"version\":3}\0"
    );
    assert_eq!(
        hessian,
        "{\"data\":[8192,false],\"shape\":[60],\"strides\":null,\"typestr\":\"<f4\",\"version\":3}\0"
    );
}

#[test]
fn gradients_of_several_targets_are_a_matrix() {
    let (gradient, hessian) = trained_with(&matrix(2, 60, 5), 120);
    assert_eq!(
        gradient,
        "{\"data\":[4096,false],\"shape\":[60,2],\"strides\":null,\"typestr\":\"<f4\",\"version\":3}\0"
    );
    assert_eq!(
        hessian,
        "{\"data\":[8192,false],\"shape\":[60,2],\"strides\":null,\"typestr\":\"<f4\",\"version\":3}\0"
    );
    // Not a whole number per row, and no rows at all: a vector.
    assert!(trained_with(&matrix(2, 60, 5), 121).0.contains("\"shape\":[121]"));
    assert!(trained_with(&matrix(2, 0, 5), 6).0.contains("\"shape\":[6]"));
}

#[test]
fn gradients_and_hessians_must_be_as_many() {
    let booster = Booster::from_handle(1);
    let gradient = ArrayRef { addr: 4096, len: 3 };
    let hessian = ArrayRef { addr: 8192, len: 4 };
    match booster.boost(&matrix(2, 3, 1), 0, gradient, hessian, BoostEvent::Start) {
        Step::Finish(Err(e)) => assert_eq!(
            e.desc,
            "Mismatch between length of gradient and hessian arrays (3 != 4)"
        ),
        _ => panic!("a failure was expected"),
    }
}

#[test]
fn a_matrix_with_other_columns_is_refused() {
    let booster = Booster::from_handle(1);
    let array = ArrayRef { addr: 4096, len: 3 };
    let features = |n: XGBResult<u64>, cols: usize| {
        booster.boost(&matrix(2, 3, cols), 0, array, array, BoostEvent::Features(n))
    };
    match features(Ok(7), 5) {
        Step::Finish(Err(e)) => assert_eq!(
            e.desc,
            "Feature count mismatch: booster has 7 features but DMatrix has 5 columns"
        ),
        _ => panic!("a failure was expected"),
    }
    assert!(matches!(features(Ok(5), 5), Step::Perform(_)));
    assert!(matches!(features(Ok(0), 5), Step::Perform(_)));
    assert!(matches!(features(Ok(7), 0), Step::Perform(_)));
    assert!(matches!(features(Err(XGBError::new(String::new())), 5), Step::Perform(_)));
}

#[test]
fn a_custom_round_predicts_asks_the_objective_and_boosts() {
    let booster = Booster::from_handle(1);
    let dtrain = matrix(2, 3, 1);
    match booster.update_custom(&dtrain, 4, CustomEvent::Start) {
        CustomStep::Perform(Call::BoosterPredictFromDMatrix { booster, dmat, config }) => {
            assert_eq!((booster, dmat), (1, 2));
            assert!(config.as_str().starts_with("{\"type\":0,"));
        }
        _ => panic!("a prediction was expected"),
    }
    let step = booster.update_custom(&dtrain, 4, CustomEvent::Predicted(Ok(())));
    assert!(matches!(step, CustomStep::RunObjective));
    let array = ArrayRef { addr: 4096, len: 3 };
    let event = |event| CustomEvent::Boosting { gradient: array, hessian: array, event };
    let step = booster.update_custom(&dtrain, 4, event(BoostEvent::Start));
    assert!(matches!(step, CustomStep::Perform(Call::BoosterGetNumFeature { booster: 1 })));
    let step = booster.update_custom(&dtrain, 4, event(BoostEvent::Trained(Ok(()))));
    assert!(matches!(step, CustomStep::Finish(Ok(()))));
    let failed = CustomEvent::Predicted(Err(XGBError::new("broken".to_owned())));
    match booster.update_custom(&dtrain, 4, failed) {
        CustomStep::Finish(Err(e)) => assert_eq!(e.desc, "broken"),
        _ => panic!("a failure was expected"),
    }
}

/// What a run does, with evaluations that score the round's number.
struct Run {
    log: Vec<String>,
    result: XGBResult<()>,
}

/// Trains; `callback` gets the callback's index, the round and whether there was an evaluation.
fn train(
    params: &TrainingParameters,
    fail_at: Option<&str>,
    callback: impl Fn(usize, i32, bool) -> bool,
) -> Run {
    let mut training = Training::new();
    let mut event = TrainEvent::Begin;
    let mut log = Vec::new();
    let reply = |what: &str| match fail_at {
        Some(at) if at == what => Err(XGBError::new(format!("{} failed", what))),
        _ => Ok(()),
    };
    loop {
        let (next, step) = Booster::train(params, training, event);
        training = next;
        event = match step {
            TrainStep::Create { dmats } => {
                log.push(format!("create {:?}", dmats));
                TrainEvent::Created(reply("create"))
            }
            TrainStep::Update { iteration } => {
                let what = format!("update {}", iteration);
                log.push(what.clone());
                TrainEvent::Updated(reply(&what))
            }
            TrainStep::UpdateCustom { iteration } => {
                let what = format!("custom {}", iteration);
                log.push(what.clone());
                TrainEvent::Updated(reply(&what))
            }
            TrainStep::Evaluate { iteration } => {
                let what = format!("evaluate {}", iteration);
                log.push(what.clone());
                let score = format!("{}.5", iteration);
                let results = scores(&[("train", "rmse", &score), ("test", "rmse", "9")]);
                TrainEvent::Evaluated(reply(&what).map(|_| results))
            }
            TrainStep::Score { set } => {
                let what = format!("score {}", set);
                log.push(what.clone());
                TrainEvent::Scored(reply(&what).map(|_| format!("0.{}", set)))
            }
            TrainStep::Print(line) => {
                log.push(line);
                TrainEvent::Printed
            }
            TrainStep::Callback { index, iteration, total_rounds } => {
                assert_eq!(total_rounds, params.boost_rounds);
                let seen = training.results().is_some();
                log.push(format!("callback {} {} {}", index, iteration, seen));
                TrainEvent::Returned(callback(index, iteration, seen))
            }
            TrainStep::Finish(result) => return Run { log, result },
        };
    }
}

fn plain<'a>(boost_rounds: u32) -> TrainingParameters<'a> {
    TrainingParameters {
        dtrain: matrix(10, 4, 2),
        evaluation_sets: None,
        booster_params: &[],
        boost_rounds,
        eval_period: 1,
        custom_objective: false,
        custom_evaluation: false,
        verbose_eval: false,
        callbacks: None,
    }
}

#[test]
fn rounds_are_trained_in_order() {
    let run = train(&plain(3), None, |_, _, _| true);
    assert!(run.result.is_ok());
    assert_eq!(run.log, vec!["create [10]", "update 0", "update 1", "update 2"]);

    let run = train(&plain(0), None, |_, _, _| true);
    assert!(run.result.is_ok());
    assert_eq!(run.log, vec!["create [10]"]);
}

#[test]
fn the_last_round_is_always_evaluated() {
    let sets = [(matrix(10, 4, 2), "train"), (matrix(11, 4, 2), "test")];
    let params = TrainingParameters { evaluation_sets: Some(&sets), eval_period: 3, ..plain(6) };
    let run = train(&params, None, |_, _, _| true);
    assert!(run.result.is_ok());
    assert_eq!(
        run.log,
        vec![
            "create [10, 10, 11]",
            "update 0",
            "evaluate 0",
            "update 1",
            "update 2",
            "update 3",
            "evaluate 3",
            "update 4",
            "update 5",
            "evaluate 5",
        ]
    );
}

#[test]
fn a_period_of_zero_means_one() {
    let sets = [(matrix(10, 4, 2), "train")];
    let every = |eval_period: u32| {
        let params = TrainingParameters { evaluation_sets: Some(&sets), eval_period, ..plain(3) };
        let run = train(&params, None, |_, _, _| true);
        run.log.iter().filter(|l| l.starts_with("evaluate")).count()
    };
    assert_eq!(every(0), 3);
    assert_eq!(every(1), 3);
    assert_eq!(every(2), 2);
    // The first and the last.
    assert_eq!(every(i32::MAX as u32), 2);
}

#[test]
fn the_callers_scores_stand_under_custom() {
    let sets = [(matrix(10, 4, 2), "train"), (matrix(11, 4, 2), "test")];
    let params = TrainingParameters {
        evaluation_sets: Some(&sets),
        custom_evaluation: true,
        custom_objective: true,
        verbose_eval: true,
        ..plain(1)
    };
    let run = train(&params, None, |_, _, _| true);
    assert!(run.result.is_ok());
    assert_eq!(
        run.log,
        vec![
            "create [10, 10, 11]",
            "custom 0",
            "evaluate 0",
            "score 0",
            "score 1",
            "[0]\ttest-rmse:9\ttrain-rmse:0.5\tcustom-test:0.1\tcustom-train:0.0",
        ]
    );
}

#[test]
fn callbacks_see_evaluations_and_can_stop() {
    let sets = [(matrix(10, 4, 2), "train")];
    let params = TrainingParameters {
        evaluation_sets: Some(&sets),
        eval_period: 2,
        callbacks: Some(2),
        ..plain(9)
    };
    let run = train(&params, None, |index, iteration, _| !(index == 0 && iteration == 2));
    assert!(run.result.is_ok());
    assert_eq!(
        run.log,
        vec![
            "create [10, 10]",
            "update 0",
            "evaluate 0",
            "callback 0 0 true",
            "callback 1 0 true",
            "update 1",
            "callback 0 1 false",
            "callback 1 1 false",
            "update 2",
            "evaluate 2",
            "callback 0 2 true",
        ]
    );
    // Callbacks are called without evaluation sets too.
    let params = TrainingParameters { callbacks: Some(1), ..plain(1) };
    let run = train(&params, None, |_, _, seen| !seen);
    assert_eq!(run.log, vec!["create [10]", "update 0", "callback 0 0 false"]);
}

#[test]
fn training_steps_take_what_the_parameters_say() {
    let sets = [(matrix(10, 4, 2), "train"), (matrix(11, 4, 2), "test")];
    let booster_params = [("eta".to_owned(), "1".to_owned())];
    let params = TrainingParameters {
        evaluation_sets: Some(&sets),
        booster_params: &booster_params,
        ..plain(1)
    };
    match Booster::create_step(&params, BuildEvent::Start) {
        Step::Perform(Call::BoosterCreate { dmats }) => assert_eq!(dmats, vec![10, 10, 11]),
        _ => panic!("a handle was expected"),
    }
    match Booster::create_step(&params, BuildEvent::Created(Ok(5))) {
        Step::Perform(Call::BoosterSetParam { booster, name, value }) => {
            assert_eq!((booster, name.as_str(), value.as_str()), (5, "eta\0", "1\0"));
        }
        _ => panic!("a parameter was expected"),
    }
    let booster = Booster::from_handle(5);
    match booster.update_step(&params, 3, None) {
        Step::Perform(Call::BoosterUpdateOneIter { booster, iteration, dtrain }) => {
            assert_eq!((booster, iteration, dtrain), (5, 3, 10));
        }
        _ => panic!("a round was expected"),
    }
    match booster.update_custom_step(&params, 3, CustomEvent::Start) {
        CustomStep::Perform(Call::BoosterPredictFromDMatrix { dmat, .. }) => assert_eq!(dmat, 10),
        _ => panic!("a prediction was expected"),
    }
    match booster.evaluate_step(&params, 3, None) {
        Step::Perform(Call::BoosterEvalOneIter { iteration, dmats, names, .. }) => {
            assert_eq!(iteration, 3);
            assert_eq!(dmats, vec![10, 11]);
            assert_eq!(names, vec!["train\0", "test\0"]);
        }
        _ => panic!("an evaluation was expected"),
    }
    // The caller scores the margins on the set.
    match booster.score_step::<f32>(&params, 1, None) {
        Step::Perform(Call::BoosterPredictFromDMatrix { booster, dmat, config }) => {
            assert_eq!((booster, dmat), (5, 11));
            assert!(config.as_str().starts_with("{\"type\":1,\"training\":false,"));
        }
        _ => panic!("a prediction was expected"),
    }
    let (data, shape) = ([0.5f32, 1.5], [2u64]);
    match booster.score_step(&params, 1, Some(Ok((&data[..], &shape[..])))) {
        Step::Finish(Ok((margins, _))) => assert_eq!(margins, data),
        _ => panic!("margins were expected"),
    }
}

#[test]
fn a_failure_ends_training() {
    let sets = [(matrix(10, 4, 2), "train")];
    let params = TrainingParameters {
        evaluation_sets: Some(&sets),
        custom_evaluation: true,
        ..plain(2)
    };
    for (at, steps) in [("create", 1), ("update 1", 5), ("evaluate 1", 6), ("score 0", 4)] {
        let run = train(&params, Some(at), |_, _, _| true);
        assert_eq!(run.log.len(), steps, "{:?}", run.log);
        assert_eq!(run.result.unwrap_err().desc, format!("{} failed", at));
    }
    let params = TrainingParameters { custom_objective: true, ..plain(2) };
    let run = train(&params, Some("custom 0"), |_, _, _| true);
    assert_eq!(run.result.unwrap_err().desc, "custom 0 failed");
}
