//! Objectives and gradients, against a stand-in for the C library that fits each row by itself.

use std::collections::BTreeMap;

use xgb::{
    ArrayRef, BoostEvent, Booster, BuildEvent, Call, CustomEvent, CustomStep, DMatrix, Step,
    XGBResult,
};

const ETA: f32 = 0.3;

struct Matrix {
    num_rows: usize,
    labels: Vec<f32>,
    base_margin: Option<Vec<f32>>,
}

/// What the stand-in knows of a booster: its parameters, and the margins on each matrix.
#[derive(Default)]
struct Model {
    params: BTreeMap<String, String>,
    margins: BTreeMap<usize, Vec<f32>>,
}

impl Model {
    fn param(&self, name: &str) -> &str {
        self.params.get(name).map_or("", |v| v.as_str())
    }

    fn alphas(&self) -> Vec<f32> {
        let list = match self.param("objective") {
            "reg:quantileerror" => self.param("quantile_alpha"),
            "reg:expectileerror" => self.param("expectile_alpha"),
            _ => return Vec::new(),
        };
        let list = list.trim_start_matches('[').trim_end_matches(']');
        list.split(',').map(|a| a.parse().unwrap()).collect()
    }

    fn outputs(&self) -> usize {
        let targets = self.param("num_target").parse().unwrap_or(1);
        targets.max(self.alphas().len())
    }
}

#[derive(Default)]
struct Library {
    next: usize,
    matrices: BTreeMap<usize, Matrix>,
    models: BTreeMap<usize, Model>,
    arrays: BTreeMap<usize, Vec<f32>>,
}

fn c_text(s: &str) -> String {
    s.strip_suffix('\0').expect("terminated").to_owned()
}

fn sigmoid(x: f32) -> f32 {
    1.0 / (1.0 + (-x).exp())
}

/// The address and the shape in an array description.
fn description(bytes: &[u8]) -> (usize, Vec<usize>) {
    let text = c_text(std::str::from_utf8(bytes).unwrap());
    let rest = text.strip_prefix("{\"data\":[").unwrap();
    let (addr, rest) = rest.split_once(",false],\"shape\":[").unwrap();
    let (shape, rest) = rest.split_once(']').unwrap();
    assert_eq!(rest, ",\"strides\":null,\"typestr\":\"<f4\",\"version\":3}");
    (addr.parse().unwrap(), shape.split(',').map(|d| d.parse().unwrap()).collect())
}

impl Library {
    fn matrix(&mut self, num_rows: usize, num_cols: usize, labels: &[f32]) -> DMatrix {
        self.next += 1;
        let matrix = Matrix { num_rows, labels: labels.to_vec(), base_margin: None };
        self.matrices.insert(self.next, matrix);
        DMatrix { handle: self.next, num_rows, num_cols }
    }

    fn array(&mut self, values: &[f32]) -> ArrayRef {
        self.next += 4096;
        self.arrays.insert(self.next, values.to_vec());
        ArrayRef { addr: self.next, len: values.len() }
    }

    /// The margins so far; at first they are the matrix's own, or none.
    fn margins(&mut self, booster: usize, dmat: usize) -> &mut Vec<f32> {
        let matrix = &self.matrices[&dmat];
        let model = self.models.get_mut(&booster).unwrap();
        let len = matrix.num_rows * model.outputs();
        let start = matrix.base_margin.clone().unwrap_or(vec![0.0; len]);
        assert_eq!(start.len(), len);
        model.margins.entry(dmat).or_insert(start)
    }

    fn step(&mut self, booster: usize, dmat: usize, gradient: &[f32], hessian: &[f32]) {
        let margins = self.margins(booster, dmat);
        assert_eq!(margins.len(), gradient.len());
        for (m, (g, h)) in margins.iter_mut().zip(gradient.iter().zip(hessian)) {
            *m -= ETA * g / h;
        }
    }

    fn unit(&mut self, call: Call<'_>) -> XGBResult<()> {
        match call {
            Call::BoosterSetParam { booster, name, value } => {
                let model = self.models.get_mut(&booster).unwrap();
                model.params.insert(c_text(&name), c_text(&value));
            }
            Call::BoosterUpdateOneIter { booster, dtrain, .. } => {
                let margins = self.margins(booster, dtrain).clone();
                let model = &self.models[&booster];
                let (objective, alphas) = (model.param("objective").to_owned(), model.alphas());
                let (mut gradient, mut hessian) = (Vec::new(), Vec::new());
                for (k, margin) in margins.iter().enumerate() {
                    let label = self.matrices[&dtrain].labels[k / model.outputs()];
                    match objective.as_str() {
                        "binary:logistic" => {
                            let p = sigmoid(*margin);
                            gradient.push(p - label);
                            hessian.push(p * (1.0 - p));
                        }
                        "reg:quantileerror" => {
                            let alpha = alphas[k % alphas.len()];
                            gradient.push(if *margin > label { 1.0 - alpha } else { -alpha });
                            hessian.push(1.0);
                        }
                        "reg:expectileerror" => {
                            let alpha = alphas[k % alphas.len()];
                            let weight = if *margin > label { 1.0 - alpha } else { alpha };
                            gradient.push(weight * (margin - label));
                            hessian.push(1.0);
                        }
                        other => panic!("unknown objective {}", other),
                    }
                }
                self.step(booster, dtrain, &gradient, &hessian);
            }
            Call::BoosterTrainOneIter { booster, dtrain, mut gradient, mut hessian, .. } => {
                let num_rows = self.matrices[&dtrain].num_rows;
                let outputs = self.models[&booster].outputs();
                let shape = if outputs > 1 { vec![num_rows, outputs] } else { vec![num_rows] };
                let (gradient, gradient_shape) = description(gradient.as_cstr());
                let (hessian, hessian_shape) = description(hessian.as_cstr());
                assert_eq!(gradient_shape, shape);
                assert_eq!(hessian_shape, shape);
                let (gradient, hessian) = (self.arrays[&gradient].clone(), self.arrays[&hessian].clone());
                self.step(booster, dtrain, &gradient, &hessian);
            }
            _ => panic!("another call was expected"),
        }
        Ok(())
    }

    fn predicted(&mut self, call: Call<'_>) -> (Vec<f32>, Vec<u64>) {
        match call {
            Call::BoosterPredictFromDMatrix { booster, dmat, .. } => {
                let mut values = self.margins(booster, dmat).clone();
                let model = &self.models[&booster];
                if model.param("objective") == "binary:logistic" {
                    values.iter_mut().for_each(|v| *v = sigmoid(*v));
                }
                let (rows, outputs) = (self.matrices[&dmat].num_rows, model.outputs());
                let shape =
                    if outputs > 1 { vec![rows as u64, outputs as u64] } else { vec![rows as u64] };
                (values, shape)
            }
            _ => panic!("a prediction was expected"),
        }
    }
}

fn build(lib: &mut Library, params: &[(&str, &str)], dmats: &[&DMatrix]) -> Booster {
    let params: Vec<(String, String)> =
        params.iter().map(|(k, v)| (k.to_string(), v.to_string())).collect();
    let dmats: Vec<usize> = dmats.iter().map(|d| d.handle).collect();
    let mut event = BuildEvent::Start;
    let mut index = 0;
    let mut handle = 0;
    loop {
        match Booster::new_with_cached_dmats(&params, &dmats, event) {
            Step::Finish(r) => return r.unwrap(),
            Step::Perform(Call::BoosterCreate { .. }) => {
                lib.next += 1;
                handle = lib.next;
                lib.models.insert(handle, Model::default());
                event = BuildEvent::Created(Ok(handle));
            }
            Step::Perform(call) => {
                event = BuildEvent::ParamSet { booster: handle, index, reply: lib.unit(call) };
                index += 1;
            }
        }
    }
}

fn set_param(lib: &mut Library, booster: &Booster, name: &str, value: &str) -> XGBResult<()> {
    let mut reply = None;
    loop {
        match booster.set_param(name, value, reply) {
            Step::Finish(r) => return r,
            Step::Perform(call) => reply = Some(lib.unit(call)),
        }
    }
}

fn update(lib: &mut Library, booster: &Booster, dtrain: &DMatrix, iteration: i32) -> XGBResult<()> {
    let mut reply = None;
    loop {
        match booster.update(dtrain, iteration, reply) {
            Step::Finish(r) => return r,
            Step::Perform(call) => reply = Some(lib.unit(call)),
        }
    }
}

fn boost_event(lib: &mut Library, call: Call<'_>) -> BoostEvent {
    match call {
        Call::BoosterGetNumFeature { .. } => BoostEvent::Features(Ok(0)),
        call => BoostEvent::Trained(lib.unit(call)),
    }
}

fn boost(
    lib: &mut Library,
    booster: &Booster,
    dtrain: &DMatrix,
    iteration: i32,
    gradient: &[f32],
    hessian: &[f32],
) -> XGBResult<()> {
    let (gradient, hessian) = (lib.array(gradient), lib.array(hessian));
    let mut event = BoostEvent::Start;
    loop {
        match booster.boost(dtrain, iteration, gradient, hessian, event) {
            Step::Finish(r) => return r,
            Step::Perform(call) => event = boost_event(lib, call),
        }
    }
}

fn update_custom(
    lib: &mut Library,
    booster: &Booster,
    dtrain: &DMatrix,
    iteration: i32,
    objective: impl Fn(&[f32], &[f32]) -> (Vec<f32>, Vec<f32>),
) -> XGBResult<()> {
    let labels = lib.matrices[&dtrain.handle].labels.clone();
    let mut predicted = Vec::new();
    let mut arrays = None;
    let mut event = CustomEvent::Start;
    loop {
        event = match booster.update_custom(dtrain, iteration, event) {
            CustomStep::Finish(r) => return r,
            CustomStep::RunObjective => {
                let (gradient, hessian) = objective(&predicted, &labels);
                let pair = (lib.array(&gradient), lib.array(&hessian));
                arrays = Some(pair);
                CustomEvent::Boosting { gradient: pair.0, hessian: pair.1, event: BoostEvent::Start }
            }
            CustomStep::Perform(call) => match arrays {
                None => {
                    predicted = lib.predicted(call).0;
                    CustomEvent::Predicted(Ok(()))
                }
                Some((gradient, hessian)) => {
                    CustomEvent::Boosting { gradient, hessian, event: boost_event(lib, call) }
                }
            },
        };
    }
}

fn predict(lib: &mut Library, booster: &Booster, dmat: &DMatrix) -> XGBResult<Vec<f32>> {
    let reply = match booster.predict::<f32>(dmat, None) {
        Step::Finish(r) => return r,
        Step::Perform(call) => lib.predicted(call),
    };
    match booster.predict(dmat, Some(Ok((&reply.0[..], &reply.1[..])))) {
        Step::Finish(r) => r,
        Step::Perform(_) => panic!("one call was expected"),
    }
}

#[test]
fn update_custom_matches_builtin_objective() {
    // A hand-rolled binary-logistic objective must reproduce the built-in `binary:logistic`
    // update on the same data.
    fn logistic_obj(preds: &[f32], labels: &[f32]) -> (Vec<f32>, Vec<f32>) {
        let mut grad = Vec::with_capacity(preds.len());
        let mut hess = Vec::with_capacity(preds.len());
        for (&p, &y) in preds.iter().zip(labels) {
            grad.push(p - y);
            hess.push(p * (1.0 - p));
        }
        (grad, hess)
    }

    let (num_rows, num_cols) = (256, 8);
    let labels = synthetic_labels(num_rows, num_cols);
    let mut lib = Library::default();
    let dm = lib.matrix(num_rows, num_cols, &labels);
    let params = [("objective", "binary:logistic"), ("base_score", "0.5")];

    let bst_builtin = build(&mut lib, &params, &[&dm]);
    let bst_custom = build(&mut lib, &params, &[&dm]);
    for i in 0..10 {
        update(&mut lib, &bst_builtin, &dm, i).unwrap();
        update_custom(&mut lib, &bst_custom, &dm, i, logistic_obj).unwrap();
    }

    let pred_builtin = predict(&mut lib, &bst_builtin, &dm).unwrap();
    let pred_custom = predict(&mut lib, &bst_custom, &dm).unwrap();
    assert_eq!(pred_builtin.len(), pred_custom.len());
    for (a, b) in pred_builtin.iter().zip(&pred_custom) {
        assert!((a - b).abs() < 1e-5, "custom objective diverged from builtin: {} vs {}", a, b);
    }
    assert!(pred_builtin.iter().any(|p| (p - 0.5).abs() > 0.1));
}

/// The labels of a deterministic dense binary-classification dataset.
fn synthetic_labels(num_rows: usize, num_cols: usize) -> Vec<f32> {
    let mut labels = vec![0f32; num_rows];
    let mut seed = 1u64;
    for label in labels.iter_mut() {
        let mut acc = 0f32;
        for _ in 0..num_cols {
            seed ^= seed << 13;
            seed ^= seed >> 7;
            seed ^= seed << 17;
            acc += (seed % 1000) as f32 / 1000.0;
        }
        *label = if acc > num_cols as f32 / 2.0 { 1.0 } else { 0.0 };
    }
    labels
}

#[test]
fn quantile_dmatrix_base_margin_boost_multi_target() {
    let num_rows = 60;
    let num_cols = 5;
    let n_targets = 2;
    let labels: Vec<f32> = (0..num_rows).map(|i| (i % 4) as f32).collect();
    let mut lib = Library::default();
    let qdm = lib.matrix(num_rows, num_cols, &labels);
    // Row-major [num_rows, n_targets] margin, constant per target.
    let margin: Vec<f32> = (0..num_rows).flat_map(|_| [0.5f32, -1.5f32]).collect();
    lib.matrices.get_mut(&qdm.handle).unwrap().base_margin = Some(margin);

    let booster = build(&mut lib, &[], &[&qdm]);
    set_param(&mut lib, &booster, "num_target", "2").unwrap();
    set_param(&mut lib, &booster, "base_score", "0.0").unwrap();
    set_param(&mut lib, &booster, "tree_method", "hist").unwrap();
    set_param(&mut lib, &booster, "disable_default_eval_metric", "true").unwrap();

    // 0 trees: predict must be exactly the base margin.
    let preds = predict(&mut lib, &booster, &qdm).unwrap();
    assert_eq!(preds.len(), num_rows * n_targets);
    for i in 0..num_rows {
        assert_eq!(preds[i * n_targets], 0.5);
        assert_eq!(preds[i * n_targets + 1], -1.5);
    }

    // A few rounds of custom gradients on the carried margin (squared error per target against
    // labels / labels*2).
    let mut preds = preds;
    for round in 0..4 {
        let mut grad = vec![0f32; num_rows * n_targets];
        let hess = vec![1f32; num_rows * n_targets];
        for i in 0..num_rows {
            grad[i * n_targets] = preds[i * n_targets] - labels[i];
            grad[i * n_targets + 1] = preds[i * n_targets + 1] - 2.0 * labels[i];
        }
        boost(&mut lib, &booster, &qdm, round, &grad, &hess).unwrap();
        preds = predict(&mut lib, &booster, &qdm).unwrap();
    }

    let mse_before: f32 =
        (0..num_rows).map(|i| (0.5 - labels[i]).powi(2)).sum::<f32>() / num_rows as f32;
    let mse_after: f32 =
        (0..num_rows).map(|i| (preds[i * n_targets] - labels[i]).powi(2)).sum::<f32>()
            / num_rows as f32;
    assert!(
        mse_after < mse_before,
        "boost rounds must reduce target-0 MSE ({} !< {})",
        mse_after,
        mse_before
    );
}

/// Multi-quantile / multi-expectile objectives: one output column per alpha, and the columns
/// must be ordered.
#[test]
fn quantile_and_expectile_objectives() {
    let num_rows = 256;
    // Spread of 0..6 around x.
    let labels: Vec<f32> = (0..num_rows).map(|i| (i % 16) as f32 + (i % 7) as f32).collect();
    let mut lib = Library::default();
    let dmat = lib.matrix(num_rows, 1, &labels);

    let params = [("objective", "reg:quantileerror"), ("quantile_alpha", "[0.1,0.5,0.9]")];
    let booster = build(&mut lib, &params, &[&dmat]);
    for i in 0..20 {
        update(&mut lib, &booster, &dmat, i).unwrap();
    }
    let preds = predict(&mut lib, &booster, &dmat).unwrap();
    assert_eq!(preds.len(), num_rows * 3, "one prediction column per quantile");
    let col_mean = |c: usize| preds.iter().skip(c).step_by(3).sum::<f32>() / num_rows as f32;
    assert!(col_mean(0) < col_mean(1), "q0.1 mean must be below q0.5 mean");
    assert!(col_mean(1) < col_mean(2), "q0.5 mean must be below q0.9 mean");

    let params = [("objective", "reg:expectileerror"), ("expectile_alpha", "[0.25,0.75]")];
    let booster = build(&mut lib, &params, &[&dmat]);
    for i in 0..20 {
        update(&mut lib, &booster, &dmat, i).unwrap();
    }
    let preds = predict(&mut lib, &booster, &dmat).unwrap();
    assert_eq!(preds.len(), num_rows * 2, "one prediction column per expectile");
    let col_mean = |c: usize| preds.iter().skip(c).step_by(2).sum::<f32>() / num_rows as f32;
    assert!(col_mean(0) < col_mean(1), "e0.25 mean must be below e0.75 mean");
}
