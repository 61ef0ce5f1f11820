//! Boosters driven against a small stand-in for the C library.

use std::collections::BTreeMap;

use xgb::shapes::{is_sound_output, predict_output_len};
use xgb::{
    ArrayRef, Booster, BuildEvent, Call, DMatrix, InplaceEvent, LoadEvent, MissingValue,
    PredictConfig, Step, XGBError, XGBResult,
};

/// What the stand-in knows of a booster.
#[derive(Clone, Default)]
struct Model {
    rounds: u32,
    params: Vec<(String, String)>,
    attributes: BTreeMap<String, String>,
    features: BTreeMap<String, Vec<String>>,
    cached: Vec<usize>,
}

/// A stand-in for the C library. A row's prediction is the weighted sum of its values that are
/// not missing, times the number of rounds.
#[derive(Default)]
struct Library {
    next: usize,
    models: BTreeMap<usize, Model>,
    matrices: BTreeMap<usize, (Vec<f32>, usize)>,
    floats: BTreeMap<usize, Vec<f32>>,
    integers: BTreeMap<usize, Vec<u64>>,
    files: BTreeMap<String, Vec<u8>>,
    proxies: usize,
    freed: Vec<String>,
    configs: Vec<String>,
    lines: BTreeMap<usize, String>,
    recorded: BTreeMap<usize, (Vec<f32>, Vec<u64>)>,
    trees: Vec<String>,
    dumps: Vec<(String, i32, String)>,
}

enum Reply {
    Done,
    Handle(usize),
    Text(String),
    Attribute(i32, String),
    Texts(Vec<String>),
    Bytes(Vec<u8>),
    RawTexts(Vec<Vec<u8>>),
    Count(u64),
    Values(Vec<f32>, Vec<u64>),
}

/// A text without its terminator, which has to be there.
fn c_text(s: &str) -> String {
    let text = s.strip_suffix('\0').expect("terminated");
    assert!(!text.contains('\0'));
    text.to_owned()
}

/// The numbers in an array description, which has to be terminated.
fn description(bytes: &[u8]) -> (usize, Vec<usize>, String) {
    let text = c_text(std::str::from_utf8(bytes).unwrap());
    let rest = text.strip_prefix("{\"data\":[").unwrap();
    let (addr, rest) = rest.split_once(",false],\"shape\":[").unwrap();
    let (shape, rest) = rest.split_once("],\"strides\":null,\"typestr\":\"").unwrap();
    let kind = rest.strip_suffix("\",\"version\":3}").unwrap();
    let dims = shape.split(',').map(|d| d.parse().unwrap()).collect();
    (addr.parse().unwrap(), dims, kind.to_owned())
}

fn missing_of(config: &str) -> f32 {
    let (_, rest) = config.split_once("\"missing\":").unwrap();
    let number = rest.strip_suffix('}').unwrap();
    if number == "NaN" {
        f32::NAN
    } else {
        number.parse().unwrap()
    }
}

fn score(row: &[(usize, f32)], missing: f32, rounds: u32) -> f32 {
    let mut sum = 0.0;
    for (column, value) in row {
        if !value.is_nan() && *value != missing {
            sum += (*column as f32 + 1.0) * value;
        }
    }
    sum * rounds as f32
}

fn dense_row(values: &[f32]) -> Vec<(usize, f32)> {
    values.iter().copied().enumerate().collect()
}

impl Library {
    fn matrix(&mut self, values: &[f32], num_rows: usize) -> DMatrix {
        self.next += 1;
        let num_cols = values.len() / num_rows;
        self.matrices.insert(self.next, (values.to_vec(), num_rows));
        DMatrix { handle: self.next, num_rows, num_cols }
    }

    fn float_array(&mut self, values: &[f32]) -> ArrayRef {
        self.next += 4096;
        self.floats.insert(self.next, values.to_vec());
        ArrayRef { addr: self.next, len: values.len() }
    }

    fn integer_array(&mut self, values: &[u64]) -> ArrayRef {
        self.next += 4096;
        self.integers.insert(self.next, values.to_vec());
        ArrayRef { addr: self.next, len: values.len() }
    }

    fn model(&mut self, handle: usize) -> &mut Model {
        self.models.get_mut(&handle).expect("a live booster")
    }

    fn perform(&mut self, call: Call<'_>) -> XGBResult<Reply> {
        match call {
            Call::DMatrixFree { dmat } => {
                self.freed.push(format!("matrix {}", dmat));
                Ok(Reply::Done)
            }
            Call::ProxyDMatrixCreate => {
                self.next += 1;
                self.proxies += 1;
                Ok(Reply::Handle(self.next))
            }
            Call::BoosterCreate { dmats } => {
                self.next += 1;
                let model = Model { cached: dmats, ..Model::default() };
                self.models.insert(self.next, model);
                Ok(Reply::Handle(self.next))
            }
            Call::BoosterFree { booster } => {
                self.models.remove(&booster);
                self.freed.push(format!("booster {}", booster));
                Ok(Reply::Done)
            }
            Call::BoosterReset { booster } => {
                self.model(booster).cached.clear();
                Ok(Reply::Done)
            }
            Call::BoosterSetParam { booster, name, value } => {
                let pair = (c_text(&name), c_text(&value));
                if pair.0 == "refused" {
                    return Err(XGBError::new("refused".to_owned()));
                }
                self.model(booster).params.push(pair);
                Ok(Reply::Done)
            }
            Call::BoosterGetNumFeature { .. } => Ok(Reply::Count(0)),
            Call::BoosterUpdateOneIter { booster, iteration, .. } => {
                let model = self.model(booster);
                assert_eq!(model.rounds as i32, iteration);
                model.rounds += 1;
                Ok(Reply::Done)
            }
            Call::BoosterTrainOneIter { booster, .. } => {
                self.model(booster).rounds += 1;
                Ok(Reply::Done)
            }
            Call::BoosterEvalOneIter { dmats, names, .. } => {
                assert_eq!(dmats.len(), names.len());
                Ok(Reply::Text(self.lines[&dmats[0]].clone()))
            }
            Call::BoosterPredictFromDMatrix { booster, dmat, config } => {
                self.configs.push(c_text(config.as_str()));
                if let Some((values, shape)) = self.recorded.get(&dmat) {
                    return Ok(Reply::Values(values.clone(), shape.clone()));
                }
                let rounds = self.model(booster).rounds;
                let (values, num_rows) = self.matrices[&dmat].clone();
                let num_cols = values.len() / num_rows;
                let mut out = Vec::new();
                for row in values.chunks(num_cols) {
                    out.push(score(&dense_row(row), f32::NAN, rounds));
                }
                Ok(Reply::Values(out, vec![num_rows as u64]))
            }
            Call::BoosterPredictFromDense { booster, mut values, config, proxy } => {
                assert!(proxy > 0);
                let config = c_text(config.as_str());
                let missing = missing_of(&config);
                self.configs.push(config);
                let (addr, dims, kind) = description(values.as_cstr());
                assert_eq!(kind, "<f4");
                let rounds = self.model(booster).rounds;
                let data = &self.floats[&addr];
                assert_eq!(dims[0] * dims[1], data.len());
                let mut out = Vec::new();
                for row in data.chunks(dims[1]) {
                    out.push(score(&dense_row(row), missing, rounds));
                }
                Ok(Reply::Values(out, vec![dims[0] as u64]))
            }
            Call::BoosterPredictFromCSR {
                booster,
                mut indptr,
                mut indices,
                mut data,
                num_cols,
                config,
                proxy,
            } => {
                assert!(proxy > 0);
                let missing = missing_of(&c_text(config.as_str()));
                let (indptr, indptr_dims, kind) = description(indptr.as_cstr());
                assert_eq!(kind, "<u8");
                let (indices, indices_dims, kind) = description(indices.as_cstr());
                assert_eq!(kind, "<u8");
                let (data, data_dims, kind) = description(data.as_cstr());
                assert_eq!(kind, "<f4");
                assert_eq!(indices_dims, data_dims);
                let rounds = self.model(booster).rounds;
                let (indptr, indices) = (&self.integers[&indptr], &self.integers[&indices]);
                let data = &self.floats[&data];
                let num_rows = indptr_dims[0] - 1;
                let mut out = Vec::new();
                for i in 0..num_rows {
                    let mut row = Vec::new();
                    for k in indptr[i] as usize..indptr[i + 1] as usize {
                        assert!(indices[k] < num_cols);
                        row.push((indices[k] as usize, data[k]));
                    }
                    out.push(score(&row, missing, rounds));
                }
                Ok(Reply::Values(out, vec![num_rows as u64]))
            }
            Call::BoosterSaveModel { booster, fname } => {
                let bytes = self.snapshot(booster);
                self.files.insert(c_text(&fname), bytes);
                Ok(Reply::Done)
            }
            Call::BoosterLoadModel { booster, fname } => {
                let bytes = self.files[&c_text(&fname)].clone();
                self.restore(booster, &bytes)
            }
            Call::BoosterLoadModelFromBuffer { booster, bytes }
            | Call::BoosterUnserializeFromBuffer { booster, bytes } => self.restore(booster, bytes),
            Call::BoosterSaveModelToBuffer { booster, config } => {
                self.configs.push(c_text(config.as_str()));
                Ok(Reply::Bytes(self.snapshot(booster)))
            }
            Call::BoosterSerializeToBuffer { booster } => Ok(Reply::Bytes(self.snapshot(booster))),
            Call::BoosterDumpModelEx { fmap, with_stats, format, .. } => {
                self.dumps.push((c_text(&fmap), with_stats, c_text(format.as_str())));
                Ok(Reply::Texts(self.trees.clone()))
            }
            Call::BoosterGetAttr { booster, key } => {
                Ok(match self.model(booster).attributes.get(&c_text(&key)) {
                    Some(value) => Reply::Attribute(1, value.clone()),
                    None => Reply::Attribute(0, String::new()),
                })
            }
            Call::BoosterSetAttr { booster, key, value } => {
                self.model(booster).attributes.insert(c_text(&key), c_text(&value));
                Ok(Reply::Done)
            }
            Call::BoosterGetAttrNames { booster } => {
                Ok(Reply::Texts(self.model(booster).attributes.keys().cloned().collect()))
            }
            Call::BoosterSetStrFeatureInfo { booster, field, features } => {
                let texts = features.iter().map(|f| c_text(f)).collect();
                self.model(booster).features.insert(c_text(&field), texts);
                Ok(Reply::Done)
            }
            Call::BoosterGetStrFeatureInfo { booster, field } => {
                let texts = self.model(booster).features.get(&c_text(&field)).cloned();
                let texts = texts.unwrap_or_default();
                Ok(Reply::RawTexts(texts.into_iter().map(String::into_bytes).collect()))
            }
        }
    }

    fn snapshot(&mut self, booster: usize) -> Vec<u8> {
        let model = self.model(booster);
        let mut text = format!("{}", model.rounds);
        for (key, value) in &model.attributes {
            text.push_str(&format!("\n{}={}", key, value));
        }
        text.into_bytes()
    }

    fn restore(&mut self, booster: usize, bytes: &[u8]) -> XGBResult<Reply> {
        let text = match std::str::from_utf8(bytes) {
            Ok(text) => text,
            Err(_) => return Err(XGBError::new("no model".to_owned())),
        };
        let mut lines = text.lines();
        let model = self.model(booster);
        model.rounds = match lines.next().unwrap_or("").parse() {
            Ok(rounds) => rounds,
            Err(_) => return Err(XGBError::new("no model".to_owned())),
        };
        for line in lines {
            let (key, value) = line.split_once('=').unwrap();
            model.attributes.insert(key.to_owned(), value.to_owned());
        }
        Ok(Reply::Done)
    }

    fn unit(&mut self, call: Call<'_>) -> XGBResult<()> {
        self.perform(call).map(|reply| assert!(matches!(reply, Reply::Done)))
    }

    fn handle(&mut self, call: Call<'_>) -> XGBResult<usize> {
        self.perform(call).map(|reply| match reply {
            Reply::Handle(h) => h,
            _ => panic!("a handle was expected"),
        })
    }

    fn values(&mut self, call: Call<'_>) -> XGBResult<(Vec<f32>, Vec<u64>)> {
        self.perform(call).map(|reply| match reply {
            Reply::Values(data, shape) => (data, shape),
            _ => panic!("values were expected"),
        })
    }
}

fn build(lib: &mut Library, params: &[(String, String)], dmats: &[usize]) -> XGBResult<Booster> {
    let mut event = BuildEvent::Start;
    let mut handle = None;
    let mut index = 0;
    loop {
        match Booster::new_with_cached_dmats(params, dmats, event) {
            Step::Finish(r) => return r,
            Step::Perform(call) => match handle {
                None => {
                    let reply = lib.handle(call);
                    handle = reply.as_ref().ok().copied();
                    event = BuildEvent::Created(reply);
                }
                Some(booster) => {
                    let reply = lib.unit(call);
                    event = BuildEvent::ParamSet { booster, index, reply };
                    index += 1;
                }
            },
        }
    }
}

fn load_buffer(lib: &mut Library, bytes: &[u8]) -> XGBResult<Booster> {
    let mut event = LoadEvent::Start;
    let mut handle = None;
    loop {
        match Booster::load_buffer(bytes, event) {
            Step::Finish(r) => return r,
            Step::Perform(call) => match handle {
                None => {
                    let reply = lib.handle(call);
                    handle = reply.as_ref().ok().copied();
                    event = LoadEvent::Created(reply);
                }
                Some(booster) => {
                    event = LoadEvent::Loaded { booster, reply: lib.unit(call) };
                }
            },
        }
    }
}

/// Runs an operation of one call whose reply is taken out by `take`.
fn once<'a, T, U>(
    lib: &mut Library,
    operation: impl Fn(Option<XGBResult<U>>) -> Step<'a, T>,
    take: impl Fn(Reply) -> U,
) -> XGBResult<T> {
    let call = match operation(None) {
        Step::Finish(r) => return r,
        Step::Perform(call) => call,
    };
    let reply = lib.perform(call).map(take);
    match operation(Some(reply)) {
        Step::Finish(r) => r,
        Step::Perform(_) => panic!("one call was expected"),
    }
}

fn done(reply: Reply) {
    assert!(matches!(reply, Reply::Done));
}

fn attribute(reply: Reply) -> (i32, String) {
    match reply {
        Reply::Attribute(flag, value) => (flag, value),
        _ => panic!("an attribute was expected"),
    }
}

fn texts(reply: Reply) -> Vec<String> {
    match reply {
        Reply::Texts(v) => v,
        _ => panic!("texts were expected"),
    }
}

fn raw_texts(reply: Reply) -> Vec<Vec<u8>> {
    match reply {
        Reply::RawTexts(v) => v,
        _ => panic!("texts were expected"),
    }
}

fn bytes(reply: Reply) -> Vec<u8> {
    match reply {
        Reply::Bytes(v) => v,
        _ => panic!("bytes were expected"),
    }
}

fn text(reply: Reply) -> String {
    match reply {
        Reply::Text(v) => v,
        _ => panic!("a text was expected"),
    }
}

fn set_attribute(lib: &mut Library, booster: &Booster, key: &str, value: &str) -> XGBResult<()> {
    once(lib, |r| booster.set_attribute(key, value, r), done)
}

fn get_attribute(lib: &mut Library, booster: &Booster, key: &str) -> XGBResult<Option<String>> {
    once(lib, |r| booster.get_attribute(key, r), attribute)
}

fn update(lib: &mut Library, booster: &Booster, dtrain: &DMatrix, iteration: i32) -> XGBResult<()> {
    once(lib, |r| booster.update(dtrain, iteration, r), done)
}

fn evaluate(lib: &mut Library, booster: &Booster, dmat: &DMatrix) -> BTreeMap<String, f32> {
    let metrics = once(lib, |r| booster.evaluate(dmat, r), text).unwrap();
    metrics.iter().map(|(k, v)| (k.clone(), v.parse().unwrap())).collect()
}

/// What an operation on a matrix predicts; the values stay where the stand-in put them.
fn on_matrix<'a, T>(
    lib: &mut Library,
    start: Step<'a, T>,
    finish: impl FnOnce(XGBResult<(&[f32], &[u64])>) -> Step<'a, T>,
) -> XGBResult<T> {
    let call = match start {
        Step::Finish(r) => return r,
        Step::Perform(call) => call,
    };
    let reply = lib.values(call);
    let last = match &reply {
        Ok((data, shape)) => {
            assert!(is_sound_output(shape, !data.is_empty()));
            assert_eq!(predict_output_len(shape, !data.is_empty()), data.len());
            finish(Ok((&data[..], &shape[..])))
        }
        Err(_) => finish(reply.map(|_| unreachable!())),
    };
    match last {
        Step::Finish(r) => r,
        Step::Perform(_) => panic!("one call was expected"),
    }
}

fn predict_on(lib: &mut Library, booster: &Booster, dmat: &DMatrix) -> XGBResult<Vec<f32>> {
    on_matrix(lib, booster.predict::<f32>(dmat, None), |r| booster.predict(dmat, Some(r)))
}

fn predict_margin_on(lib: &mut Library, booster: &Booster, dmat: &DMatrix) -> XGBResult<Vec<f32>> {
    on_matrix(lib, booster.predict_margin::<f32>(dmat, None), |r| {
        booster.predict_margin(dmat, Some(r))
    })
}

fn predict_into_on(
    lib: &mut Library,
    booster: &Booster,
    dmat: &DMatrix,
    out: &mut Vec<f32>,
) -> XGBResult<()> {
    let start = booster.predict_into(dmat, None, out);
    on_matrix(lib, start, |r| booster.predict_into(dmat, Some(r), out))
}

fn predict_matrix_on(
    lib: &mut Library,
    booster: &Booster,
    dmat: &DMatrix,
    config: &str,
) -> XGBResult<(Vec<f32>, Vec<u64>)> {
    on_matrix(lib, booster.predict_matrix::<f32>(dmat, config, None), |r| {
        booster.predict_matrix(dmat, config, Some(r))
    })
}

fn predict_dense(
    lib: &mut Library,
    booster: &mut Booster,
    values: ArrayRef,
    num_rows: usize,
) -> XGBResult<(Vec<f32>, Vec<u64>)> {
    let mut event = InplaceEvent::Start;
    loop {
        let reply = match booster.predict_from_dense::<f32>(values, num_rows, event) {
            Step::Finish(r) => return r,
            Step::Perform(call) => match call {
                Call::ProxyDMatrixCreate => {
                    event = InplaceEvent::Proxy(lib.handle(Call::ProxyDMatrixCreate));
                    continue;
                }
                call => lib.values(call)?,
            },
        };
        let predicted = InplaceEvent::Predicted(Ok((&reply.0[..], &reply.1[..])));
        return match booster.predict_from_dense(values, num_rows, predicted) {
            Step::Finish(r) => r,
            Step::Perform(_) => panic!("the end was expected"),
        };
    }
}

fn predict_dense_into(
    lib: &mut Library,
    booster: &mut Booster,
    values: ArrayRef,
    num_rows: usize,
    out: &mut Vec<f32>,
) -> XGBResult<()> {
    let mut event = InplaceEvent::Start;
    loop {
        let reply = match booster.predict_from_dense_into::<f32>(values, num_rows, event, out) {
            Step::Finish(r) => return r,
            Step::Perform(call) => match call {
                Call::ProxyDMatrixCreate => {
                    event = InplaceEvent::Proxy(lib.handle(Call::ProxyDMatrixCreate));
                    continue;
                }
                call => lib.values(call)?,
            },
        };
        let predicted = InplaceEvent::Predicted(Ok((&reply.0[..], &reply.1[..])));
        return match booster.predict_from_dense_into(values, num_rows, predicted, out) {
            Step::Finish(r) => r,
            Step::Perform(_) => panic!("the end was expected"),
        };
    }
}

type Csr = (ArrayRef, ArrayRef, ArrayRef, usize);

fn predict_csr(lib: &mut Library, booster: &mut Booster, csr: Csr) -> XGBResult<(Vec<f32>, Vec<u64>)> {
    let (indptr, indices, data, cols) = csr;
    let mut event = InplaceEvent::Start;
    loop {
        let reply = match booster.predict_from_csr::<f32>(indptr, indices, data, cols, event) {
            Step::Finish(r) => return r,
            Step::Perform(call) => match call {
                Call::ProxyDMatrixCreate => {
                    event = InplaceEvent::Proxy(lib.handle(Call::ProxyDMatrixCreate));
                    continue;
                }
                call => lib.values(call)?,
            },
        };
        let predicted = InplaceEvent::Predicted(Ok((&reply.0[..], &reply.1[..])));
        return match booster.predict_from_csr(indptr, indices, data, cols, predicted) {
            Step::Finish(r) => r,
            Step::Perform(_) => panic!("the end was expected"),
        };
    }
}

fn predict_csr_into(
    lib: &mut Library,
    booster: &mut Booster,
    csr: Csr,
    out: &mut Vec<f32>,
) -> XGBResult<()> {
    let (indptr, indices, data, cols) = csr;
    let mut event = InplaceEvent::Start;
    loop {
        let step = booster.predict_from_csr_into::<f32>(indptr, indices, data, cols, event, out);
        let reply = match step {
            Step::Finish(r) => return r,
            Step::Perform(call) => match call {
                Call::ProxyDMatrixCreate => {
                    event = InplaceEvent::Proxy(lib.handle(Call::ProxyDMatrixCreate));
                    continue;
                }
                call => lib.values(call)?,
            },
        };
        let predicted = InplaceEvent::Predicted(Ok((&reply.0[..], &reply.1[..])));
        return match booster.predict_from_csr_into(indptr, indices, data, cols, predicted, out) {
            Step::Finish(r) => r,
            Step::Perform(_) => panic!("the end was expected"),
        };
    }
}

fn load_test_booster(lib: &mut Library) -> Booster {
    let dmat = lib.matrix(&[1.0, 2.0], 1);
    build(lib, &[], &[dmat.handle]).expect("Creating Booster failed")
}

#[test]
fn set_booster_param() {
    let mut lib = Library::default();
    let booster = load_test_booster(&mut lib);
    let res = once(&mut lib, |r| booster.set_param("key", "value", r), done);
    assert!(res.is_ok());
    let params = &lib.models[&booster.handle()].params;
    assert_eq!(params, &vec![("key".to_owned(), "value".to_owned())]);
}

#[test]
fn get_set_attr() {
    let mut lib = Library::default();
    let booster = load_test_booster(&mut lib);
    let attr = get_attribute(&mut lib, &booster, "foo").expect("Getting attribute failed");
    assert_eq!(attr, None);

    set_attribute(&mut lib, &booster, "foo", "bar").expect("Setting attribute failed");
    let attr = get_attribute(&mut lib, &booster, "foo").expect("Getting attribute failed");
    assert_eq!(attr, Some("bar".to_owned()));
}

#[test]
fn save_and_load_from_buffer() {
    let mut lib = Library::default();
    let booster = load_test_booster(&mut lib);
    let attr = get_attribute(&mut lib, &booster, "foo").expect("Getting attribute failed");
    assert_eq!(attr, None);

    set_attribute(&mut lib, &booster, "foo", "bar").expect("Setting attribute failed");
    let attr = get_attribute(&mut lib, &booster, "foo").expect("Getting attribute failed");
    assert_eq!(attr, Some("bar".to_owned()));

    let path = "test-xgboost-model";
    once(&mut lib, |r| booster.save(path, r), done).expect("saving booster");
    for call in booster.release() {
        lib.unit(call).unwrap();
    }
    let saved = lib.files[path].clone();
    let booster = load_buffer(&mut lib, &saved[..]).expect("load booster from buffer");
    let attr = get_attribute(&mut lib, &booster, "foo").expect("Getting attribute failed");
    assert_eq!(attr, Some("bar".to_owned()));

    let in_memory_bytes = once(&mut lib, |r| booster.save_buffer(true, r), bytes).unwrap();
    assert_eq!(lib.configs, vec!["{\"format\":\"ubj\"}"]);
    let booster =
        load_buffer(&mut lib, &in_memory_bytes[..]).expect("load booster from memory only buffer");
    let attr = get_attribute(&mut lib, &booster, "foo").expect("Getting attribute failed");
    assert_eq!(attr, Some("bar".to_owned()));
}

#[test]
fn get_attribute_names() {
    let mut lib = Library::default();
    let booster = load_test_booster(&mut lib);
    let attrs = once(&mut lib, |r| booster.get_attribute_names(r), texts).unwrap();
    assert_eq!(attrs, Vec::<String>::new());

    set_attribute(&mut lib, &booster, "foo", "bar").expect("Setting attribute failed");
    set_attribute(&mut lib, &booster, "another", "another").expect("Setting attribute failed");
    set_attribute(&mut lib, &booster, "4", "4").expect("Setting attribute failed");
    set_attribute(&mut lib, &booster, "an even longer attribute name?", "")
        .expect("Setting attribute failed");

    let mut expected = vec!["foo", "another", "4", "an even longer attribute name?"];
    expected.sort();
    let mut attrs = once(&mut lib, |r| booster.get_attribute_names(r), texts).unwrap();
    attrs.sort();
    assert_eq!(attrs, expected);
}

#[test]
fn get_set_feature_names() {
    let mut lib = Library::default();
    let booster = load_test_booster(&mut lib);
    let attrs = once(&mut lib, |r| booster.get_feature_names(r), raw_texts).unwrap();
    assert_eq!(attrs, Vec::<String>::new());
    let mut expected = vec!["foo", "another", "4", "an even longer features name?"];
    expected.sort();
    once(&mut lib, |r| booster.set_feature_names(&expected, r), done)
        .expect("Setting features failed");
    let mut attrs = once(&mut lib, |r| booster.get_feature_names(r), raw_texts).unwrap();
    attrs.sort();
    assert_eq!(attrs, expected);
}

const EXPECTED_START: [f32; 10] = [
    0.0050151693,
    0.9884467,
    0.0050151693,
    0.0050151693,
    0.026636455,
    0.11789363,
    0.9884467,
    0.01231471,
    0.9884467,
    0.00013656063,
];

const EXPECTED_END: [f32; 10] = [
    0.002520344,
    0.00060917926,
    0.99881005,
    0.00060917926,
    0.00060917926,
    0.00060917926,
    0.00060917926,
    0.9981102,
    0.002855195,
    0.9981102,
];

/// A booster and the matrices of a binary-classification run, with the replies of that run.
fn recorded_run(lib: &mut Library) -> (Booster, DMatrix, DMatrix) {
    let train = lib.matrix(&[0.0; 4], 2);
    let mut test = lib.matrix(&[0.0; 4], 2);
    test.num_rows = 1611;
    let mut values = vec![0.5f32; 1611];
    values[..10].copy_from_slice(&EXPECTED_START);
    values[1601..].copy_from_slice(&EXPECTED_END);
    lib.recorded.insert(test.handle, (values, vec![1611]));
    let line = "[0]\tdefault-map@4-:1\tdefault-logloss:0.006634271\tdefault-error:0.001228";
    lib.lines.insert(train.handle, line.to_owned());
    let line = "[0]\tdefault-map@4-:1\tdefault-logloss:0.0069199526\tdefault-error:0";
    lib.lines.insert(test.handle, line.to_owned());
    let booster = build(lib, &[], &[train.handle, test.handle]).unwrap();
    for i in 0..10 {
        update(lib, &booster, &train, i).expect("update failed");
    }
    (booster, train, test)
}

#[test]
fn predict() {
    let mut lib = Library::default();
    let (booster, dmat_train, dmat_test) = recorded_run(&mut lib);

    let train_metrics = evaluate(&mut lib, &booster, &dmat_train);
    assert_eq!(*train_metrics.get("logloss").unwrap(), 0.006634271);
    assert_eq!(*train_metrics.get("map@4-").unwrap(), 1.0);

    let test_metrics = evaluate(&mut lib, &booster, &dmat_test);
    let test_logloss = *test_metrics.get("logloss").unwrap();
    assert!((test_logloss - 0.0069199526).abs() < 1e-6);
    assert_eq!(*test_metrics.get("map@4-").unwrap(), 1.0);

    let v = predict_on(&mut lib, &booster, &dmat_test).unwrap();
    assert_eq!(v.len(), dmat_test.num_rows);
    let eps = 1e-6;
    for (pred, expected) in v.iter().zip(&EXPECTED_START) {
        assert!((pred - expected).abs() < eps);
    }
    for (pred, expected) in v[v.len() - 10..].iter().zip(&EXPECTED_END) {
        assert!((pred - expected).abs() < eps);
    }
    assert_eq!(
        lib.configs,
        vec![
            "{\"type\":0,\"training\":false,\"iteration_begin\":0,\"iteration_end\":0,\"strict_shape\":false}"
        ]
    );
}

#[test]
fn predict_matrix() {
    let mut lib = Library::default();
    let (booster, dmat_train, dmat_test) = recorded_run(&mut lib);

    let train_metrics = evaluate(&mut lib, &booster, &dmat_train);
    assert_eq!(*train_metrics.get("logloss").unwrap(), 0.006634271);
    assert_eq!(*train_metrics.get("map@4-").unwrap(), 1.0);

    let test_metrics = evaluate(&mut lib, &booster, &dmat_test);
    let test_logloss = *test_metrics.get("logloss").unwrap();
    assert!(
        (test_logloss - 0.0069199526).abs() < 1e-6,
        "test logloss drifted: got {}",
        test_logloss
    );
    assert_eq!(*test_metrics.get("map@4-").unwrap(), 1.0);

    let single_matrix = lib.matrix(&[0.0; 2], 1);
    lib.recorded.insert(single_matrix.handle, (vec![0.0050151693], vec![1]));
    let config = PredictConfig::default().as_json();
    let (v, shape) = predict_matrix_on(&mut lib, &booster, &single_matrix, &config).unwrap();
    assert_eq!(shape, vec![1]);
    assert_eq!(v.len(), 1);
    assert_eq!(v[0], 0.0050151693);
    let cfg = PredictConfig::default();
    let (v, shape) = predict_matrix_on(&mut lib, &booster, &dmat_test, &cfg.as_json()).unwrap();
    assert_eq!(v.len(), dmat_test.num_rows);
    assert_eq!(shape, vec![1611]);
    let eps = 1e-6;
    for (pred, expected) in v.iter().zip(&EXPECTED_START) {
        assert!((pred - expected).abs() < eps);
    }
    for (pred, expected) in v[v.len() - 10..].iter().zip(&EXPECTED_END) {
        assert!((pred - expected).abs() < eps);
    }

    // A text without a terminator gets one; one with a NUL inside is refused.
    let plain = "{\"type\":0}";
    assert!(predict_matrix_on(&mut lib, &booster, &dmat_test, plain).is_ok());
    assert_eq!(lib.configs.last().unwrap(), plain);
    let refused = predict_matrix_on(&mut lib, &booster, &dmat_test, "a\0b\0").unwrap_err();
    assert_eq!(refused.desc, "config_json contains an interior NUL byte");
}

/// What the operation gives for a matrix of `num_rows` rows and a reply of `len` values.
fn shaped(lib: &mut Library, num_rows: usize, len: usize) -> DMatrix {
    let mut dmat = lib.matrix(&[0.0], 1);
    dmat.num_rows = num_rows;
    lib.recorded.insert(dmat.handle, (vec![0.0; len], vec![len as u64]));
    dmat
}

#[test]
fn predict_leaf() {
    let mut lib = Library::default();
    let booster = load_test_booster(&mut lib);
    let num_rounds = 15;
    let dmat_test = shaped(&mut lib, 1611, 1611 * 15);
    let (_preds, shape) =
        on_matrix(&mut lib, booster.predict_leaf::<f32>(&dmat_test, None), |r| {
            booster.predict_leaf(&dmat_test, Some(r))
        })
        .unwrap();
    let num_samples = dmat_test.num_rows;
    assert_eq!(shape, (num_samples, num_rounds as usize));

    // 0-row matrices must not panic on the shape division.
    let empty = shaped(&mut lib, 0, 0);
    let (_, shape) = on_matrix(&mut lib, booster.predict_leaf::<f32>(&empty, None), |r| {
        booster.predict_leaf(&empty, Some(r))
    })
    .unwrap();
    assert_eq!(shape.0, 0);
    let (_, shape) = on_matrix(&mut lib, booster.predict_contributions::<f32>(&empty, None), |r| {
        booster.predict_contributions(&empty, Some(r))
    })
    .unwrap();
    assert_eq!(shape.0, 0);
    let (_, shape) = on_matrix(&mut lib, booster.predict_interactions::<f32>(&empty, None), |r| {
        booster.predict_interactions(&empty, Some(r))
    })
    .unwrap();
    assert_eq!(shape.0, 0);
}

#[test]
fn predict_contributions() {
    let mut lib = Library::default();
    let booster = load_test_booster(&mut lib);
    let (num_samples, num_features) = (1611, 127);
    let dmat_test = shaped(&mut lib, num_samples, num_samples * (num_features + 1));
    let shape = vec![num_samples as u64, num_features as u64 + 1];
    lib.recorded.get_mut(&dmat_test.handle).unwrap().1 = shape;
    let (_preds, shape) =
        on_matrix(&mut lib, booster.predict_contributions::<f32>(&dmat_test, None), |r| {
            booster.predict_contributions(&dmat_test, Some(r))
        })
        .unwrap();
    assert_eq!(shape, (num_samples, num_features + 1));
}

#[test]
fn predict_interactions() {
    let booster = Booster::from_handle(1);
    let (num_samples, num_features) = (1611, 127);
    let dmat_test = DMatrix { handle: 2, num_rows: num_samples, num_cols: num_features };
    let data = vec![0u8; num_samples * (num_features + 1) * (num_features + 1)];
    let side = num_features as u64 + 1;
    assert_eq!(
        interactions_shape(&booster, &dmat_test, &data, &[num_samples as u64, side, side]),
        (num_samples, num_features + 1, num_features + 1)
    );
}

fn interactions_shape(
    booster: &Booster,
    dmat: &DMatrix,
    data: &[u8],
    shape: &[u64],
) -> (usize, usize, usize) {
    assert_eq!(predict_output_len(shape, true), data.len());
    match booster.predict_interactions(dmat, Some(Ok((data, shape)))) {
        Step::Finish(Ok((preds, shape))) => {
            assert_eq!(preds, data);
            shape
        }
        _ => panic!("the end was expected"),
    }
}

fn contributions_shape(
    booster: &Booster,
    dmat: &DMatrix,
    data: &[u8],
    shape: &[u64],
) -> (usize, usize) {
    assert_eq!(predict_output_len(shape, true), data.len());
    match booster.predict_contributions(dmat, Some(Ok((data, shape)))) {
        Step::Finish(Ok((preds, shape))) => {
            assert_eq!(preds, data);
            shape
        }
        _ => panic!("the end was expected"),
    }
}

#[test]
fn outputs_do_not_count_among_the_features() {
    let booster = Booster::from_handle(1);
    let one = DMatrix { handle: 2, num_rows: 1, num_cols: 1 };
    // Three classes, one feature: three squares of side two in a row.
    assert_eq!(interactions_shape(&booster, &one, &[0; 12], &[1, 3, 2, 2]), (1, 2, 2));
    assert_eq!(interactions_shape(&booster, &one, &[0; 4], &[1, 2, 2]), (1, 2, 2));
    assert_eq!(contributions_shape(&booster, &one, &[0; 6], &[1, 3, 2]), (1, 2));
    assert_eq!(contributions_shape(&booster, &one, &[0; 2], &[1, 2]), (1, 2));
    let two = DMatrix { handle: 2, num_rows: 2, num_cols: 4 };
    assert_eq!(interactions_shape(&booster, &two, &[0; 150], &[2, 3, 5, 5]), (2, 5, 5));
    assert_eq!(contributions_shape(&booster, &two, &[0; 30], &[2, 3, 5]), (2, 5));
    // A flat reply: the values per row, and the side of a row that is one square.
    assert_eq!(interactions_shape(&booster, &two, &[0; 50], &[50]), (2, 5, 5));
    assert_eq!(contributions_shape(&booster, &two, &[0; 10], &[10]), (2, 5));
}

#[test]
fn predict_into_matches_predict() {
    let mut lib = Library::default();
    let dmat_train = lib.matrix(&[1.0, 2.0, 3.0, 4.0], 2);
    let dmat_test = lib.matrix(&[5.0, 6.0, 7.0, 8.0, 9.0, 10.0], 3);
    let booster = build(&mut lib, &[], &[dmat_train.handle]).unwrap();
    for i in 0..5 {
        update(&mut lib, &booster, &dmat_train, i).unwrap();
    }

    let mut out = Vec::new();
    predict_into_on(&mut lib, &booster, &dmat_test, &mut out).unwrap();
    assert_eq!(out, predict_on(&mut lib, &booster, &dmat_test).unwrap());
    assert_eq!(out, vec![85.0, 115.0, 145.0]);

    // Reuse must clear stale contents from the previous call.
    let single = lib.matrix(&[5.0, 6.0], 1);
    predict_into_on(&mut lib, &booster, &single, &mut out).unwrap();
    assert_eq!(out.len(), 1);

    let start = booster.predict_margin_into(&dmat_test, None, &mut out);
    on_matrix(&mut lib, start, |r| booster.predict_margin_into(&dmat_test, Some(r), &mut out))
        .unwrap();
    assert_eq!(out, predict_margin_on(&mut lib, &booster, &dmat_test).unwrap());
    assert!(lib.configs.last().unwrap().starts_with("{\"type\":1,"));
}

/// Deterministic dense values.
fn synthetic_dense(num_rows: usize, num_cols: usize) -> Vec<f32> {
    let mut data = vec![0f32; num_rows * num_cols];
    let mut seed = 1u64;
    for v in data.iter_mut() {
        seed ^= seed << 13;
        seed ^= seed >> 7;
        seed ^= seed << 17;
        *v = (seed % 1000) as f32 / 1000.0;
    }
    data
}

/// Deterministic sparse values in CSR form, and the same values densely, NaN where there are
/// none.
fn synthetic_csr(num_rows: usize, num_cols: usize) -> (Vec<u64>, Vec<u64>, Vec<f32>, Vec<f32>) {
    let mut indptr = vec![0u64];
    let mut indices = Vec::new();
    let mut values = Vec::new();
    let mut dense = vec![f32::NAN; num_rows * num_cols];
    let mut seed = 7u64;
    let mut nnz = 0u64;
    for i in 0..num_rows {
        for j in 0..num_cols {
            seed ^= seed << 13;
            seed ^= seed >> 7;
            seed ^= seed << 17;
            if seed % 10 < 4 {
                let v = (seed % 1000) as f32 / 1000.0;
                indices.push(j as u64);
                values.push(v);
                dense[i * num_cols + j] = v;
                nnz += 1;
            }
        }
        indptr.push(nnz);
    }
    (indptr, indices, values, dense)
}

fn trained_on(lib: &mut Library, data: &[f32], num_rows: usize) -> (Booster, DMatrix) {
    let dm = lib.matrix(data, num_rows);
    let bst = build(lib, &[], &[dm.handle]).unwrap();
    for i in 0..10 {
        update(lib, &bst, &dm, i).unwrap();
    }
    (bst, dm)
}

#[test]
fn predict_from_csr_matches_dmatrix() {
    let (num_rows, num_cols) = (256, 8);
    let (indptr, indices, values, dense) = synthetic_csr(num_rows, num_cols);
    let mut lib = Library::default();
    let (mut bst, dm) = trained_on(&mut lib, &dense, num_rows);
    let csr = (
        lib.integer_array(&indptr),
        lib.integer_array(&indices),
        lib.float_array(&values),
        num_cols,
    );

    let via_dmatrix = predict_on(&mut lib, &bst, &dm).unwrap();
    let (via_inplace, shape) = predict_csr(&mut lib, &mut bst, csr).unwrap();
    assert_eq!(shape, vec![num_rows as u64]);
    assert_eq!(via_dmatrix.len(), via_inplace.len());
    for (a, b) in via_dmatrix.iter().zip(&via_inplace) {
        assert!((a - b).abs() < 1e-6, "inplace CSR predict mismatch: {} vs {}", a, b);
    }

    // Second call goes through the cached proxy DMatrix; results must not change.
    let (again, shape_again) = predict_csr(&mut lib, &mut bst, csr).unwrap();
    assert_eq!(shape_again, shape);
    assert_eq!(again, via_inplace);
    assert_eq!(lib.proxies, 1);
}

#[test]
fn serialize_unserialize_roundtrip() {
    let (num_rows, num_cols) = (256, 8);
    let data = synthetic_dense(num_rows, num_cols);
    let mut lib = Library::default();
    let (bst, dm) = trained_on(&mut lib, &data, num_rows);

    let before = predict_on(&mut lib, &bst, &dm).unwrap();
    let snapshot = once(&mut lib, |r| bst.serialize_to_buffer(r), bytes).unwrap();
    let created = match Booster::unserialize_from_buffer(&snapshot, LoadEvent::Start) {
        Step::Perform(call) => lib.handle(call).unwrap(),
        Step::Finish(_) => panic!("a handle was expected"),
    };
    let reply = match Booster::unserialize_from_buffer(&snapshot, LoadEvent::Created(Ok(created))) {
        Step::Perform(call) => lib.unit(call),
        Step::Finish(_) => panic!("a call was expected"),
    };
    let event = LoadEvent::Loaded { booster: created, reply };
    let restored = match Booster::unserialize_from_buffer(&snapshot, event) {
        Step::Finish(r) => r.unwrap(),
        Step::Perform(_) => panic!("the end was expected"),
    };
    let after = predict_on(&mut lib, &restored, &dm).unwrap();
    assert_eq!(before, after, "snapshot restore must reproduce predictions exactly");
}

#[test]
fn reset_keeps_model() {
    let (num_rows, num_cols) = (256, 8);
    let data = synthetic_dense(num_rows, num_cols);
    let mut lib = Library::default();
    let (bst, dm) = trained_on(&mut lib, &data, num_rows);

    let before = predict_on(&mut lib, &bst, &dm).unwrap();
    once(&mut lib, |r| bst.reset(r), done).unwrap();
    let after = predict_on(&mut lib, &bst, &dm).unwrap();
    assert_eq!(before, after, "reset must not change the trained model");
    assert!(lib.models[&bst.handle()].cached.is_empty());
}

#[test]
fn predict_from_dense_matches_dmatrix() {
    let (num_rows, num_cols) = (256, 8);
    let data = synthetic_dense(num_rows, num_cols);
    let mut lib = Library::default();
    let (mut bst, dm) = trained_on(&mut lib, &data, num_rows);
    let values = lib.float_array(&data);

    let via_dmatrix = predict_on(&mut lib, &bst, &dm).unwrap();
    let (via_inplace, shape) = predict_dense(&mut lib, &mut bst, values, num_rows).unwrap();
    assert_eq!(shape, vec![num_rows as u64]);
    assert_eq!(via_dmatrix.len(), via_inplace.len());
    for (a, b) in via_dmatrix.iter().zip(&via_inplace) {
        assert!((a - b).abs() < 1e-6, "inplace predict mismatch: {} vs {}", a, b);
    }

    // Second call goes through the cached proxy DMatrix; results must not change.
    let (again, shape_again) = predict_dense(&mut lib, &mut bst, values, num_rows).unwrap();
    assert_eq!(shape_again, shape);
    assert_eq!(again, via_inplace);
    assert_eq!(lib.proxies, 1);
}

#[test]
fn inplace_predict_missing_sentinel_matches_nan() {
    let (num_rows, num_cols) = (256, 8);
    let data = synthetic_dense(num_rows, num_cols);
    let mut lib = Library::default();
    let (mut bst, _dm) = trained_on(&mut lib, &data, num_rows);

    // A row with a genuinely missing feature, encoded both ways.
    let mut row_nan = data[..num_cols].to_vec();
    row_nan[3] = f32::NAN;
    let row_nan = lib.float_array(&row_nan);
    let mut row_sentinel = data[..num_cols].to_vec();
    row_sentinel[3] = -999.0;
    let row_sentinel = lib.float_array(&row_sentinel);

    let (expected, _) = predict_dense(&mut lib, &mut bst, row_nan, 1).unwrap();
    let (as_value, _) = predict_dense(&mut lib, &mut bst, row_sentinel, 1).unwrap();
    assert_ne!(as_value, expected);

    bst.set_inplace_predict_missing(MissingValue::Json("-999.0".to_owned())).unwrap();
    let (as_missing, _) = predict_dense(&mut lib, &mut bst, row_sentinel, 1).unwrap();
    assert_eq!(
        as_missing, expected,
        "sentinel-encoded missing must predict identically to NaN-encoded"
    );
    assert_ne!(as_missing, as_value);

    // NaN restores the default config.
    bst.set_inplace_predict_missing(MissingValue::Nan).unwrap();
    let (restored, _) = predict_dense(&mut lib, &mut bst, row_nan, 1).unwrap();
    assert_eq!(restored, expected);

    // A value that no config can hold is rejected, and changes nothing.
    let before = bst.inplace_config().to_owned();
    let rejected = MissingValue::Rejected(XGBError::new("not finite".to_owned()));
    assert!(bst.set_inplace_predict_missing(rejected).is_err());
    assert_eq!(bst.inplace_config(), before);
    assert!(before.ends_with("\"missing\":NaN}\0"));
}

#[test]
fn predict_from_dense_into_matches_and_reuses_buffer() {
    let (num_rows, num_cols) = (64, 8);
    let data = synthetic_dense(num_rows, num_cols);
    let mut lib = Library::default();
    let (mut bst, _dm) = trained_on(&mut lib, &data, num_rows);
    let values = lib.float_array(&data);

    let (owned, _shape) = predict_dense(&mut lib, &mut bst, values, num_rows).unwrap();
    let mut out = Vec::new();
    predict_dense_into(&mut lib, &mut bst, values, num_rows, &mut out).unwrap();
    assert_eq!(out, owned);

    // A smaller second batch must overwrite (not append) and reuse capacity.
    let half_rows = num_rows / 2;
    let half = lib.float_array(&data[..half_rows * num_cols]);
    let cap_before = out.capacity();
    predict_dense_into(&mut lib, &mut bst, half, half_rows, &mut out).unwrap();
    assert_eq!(out.len(), half_rows);
    assert_eq!(out.capacity(), cap_before, "buffer must be reused, not reallocated");
    assert_eq!(out[..], owned[..half_rows], "row predictions are independent of batch size");
}

#[test]
fn predict_from_csr_into_matches_and_reuses_buffer() {
    let (num_rows, num_cols) = (64, 8);
    let (indptr, indices, values, dense) = synthetic_csr(num_rows, num_cols);
    let mut lib = Library::default();
    let (mut bst, _dm) = trained_on(&mut lib, &dense, num_rows);
    let csr = (
        lib.integer_array(&indptr),
        lib.integer_array(&indices),
        lib.float_array(&values),
        num_cols,
    );

    let (owned, _shape) = predict_csr(&mut lib, &mut bst, csr).unwrap();
    let mut out = Vec::new();
    predict_csr_into(&mut lib, &mut bst, csr, &mut out).unwrap();
    assert_eq!(out, owned);

    // CSR prefix (first half of the rows) into the same buffer.
    let half_rows = num_rows / 2;
    let nnz_half = indptr[half_rows] as usize;
    let half = (
        lib.integer_array(&indptr[..=half_rows]),
        lib.integer_array(&indices[..nnz_half]),
        lib.float_array(&values[..nnz_half]),
        num_cols,
    );
    let cap_before = out.capacity();
    predict_csr_into(&mut lib, &mut bst, half, &mut out).unwrap();
    assert_eq!(out.len(), half_rows);
    assert_eq!(out.capacity(), cap_before, "buffer must be reused, not reallocated");
    assert_eq!(out[..], owned[..half_rows], "row predictions are independent of batch size");
}

#[test]
fn predict_from_dense_rejects_bad_shape() {
    let mut lib = Library::default();
    let mut bst = load_test_booster(&mut lib);
    // Length not divisible by num_rows: must error, not silently truncate.
    let three = lib.float_array(&[1.0, 2.0, 3.0]);
    let e = predict_dense(&mut lib, &mut bst, three, 2).unwrap_err();
    assert_eq!(e.desc, "values length 3 does not divide into num_rows 2");
    // Zero rows: must error, not panic on division by zero.
    let one = lib.float_array(&[1.0]);
    let e = predict_dense(&mut lib, &mut bst, one, 0).unwrap_err();
    assert_eq!(e.desc, "values length 1 does not divide into num_rows 0");
}

#[test]
fn parameters_are_set_in_order_and_the_first_refusal_ends_it() {
    let pair = |k: &str, v: &str| (k.to_owned(), v.to_owned());
    let params = vec![pair("max_depth", "2"), pair("eta", "1"), pair("max_depth", "3")];
    let mut lib = Library::default();
    let booster = build(&mut lib, &params, &[11, 12]).unwrap();
    let model = &lib.models[&booster.handle()];
    assert_eq!(model.params, params);
    assert_eq!(model.cached, vec![11, 12]);

    let params = vec![pair("eta", "1"), pair("refused", "x"), pair("max_depth", "3")];
    let mut lib = Library::default();
    assert_eq!(build(&mut lib, &params, &[]).err().unwrap().desc, "refused");
    let model = lib.models.values().next().unwrap();
    assert_eq!(model.params, vec![pair("eta", "1")]);
}

#[test]
fn new_caches_nothing() {
    match Booster::new(&[], BuildEvent::Start) {
        Step::Perform(Call::BoosterCreate { dmats }) => assert!(dmats.is_empty()),
        _ => panic!("a handle is asked for first"),
    }
    match Booster::new(&[], BuildEvent::Created(Ok(7))) {
        Step::Finish(Ok(booster)) => assert_eq!(booster.handle(), 7),
        _ => panic!("the booster is ready"),
    }
    let failed = BuildEvent::Created(Err(XGBError::new("no memory".to_owned())));
    match Booster::new(&[], failed) {
        Step::Finish(Err(e)) => assert_eq!(e.desc, "no memory"),
        _ => panic!("a failure was expected"),
    }
}

#[test]
fn loading_what_is_not_there_fails_before_any_call() {
    match Booster::load("a/b.model", false, LoadEvent::Start) {
        Step::Finish(Err(e)) => assert_eq!(e.desc, "File not found: a/b.model"),
        _ => panic!("a failure was expected"),
    }
}

#[test]
fn loading_from_a_file_asks_for_a_handle_and_then_for_the_model() {
    match Booster::load("m", true, LoadEvent::Start) {
        Step::Perform(Call::BoosterCreate { dmats }) => assert!(dmats.is_empty()),
        _ => panic!("a handle is asked for first"),
    }
    match Booster::load("m", true, LoadEvent::Created(Ok(5))) {
        Step::Perform(Call::BoosterLoadModel { booster, fname }) => {
            assert_eq!(booster, 5);
            assert_eq!(fname, "m\0");
        }
        _ => panic!("the model is asked for"),
    }
    match Booster::load("m", true, LoadEvent::Loaded { booster: 5, reply: Ok(()) }) {
        Step::Finish(Ok(booster)) => {
            assert_eq!(booster.handle(), 5);
            assert!(booster.inplace_config().ends_with("\"missing\":NaN}\0"));
        }
        _ => panic!("the booster is ready"),
    }
}

#[test]
fn loading_no_model_fails() {
    let mut lib = Library::default();
    assert_eq!(load_buffer(&mut lib, b"rubbish").err().unwrap().desc, "no model");
}

#[test]
fn a_booster_gives_back_its_proxy_and_then_itself() {
    let mut lib = Library::default();
    let mut bst = load_test_booster(&mut lib);
    let calls = bst.release();
    assert_eq!(calls.len(), 1);

    let values = lib.float_array(&[1.0, 2.0]);
    predict_dense(&mut lib, &mut bst, values, 1).unwrap();
    for call in bst.release() {
        lib.unit(call).unwrap();
    }
    assert_eq!(lib.freed.len(), 2);
    assert!(lib.freed[0].starts_with("matrix"));
    assert_eq!(lib.freed[1], format!("booster {}", bst.handle()));
}

#[test]
fn a_failed_proxy_is_asked_for_again() {
    let mut bst = Booster::from_handle(1);
    let values = ArrayRef { addr: 4096, len: 2 };
    let failed = InplaceEvent::Proxy(Err(XGBError::new("no proxy".to_owned())));
    match bst.predict_from_dense::<f32>(values, 1, failed) {
        Step::Finish(Err(e)) => assert_eq!(e.desc, "no proxy"),
        _ => panic!("a failure was expected"),
    }
    let step = bst.predict_from_dense::<f32>(values, 1, InplaceEvent::Start);
    assert!(matches!(step, Step::Perform(Call::ProxyDMatrixCreate)));
}

#[test]
fn a_failed_prediction_leaves_the_buffer_alone() {
    let bst = Booster::from_handle(1);
    let dmat = DMatrix { handle: 2, num_rows: 1, num_cols: 1 };
    let mut out = vec![1.0f32, 2.0];
    let failed = Err(XGBError::new("broken".to_owned()));
    match bst.predict_into(&dmat, Some(failed), &mut out) {
        Step::Finish(Err(e)) => assert_eq!(e.desc, "broken"),
        _ => panic!("a failure was expected"),
    }
    assert_eq!(out, vec![1.0, 2.0]);
}

#[test]
fn feature_info_is_refused_where_it_holds_a_nul() {
    let bst = Booster::from_handle(1);
    match bst.set_feature_info("feature\0name", &vec!["a"], None) {
        Step::Finish(Err(e)) => assert_eq!(e.desc, "field contains an interior NUL byte"),
        _ => panic!("a failure was expected"),
    }
    match bst.get_feature_info("feature\0name", None) {
        Step::Finish(Err(e)) => assert_eq!(e.desc, "field contains an interior NUL byte"),
        _ => panic!("a failure was expected"),
    }
    match bst.set_feature_names(&vec!["a", "b\0\"c", "d\0"], None) {
        Step::Finish(Err(e)) => assert_eq!(
            e.desc,
            "feature info value contains an interior NUL byte: \"b\\0\\\"c\""
        ),
        _ => panic!("a failure was expected"),
    }
}

#[test]
fn feature_info_that_is_no_text_is_told() {
    let bst = Booster::from_handle(1);
    let raw = vec![b"good".to_vec(), vec![0x66, 0xff], vec![0xfe]];
    match bst.get_feature_names(Some(Ok(raw))) {
        Step::Finish(Err(e)) => assert_eq!(
            e.desc,
            "feature info value is not valid UTF-8: invalid utf-8 sequence of 1 bytes from index 1"
        ),
        _ => panic!("a failure was expected"),
    }
    let raw = vec!["größe".as_bytes().to_vec(), Vec::new()];
    match bst.get_feature_names(Some(Ok(raw))) {
        Step::Finish(Ok(texts)) => assert_eq!(texts, vec!["größe", ""]),
        _ => panic!("texts were expected"),
    }
}

#[test]
fn a_model_is_saved_as_json_where_it_is_not_binary() {
    let mut lib = Library::default();
    let booster = load_test_booster(&mut lib);
    once(&mut lib, |r| booster.save_buffer(false, r), bytes).unwrap();
    assert_eq!(lib.configs, vec!["{\"format\":\"json\"}"]);
}
