//! The booster: what it keeps, how it is made, configured, saved and released.

use crate::call::{ask_once, asks_once, Call, Config, Request, Step};
use crate::ctext::{holds_nul, is_terminated, terminated, with_nul};
use crate::error::{XGBError, XGBResult};
use crate::predict_config;
use crate::text::{joined_by, law_split_finds_pieces, lemma_concat_without, split};
use vstd::prelude::*;

verus! {

broadcast use vstd::string::group_string_axioms;

/// Core model in XGBoost, with the operations for training, evaluating and predicting.
pub struct Booster {
    /// The C library's handle.
    handle: usize,
    /// Proxy matrix that inplace predictions share, once there is one.
    inplace_proxy: Option<usize>,
    /// NUL-terminated inplace-prediction configuration with a missing value of its own; without
    /// it NaN is missing.
    inplace_config: Option<String>,
}

/// What a booster keeps, as values.
#[verifier::ext_equal]
pub struct BoosterState {
    /// The C library's handle.
    pub handle: usize,
    /// The proxy matrix for inplace predictions.
    pub proxy: Option<usize>,
    /// The configuration of inplace predictions.
    pub config: Seq<char>,
}

impl View for Booster {
    type V = BoosterState;

    closed spec fn view(&self) -> BoosterState {
        BoosterState {
            handle: self.handle,
            proxy: self.inplace_proxy,
            config: match self.inplace_config {
                Some(config) => config@,
                None => predict_config::NORMAL_INPLACE@,
            },
        }
    }
}

/// The configuration of inplace predictions that treat `missing`, a JSON value, as missing.
pub open spec fn inplace_json(missing: Seq<char>) -> Seq<char> {
    "{\"type\":0,\"training\":false,\"iteration_begin\":0,\"iteration_end\":0,\"strict_shape\":false,\"missing\":"@
        + missing + "}"@
}

/// A value that stands for a missing one, as far as inplace predictions are concerned.
pub enum MissingValue {
    /// Not a number: the default.
    Nan,
    /// A number, as JSON.
    Json(String),
    /// No value that a configuration can hold, and why.
    Rejected(XGBError),
}

/// A booster without a proxy matrix, for which NaN is missing.
pub open spec fn fresh(handle: usize) -> BoosterState {
    BoosterState { handle, proxy: None, config: predict_config::NORMAL_INPLACE@ }
}

impl Booster {
    /// The inplace-prediction configuration ends in its only NUL.
    #[verifier::type_invariant]
    spec fn config_is_terminated(self) -> bool {
        self.inplace_config matches Some(config) ==> is_terminated(config@)
    }

    /// A booster for a handle of the C library, which it owns from now on.
    pub fn from_handle(handle: usize) -> (r: Booster)
        ensures
            r@ == fresh(handle),
    {
        Booster { handle, inplace_proxy: None, inplace_config: None }
    }

    /// The C library's handle.
    pub fn handle(&self) -> (r: usize)
        ensures
            r == self@.handle,
    {
        self.handle
    }

    /// Sets the value that the inplace predictions treat as missing, instead of the default
    /// NaN. NaN restores the default; a value that is rejected changes nothing.
    pub fn set_inplace_predict_missing(&mut self, missing: MissingValue) -> (r: XGBResult<()>)
        requires
            missing matches MissingValue::Json(json) ==> !holds_nul(json@),
        ensures
            match missing {
                MissingValue::Nan => r is Ok && final(self)@ == (BoosterState {
                    config: predict_config::NORMAL_INPLACE@,
                    ..old(self)@
                }),
                MissingValue::Json(json) => r is Ok && final(self)@ == (BoosterState {
                    config: terminated(inplace_json(json@)),
                    ..old(self)@
                }),
                MissingValue::Rejected(e) => r == Err::<(), XGBError>(e) && final(self)@ == old(
                    self,
                )@,
            },
    {
        match missing {
            MissingValue::Nan => {
                self.inplace_config = None;
                Ok(())
            },
            MissingValue::Rejected(e) => Err(e),
            MissingValue::Json(text) => {
                let mut json: String =
                    "{\"type\":0,\"training\":false,\"iteration_begin\":0,\"iteration_end\":0,\"strict_shape\":false,\"missing\":".to_owned();
                json.append(text.as_str());
                json.append("}");
                let config: String = with_nul(json.as_str());
                proof {
                    lemma_inplace_json_nul(text@);
                    assert(config@.drop_last() =~= inplace_json(text@));
                }
                self.inplace_config = Some(config);
                Ok(())
            },
        }
    }

    /// The configuration of inplace predictions: the one with a missing value of its own when
    /// it is set, else the one for NaN.
    pub fn inplace_config(&self) -> (r: &str)
        ensures
            r@ == self@.config,
            is_terminated(r@),
    {
        proof {
            use_type_invariant(self);
            lemma_normal_inplace();
        }
        match &self.inplace_config {
            Some(config) => config.as_str(),
            None => predict_config::NORMAL_INPLACE,
        }
    }

    /// The proxy matrix for inplace predictions, which is made on first use.
    pub fn inplace_proxy(&mut self, reply: Option<XGBResult<usize>>) -> (r: Step<'static, usize>)
        ensures
            match (old(self)@.proxy, reply) {
                (Some(proxy), _) => r == Step::<'static, usize>::Finish(Ok(proxy)) && final(self)@
                    == old(self)@,
                (None, None) => r.performs(Request::ProxyDMatrixCreate) && final(self)@ == old(
                    self,
                )@,
                (None, Some(Ok(proxy))) => r == Step::<'static, usize>::Finish(Ok(proxy))
                    && final(self)@ == (BoosterState { proxy: Some(proxy), ..old(self)@ }),
                (None, Some(Err(e))) => r == Step::<'static, usize>::Finish(Err(e)) && final(self)@
                    == old(self)@,
            },
    {
        if let Some(proxy) = self.inplace_proxy {
            return Step::Finish(Ok(proxy));
        }
        match reply {
            None => Step::Perform(Call::ProxyDMatrixCreate),
            Some(Ok(proxy)) => {
                proof {
                    use_type_invariant(&*self);
                }
                self.inplace_proxy = Some(proxy);
                Step::Finish(Ok(proxy))
            },
            Some(Err(e)) => Step::Finish(Err(e)),
        }
    }
}

proof fn lemma_inplace_json_nul(missing: Seq<char>)
    requires
        !holds_nul(missing),
    ensures
        !holds_nul(inplace_json(missing)),
{
    reveal_strlit("{\"type\":0,\"training\":false,\"iteration_begin\":0,\"iteration_end\":0,\"strict_shape\":false,\"missing\":");
    reveal_strlit("}");
    let a = "{\"type\":0,\"training\":false,\"iteration_begin\":0,\"iteration_end\":0,\"strict_shape\":false,\"missing\":"@;
    let s = inplace_json(missing);
    assert forall|i: int| 0 <= i < s.len() implies s[i] != '\0' by {
        if a.len() <= i < a.len() + missing.len() {
            assert(missing.contains(missing[i - a.len()]));
        }
    }
}

proof fn lemma_normal_inplace()
    ensures
        predict_config::NORMAL_INPLACE@ == terminated(inplace_json("NaN"@)),
        is_terminated(predict_config::NORMAL_INPLACE@),
{
    reveal_strlit("{\"type\":0,\"training\":false,\"iteration_begin\":0,\"iteration_end\":0,\"strict_shape\":false,\"missing\":");
    reveal_strlit("}");
    reveal_strlit("NaN");
    reveal_strlit("{\"type\":0,\"training\":false,\"iteration_begin\":0,\"iteration_end\":0,\"strict_shape\":false,\"missing\":NaN}\0");
    assert(predict_config::NORMAL_INPLACE@ =~= terminated(inplace_json("NaN"@)));
    lemma_inplace_json_nul("NaN"@);
    assert(terminated(inplace_json("NaN"@)).drop_last() =~= inplace_json("NaN"@));
}

/// The configuration that inplace predictions start with is the one in which NaN is missing.
pub proof fn law_default_missing_is_nan(handle: usize)
    ensures
        fresh(handle).config == terminated(inplace_json("NaN"@)),
{
    lemma_normal_inplace();
}

/// How far the making of a booster has come.
pub enum BuildEvent {
    /// It begins.
    Start,
    /// The handle was asked for.
    Created(XGBResult<usize>),
    /// The parameter `index` was set on the booster with the handle `booster`.
    ParamSet { booster: usize, index: usize, reply: XGBResult<()> },
}

/// How far the loading of a booster has come.
pub enum LoadEvent {
    /// It begins.
    Start,
    /// The handle was asked for.
    Created(XGBResult<usize>),
    /// The model was loaded into the booster with the handle `booster`.
    Loaded { booster: usize, reply: XGBResult<()> },
}

/// The parameter `i` can be handed to the C library: neither its name nor its value holds a
/// NUL.
pub open spec fn settable(params: Seq<(String, String)>, i: int) -> bool {
    !holds_nul(params[i].0@) && !holds_nul(params[i].1@)
}

/// The call that sets the parameter `i`.
pub open spec fn param_request(handle: usize, params: Seq<(String, String)>, i: int) -> Request {
    Request::BoosterSetParam {
        booster: handle,
        name: terminated(params[i].0@),
        value: terminated(params[i].1@),
    }
}

/// The step of setting parameters from the parameter `i` on.
pub open spec fn sets_from(
    step: Step<'_, ()>,
    handle: usize,
    params: Seq<(String, String)>,
    i: int,
) -> bool {
    if i < params.len() {
        step.performs(param_request(handle, params, i))
    } else {
        step == Step::<'_, ()>::Finish(Ok(()))
    }
}

/// The step of making a booster from the parameter `i` on.
pub open spec fn builds_from(
    step: Step<'_, Booster>,
    handle: usize,
    params: Seq<(String, String)>,
    i: int,
) -> bool {
    if i < params.len() {
        step.performs(param_request(handle, params, i))
    } else {
        step matches Step::Finish(Ok(booster)) && booster@ == fresh(handle)
    }
}

/// The step of making a booster: a handle is made, then the parameters are set in order. The
/// first failure ends it.
pub open spec fn build_step(
    step: Step<'_, Booster>,
    params: Seq<(String, String)>,
    dmats: Seq<usize>,
    event: BuildEvent,
) -> bool {
    match event {
        BuildEvent::Start => step.performs(Request::BoosterCreate { dmats }),
        BuildEvent::Created(Ok(handle)) => builds_from(step, handle, params, 0),
        BuildEvent::Created(Err(e)) => step.gives_error(e),
        BuildEvent::ParamSet { booster, index, reply: Ok(_) } => builds_from(
            step,
            booster,
            params,
            index + 1,
        ),
        BuildEvent::ParamSet { booster, index, reply: Err(e) } => step.gives_error(e),
    }
}

/// What making a booster asks of the parameter that is next, and of the event.
pub open spec fn buildable(params: Seq<(String, String)>, event: BuildEvent) -> bool {
    match event {
        BuildEvent::Created(Ok(_)) => params.len() > 0 ==> settable(params, 0),
        BuildEvent::ParamSet { index, reply: Ok(_), .. } => index < params.len() && (index + 1
            < params.len() ==> settable(params, index + 1)),
        _ => true,
    }
}

/// The step of loading: a handle is made, then `load` is called on it. The first failure
/// ends it.
pub open spec fn load_step(
    step: Step<'_, Booster>,
    load: spec_fn(usize) -> Request,
    event: LoadEvent,
) -> bool {
    match event {
        LoadEvent::Start => step.performs(Request::BoosterCreate { dmats: Seq::empty() }),
        LoadEvent::Created(Ok(handle)) => step.performs(load(handle)),
        LoadEvent::Created(Err(e)) => step.gives_error(e),
        LoadEvent::Loaded { booster, reply: Ok(_) } => step matches Step::Finish(Ok(b)) && b@
            == fresh(booster),
        LoadEvent::Loaded { booster, reply: Err(e) } => step.gives_error(e),
    }
}

impl Booster {
    /// Makes a booster with the given parameters.
    pub fn new(params: &[(String, String)], event: BuildEvent) -> (r: Step<'static, Booster>)
        requires
            buildable(params@, event),
        ensures
            build_step(r, params@, Seq::empty(), event),
    {
        let none: Vec<usize> = Vec::new();
        Booster::new_with_cached_dmats(params, none.as_slice(), event)
    }

    /// Makes a booster with the given parameters and matrices to cache.
    ///
    /// When a parameter is refused, the booster made so far is dropped: see `release`.
    pub fn new_with_cached_dmats(
        params: &[(String, String)],
        dmats: &[usize],
        event: BuildEvent,
    ) -> (r: Step<'static, Booster>)
        requires
            buildable(params@, event),
        ensures
            build_step(r, params@, dmats@, event),
    {
        let (handle, progress): (usize, Option<(usize, XGBResult<()>)>) = match event {
            BuildEvent::Start => {
                return Step::Perform(
                    Call::BoosterCreate { dmats: vstd::slice::slice_to_vec(dmats) },
                );
            },
            BuildEvent::Created(Err(e)) => {
                return Step::Finish(Err(e));
            },
            BuildEvent::Created(Ok(handle)) => (handle, None),
            BuildEvent::ParamSet { booster, index, reply } => (booster, Some((index, reply))),
        };
        let booster: Booster = Booster::from_handle(handle);
        match booster.set_params(params, progress) {
            Step::Perform(call) => Step::Perform(call),
            Step::Finish(Ok(_)) => Step::Finish(Ok(booster)),
            Step::Finish(Err(e)) => Step::Finish(Err(e)),
        }
    }

    /// Sets parameters, one after the other. `progress` is the index of the parameter that
    /// was set last, with the reply.
    pub fn set_params(
        &self,
        params: &[(String, String)],
        progress: Option<(usize, XGBResult<()>)>,
    ) -> (r: Step<'static, ()>)
        requires
            match progress {
                None => params@.len() > 0 ==> settable(params@, 0),
                Some((index, Ok(_))) => index < params@.len() && (index + 1 < params@.len()
                    ==> settable(params@, index + 1)),
                Some((_, Err(_))) => true,
            },
        ensures
            match progress {
                None => sets_from(r, self@.handle, params@, 0),
                Some((index, Ok(_))) => sets_from(r, self@.handle, params@, index + 1),
                Some((_, Err(e))) => r.gives_error(e),
            },
    {
        let count: usize = params.len();
        let next: usize = match progress {
            None => 0,
            Some((index, Ok(_))) => index + 1,
            Some((_, Err(e))) => {
                return Step::Finish(Err(e));
            },
        };
        if next < count {
            let (key, value): &(String, String) = &params[next];
            self.set_param(key.as_str(), value.as_str(), None)
        } else {
            Step::Finish(Ok(()))
        }
    }

    /// Sets one parameter.
    pub fn set_param(&self, name: &str, value: &str, reply: Option<XGBResult<()>>) -> (r: Step<
        'static,
        (),
    >)
        requires
            !holds_nul(name@),
            !holds_nul(value@),
        ensures
            asks_once(
                r,
                Request::BoosterSetParam {
                    booster: self@.handle,
                    name: terminated(name@),
                    value: terminated(value@),
                },
                reply,
            ),
    {
        ask_once(
            Call::BoosterSetParam {
                booster: self.handle,
                name: with_nul(name),
                value: with_nul(value),
            },
            reply,
        )
    }

    /// Saves the booster as a binary file at the given path.
    pub fn save(&self, path: &str, reply: Option<XGBResult<()>>) -> (r: Step<'static, ()>)
        requires
            !holds_nul(path@),
        ensures
            asks_once(
                r,
                Request::BoosterSaveModel { booster: self@.handle, fname: terminated(path@) },
                reply,
            ),
    {
        ask_once(
            Call::BoosterSaveModel { booster: self.handle, fname: with_nul(path) },
            reply,
        )
    }

    /// Saves the booster to a buffer, as "ubj" when binary, otherwise as "json".
    pub fn save_buffer(&self, binary: bool, reply: Option<XGBResult<Vec<u8>>>) -> (r: Step<
        'static,
        Vec<u8>,
    >)
        ensures
            asks_once(
                r,
                Request::BoosterSaveModelToBuffer {
                    booster: self@.handle,
                    config: if binary {
                        "{\"format\":\"ubj\"}\0"@
                    } else {
                        "{\"format\":\"json\"}\0"@
                    },
                },
                reply,
            ),
    {
        let config: Config<'static> = if binary {
            Config::Borrowed("{\"format\":\"ubj\"}\0")
        } else {
            Config::Borrowed("{\"format\":\"json\"}\0")
        };
        ask_once(Call::BoosterSaveModelToBuffer { booster: self.handle, config }, reply)
    }

    /// Takes a snapshot of the booster's full state, model and internal configuration.
    pub fn serialize_to_buffer(&self, reply: Option<XGBResult<Vec<u8>>>) -> (r: Step<
        'static,
        Vec<u8>,
    >)
        ensures
            asks_once(r, Request::BoosterSerializeToBuffer { booster: self@.handle }, reply),
    {
        ask_once(Call::BoosterSerializeToBuffer { booster: self.handle }, reply)
    }

    /// Restores a booster from a `serialize_to_buffer` snapshot.
    pub fn unserialize_from_buffer<'a>(bytes: &'a [u8], event: LoadEvent) -> (r: Step<'a, Booster>)
        ensures
            load_step(
                r,
                |booster: usize|
                    Request::BoosterUnserializeFromBuffer { booster, bytes: bytes@ },
                event,
            ),
    {
        match event {
            LoadEvent::Start => Step::Perform(Call::BoosterCreate { dmats: Vec::new() }),
            LoadEvent::Created(Ok(booster)) => Step::Perform(
                Call::BoosterUnserializeFromBuffer { booster, bytes },
            ),
            LoadEvent::Created(Err(e)) => Step::Finish(Err(e)),
            LoadEvent::Loaded { booster, reply } => loaded(booster, reply),
        }
    }

    /// Loads a booster from a binary file at the given path; `exists` tells whether there is
    /// anything at the path.
    pub fn load(path: &str, exists: bool, event: LoadEvent) -> (r: Step<'static, Booster>)
        requires
            exists ==> !holds_nul(path@),
        ensures
            !exists ==> r.fails("File not found: "@ + path@),
            exists ==> load_step(
                r,
                |booster: usize|
                    Request::BoosterLoadModel { booster, fname: terminated(path@) },
                event,
            ),
    {
        if !exists {
            let mut message: String = "File not found: ".to_owned();
            message.append(path);
            return Step::Finish(Err(XGBError::new(message)));
        }
        match event {
            LoadEvent::Start => Step::Perform(Call::BoosterCreate { dmats: Vec::new() }),
            LoadEvent::Created(Ok(booster)) => Step::Perform(
                Call::BoosterLoadModel { booster, fname: with_nul(path) },
            ),
            LoadEvent::Created(Err(e)) => Step::Finish(Err(e)),
            LoadEvent::Loaded { booster, reply } => loaded(booster, reply),
        }
    }

    /// Loads a booster directly from a buffer.
    pub fn load_buffer<'a>(bytes: &'a [u8], event: LoadEvent) -> (r: Step<'a, Booster>)
        ensures
            load_step(
                r,
                |booster: usize| Request::BoosterLoadModelFromBuffer { booster, bytes: bytes@ },
                event,
            ),
    {
        match event {
            LoadEvent::Start => Step::Perform(Call::BoosterCreate { dmats: Vec::new() }),
            LoadEvent::Created(Ok(booster)) => Step::Perform(
                Call::BoosterLoadModelFromBuffer { booster, bytes },
            ),
            LoadEvent::Created(Err(e)) => Step::Finish(Err(e)),
            LoadEvent::Loaded { booster, reply } => loaded(booster, reply),
        }
    }

    /// Releases the data caches that XGBoost accumulated during training. The trained model
    /// is unaffected.
    pub fn reset(&self, reply: Option<XGBResult<()>>) -> (r: Step<'static, ()>)
        ensures
            asks_once(r, Request::BoosterReset { booster: self@.handle }, reply),
    {
        ask_once(Call::BoosterReset { booster: self.handle }, reply)
    }

    /// The calls that give back what a booster holds, when it is dropped: the proxy matrix, if
    /// there is one, then the booster itself.
    pub fn release(&self) -> (r: Vec<Call<'static>>)
        ensures
            match self@.proxy {
                Some(proxy) => r@.len() == 2 && r@[0]@ == (Request::DMatrixFree { dmat: proxy })
                    && r@[1]@ == (Request::BoosterFree { booster: self@.handle }),
                None => r@.len() == 1 && r@[0]@ == (Request::BoosterFree {
                    booster: self@.handle,
                }),
            },
    {
        let mut r: Vec<Call<'static>> = Vec::new();
        if let Some(proxy) = self.inplace_proxy {
            r.push(Call::DMatrixFree { dmat: proxy });
        }
        r.push(Call::BoosterFree { booster: self.handle });
        r
    }
}

/// The end of loading.
fn loaded(handle: usize, reply: XGBResult<()>) -> (r: Step<'static, Booster>)
    ensures
        match reply {
            Ok(_) => r matches Step::Finish(Ok(b)) && b@ == fresh(handle),
            Err(e) => r.gives_error(e),
        },
{
    match reply {
        Ok(_) => Step::Finish(Ok(Booster::from_handle(handle))),
        Err(e) => Step::Finish(Err(e)),
    }
}

/// Making a booster, if nothing fails, asks for a handle, then for every parameter to be set on
/// it, each once and in order, and then gives the booster.
pub proof fn law_every_parameter_is_set(
    steps: Seq<Step<'_, Booster>>,
    params: Seq<(String, String)>,
    dmats: Seq<usize>,
    handle: usize,
)
    requires
        params.len() <= usize::MAX,
        steps.len() == params.len() + 2,
        build_step(steps[0], params, dmats, BuildEvent::Start),
        build_step(steps[1], params, dmats, BuildEvent::Created(Ok(handle))),
        forall|i: int|
            0 <= i < params.len() ==> build_step(
                #[trigger] steps[i + 2],
                params,
                dmats,
                BuildEvent::ParamSet { booster: handle, index: i as usize, reply: Ok(()) },
            ),
    ensures
        steps[0].performs(Request::BoosterCreate { dmats }),
        forall|i: int|
            0 <= i < params.len() ==> (#[trigger] steps[i + 1]).performs(
                param_request(handle, params, i),
            ),
        steps.last() matches Step::Finish(Ok(booster)) && booster@ == fresh(handle),
{
    assert forall|i: int| 0 <= i < params.len() implies (#[trigger] steps[i + 1]).performs(
        param_request(handle, params, i),
    ) by {
        if i > 0 {
            assert(steps[(i - 1) + 2] == steps[i + 1]);
        }
    }
    if params.len() > 0 {
        assert(steps[(params.len() - 1) + 2] == steps.last());
    }
}

/// The configuration of inplace predictions tells the missing value, whatever it is, in its last
/// field; the fields before it are those of a normal prediction with all trees.
pub proof fn law_inplace_configuration_tells_the_missing_value(missing: Seq<char>)
    requires
        !missing.contains(','),
    ensures
        split(inplace_json(missing), ',') == seq![
            "{\"type\":0"@,
            "\"training\":false"@,
            "\"iteration_begin\":0"@,
            "\"iteration_end\":0"@,
            "\"strict_shape\":false"@,
            "\"missing\":"@ + missing + "}"@,
        ],
{
    reveal_strlit("{\"type\":0,\"training\":false,\"iteration_begin\":0,\"iteration_end\":0,\"strict_shape\":false,\"missing\":");
    reveal_strlit("}");
    reveal_strlit("{\"type\":0");
    reveal_strlit("\"training\":false");
    reveal_strlit("\"iteration_begin\":0");
    reveal_strlit("\"iteration_end\":0");
    reveal_strlit("\"strict_shape\":false");
    reveal_strlit("\"missing\":");
    lemma_concat_without("\"missing\":"@, missing, ',');
    lemma_concat_without("\"missing\":"@ + missing, "}"@, ',');
    let f = seq![
        "{\"type\":0"@,
        "\"training\":false"@,
        "\"iteration_begin\":0"@,
        "\"iteration_end\":0"@,
        "\"strict_shape\":false"@,
        "\"missing\":"@ + missing + "}"@,
    ];
    let f1 = f.drop_last();
    let f2 = f1.drop_last();
    let f3 = f2.drop_last();
    let f4 = f3.drop_last();
    let f5 = f4.drop_last();
    assert(joined_by(f5, ',') == f[0]);
    assert(joined_by(f4, ',') == f[0] + seq![','] + f[1]);
    assert(joined_by(f3, ',') == joined_by(f4, ',') + seq![','] + f[2]);
    assert(joined_by(f2, ',') == joined_by(f3, ',') + seq![','] + f[3]);
    assert(joined_by(f1, ',') == joined_by(f2, ',') + seq![','] + f[4]);
    assert(joined_by(f, ',') =~= inplace_json(missing));
    law_split_finds_pieces(f, ',');
}

/// Different missing values have different configurations.
pub proof fn law_missing_values_are_told_apart(a: Seq<char>, b: Seq<char>)
    ensures
        inplace_json(a) == inplace_json(b) <==> a == b,
{
    let head = "{\"type\":0,\"training\":false,\"iteration_begin\":0,\"iteration_end\":0,\"strict_shape\":false,\"missing\":"@;
    reveal_strlit("}");
    assert(inplace_json(a).skip(head.len() as int).drop_last() =~= a);
    assert(inplace_json(b).skip(head.len() as int).drop_last() =~= b);
}

/// A parameter is set by its name and value, both as the caller gave them, on the booster.
pub proof fn law_parameters_are_handed_over(handle: usize, params: Seq<(String, String)>, i: int)
    requires
        0 <= i < params.len(),
    ensures
        param_request(handle, params, i) matches Request::BoosterSetParam { booster, name, value }
            && booster == handle && name == params[i].0@ + seq!['\0'] && value == params[i].1@
            + seq!['\0'],
{
    assert(terminated(params[i].0@) =~= params[i].0@ + seq!['\0']);
    assert(terminated(params[i].1@) =~= params[i].1@ + seq!['\0']);
}

/// A failure at any turn ends the making of a booster with that failure, and no further parameter
/// is asked for.
pub proof fn law_failure_ends_the_making(
    step: Step<'_, Booster>,
    params: Seq<(String, String)>,
    dmats: Seq<usize>,
    event: BuildEvent,
    e: XGBError,
)
    requires
        build_step(step, params, dmats, event),
        match event {
            BuildEvent::Start => false,
            BuildEvent::Created(r) => r == Err::<usize, XGBError>(e),
            BuildEvent::ParamSet { reply, .. } => reply == Err::<(), XGBError>(e),
        },
    ensures
        step == Step::<'_, Booster>::Finish(Err(e)),
{
}

/// Setting parameters goes through all of them, each once and in order.
pub proof fn law_parameters_are_set_in_order(
    steps: Seq<Step<'_, ()>>,
    params: Seq<(String, String)>,
    handle: usize,
)
    requires
        steps.len() == params.len() + 1,
        forall|i: int| 0 <= i < steps.len() ==> sets_from(#[trigger] steps[i], handle, params, i),
    ensures
        forall|i: int|
            0 <= i < params.len() ==> (#[trigger] steps[i]).performs(
                param_request(handle, params, i),
            ),
        steps.last() == Step::<'_, ()>::Finish(Ok(())),
{
    assert(sets_from(steps[params.len() as int], handle, params, params.len() as int));
}

/// Loading asks for a booster without cached matrices, then for the model in it, and gives a
/// booster with that handle, no proxy and NaN for missing; a failure at either turn ends it.
pub proof fn law_course_of_loading(
    step: Step<'_, Booster>,
    load: spec_fn(usize) -> Request,
    event: LoadEvent,
)
    requires
        load_step(step, load, event),
    ensures
        match event {
            LoadEvent::Start => step matches Step::Perform(call) && call@ == (
            Request::BoosterCreate { dmats: Seq::empty() }),
            LoadEvent::Created(Ok(handle)) => step matches Step::Perform(call) && call@ == load(
                handle,
            ),
            LoadEvent::Created(Err(e)) => step == Step::<'_, Booster>::Finish(Err(e)),
            LoadEvent::Loaded { booster, reply: Ok(_) } => step matches Step::Finish(Ok(b))
                && b@.handle == booster && b@.proxy is None && b@.config == terminated(
                inplace_json("NaN"@),
            ),
            LoadEvent::Loaded { booster, reply: Err(e) } => step
                == Step::<'_, Booster>::Finish(Err(e)),
        },
{
    lemma_normal_inplace();
}

/// A fresh booster has the handle that it was given, no proxy matrix, and NaN for missing.
pub proof fn law_fresh_boosters(handle: usize)
    ensures
        fresh(handle).handle == handle,
        fresh(handle).proxy is None,
        fresh(handle).config == terminated(inplace_json("NaN"@)),
{
    lemma_normal_inplace();
}

} // verus!
