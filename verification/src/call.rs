//! Requests to XGBoost's C library, and the steps of an operation.
//!
//! An operation asks for one call at a time. Whoever runs it performs the call and hands the
//! reply back, until the operation finishes. Handles and addresses are plain numbers here;
//! texts end in the NUL that the C library wants.

use crate::array_interface::ARRAY_INTERFACE_BUF;
use crate::cbuf::CBuf;
use crate::error::{fails_with, XGBError, XGBResult};
use crate::text::views;
use vstd::prelude::*;

verus! {

/// A NUL-terminated configuration text.
pub enum Config<'a> {
    /// A text that is there already.
    Borrowed(&'a str),
    /// A text made for the call.
    Owned(String),
}

impl<'a> View for Config<'a> {
    type V = Seq<char>;

    open spec fn view(&self) -> Seq<char> {
        match self {
            Config::Borrowed(s) => s@,
            Config::Owned(s) => s@,
        }
    }
}

impl<'a> Config<'a> {
    /// The text.
    pub fn as_str(&self) -> (r: &str)
        ensures
            r@ == self@,
    {
        match self {
            Config::Borrowed(s) => s,
            Config::Owned(s) => s.as_str(),
        }
    }
}

/// A call of a function of the C library, named as there, without the prefix `XG`.
pub enum Call<'a> {
    DMatrixFree { dmat: usize },
    ProxyDMatrixCreate,
    BoosterCreate { dmats: Vec<usize> },
    BoosterFree { booster: usize },
    BoosterReset { booster: usize },
    BoosterSetParam { booster: usize, name: String, value: String },
    BoosterGetNumFeature { booster: usize },
    BoosterUpdateOneIter { booster: usize, iteration: i32, dtrain: usize },
    BoosterTrainOneIter {
        booster: usize,
        dtrain: usize,
        iteration: i32,
        gradient: CBuf<ARRAY_INTERFACE_BUF>,
        hessian: CBuf<ARRAY_INTERFACE_BUF>,
    },
    BoosterEvalOneIter { booster: usize, iteration: i32, dmats: Vec<usize>, names: Vec<String> },
    BoosterPredictFromDMatrix { booster: usize, dmat: usize, config: Config<'a> },
    BoosterPredictFromDense {
        booster: usize,
        values: CBuf<ARRAY_INTERFACE_BUF>,
        config: Config<'a>,
        proxy: usize,
    },
    BoosterPredictFromCSR {
        booster: usize,
        indptr: CBuf<ARRAY_INTERFACE_BUF>,
        indices: CBuf<ARRAY_INTERFACE_BUF>,
        data: CBuf<ARRAY_INTERFACE_BUF>,
        num_cols: u64,
        config: Config<'a>,
        proxy: usize,
    },
    BoosterLoadModel { booster: usize, fname: String },
    BoosterSaveModel { booster: usize, fname: String },
    BoosterLoadModelFromBuffer { booster: usize, bytes: &'a [u8] },
    BoosterSaveModelToBuffer { booster: usize, config: Config<'a> },
    BoosterSerializeToBuffer { booster: usize },
    BoosterUnserializeFromBuffer { booster: usize, bytes: &'a [u8] },
    BoosterDumpModelEx { booster: usize, fmap: String, with_stats: i32, format: Config<'a> },
    BoosterGetAttr { booster: usize, key: String },
    BoosterSetAttr { booster: usize, key: String, value: String },
    BoosterGetAttrNames { booster: usize },
    BoosterSetStrFeatureInfo { booster: usize, field: String, features: Vec<String> },
    BoosterGetStrFeatureInfo { booster: usize, field: String },
}

/// What a `Call` hands to the C library, as values. The descriptions in buffers are given
/// without their terminators.
#[verifier::ext_equal]
pub enum Request {
    DMatrixFree { dmat: usize },
    ProxyDMatrixCreate,
    BoosterCreate { dmats: Seq<usize> },
    BoosterFree { booster: usize },
    BoosterReset { booster: usize },
    BoosterSetParam { booster: usize, name: Seq<char>, value: Seq<char> },
    BoosterGetNumFeature { booster: usize },
    BoosterUpdateOneIter { booster: usize, iteration: i32, dtrain: usize },
    BoosterTrainOneIter {
        booster: usize,
        dtrain: usize,
        iteration: i32,
        gradient: Seq<u8>,
        hessian: Seq<u8>,
    },
    BoosterEvalOneIter {
        booster: usize,
        iteration: i32,
        dmats: Seq<usize>,
        names: Seq<Seq<char>>,
    },
    BoosterPredictFromDMatrix { booster: usize, dmat: usize, config: Seq<char> },
    BoosterPredictFromDense {
        booster: usize,
        values: Seq<u8>,
        config: Seq<char>,
        proxy: usize,
    },
    BoosterPredictFromCSR {
        booster: usize,
        indptr: Seq<u8>,
        indices: Seq<u8>,
        data: Seq<u8>,
        num_cols: u64,
        config: Seq<char>,
        proxy: usize,
    },
    BoosterLoadModel { booster: usize, fname: Seq<char> },
    BoosterSaveModel { booster: usize, fname: Seq<char> },
    BoosterLoadModelFromBuffer { booster: usize, bytes: Seq<u8> },
    BoosterSaveModelToBuffer { booster: usize, config: Seq<char> },
    BoosterSerializeToBuffer { booster: usize },
    BoosterUnserializeFromBuffer { booster: usize, bytes: Seq<u8> },
    BoosterDumpModelEx { booster: usize, fmap: Seq<char>, with_stats: i32, format: Seq<char> },
    BoosterGetAttr { booster: usize, key: Seq<char> },
    BoosterSetAttr { booster: usize, key: Seq<char>, value: Seq<char> },
    BoosterGetAttrNames { booster: usize },
    BoosterSetStrFeatureInfo { booster: usize, field: Seq<char>, features: Seq<Seq<char>> },
    BoosterGetStrFeatureInfo { booster: usize, field: Seq<char> },
}

impl<'a> View for Call<'a> {
    type V = Request;

    open spec fn view(&self) -> Request {
        match *self {
            Call::DMatrixFree { dmat } => Request::DMatrixFree { dmat },
            Call::ProxyDMatrixCreate => Request::ProxyDMatrixCreate,
            Call::BoosterCreate { dmats } => Request::BoosterCreate { dmats: dmats@ },
            Call::BoosterFree { booster } => Request::BoosterFree { booster },
            Call::BoosterReset { booster } => Request::BoosterReset { booster },
            Call::BoosterSetParam { booster, name, value } => Request::BoosterSetParam {
                booster,
                name: name@,
                value: value@,
            },
            Call::BoosterGetNumFeature { booster } => Request::BoosterGetNumFeature { booster },
            Call::BoosterUpdateOneIter { booster, iteration, dtrain } =>
            Request::BoosterUpdateOneIter { booster, iteration, dtrain },
            Call::BoosterTrainOneIter { booster, dtrain, iteration, gradient, hessian } =>
            Request::BoosterTrainOneIter {
                booster,
                dtrain,
                iteration,
                gradient: gradient@,
                hessian: hessian@,
            },
            Call::BoosterEvalOneIter { booster, iteration, dmats, names } =>
            Request::BoosterEvalOneIter {
                booster,
                iteration,
                dmats: dmats@,
                names: views(names@),
            },
            Call::BoosterPredictFromDMatrix { booster, dmat, config } =>
            Request::BoosterPredictFromDMatrix { booster, dmat, config: config@ },
            Call::BoosterPredictFromDense { booster, values, config, proxy } =>
            Request::BoosterPredictFromDense {
                booster,
                values: values@,
                config: config@,
                proxy,
            },
            Call::BoosterPredictFromCSR {
                booster,
                indptr,
                indices,
                data,
                num_cols,
                config,
                proxy,
            } => Request::BoosterPredictFromCSR {
                booster,
                indptr: indptr@,
                indices: indices@,
                data: data@,
                num_cols,
                config: config@,
                proxy,
            },
            Call::BoosterLoadModel { booster, fname } => Request::BoosterLoadModel {
                booster,
                fname: fname@,
            },
            Call::BoosterSaveModel { booster, fname } => Request::BoosterSaveModel {
                booster,
                fname: fname@,
            },
            Call::BoosterLoadModelFromBuffer { booster, bytes } =>
            Request::BoosterLoadModelFromBuffer { booster, bytes: bytes@ },
            Call::BoosterSaveModelToBuffer { booster, config } =>
            Request::BoosterSaveModelToBuffer { booster, config: config@ },
            Call::BoosterSerializeToBuffer { booster } => Request::BoosterSerializeToBuffer {
                booster,
            },
            Call::BoosterUnserializeFromBuffer { booster, bytes } =>
            Request::BoosterUnserializeFromBuffer { booster, bytes: bytes@ },
            Call::BoosterDumpModelEx { booster, fmap, with_stats, format } =>
            Request::BoosterDumpModelEx { booster, fmap: fmap@, with_stats, format: format@ },
            Call::BoosterGetAttr { booster, key } => Request::BoosterGetAttr {
                booster,
                key: key@,
            },
            Call::BoosterSetAttr { booster, key, value } => Request::BoosterSetAttr {
                booster,
                key: key@,
                value: value@,
            },
            Call::BoosterGetAttrNames { booster } => Request::BoosterGetAttrNames { booster },
            Call::BoosterSetStrFeatureInfo { booster, field, features } =>
            Request::BoosterSetStrFeatureInfo {
                booster,
                field: field@,
                features: views(features@),
            },
            Call::BoosterGetStrFeatureInfo { booster, field } =>
            Request::BoosterGetStrFeatureInfo { booster, field: field@ },
        }
    }
}

/// What an operation wants next.
pub enum Step<'a, T> {
    /// A call whose reply goes back to the operation.
    Perform(Call<'a>),
    /// Nothing: this is what the operation gives.
    Finish(XGBResult<T>),
}

impl<'a, T> Step<'a, T> {
    /// The step is the call `r`.
    pub open spec fn performs(self, r: Request) -> bool {
        self matches Step::Perform(call) && call@ == r
    }

    /// The step is the end, with the failure `e`.
    pub open spec fn gives_error(self, e: XGBError) -> bool {
        self matches Step::Finish(Err(x)) && x == e
    }

    /// The step is the end, with a failure that says `message`.
    pub open spec fn fails(self, message: Seq<char>) -> bool {
        self matches Step::Finish(r) && fails_with(r, message)
    }
}

/// An operation of one call: it asks for `request`, and gives the reply.
pub open spec fn asks_once<T>(
    step: Step<'_, T>,
    request: Request,
    reply: Option<XGBResult<T>>,
) -> bool {
    match reply {
        None => step.performs(request),
        Some(r) => step == Step::<'_, T>::Finish(r),
    }
}

/// The step of an operation of one call.
pub(crate) fn ask_once<'a, T>(call: Call<'a>, reply: Option<XGBResult<T>>) -> (r: Step<'a, T>)
    ensures
        asks_once(r, call@, reply),
{
    match reply {
        None => Step::Perform(call),
        Some(result) => Step::Finish(result),
    }
}

/// An operation of one call asks for that call, and nothing else, and then gives the reply as it
/// came.
pub proof fn law_operations_of_one_call<T>(
    step: Step<'_, T>,
    request: Request,
    reply: Option<XGBResult<T>>,
)
    requires
        asks_once(step, request, reply),
    ensures
        match reply {
            None => step matches Step::Perform(call) && call@ == request,
            Some(r) => step == Step::<'_, T>::Finish(r),
        },
{
}

/// What a call hands to the C library is what it holds: every handle, number, text and list as it
/// is.
pub proof fn law_calls_hand_over_what_they_hold<'a>(call: Call<'a>)
    ensures
        match call {
            Call::DMatrixFree { dmat } => call@ == (Request::DMatrixFree { dmat }),
            Call::ProxyDMatrixCreate => call@ == Request::ProxyDMatrixCreate,
            Call::BoosterCreate { dmats } => call@ == (Request::BoosterCreate { dmats: dmats@ }),
            Call::BoosterFree { booster } => call@ == (Request::BoosterFree { booster }),
            Call::BoosterReset { booster } => call@ == (Request::BoosterReset { booster }),
            Call::BoosterSetParam { booster, name, value } => call@ == (Request::BoosterSetParam {
                booster,
                name: name@,
                value: value@,
            }),
            Call::BoosterGetNumFeature { booster } => call@ == (Request::BoosterGetNumFeature {
                booster,
            }),
            Call::BoosterUpdateOneIter { booster, iteration, dtrain } => call@ == (
            Request::BoosterUpdateOneIter { booster, iteration, dtrain }),
            Call::BoosterTrainOneIter { booster, dtrain, iteration, gradient, hessian } => call@
                == (Request::BoosterTrainOneIter {
                booster,
                dtrain,
                iteration,
                gradient: gradient@,
                hessian: hessian@,
            }),
            Call::BoosterEvalOneIter { booster, iteration, dmats, names } => call@ matches
                Request::BoosterEvalOneIter { booster: b, iteration: i, dmats: d, names: n } && b
                == booster && i == iteration && d == dmats@ && n.len() == names@.len()
                && forall|k: int| 0 <= k < n.len() ==> #[trigger] n[k] == names@[k]@,
            Call::BoosterPredictFromDMatrix { booster, dmat, config } => call@ == (
            Request::BoosterPredictFromDMatrix { booster, dmat, config: config@ }),
            Call::BoosterPredictFromDense { booster, values, config, proxy } => call@ == (
            Request::BoosterPredictFromDense {
                booster,
                values: values@,
                config: config@,
                proxy,
            }),
            Call::BoosterPredictFromCSR {
                booster,
                indptr,
                indices,
                data,
                num_cols,
                config,
                proxy,
            } => call@ == (Request::BoosterPredictFromCSR {
                booster,
                indptr: indptr@,
                indices: indices@,
                data: data@,
                num_cols,
                config: config@,
                proxy,
            }),
            Call::BoosterLoadModel { booster, fname } => call@ == (Request::BoosterLoadModel {
                booster,
                fname: fname@,
            }),
            Call::BoosterSaveModel { booster, fname } => call@ == (Request::BoosterSaveModel {
                booster,
                fname: fname@,
            }),
            Call::BoosterLoadModelFromBuffer { booster, bytes } => call@ == (
            Request::BoosterLoadModelFromBuffer { booster, bytes: bytes@ }),
            Call::BoosterSaveModelToBuffer { booster, config } => call@ == (
            Request::BoosterSaveModelToBuffer { booster, config: config@ }),
            Call::BoosterSerializeToBuffer { booster } => call@ == (
            Request::BoosterSerializeToBuffer { booster }),
            Call::BoosterUnserializeFromBuffer { booster, bytes } => call@ == (
            Request::BoosterUnserializeFromBuffer { booster, bytes: bytes@ }),
            Call::BoosterDumpModelEx { booster, fmap, with_stats, format } => call@ == (
            Request::BoosterDumpModelEx { booster, fmap: fmap@, with_stats, format: format@ }),
            Call::BoosterGetAttr { booster, key } => call@ == (Request::BoosterGetAttr {
                booster,
                key: key@,
            }),
            Call::BoosterSetAttr { booster, key, value } => call@ == (Request::BoosterSetAttr {
                booster,
                key: key@,
                value: value@,
            }),
            Call::BoosterGetAttrNames { booster } => call@ == (Request::BoosterGetAttrNames {
                booster,
            }),
            Call::BoosterSetStrFeatureInfo { booster, field, features } => call@ matches
                Request::BoosterSetStrFeatureInfo { booster: b, field: f, features: v } && b
                == booster && f == field@ && v.len() == features@.len() && forall|k: int|
                0 <= k < v.len() ==> #[trigger] v[k] == features@[k]@,
            Call::BoosterGetStrFeatureInfo { booster, field } => call@ == (
            Request::BoosterGetStrFeatureInfo { booster, field: field@ }),
        },
{
}

/// A step asks for a call, or ends with a failure, exactly if it is that.
pub proof fn law_steps_are_told_apart<T>(
    step: Step<'_, T>,
    request: Request,
    e: XGBError,
    message: Seq<char>,
)
    ensures
        step.performs(request) <==> step is Perform && step->Perform_0@ == request,
        step.gives_error(e) <==> step == Step::<'_, T>::Finish(Err(e)),
        step.fails(message) <==> step is Finish && step->Finish_0 is Err
            && step->Finish_0->Err_0.desc@ == message,
{
}

} // verus!
