//! Predictions: the calls they make, and the shapes of what comes back.

use crate::array_interface::{
    interface_1d, interface_2d, law_interface_fits, write_interface_1d, write_interface_2d,
    ARRAY_INTERFACE_BUF,
};
use crate::booster::{inplace_json, Booster, BoosterState};
use crate::call::{ask_once, asks_once, Call, Config, Request, Step};
use crate::cbuf::CBuf;
use crate::ctext::{has_nul, holds_nul, is_terminated, terminated, with_nul};
use crate::error::{XGBError, XGBResult};
use crate::matrix::{ArrayRef, DMatrix};
use crate::predict::PredictConfig;
use crate::predict_config;
use crate::text::{
    chars_of, decimal, joined_by, law_split_finds_pieces, lemma_decimal_without, push_decimal,
    split,
};
use vstd::prelude::*;
use vstd::slice::slice_to_vec;
use vstd::utf8::encode_utf8;

verus! {

broadcast use vstd::string::group_string_axioms;

/// How far an inplace prediction has come.
pub enum InplaceEvent<'r, T> {
    /// It begins.
    Start,
    /// The proxy matrix was asked for.
    Proxy(XGBResult<usize>),
    /// The prediction was made: the values and their shape.
    Predicted(XGBResult<(&'r [T], &'r [u64])>),
}

/// What is said of values that make no matrix of `num_rows` rows.
pub open spec fn bad_shape(len: nat, num_rows: nat) -> Seq<char> {
    "values length "@ + decimal(len) + " does not divide into num_rows "@ + decimal(num_rows)
}

/// The call of a dense inplace prediction.
pub open spec fn dense_request(
    state: BoosterState,
    values: ArrayRef,
    num_rows: usize,
    proxy: usize,
) -> Request {
    Request::BoosterPredictFromDense {
        booster: state.handle,
        values: encode_utf8(
            interface_2d(
                values.addr as nat,
                num_rows as nat,
                values.len as nat / num_rows as nat,
            ),
        ),
        config: state.config,
        proxy,
    }
}

/// `state` after the event, which may bring a proxy matrix.
pub open spec fn with_proxy<T>(state: BoosterState, event: InplaceEvent<'_, T>) -> BoosterState {
    match event {
        InplaceEvent::Proxy(Ok(proxy)) => BoosterState { proxy: Some(proxy), ..state },
        _ => state,
    }
}

/// What an inplace prediction whose call is `request` asks for: the proxy matrix if there is
/// none, then the prediction.
pub open spec fn inplace_asks<U, T>(
    step: Step<'_, U>,
    state: BoosterState,
    request: spec_fn(usize) -> Request,
    event: InplaceEvent<'_, T>,
) -> bool {
    match event {
        InplaceEvent::Start => match state.proxy {
            Some(proxy) => step.performs(request(proxy)),
            None => step.performs(Request::ProxyDMatrixCreate),
        },
        InplaceEvent::Proxy(Ok(proxy)) => step.performs(request(proxy)),
        InplaceEvent::Proxy(Err(e)) => step.gives_error(e),
        InplaceEvent::Predicted(_) => true,
    }
}

/// Values of this length make a matrix of `num_rows` rows.
pub open spec fn divides(len: usize, num_rows: usize) -> bool {
    num_rows > 0 && len as nat % num_rows as nat == 0
}

impl Booster {
    /// Dense inplace prediction on row-major values.
    pub fn inplace_predict_dense_raw<'a, 'r, T>(
        &'a mut self,
        values: ArrayRef,
        num_rows: usize,
        event: InplaceEvent<'r, T>,
    ) -> (r: Step<'a, (&'r [T], &'r [u64])>)
        requires
            event is Proxy ==> old(self)@.proxy is None,
        ensures
            !divides(values.len, num_rows) ==> r.fails(
                bad_shape(values.len as nat, num_rows as nat),
            ) && final(self)@ == old(self)@,
            divides(values.len, num_rows) ==> inplace_asks(
                r,
                old(self)@,
                |proxy: usize| dense_request(old(self)@, values, num_rows, proxy),
                event,
            ) && final(self)@ == with_proxy(old(self)@, event),
            divides(values.len, num_rows) ==> (event matches InplaceEvent::Predicted(reply) ==> r
                == Step::<'a, (&'r [T], &'r [u64])>::Finish(reply)),
    {
        if num_rows == 0 || values.len % num_rows != 0 {
            let mut message: String = "values length ".to_owned();
            push_decimal(&mut message, values.len as u64);
            message.append(" does not divide into num_rows ");
            push_decimal(&mut message, num_rows as u64);
            return Step::Finish(Err(XGBError::new(message)));
        }
        let proxy: usize = match event {
            InplaceEvent::Predicted(r) => {
                return Step::Finish(r);
            },
            InplaceEvent::Start => match self.inplace_proxy(None) {
                Step::Finish(Ok(proxy)) => proxy,
                Step::Finish(Err(e)) => {
                    return Step::Finish(Err(e));
                },
                Step::Perform(call) => {
                    return Step::Perform(call);
                },
            },
            InplaceEvent::Proxy(reply) => match self.inplace_proxy(Some(reply)) {
                Step::Finish(Ok(proxy)) => proxy,
                Step::Finish(Err(e)) => {
                    return Step::Finish(Err(e));
                },
                Step::Perform(call) => {
                    return Step::Perform(call);
                },
            },
        };
        let num_cols: usize = values.len / num_rows;
        let mut values_buf: CBuf<ARRAY_INTERFACE_BUF> = CBuf::new();
        proof {
            law_interface_fits(values.addr, num_rows, num_cols, Seq::empty());
        }
        write_interface_2d(&mut values_buf, values.addr, num_rows, num_cols);
        assert(values_buf@ =~= encode_utf8(
            interface_2d(values.addr as nat, num_rows as nat, num_cols as nat),
        ));
        Step::Perform(
            Call::BoosterPredictFromDense {
                booster: self.handle(),
                values: values_buf,
                config: Config::Borrowed(self.inplace_config()),
                proxy,
            },
        )
    }
}

/// The call of a sparse inplace prediction.
pub open spec fn csr_request(
    state: BoosterState,
    indptr: ArrayRef,
    indices: ArrayRef,
    data: ArrayRef,
    num_cols: usize,
    proxy: usize,
) -> Request {
    Request::BoosterPredictFromCSR {
        booster: state.handle,
        indptr: encode_utf8(interface_1d(indptr.addr as nat, indptr.len as nat, "<u8"@)),
        indices: encode_utf8(interface_1d(indices.addr as nat, indices.len as nat, "<u8"@)),
        data: encode_utf8(interface_1d(data.addr as nat, data.len as nat, "<f4"@)),
        num_cols: num_cols as u64,
        config: state.config,
        proxy,
    }
}

/// What is said of an operation that hands on copies of predicted values and their shape.
pub open spec fn copies<'r, T>(
    step: Step<'_, (Vec<T>, Vec<u64>)>,
    reply: XGBResult<(&'r [T], &'r [u64])>,
) -> bool {
    match reply {
        Ok((data, shape)) => step matches Step::Finish(Ok((values, dims))) && values@ == data@
            && dims@ == shape@,
        Err(e) => step.gives_error(e),
    }
}

/// What is said of an operation that writes predicted values over what `out` held. A failure
/// leaves `out` alone.
pub open spec fn overwrites<'r, T>(
    step: Step<'_, ()>,
    before: Seq<T>,
    after: Seq<T>,
    reply: XGBResult<(&'r [T], &'r [u64])>,
) -> bool {
    match reply {
        Ok((data, _)) => step == Step::<'_, ()>::Finish(Ok(())) && after == data@,
        Err(e) => step.gives_error(e) && after == before,
    }
}

/// Describes a one-dimensional array, in a buffer of its own.
fn describe(array: ArrayRef, typestr: &str) -> (r: CBuf<ARRAY_INTERFACE_BUF>)
    requires
        typestr@.len() == 3,
        vstd::utf8::is_ascii_chars(typestr@),
        !holds_nul(typestr@),
    ensures
        r@ == encode_utf8(interface_1d(array.addr as nat, array.len as nat, typestr@)),
{
    let mut buf: CBuf<ARRAY_INTERFACE_BUF> = CBuf::new();
    proof {
        law_interface_fits(array.addr, array.len, 0, typestr@);
    }
    write_interface_1d(&mut buf, array.addr, array.len, typestr);
    assert(buf@ =~= encode_utf8(interface_1d(array.addr as nat, array.len as nat, typestr@)));
    buf
}

/// Writes `data` over what `out` held.
fn overwrite<T: Copy>(out: &mut Vec<T>, data: &[T])
    ensures
        final(out)@ == data@,
{
    out.clear();
    let mut i: usize = 0;
    while i < data.len()
        invariant
            i <= data.len(),
            out@ == data@.take(i as int),
        decreases data.len() - i,
    {
        out.push(data[i]);
        assert(data@.take(i + 1) =~= data@.take(i as int).push(data@[i as int]));
        i = i + 1;
    }
    assert(data@.take(i as int) =~= data@);
}

impl Booster {
    /// Sparse inplace prediction, on a matrix in CSR form.
    pub fn inplace_predict_csr_raw<'a, 'r, T>(
        &'a mut self,
        indptr: ArrayRef,
        indices: ArrayRef,
        data: ArrayRef,
        num_cols: usize,
        event: InplaceEvent<'r, T>,
    ) -> (r: Step<'a, (&'r [T], &'r [u64])>)
        requires
            indices.len == data.len,
            event is Proxy ==> old(self)@.proxy is None,
        ensures
            inplace_asks(
                r,
                old(self)@,
                |proxy: usize| csr_request(old(self)@, indptr, indices, data, num_cols, proxy),
                event,
            ),
            event matches InplaceEvent::Predicted(reply) ==> r == Step::<
                'a,
                (&'r [T], &'r [u64]),
            >::Finish(reply),
            final(self)@ == with_proxy(old(self)@, event),
    {
        let proxy: usize = match event {
            InplaceEvent::Predicted(r) => {
                return Step::Finish(r);
            },
            InplaceEvent::Start => match self.inplace_proxy(None) {
                Step::Finish(Ok(proxy)) => proxy,
                Step::Finish(Err(e)) => {
                    return Step::Finish(Err(e));
                },
                Step::Perform(call) => {
                    return Step::Perform(call);
                },
            },
            InplaceEvent::Proxy(reply) => match self.inplace_proxy(Some(reply)) {
                Step::Finish(Ok(proxy)) => proxy,
                Step::Finish(Err(e)) => {
                    return Step::Finish(Err(e));
                },
                Step::Perform(call) => {
                    return Step::Perform(call);
                },
            },
        };
        proof {
            reveal_strlit("<u8");
            reveal_strlit("<f4");
        }
        Step::Perform(
            Call::BoosterPredictFromCSR {
                booster: self.handle(),
                indptr: describe(indptr, "<u8"),
                indices: describe(indices, "<u8"),
                data: describe(data, "<f4"),
                num_cols: num_cols as u64,
                config: Config::Borrowed(self.inplace_config()),
                proxy,
            },
        )
    }
}

/// The step that hands on copies of what was predicted.
fn copy_out<'a, 'r, T: Copy>(step: Step<'a, (&'r [T], &'r [u64])>) -> (r: Step<
    'a,
    (Vec<T>, Vec<u64>),
>)
    ensures
        match step {
            Step::Perform(call) => r == Step::<'a, (Vec<T>, Vec<u64>)>::Perform(call),
            Step::Finish(reply) => copies(r, reply),
        },
{
    match step {
        Step::Perform(call) => Step::Perform(call),
        Step::Finish(Ok((data, shape))) => Step::Finish(
            Ok((slice_to_vec(data), slice_to_vec(shape))),
        ),
        Step::Finish(Err(e)) => Step::Finish(Err(e)),
    }
}

/// The step that writes what was predicted over what `out` held.
fn copy_into<'a, 'r, T: Copy>(step: Step<'a, (&'r [T], &'r [u64])>, out: &mut Vec<T>) -> (r: Step<
    'a,
    (),
>)
    ensures
        match step {
            Step::Perform(call) => r == Step::<'a, ()>::Perform(call) && final(out)@ == old(out)@,
            Step::Finish(reply) => overwrites(r, old(out)@, final(out)@, reply),
        },
{
    match step {
        Step::Perform(call) => Step::Perform(call),
        Step::Finish(Ok((data, _shape))) => {
            overwrite(out, data);
            Step::Finish(Ok(()))
        },
        Step::Finish(Err(e)) => Step::Finish(Err(e)),
    }
}

impl Booster {
    /// Predicts directly from dense, row-major values without making a `DMatrix` first, and
    /// returns the predicted values and their shape.
    pub fn predict_from_dense<'a, 'r, T: Copy>(
        &'a mut self,
        values: ArrayRef,
        num_rows: usize,
        event: InplaceEvent<'r, T>,
    ) -> (r: Step<'a, (Vec<T>, Vec<u64>)>)
        requires
            event is Proxy ==> old(self)@.proxy is None,
        ensures
            !divides(values.len, num_rows) ==> r.fails(
                bad_shape(values.len as nat, num_rows as nat),
            ) && final(self)@ == old(self)@,
            divides(values.len, num_rows) ==> inplace_asks(
                r,
                old(self)@,
                |proxy: usize| dense_request(old(self)@, values, num_rows, proxy),
                event,
            ) && final(self)@ == with_proxy(old(self)@, event),
            divides(values.len, num_rows) ==> (event matches InplaceEvent::Predicted(reply)
                ==> copies(r, reply)),
    {
        copy_out(self.inplace_predict_dense_raw(values, num_rows, event))
    }

    /// Like `predict_from_dense`, but writes the predicted values over what `out` held.
    pub fn predict_from_dense_into<'a, 'r, T: Copy>(
        &'a mut self,
        values: ArrayRef,
        num_rows: usize,
        event: InplaceEvent<'r, T>,
        out: &mut Vec<T>,
    ) -> (r: Step<'a, ()>)
        requires
            event is Proxy ==> old(self)@.proxy is None,
        ensures
            !divides(values.len, num_rows) ==> r.fails(
                bad_shape(values.len as nat, num_rows as nat),
            ) && final(self)@ == old(self)@ && final(out)@ == old(out)@,
            divides(values.len, num_rows) ==> inplace_asks(
                r,
                old(self)@,
                |proxy: usize| dense_request(old(self)@, values, num_rows, proxy),
                event,
            ) && final(self)@ == with_proxy(old(self)@, event),
            divides(values.len, num_rows) ==> match event {
                InplaceEvent::Predicted(reply) => overwrites(r, old(out)@, final(out)@, reply),
                _ => final(out)@ == old(out)@,
            },
    {
        copy_into(self.inplace_predict_dense_raw(values, num_rows, event), out)
    }

    /// Predicts directly from a sparse matrix in CSR form without making a `DMatrix` first: the
    /// column indices of row _i_ are `indices[indptr[i]..indptr[i + 1]]`, with the values at the
    /// same positions in `data`.
    pub fn predict_from_csr<'a, 'r, T: Copy>(
        &'a mut self,
        indptr: ArrayRef,
        indices: ArrayRef,
        data: ArrayRef,
        num_cols: usize,
        event: InplaceEvent<'r, T>,
    ) -> (r: Step<'a, (Vec<T>, Vec<u64>)>)
        requires
            indices.len == data.len,
            event is Proxy ==> old(self)@.proxy is None,
        ensures
            inplace_asks(
                r,
                old(self)@,
                |proxy: usize| csr_request(old(self)@, indptr, indices, data, num_cols, proxy),
                event,
            ),
            event matches InplaceEvent::Predicted(reply) ==> copies(r, reply),
            final(self)@ == with_proxy(old(self)@, event),
    {
        copy_out(self.inplace_predict_csr_raw(indptr, indices, data, num_cols, event))
    }

    /// Like `predict_from_csr`, but writes the predicted values over what `out` held.
    pub fn predict_from_csr_into<'a, 'r, T: Copy>(
        &'a mut self,
        indptr: ArrayRef,
        indices: ArrayRef,
        data: ArrayRef,
        num_cols: usize,
        event: InplaceEvent<'r, T>,
        out: &mut Vec<T>,
    ) -> (r: Step<'a, ()>)
        requires
            indices.len == data.len,
            event is Proxy ==> old(self)@.proxy is None,
        ensures
            inplace_asks(
                r,
                old(self)@,
                |proxy: usize| csr_request(old(self)@, indptr, indices, data, num_cols, proxy),
                event,
            ),
            match event {
                InplaceEvent::Predicted(reply) => overwrites(r, old(out)@, final(out)@, reply),
                _ => final(out)@ == old(out)@,
            },
            final(self)@ == with_proxy(old(self)@, event),
    {
        copy_into(self.inplace_predict_csr_raw(indptr, indices, data, num_cols, event), out)
    }
}

/// The configuration that a caller's text becomes: a text that ends in its only NUL is taken
/// as it is, one without a NUL gets one, and others are refused.
pub open spec fn config_text(json: Seq<char>) -> Option<Seq<char>> {
    if is_terminated(json) {
        Some(json)
    } else if !holds_nul(json) {
        Some(terminated(json))
    } else {
        None
    }
}

/// Whether `s` ends in its only NUL.
fn ends_in_nul(s: &str) -> (r: bool)
    ensures
        r == is_terminated(s@),
{
    let chars: Vec<char> = chars_of(s);
    if chars.len() == 0 || chars[chars.len() - 1] != '\0' {
        return false;
    }
    let mut i: usize = 0;
    while i < chars.len() - 1
        invariant
            chars@ == s@,
            chars.len() > 0,
            i <= chars.len() - 1,
            forall|j: int| 0 <= j < i ==> s@[j] != '\0',
        decreases chars.len() - i,
    {
        if chars[i] == '\0' {
            assert(s@.drop_last()[i as int] == '\0');
            return false;
        }
        i = i + 1;
    }
    assert forall|j: int| 0 <= j < s@.drop_last().len() implies s@.drop_last()[j] != '\0' by {
        assert(s@[j] != '\0');
    }
    true
}

/// The configuration that a caller's text becomes.
fn make_config<'a>(json: &'a str) -> (r: Option<Config<'a>>)
    ensures
        match config_text(json@) {
            Some(text) => r matches Some(config) && config@ == text,
            None => r is None,
        },
{
    if ends_in_nul(json) {
        Some(Config::Borrowed(json))
    } else if has_nul(json) {
        None
    } else {
        Some(Config::Owned(with_nul(json)))
    }
}

/// The call of a prediction on a matrix.
pub open spec fn matrix_request(handle: usize, dmat: DMatrix, config: Seq<char>) -> Request {
    Request::BoosterPredictFromDMatrix { booster: handle, dmat: dmat.handle, config }
}

/// The step of a prediction that gives the values alone.
pub open spec fn predicts<'r, T>(
    step: Step<'_, Vec<T>>,
    request: Request,
    reply: Option<XGBResult<(&'r [T], &'r [u64])>>,
) -> bool {
    match reply {
        None => step.performs(request),
        Some(Ok((data, _))) => step matches Step::Finish(Ok(values)) && values@ == data@,
        Some(Err(e)) => step.gives_error(e),
    }
}

/// The step of a prediction that writes the values over what `out` held.
pub open spec fn predicts_into<'r, T>(
    step: Step<'_, ()>,
    request: Request,
    before: Seq<T>,
    after: Seq<T>,
    reply: Option<XGBResult<(&'r [T], &'r [u64])>>,
) -> bool {
    match reply {
        None => step.performs(request) && after == before,
        Some(r) => overwrites(step, before, after, r),
    }
}

impl Booster {
    /// Predicts with a configuration of the caller's, preferably made by
    /// `PredictConfig::as_json`. Returns the predicted values and their shape.
    pub fn predict_matrix<'a, 'r, T: Copy>(
        &self,
        dmat: &DMatrix,
        config_json: &'a str,
        reply: Option<XGBResult<(&'r [T], &'r [u64])>>,
    ) -> (r: Step<'a, (Vec<T>, Vec<u64>)>)
        ensures
            match config_text(config_json@) {
                None => r.fails("config_json contains an interior NUL byte"@),
                Some(config) => match reply {
                    None => r.performs(matrix_request(self@.handle, *dmat, config)),
                    Some(reply) => copies(r, reply),
                },
            },
    {
        match make_config(config_json) {
            Some(config) => copy_out(self.predict_raw(dmat, config, reply)),
            None => Step::Finish(
                Err(XGBError::new("config_json contains an interior NUL byte".to_owned())),
            ),
        }
    }

    /// Core prediction on a matrix: the predicted values and their shape, which are only valid
    /// until the next prediction.
    pub fn predict_raw<'a, 'r, T>(
        &self,
        dmat: &DMatrix,
        config: Config<'a>,
        reply: Option<XGBResult<(&'r [T], &'r [u64])>>,
    ) -> (r: Step<'a, (&'r [T], &'r [u64])>)
        ensures
            asks_once(r, matrix_request(self@.handle, *dmat, config@), reply),
    {
        ask_once(
            Call::BoosterPredictFromDMatrix { booster: self.handle(), dmat: dmat.handle, config },
            reply,
        )
    }

    /// Predicts results for the given data: one entry per row for single-output models,
    /// `num_rows * n_outputs` entries in row-major order for the others.
    pub fn predict<'r, T: Copy>(
        &self,
        dmat: &DMatrix,
        reply: Option<XGBResult<(&'r [T], &'r [u64])>>,
    ) -> (r: Step<'static, Vec<T>>)
        ensures
            predicts(r, matrix_request(self@.handle, *dmat, predict_config::NORMAL@), reply),
    {
        values_out(self.predict_borrowed(dmat, reply))
    }

    /// Like `predict`, but writes the predicted values over what `out` held.
    pub fn predict_into<'r, T: Copy>(
        &self,
        dmat: &DMatrix,
        reply: Option<XGBResult<(&'r [T], &'r [u64])>>,
        out: &mut Vec<T>,
    ) -> (r: Step<'static, ()>)
        ensures
            predicts_into(
                r,
                matrix_request(self@.handle, *dmat, predict_config::NORMAL@),
                old(out)@,
                final(out)@,
                reply,
            ),
    {
        copy_into(self.predict_borrowed(dmat, reply), out)
    }

    /// Normal prediction, without a copy.
    pub fn predict_borrowed<'r, T>(
        &self,
        dmat: &DMatrix,
        reply: Option<XGBResult<(&'r [T], &'r [u64])>>,
    ) -> (r: Step<'static, (&'r [T], &'r [u64])>)
        ensures
            asks_once(r, matrix_request(self@.handle, *dmat, predict_config::NORMAL@), reply),
    {
        self.predict_raw(dmat, Config::Borrowed(predict_config::NORMAL), reply)
    }

    /// Predicts margins for the given data.
    pub fn predict_margin<'r, T: Copy>(
        &self,
        dmat: &DMatrix,
        reply: Option<XGBResult<(&'r [T], &'r [u64])>>,
    ) -> (r: Step<'static, Vec<T>>)
        ensures
            predicts(r, matrix_request(self@.handle, *dmat, predict_config::MARGIN@), reply),
    {
        values_out(self.predict_margin_borrowed(dmat, reply))
    }

    /// Like `predict_margin`, but writes the margins over what `out` held.
    pub fn predict_margin_into<'r, T: Copy>(
        &self,
        dmat: &DMatrix,
        reply: Option<XGBResult<(&'r [T], &'r [u64])>>,
        out: &mut Vec<T>,
    ) -> (r: Step<'static, ()>)
        ensures
            predicts_into(
                r,
                matrix_request(self@.handle, *dmat, predict_config::MARGIN@),
                old(out)@,
                final(out)@,
                reply,
            ),
    {
        copy_into(self.predict_margin_borrowed(dmat, reply), out)
    }

    /// Margin prediction, without a copy.
    pub fn predict_margin_borrowed<'r, T>(
        &self,
        dmat: &DMatrix,
        reply: Option<XGBResult<(&'r [T], &'r [u64])>>,
    ) -> (r: Step<'static, (&'r [T], &'r [u64])>)
        ensures
            asks_once(r, matrix_request(self@.handle, *dmat, predict_config::MARGIN@), reply),
    {
        self.predict_raw(dmat, Config::Borrowed(predict_config::MARGIN), reply)
    }
}

/// The step that hands on a copy of the predicted values.
fn values_out<'a, 'r, T: Copy>(step: Step<'a, (&'r [T], &'r [u64])>) -> (r: Step<'a, Vec<T>>)
    ensures
        match step {
            Step::Perform(call) => r == Step::<'a, Vec<T>>::Perform(call),
            Step::Finish(Ok((data, _))) => r matches Step::Finish(Ok(values)) && values@ == data@,
            Step::Finish(Err(e)) => r.gives_error(e),
        },
{
    match step {
        Step::Perform(call) => Step::Perform(call),
        Step::Finish(Ok((data, _shape))) => Step::Finish(Ok(slice_to_vec(data))),
        Step::Finish(Err(e)) => Step::Finish(Err(e)),
    }
}

/// Every value is in the matrix: nothing is left over, and nothing is read beyond the end.
pub proof fn law_dense_matrix_covers_values(len: usize, num_rows: usize)
    requires
        divides(len, num_rows),
    ensures
        num_rows as nat * (len as nat / num_rows as nat) == len,
{
    vstd::arithmetic::div_mod::lemma_fundamental_div_mod(len as int, num_rows as int);
}

/// A configuration made by `as_json` is taken as it is.
pub proof fn law_as_json_is_taken_as_it_is(config: PredictConfig)
    ensures
        config_text(config.json().push('\0')) == Some(config.json().push('\0')),
{
    crate::predict::lemma_json_nul(config);
    assert(config.json().push('\0').drop_last() =~= config.json());
}

/// Predicting into a buffer leaves in it, whatever it held, what predicting returns.
pub proof fn law_into_matches_owned<'r, T>(
    owned: Step<'_, Vec<T>>,
    into: Step<'_, ()>,
    request: Request,
    before: Seq<T>,
    after: Seq<T>,
    data: &'r [T],
    shape: &'r [u64],
)
    requires
        predicts(owned, request, Some(Ok((data, shape)))),
        predicts_into(into, request, before, after, Some(Ok((data, shape)))),
    ensures
        owned matches Step::Finish(Ok(values)) && values@ == after,
        into == Step::<'_, ()>::Finish(Ok(())),
{
}

/// The proxy matrix is made once: when it has come, a prediction begins with its own call, on
/// that matrix, and nothing else about the booster has changed.
pub proof fn law_proxy_is_reused<U, T>(
    step: Step<'_, U>,
    state: BoosterState,
    proxy: usize,
    request: spec_fn(usize) -> Request,
)
    requires
        inplace_asks(
            step,
            with_proxy(state, InplaceEvent::<'_, T>::Proxy(Ok(proxy))),
            request,
            InplaceEvent::<'_, T>::Start,
        ),
    ensures
        step.performs(request(proxy)),
        with_proxy(state, InplaceEvent::<'_, T>::Proxy(Ok(proxy))) == (BoosterState {
            proxy: Some(proxy),
            ..state
        }),
{
}

/// Predicting inplace into a buffer leaves in it, whatever it held, what predicting inplace
/// returns.
pub proof fn law_inplace_into_matches_owned<'r, T>(
    owned: Step<'_, (Vec<T>, Vec<u64>)>,
    into: Step<'_, ()>,
    before: Seq<T>,
    after: Seq<T>,
    data: &'r [T],
    shape: &'r [u64],
)
    requires
        copies(owned, Ok((data, shape))),
        overwrites(into, before, after, Ok((data, shape))),
    ensures
        owned matches Step::Finish(Ok((values, dims))) && values@ == after && dims@ == shape@,
        into == Step::<'_, ()>::Finish(Ok(())),
{
}

/// A missing value of the caller's reaches every inplace prediction, and none on a matrix.
pub proof fn law_missing_value_is_for_inplace_predictions(
    state: BoosterState,
    missing: Seq<char>,
    values: ArrayRef,
    num_rows: usize,
    indptr: ArrayRef,
    indices: ArrayRef,
    data: ArrayRef,
    num_cols: usize,
    proxy: usize,
    dmat: DMatrix,
    config: Seq<char>,
)
    ensures
        ({
            let set = BoosterState { config: terminated(inplace_json(missing)), ..state };
            &&& dense_request(set, values, num_rows, proxy)->BoosterPredictFromDense_config
                == terminated(inplace_json(missing))
            &&& csr_request(
                set,
                indptr,
                indices,
                data,
                num_cols,
                proxy,
            )->BoosterPredictFromCSR_config == terminated(inplace_json(missing))
            &&& matrix_request(set.handle, dmat, config) == matrix_request(
                state.handle,
                dmat,
                config,
            )
        }),
{
}

/// The call of a sparse inplace prediction has the caller's number of columns, whatever the
/// lengths of the arrays are, each array described by its own address and length, and the
/// booster, its configuration and the proxy as they are.
pub proof fn law_sparse_call_tells_the_matrix(
    state: BoosterState,
    indptr: ArrayRef,
    indices: ArrayRef,
    data: ArrayRef,
    num_cols: usize,
    proxy: usize,
)
    ensures
        csr_request(state, indptr, indices, data, num_cols, proxy) matches
            Request::BoosterPredictFromCSR {
            booster,
            indptr: row_starts,
            indices: columns,
            data: values,
            num_cols: width,
            config,
            proxy: matrix,
        } && width == num_cols && booster == state.handle && config == state.config && matrix
            == proxy && row_starts == encode_utf8(
            interface_1d(indptr.addr as nat, indptr.len as nat, "<u8"@),
        ) && columns == encode_utf8(
            interface_1d(indices.addr as nat, indices.len as nat, "<u8"@),
        ) && values == encode_utf8(interface_1d(data.addr as nat, data.len as nat, "<f4"@)),
{
}

/// The call of a dense inplace prediction describes `rows * cols` values as a matrix of that
/// many rows and columns, at their address, and has the booster, its configuration and the proxy
/// as they are.
pub proof fn law_dense_call_tells_the_matrix(
    state: BoosterState,
    values: ArrayRef,
    num_rows: usize,
    num_cols: nat,
    proxy: usize,
)
    requires
        num_rows > 0,
        values.len == num_rows * num_cols,
    ensures
        divides(values.len, num_rows),
        dense_request(state, values, num_rows, proxy) matches Request::BoosterPredictFromDense {
            booster,
            values: matrix,
            config,
            proxy: p,
        } && booster == state.handle && config == state.config && p == proxy && matrix
            == encode_utf8(interface_2d(values.addr as nat, num_rows as nat, num_cols)),
{
    let rows = num_rows as int;
    vstd::arithmetic::div_mod::lemma_mod_multiples_basic(num_cols as int, rows);
    vstd::arithmetic::div_mod::lemma_div_by_multiple(num_cols as int, rows);
    assert(rows * num_cols == num_cols * rows) by (nonlinear_arith);
}

/// Values make a matrix exactly if there are rows, and as many values in each.
pub proof fn law_values_make_a_matrix(len: usize, num_rows: usize)
    ensures
        divides(len, num_rows) <==> num_rows > 0 && exists|cols: nat|
            len == #[trigger] (num_rows as nat * cols),
{
    if divides(len, num_rows) {
        law_dense_matrix_covers_values(len, num_rows);
    }
    if num_rows > 0 && exists|cols: nat| len == #[trigger] (num_rows as nat * cols) {
        let cols = choose|cols: nat| len == #[trigger] (num_rows as nat * cols);
        let rows = num_rows as int;
        vstd::arithmetic::div_mod::lemma_mod_multiples_basic(cols as int, rows);
        assert(rows * cols == cols * rows) by (nonlinear_arith);
    }
}

/// The complaint about values that make no matrix tells both numbers.
pub proof fn law_bad_shape_tells_both(len: nat, num_rows: nat)
    ensures
        ({
            let head = "values length "@;
            let text = bad_shape(len, num_rows);
            &&& text.take(head.len() as int) == head
            &&& split(text.skip(head.len() as int), ' ') == seq![
                decimal(len),
                "does"@,
                "not"@,
                "divide"@,
                "into"@,
                "num_rows"@,
                decimal(num_rows),
            ]
        }),
{
    let head = "values length "@;
    let text = bad_shape(len, num_rows);
    reveal_strlit(" does not divide into num_rows ");
    reveal_strlit("does");
    reveal_strlit("not");
    reveal_strlit("divide");
    reveal_strlit("into");
    reveal_strlit("num_rows");
    lemma_decimal_without(len as int, ' ');
    lemma_decimal_without(num_rows as int, ' ');
    let f = seq![
        decimal(len),
        "does"@,
        "not"@,
        "divide"@,
        "into"@,
        "num_rows"@,
        decimal(num_rows),
    ];
    let f1 = f.drop_last();
    let f2 = f1.drop_last();
    let f3 = f2.drop_last();
    let f4 = f3.drop_last();
    let f5 = f4.drop_last();
    let f6 = f5.drop_last();
    assert(joined_by(f6, ' ') == f[0]);
    assert(joined_by(f5, ' ') == f[0] + seq![' '] + f[1]);
    assert(joined_by(f4, ' ') == joined_by(f5, ' ') + seq![' '] + f[2]);
    assert(joined_by(f3, ' ') == joined_by(f4, ' ') + seq![' '] + f[3]);
    assert(joined_by(f2, ' ') == joined_by(f3, ' ') + seq![' '] + f[4]);
    assert(joined_by(f1, ' ') == joined_by(f2, ' ') + seq![' '] + f[5]);
    assert(text.take(head.len() as int) =~= head);
    assert(text.skip(head.len() as int) =~= joined_by(f, ' '));
    law_split_finds_pieces(f, ' ');
}

/// An inplace prediction asks for the proxy matrix exactly if there is none yet, and for the
/// prediction on it when it is there; a proxy that could not be made ends it. Only a proxy that
/// came changes the booster, and nothing of it but the proxy.
pub proof fn law_course_of_an_inplace_prediction<U, T>(
    step: Step<'_, U>,
    state: BoosterState,
    request: spec_fn(usize) -> Request,
    event: InplaceEvent<'_, T>,
)
    requires
        inplace_asks(step, state, request, event),
    ensures
        match event {
            InplaceEvent::Start => if state.proxy is None {
                step.performs(Request::ProxyDMatrixCreate)
            } else {
                step.performs(request(state.proxy->0))
            },
            InplaceEvent::Proxy(Ok(proxy)) => step.performs(request(proxy)) && with_proxy(
                state,
                event,
            ).proxy == Some(proxy),
            InplaceEvent::Proxy(Err(e)) => step.gives_error(e),
            InplaceEvent::Predicted(_) => true,
        },
        !(event matches InplaceEvent::Proxy(Ok(_))) ==> with_proxy(state, event) == state,
        with_proxy(state, event).handle == state.handle,
        with_proxy(state, event).config == state.config,
{
}

/// What the C library predicted is handed on as it is, values and shape, and so is a failure,
/// which leaves a buffer as it was.
pub proof fn law_predictions_are_handed_on<'r, T>(
    owned: Step<'_, (Vec<T>, Vec<u64>)>,
    values: Step<'_, Vec<T>>,
    into: Step<'_, ()>,
    request: Request,
    before: Seq<T>,
    after: Seq<T>,
    reply: XGBResult<(&'r [T], &'r [u64])>,
)
    requires
        copies(owned, reply),
        predicts(values, request, Some(reply)),
        overwrites(into, before, after, reply),
    ensures
        match reply {
            Ok((data, shape)) => (owned matches Step::Finish(Ok((v, dims))) && v@ == data@ && dims@
                == shape@) && (values matches Step::Finish(Ok(v)) && v@ == data@) && (into
                == Step::<'_, ()>::Finish(Ok(()))) && after == data@,
            Err(e) => owned.gives_error(e) && values.gives_error(e) && into.gives_error(e) && after
                == before,
        },
{
}

/// A prediction begins with its call, and leaves a buffer as it was until the reply is there.
pub proof fn law_predictions_begin_with_the_call<T>(
    values: Step<'_, Vec<T>>,
    into: Step<'_, ()>,
    handle: usize,
    dmat: DMatrix,
    config: Seq<char>,
    before: Seq<T>,
    after: Seq<T>,
)
    requires
        predicts(values, matrix_request(handle, dmat, config), None),
        predicts_into(into, matrix_request(handle, dmat, config), before, after, None),
    ensures
        ({
            let call = Request::BoosterPredictFromDMatrix {
                booster: handle,
                dmat: dmat.handle,
                config,
            };
            values.performs(call) && into.performs(call)
        }),
        after == before,
{
}

/// A configuration of the caller's is refused exactly if a NUL stands anywhere but at its end.
/// Otherwise what is handed over ends in its only NUL, and is the caller's text, to which the NUL
/// was added exactly if it was not there.
pub proof fn law_configurations_are_terminated(json: Seq<char>)
    ensures
        config_text(json) is None <==> exists|i: int| 0 <= i < json.len() - 1 && json[i] == '\0',
        config_text(json) matches Some(text) ==> is_terminated(text) && (text == json || text
            == json + seq!['\0']),
        !json.contains('\0') ==> config_text(json) == Some(json + seq!['\0']) && config_text(
            json + seq!['\0'],
        ) == Some(json + seq!['\0']),
{
    assert(json.push('\0') =~= json + seq!['\0']);
    assert(json.push('\0').drop_last() =~= json);
    if exists|i: int| 0 <= i < json.len() - 1 && json[i] == '\0' {
        let i = choose|i: int| 0 <= i < json.len() - 1 && json[i] == '\0';
        assert(json.contains(json[i]));
        assert(json.drop_last()[i] == '\0');
        assert(json.drop_last().contains(json.drop_last()[i]));
    } else if json.contains('\0') {
        let i = choose|i: int| 0 <= i < json.len() && json[i] == '\0';
        assert(i == json.len() - 1);
        assert forall|k: int| 0 <= k < json.drop_last().len() implies json.drop_last()[k]
            != '\0' by {
            assert(json[k] != '\0');
        }
    }
}

} // verus!
