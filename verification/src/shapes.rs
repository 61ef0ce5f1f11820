//! Shapes: how many values a prediction has, and how they lie.

use crate::booster::Booster;
use crate::call::{Config, Request, Step};
use crate::error::XGBResult;
use crate::matrix::DMatrix;
use crate::predict_config;
use crate::prediction::matrix_request;
use vstd::prelude::*;
use vstd::slice::slice_to_vec;

verus! {

/// The number of values that a shape holds.
pub open spec fn shape_size(shape: Seq<u64>) -> nat
    decreases shape.len(),
{
    if shape.len() == 0 {
        1
    } else {
        shape_size(shape.drop_last()) * shape.last() as nat
    }
}

/// The C library's output can be taken: its size can be computed, dimension by dimension, and
/// is an address-space size; and values are there, unless there are none.
pub open spec fn sound_output(shape: Seq<u64>, has_data: bool) -> bool {
    &&& forall|i: int| 0 <= i <= shape.len() ==> shape_size(#[trigger] shape.take(i)) <= u64::MAX
    &&& shape_size(shape) <= usize::MAX
    &&& !has_data ==> shape_size(shape) == 0
}

/// The product of the dimensions, if it can be computed dimension by dimension.
fn checked_size(shape: &[u64]) -> (r: Option<u64>)
    ensures
        match r {
            Some(n) => n == shape_size(shape@) && forall|i: int|
                0 <= i <= shape@.len() ==> shape_size(#[trigger] shape@.take(i)) <= u64::MAX,
            None => exists|i: int|
                0 <= i <= shape@.len() && shape_size(#[trigger] shape@.take(i)) > u64::MAX,
        },
{
    let mut size: u64 = 1;
    let mut i: usize = 0;
    assert(shape@.take(0) =~= Seq::<u64>::empty());
    while i < shape.len()
        invariant
            i <= shape.len(),
            size == shape_size(shape@.take(i as int)),
            forall|k: int| 0 <= k <= i ==> shape_size(#[trigger] shape@.take(k)) <= u64::MAX,
        decreases shape.len() - i,
    {
        assert(shape@.take(i + 1).drop_last() =~= shape@.take(i as int));
        assert(shape_size(shape@.take(i + 1)) == size * shape@[i as int]);
        match size.checked_mul(shape[i]) {
            Some(n) => {
                size = n;
            },
            None => {
                return None;
            },
        }
        i = i + 1;
    }
    assert(shape@.take(i as int) =~= shape@);
    Some(size)
}

/// Whether the C library's output can be taken.
pub fn is_sound_output(shape: &[u64], has_data: bool) -> (r: bool)
    ensures
        r == sound_output(shape@, has_data),
{
    match checked_size(shape) {
        Some(n) => n <= usize::MAX as u64 && (has_data || n == 0),
        None => false,
    }
}

/// The number of predicted values behind the pointer that the C library hands back. `has_data`
/// is false where that pointer is null, as it is for an empty prediction.
pub fn predict_output_len(shape: &[u64], has_data: bool) -> (r: usize)
    requires
        sound_output(shape@, has_data),
    ensures
        r == shape_size(shape@),
{
    checked_size(shape).unwrap() as usize
}

/// How many values each of `num_rows` rows has; none where there are no rows.
pub open spec fn per_row(len: nat, num_rows: nat) -> nat {
    if num_rows == 0 {
        0
    } else {
        len / num_rows
    }
}

/// The last dimension of a shape that has at least `dims` of them.
pub open spec fn last_dim(shape: Seq<u64>, dims: nat) -> Option<usize> {
    if 0 < dims <= shape.len() && shape.last() <= usize::MAX {
        Some(shape.last() as usize)
    } else {
        None
    }
}

/// The number of columns of the contributions in each row: the last dimension of the reply's
/// shape, which has one before it for the outputs where there are several. A shape that does
/// not tell leaves the number of values per row.
pub open spec fn contribution_cols(shape: Seq<u64>, len: nat, num_rows: nat) -> nat {
    match last_dim(shape, 2) {
        Some(cols) => cols as nat,
        None => per_row(len, num_rows),
    }
}

/// The side of the squares of interactions: the last dimension of the reply's shape, in which
/// there is one for the outputs where there are several. A shape that does not tell leaves the
/// side of a row that is one square.
pub open spec fn interaction_side(side: nat, shape: Seq<u64>, len: nat, num_rows: nat) -> bool {
    match last_dim(shape, 3) {
        Some(dim) => side == dim,
        None => is_root(side, per_row(len, num_rows)),
    }
}

/// `root` is the square root of `n`, rounded down.
pub open spec fn is_root(root: nat, n: nat) -> bool {
    root * root <= n < (root + 1) * (root + 1)
}

fn values_per_row(len: usize, num_rows: usize) -> (r: usize)
    ensures
        r == per_row(len as nat, num_rows as nat),
{
    if num_rows == 0 {
        0
    } else {
        len / num_rows
    }
}

/// The last dimension of a shape that has at least `dims` of them.
fn last_dimension(shape: &[u64], dims: usize) -> (r: Option<usize>)
    requires
        dims > 0,
    ensures
        r == last_dim(shape@, dims as nat),
{
    if shape.len() < dims {
        return None;
    }
    let last: u64 = shape[shape.len() - 1];
    if last <= usize::MAX as u64 {
        Some(last as usize)
    } else {
        None
    }
}

/// The square root, rounded down.
fn square_root(n: usize) -> (r: usize)
    ensures
        is_root(r as nat, n as nat),
{
    let target: u64 = n as u64;
    let mut low: u64 = 0;
    let mut high: u64 = 0x1_0000_0000;
    assert(0x1_0000_0000int * 0x1_0000_0000int > n) by (nonlinear_arith)
        requires
            n <= 0xffff_ffff_ffff_ffff,
    ;
    while high - low > 1
        invariant
            low < high <= 0x1_0000_0000,
            low * low <= target,
            target < high * high,
        decreases high - low,
    {
        let mid: u64 = low + (high - low) / 2;
        assert(mid * mid <= 0xffff_ffffu64 * 0xffff_ffffu64) by (nonlinear_arith)
            requires
                mid <= 0xffff_ffffu64,
        ;
        if mid * mid <= target {
            low = mid;
        } else {
            high = mid;
        }
    }
    assert(low <= n) by (nonlinear_arith)
        requires
            low * low <= n,
    ;
    low as usize
}

/// The step of a prediction that gives the values as a matrix of `dmat`'s rows.
pub open spec fn predicts_rows<'r, T>(
    step: Step<'_, (Vec<T>, (usize, usize))>,
    request: Request,
    dmat: DMatrix,
    reply: Option<XGBResult<(&'r [T], &'r [u64])>>,
) -> bool {
    match reply {
        None => step.performs(request),
        Some(Ok((data, _))) => step matches Step::Finish(Ok((values, (rows, cols)))) && values@
            == data@ && rows == dmat.num_rows && cols == per_row(data@.len(), rows as nat),
        Some(Err(e)) => step.gives_error(e),
    }
}

impl Booster {
    /// Predicts the leaf index of each sample in each tree, as an array of shape (number of
    /// samples, number of trees).
    pub fn predict_leaf<'r, T: Copy>(
        &self,
        dmat: &DMatrix,
        reply: Option<XGBResult<(&'r [T], &'r [u64])>>,
    ) -> (r: Step<'static, (Vec<T>, (usize, usize))>)
        ensures
            predicts_rows(
                r,
                matrix_request(self@.handle, *dmat, predict_config::LEAF@),
                *dmat,
                reply,
            ),
    {
        rows_out(self.predict_raw(dmat, Config::Borrowed(predict_config::LEAF), reply), dmat)
    }

    /// Gets feature contributions (SHAP values), as an array of shape (number of samples, number
    /// of features + 1). The last column is the bias. A model with several outputs has as many
    /// such arrays, one after the other within each sample.
    pub fn predict_contributions<'r, T: Copy>(
        &self,
        dmat: &DMatrix,
        reply: Option<XGBResult<(&'r [T], &'r [u64])>>,
    ) -> (r: Step<'static, (Vec<T>, (usize, usize))>)
        ensures
            match reply {
                None => r.performs(
                    matrix_request(self@.handle, *dmat, predict_config::CONTRIBUTIONS@),
                ),
                Some(Ok((data, shape))) => r matches Step::Finish(Ok((values, (rows, cols))))
                    && values@ == data@ && rows == dmat.num_rows && cols == contribution_cols(
                    shape@,
                    data@.len(),
                    rows as nat,
                ),
                Some(Err(e)) => r.gives_error(e),
            },
    {
        match self.predict_raw(dmat, Config::Borrowed(predict_config::CONTRIBUTIONS), reply) {
            Step::Perform(call) => Step::Perform(call),
            Step::Finish(Ok((data, shape))) => {
                let rows: usize = dmat.num_rows;
                let cols: usize = match last_dimension(shape, 2) {
                    Some(cols) => cols,
                    None => values_per_row(data.len(), rows),
                };
                Step::Finish(Ok((slice_to_vec(data), (rows, cols))))
            },
            Step::Finish(Err(e)) => Step::Finish(Err(e)),
        }
    }

    /// Gets SHAP interaction values for each pair of features, as an array of shape (number of
    /// samples, number of features + 1, number of features + 1). The last row and column are
    /// the bias terms. A model with several outputs has as many such squares in each sample.
    pub fn predict_interactions<'r, T: Copy>(
        &self,
        dmat: &DMatrix,
        reply: Option<XGBResult<(&'r [T], &'r [u64])>>,
    ) -> (r: Step<'static, (Vec<T>, (usize, usize, usize))>)
        ensures
            match reply {
                None => r.performs(
                    matrix_request(self@.handle, *dmat, predict_config::INTERACTIONS@),
                ),
                Some(Ok((data, shape))) => r matches Step::Finish(Ok((values, (rows, dim, other))))
                    && values@ == data@ && rows == dmat.num_rows && interaction_side(
                    dim as nat,
                    shape@,
                    data@.len(),
                    rows as nat,
                ) && other == dim,
                Some(Err(e)) => r.gives_error(e),
            },
    {
        match self.predict_raw(dmat, Config::Borrowed(predict_config::INTERACTIONS), reply) {
            Step::Perform(call) => Step::Perform(call),
            Step::Finish(Ok((data, shape))) => {
                let rows: usize = dmat.num_rows;
                let dim: usize = match last_dimension(shape, 3) {
                    Some(dim) => dim,
                    None => square_root(values_per_row(data.len(), rows)),
                };
                Step::Finish(Ok((slice_to_vec(data), (rows, dim, dim))))
            },
            Step::Finish(Err(e)) => Step::Finish(Err(e)),
        }
    }
}

/// The step that hands on a copy of the predicted values, as a matrix of `dmat`'s rows.
fn rows_out<'a, 'r, T: Copy>(step: Step<'a, (&'r [T], &'r [u64])>, dmat: &DMatrix) -> (r: Step<
    'a,
    (Vec<T>, (usize, usize)),
>)
    ensures
        match step {
            Step::Perform(call) => r == Step::<'a, (Vec<T>, (usize, usize))>::Perform(call),
            Step::Finish(Ok((data, _))) => r matches Step::Finish(Ok((values, (rows, cols))))
                && values@ == data@ && rows == dmat.num_rows && cols == per_row(
                data@.len(),
                rows as nat,
            ),
            Step::Finish(Err(e)) => r.gives_error(e),
        },
{
    match step {
        Step::Perform(call) => Step::Perform(call),
        Step::Finish(Ok((data, _shape))) => {
            let rows: usize = dmat.num_rows;
            let cols: usize = values_per_row(data.len(), rows);
            Step::Finish(Ok((slice_to_vec(data), (rows, cols))))
        },
        Step::Finish(Err(e)) => Step::Finish(Err(e)),
    }
}

/// Rows of `cols` values each are told to have `cols` values.
pub proof fn law_columns_of_full_rows(num_rows: nat, cols: nat)
    requires
        num_rows > 0,
    ensures
        per_row(num_rows * cols, num_rows) == cols,
{
    vstd::arithmetic::div_mod::lemma_div_multiples_vanish(cols as int, num_rows as int);
}

/// Rows that are squares of side `dim` are told to have that side, and no other.
pub proof fn law_side_of_square_rows(num_rows: nat, dim: nat, root: nat)
    requires
        num_rows > 0,
    ensures
        is_root(root, per_row(num_rows * (dim * dim), num_rows)) <==> root == dim,
{
    law_columns_of_full_rows(num_rows, dim * dim);
    assert(dim * dim < (dim + 1) * (dim + 1)) by (nonlinear_arith);
    if is_root(root, dim * dim) {
        assert(root == dim) by (nonlinear_arith)
            requires
                root * root <= dim * dim,
                dim * dim < (root + 1) * (root + 1),
        ;
    }
}

/// Contributions have a column per feature and one for the bias, however many outputs the model
/// has and however many samples there are.
pub proof fn law_contributions_have_a_column_per_feature(
    num_rows: u64,
    outputs: u64,
    features: u64,
    len: nat,
)
    requires
        features + 1 <= u64::MAX,
        features + 1 <= usize::MAX,
    ensures
        contribution_cols(seq![num_rows, (features + 1) as u64], len, num_rows as nat) == features
            + 1,
        contribution_cols(seq![num_rows, outputs, (features + 1) as u64], len, num_rows as nat)
            == features + 1,
{
}

/// Interactions have a row and a column per feature and one for the bias, however many outputs
/// the model has and however many samples there are.
pub proof fn law_interactions_have_a_side_per_feature(
    num_rows: u64,
    outputs: u64,
    features: u64,
    len: nat,
    side: nat,
)
    requires
        features + 1 <= u64::MAX,
        features + 1 <= usize::MAX,
    ensures
        ({
            let n = (features + 1) as u64;
            &&& interaction_side(side, seq![num_rows, n, n], len, num_rows as nat) <==> side == n
            &&& interaction_side(side, seq![num_rows, outputs, n, n], len, num_rows as nat)
                <==> side == n
        }),
{
}

/// The number of values in a shape is the product of its dimensions: one dimension holds as many
/// as it says, and dimensions that are put together multiply.
pub proof fn law_shape_size_is_the_product(a: Seq<u64>, b: Seq<u64>, dim: u64)
    ensures
        shape_size(seq![dim]) == dim,
        shape_size(Seq::empty()) == 1,
        shape_size(a + b) == shape_size(a) * shape_size(b),
    decreases b.len(),
{
    let none = Seq::<u64>::empty();
    assert(shape_size(none) == 1);
    assert(seq![dim].drop_last() =~= none);
    assert(shape_size(seq![dim]) == shape_size(none) * dim as nat);
    if b.len() == 0 {
        assert(a + b =~= a);
        assert(shape_size(b) == 1);
    } else {
        law_shape_size_is_the_product(a, b.drop_last(), dim);
        assert((a + b).drop_last() =~= a + b.drop_last());
        let (x, y, z) = (shape_size(a), shape_size(b.drop_last()), b.last() as nat);
        assert((a + b).last() == b.last());
        assert(shape_size(a + b) == (x * y) * z);
        assert(shape_size(b) == y * z);
        assert((x * y) * z == x * (y * z)) by (nonlinear_arith);
    }
}

/// Values that do not fill their rows are counted by the full rows' share: as many per row as
/// all rows can have. Without rows there are none per row.
pub proof fn law_values_per_row(len: nat, num_rows: nat)
    ensures
        num_rows > 0 ==> num_rows * per_row(len, num_rows) <= len < num_rows * (per_row(
            len,
            num_rows,
        ) + 1),
        num_rows == 0 ==> per_row(len, num_rows) == 0,
{
    if num_rows > 0 {
        vstd::arithmetic::div_mod::lemma_fundamental_div_mod(len as int, num_rows as int);
        let q = per_row(len, num_rows);
        assert(num_rows * (q + 1) == num_rows * q + num_rows) by (nonlinear_arith);
    }
}

/// Output that can be taken is one that memory can hold; if no values are there, one of its
/// dimensions is 0.
pub proof fn law_output_that_can_be_taken(shape: Seq<u64>, has_data: bool)
    requires
        sound_output(shape, has_data),
    ensures
        shape_size(shape) <= usize::MAX,
        has_data || exists|i: int| 0 <= i < shape.len() && shape[i] == 0,
{
    if !has_data {
        lemma_zero_dimension(shape);
    }
}

proof fn lemma_zero_dimension(shape: Seq<u64>)
    requires
        shape_size(shape) == 0,
    ensures
        exists|i: int| 0 <= i < shape.len() && shape[i] == 0,
    decreases shape.len(),
{
    if shape.last() == 0 {
        assert(shape[shape.len() - 1] == 0);
    } else {
        let (x, y) = (shape_size(shape.drop_last()), shape.last() as nat);
        assert(x == 0) by (nonlinear_arith)
            requires
                x * y == 0,
                y > 0,
        ;
        lemma_zero_dimension(shape.drop_last());
        let i = choose|i: int|
            0 <= i < shape.drop_last().len() && shape.drop_last()[i] == 0;
        assert(shape[i] == 0);
    }
}

/// Leaf indices come as they are, a row per sample and a column per tree.
pub proof fn law_leaves_have_a_column_per_tree<'r, T>(
    step: Step<'_, (Vec<T>, (usize, usize))>,
    request: Request,
    dmat: DMatrix,
    data: &'r [T],
    shape: &'r [u64],
    trees: nat,
)
    requires
        predicts_rows(step, request, dmat, Some(Ok((data, shape)))),
        dmat.num_rows > 0,
        data@.len() == dmat.num_rows * trees,
    ensures
        step matches Step::Finish(Ok((values, (rows, cols)))) && values@ == data@ && rows
            == dmat.num_rows && cols == trees,
{
    law_columns_of_full_rows(dmat.num_rows as nat, trees);
}

/// A shape of too few dimensions leaves what the number of values tells: for contributions the
/// values per row, for interactions the side of a row that is one square.
pub proof fn law_flat_shapes(shape: Seq<u64>, len: nat, num_rows: nat, side: nat)
    ensures
        shape.len() < 2 ==> contribution_cols(shape, len, num_rows) == per_row(len, num_rows),
        shape.len() < 3 && interaction_side(side, shape, len, num_rows) ==> side * side <= per_row(
            len,
            num_rows,
        ) < (side + 1) * (side + 1),
        shape.len() >= 2 && shape.last() <= usize::MAX ==> contribution_cols(shape, len, num_rows)
            == shape.last(),
        shape.len() >= 3 && shape.last() <= usize::MAX ==> (interaction_side(
            side,
            shape,
            len,
            num_rows,
        ) <==> side == shape.last()),
{
}

/// Rows that are predicted on begin with the call, and hand a failure on.
pub proof fn law_row_predictions_begin_with_the_call<'r, T>(
    step: Step<'_, (Vec<T>, (usize, usize))>,
    request: Request,
    dmat: DMatrix,
    reply: Option<XGBResult<(&'r [T], &'r [u64])>>,
)
    requires
        predicts_rows(step, request, dmat, reply),
    ensures
        reply is None ==> step.performs(request),
        reply matches Some(Err(e)) ==> step.gives_error(e),
        reply matches Some(Ok((data, _))) ==> (step matches Step::Finish(Ok((values, (rows, _))))
            && values@ == data@ && rows == dmat.num_rows),
{
}

/// Output can be taken exactly if the product of the first dimensions fits its type, however many
/// are taken, the whole product is one that memory can hold, and values are there or none are
/// due.
pub proof fn law_takeable_output(shape: Seq<u64>, has_data: bool)
    ensures
        sound_output(shape, has_data) <==> (forall|i: int|
            0 <= i <= shape.len() ==> shape_size(#[trigger] shape.take(i)) <= u64::MAX)
            && shape_size(shape) <= usize::MAX && (has_data || shape_size(shape) == 0),
{
}

} // verus!
