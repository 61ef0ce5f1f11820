//! NUL-terminated prediction configurations, one per prediction type.
//!
//! `iteration_end: 0` means "use all trees"; `strict_shape: false` keeps the flat output
//! layouts that the shape calculations depend on.

use vstd::prelude::*;

verus! {

/// Normal prediction (type 0). Used by `predict` and the training hot path.
pub const NORMAL: &'static str =
    "{\"type\":0,\"training\":false,\"iteration_begin\":0,\"iteration_end\":0,\"strict_shape\":false}\0";

/// Normal inplace prediction (type 0). Inplace prediction also takes a `missing` field; NaN
/// is the missing value of a `DMatrix`.
pub const NORMAL_INPLACE: &'static str =
    "{\"type\":0,\"training\":false,\"iteration_begin\":0,\"iteration_end\":0,\"strict_shape\":false,\"missing\":NaN}\0";

/// Output margin (type 1). `training: false`, so that the margins of models with dropout are
/// the same on every call.
pub const MARGIN: &'static str =
    "{\"type\":1,\"training\":false,\"iteration_begin\":0,\"iteration_end\":0,\"strict_shape\":false}\0";

/// SHAP feature contributions (type 2).
pub const CONTRIBUTIONS: &'static str =
    "{\"type\":2,\"training\":false,\"iteration_begin\":0,\"iteration_end\":0,\"strict_shape\":false}\0";

/// SHAP feature interactions (type 4).
pub const INTERACTIONS: &'static str =
    "{\"type\":4,\"training\":false,\"iteration_begin\":0,\"iteration_end\":0,\"strict_shape\":false}\0";

/// Predicted leaf indices (type 6).
pub const LEAF: &'static str =
    "{\"type\":6,\"training\":false,\"iteration_begin\":0,\"iteration_end\":0,\"strict_shape\":false}\0";

} // verus!
