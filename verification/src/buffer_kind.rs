//! Names of the per-variable training buffers.
use vstd::prelude::*;

verus! {

/// The gradient of a variable.
pub const GRAD: &'static str = "grad";
/// First-moment estimate of an optimiser.
pub const MOMENTUM: &'static str = "momentum";
/// Second-moment estimate of an optimiser.
pub const VARIANCE: &'static str = "variance";
/// Per-chunk partial results of a two-pass reduction.
pub const PARTIAL: &'static str = "partial";
/// Per-chunk partial sums of a two-pass reduction.
pub const PARTIAL_SUM: &'static str = "partial_sum";
/// Normalised input kept for the backward pass of layer normalisation.
pub const X_NORM: &'static str = "x_norm";
/// Expanded gradient of the left operand of a broadcast op.
pub const LHS_STAGE: &'static str = "lhs_stage";
/// Expanded gradient of the right operand of a broadcast op.
pub const RHS_STAGE: &'static str = "rhs_stage";

} // verus!
