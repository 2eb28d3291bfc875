//! Layer normalisation over the middle axis of `[outer, reduce, inner]`.
//! The epsilon of the normalisation is a float and is kept by the caller
//! that runs the op.
use vstd::prelude::*;

use crate::var::ID;

verus! {

/// Normalises `input` over `reduce`, then scales by `gamma` and shifts by `beta`.
#[derive(Debug)]
pub struct LayerNormOp {
    pub input: ID,
    pub gamma: ID,
    pub beta: ID,
    pub output: ID,
    pub outer: u32,
    pub reduce: u32,
    pub inner: u32,
}

impl LayerNormOp {
    pub fn new(
        input: ID,
        gamma: ID,
        beta: ID,
        output: ID,
        outer: u32,
        reduce: u32,
        inner: u32,
    ) -> (r: Self)
        ensures
            r == (LayerNormOp { input, gamma, beta, output, outer, reduce, inner }),
    {
        LayerNormOp { input, gamma, beta, output, outer, reduce, inner }
    }
}

} // verus!
