//! Mean squared error between a prediction and a target of `n` values.
use vstd::prelude::*;

use crate::var::ID;

verus! {

/// Element-wise squared error of `y_pred` against `y_true`, `n` values.
#[derive(Debug)]
pub struct MseOp {
    pub y_pred: ID,
    pub y_true: ID,
    pub output: ID,
    pub n: u32,
}

impl MseOp {
    pub fn new(y_pred: ID, y_true: ID, output: ID, n: u32) -> (r: Self)
        ensures
            r == (MseOp { y_pred, y_true, output, n }),
    {
        MseOp { y_pred, y_true, output, n }
    }
}

} // verus!
