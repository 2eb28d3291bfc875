//! Softmax along one axis of a tensor viewed as `[outer, reduce, inner]`.
use vstd::prelude::*;

use crate::var::ID;

verus! {

/// Softmax over the middle axis of an `[outer, reduce, inner]` layout.
#[derive(Debug)]
pub struct SoftmaxOp {
    pub input: ID,
    pub output: ID,
    pub outer: u32,
    pub reduce: u32,
    pub inner: u32,
}

impl SoftmaxOp {
    pub fn new(input: ID, output: ID, outer: u32, reduce: u32, inner: u32) -> (r: Self)
        ensures
            r == (SoftmaxOp { input, output, outer, reduce, inner }),
    {
        SoftmaxOp { input, output, outer, reduce, inner }
    }
}

} // verus!
