//! Element-wise activation ops: one input, one output of the same shape.
use vstd::prelude::*;

use crate::var::ID;

verus! {

/// `tanh` applied element-wise to `n` values.
#[derive(Debug)]
pub struct TanhOp {
    pub input: ID,
    pub output: ID,
    pub n: u32,
}

/// `max(x, 0)` applied element-wise to `n` values.
#[derive(Debug)]
pub struct ReLUOp {
    pub input: ID,
    pub output: ID,
    pub n: u32,
}

/// The logistic sigmoid applied element-wise to `n` values.
#[derive(Debug)]
pub struct SigmoidOp {
    pub input: ID,
    pub output: ID,
    pub n: u32,
}

/// GELU (tanh approximation) applied element-wise to `n` values.
#[derive(Debug)]
pub struct GeluOp {
    pub input: ID,
    pub output: ID,
    pub n: u32,
}

/// `exp` applied element-wise to `n` values.
#[derive(Debug)]
pub struct ExpOp {
    pub input: ID,
    pub output: ID,
    pub n: u32,
}

impl TanhOp {
    pub fn new(input: ID, output: ID, n: u32) -> (r: Self)
        ensures
            r == (TanhOp { input, output, n }),
    {
        TanhOp { input, output, n }
    }
}

impl ReLUOp {
    pub fn new(input: ID, output: ID, n: u32) -> (r: Self)
        ensures
            r == (ReLUOp { input, output, n }),
    {
        ReLUOp { input, output, n }
    }
}

impl SigmoidOp {
    pub fn new(input: ID, output: ID, n: u32) -> (r: Self)
        ensures
            r == (SigmoidOp { input, output, n }),
    {
        SigmoidOp { input, output, n }
    }
}

impl GeluOp {
    pub fn new(input: ID, output: ID, n: u32) -> (r: Self)
        ensures
            r == (GeluOp { input, output, n }),
    {
        GeluOp { input, output, n }
    }
}

impl ExpOp {
    pub fn new(input: ID, output: ID, n: u32) -> (r: Self)
        ensures
            r == (ExpOp { input, output, n }),
    {
        ExpOp { input, output, n }
    }
}

} // verus!
