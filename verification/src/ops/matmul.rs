//! Batched matrix multiplication `[batch, m, k] @ [batch?, k, n]`.
use vstd::prelude::*;

use crate::var::ID;

verus! {

/// `lhs [batch, m, k] @ rhs [k, n]` (or `[batch, k, n]` when `rhs_batched == 1`).
#[derive(Debug)]
pub struct MatMulOp {
    pub lhs: ID,
    pub rhs: ID,
    pub output: ID,
    pub batch: u32,
    pub m: u32,
    pub k: u32,
    pub n: u32,
    pub rhs_batched: u32,
}

impl MatMulOp {
    pub fn new(
        lhs: ID,
        rhs: ID,
        output: ID,
        batch: u32,
        m: u32,
        k: u32,
        n: u32,
        rhs_batched: u32,
    ) -> (r: Self)
        ensures
            r == (MatMulOp { lhs, rhs, output, batch, m, k, n, rhs_batched }),
    {
        MatMulOp { lhs, rhs, output, batch, m, k, n, rhs_batched }
    }
}

} // verus!
