//! Reductions over consecutive groups of `group_size` elements.
use vstd::prelude::*;

use crate::var::ID;

verus! {

/// Sum of each group of `group_size` consecutive values of `n` inputs.
#[derive(Debug)]
pub struct GroupSumOp {
    pub input: ID,
    pub output: ID,
    pub n: u32,
    pub group_size: u32,
}

/// Maximum of each group of `group_size` consecutive values of `n` inputs.
#[derive(Debug)]
pub struct GroupMaxOp {
    pub input: ID,
    pub output: ID,
    pub n: u32,
    pub group_size: u32,
}

/// Product of each group of `group_size` consecutive values of `n` inputs.
#[derive(Debug)]
pub struct GroupMulOp {
    pub input: ID,
    pub output: ID,
    pub n: u32,
    pub group_size: u32,
}

impl GroupSumOp {
    pub fn new(input: ID, output: ID, n: u32, group_size: u32) -> (r: Self)
        ensures
            r == (GroupSumOp { input, output, n, group_size }),
    {
        GroupSumOp { input, output, n, group_size }
    }
}

impl GroupMaxOp {
    pub fn new(input: ID, output: ID, n: u32, group_size: u32) -> (r: Self)
        ensures
            r == (GroupMaxOp { input, output, n, group_size }),
    {
        GroupMaxOp { input, output, n, group_size }
    }
}

impl GroupMulOp {
    pub fn new(input: ID, output: ID, n: u32, group_size: u32) -> (r: Self)
        ensures
            r == (GroupMulOp { input, output, n, group_size }),
    {
        GroupMulOp { input, output, n, group_size }
    }
}

} // verus!
