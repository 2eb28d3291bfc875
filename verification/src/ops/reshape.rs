//! A change of shape that keeps the element order.
use vstd::prelude::*;

use crate::dims::{prefix_prods_fit, prod, shape_product};
use crate::var::ID;

verus! {

/// Reinterprets `input` with shape `new_shape` (`n` elements).
#[derive(Debug)]
pub struct ReshapeOp {
    pub input: ID,
    pub output: ID,
    pub new_shape: Vec<u32>,
    pub n: u32,
}

impl ReshapeOp {
    pub fn new(input: ID, output: ID, new_shape: Vec<u32>) -> (r: Self)
        requires
            prefix_prods_fit(new_shape@),
        ensures
            r.input == input,
            r.output == output,
            r.new_shape@ == new_shape@,
            r.n == prod(new_shape@),
    {
        let n = shape_product(new_shape.as_slice());
        ReshapeOp { input, output, new_shape, n }
    }
}

} // verus!
