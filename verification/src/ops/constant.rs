//! A graph node for a value loaded once and never differentiated.
use vstd::prelude::*;

use crate::var::ID;

verus! {

/// Marks `id` as a constant: it has no inputs and needs no gradient buffer.
#[derive(Debug)]
pub struct ConstantOp {
    pub id: ID,
}

impl ConstantOp {
    pub fn new(id: ID) -> (r: Self)
        ensures
            r == (ConstantOp { id }),
    {
        ConstantOp { id }
    }
}

} // verus!
