//! Reordering of the axes of a tensor.
use vstd::prelude::*;

use crate::dims::{prefix_prods_fit, prod, shape_product};
use crate::var::ID;

verus! {

/// Output axis `i` is input axis `perm[i]`.
#[derive(Debug)]
pub struct PermuteOp {
    pub input: ID,
    pub output: ID,
    pub shape: Vec<u32>,
    pub perm: Vec<usize>,
    pub out_shape: Vec<u32>,
    pub total: u32,
}

/// The shape obtained by reading `shape` at the axes `perm`, in order.
pub open spec fn permuted(shape: Seq<u32>, perm: Seq<usize>) -> Seq<u32> {
    Seq::new(perm.len(), |i: int| shape[perm[i] as int])
}

/// Every entry of `perm` names an axis of a rank-`rank` tensor.
pub open spec fn axes_in_range(perm: Seq<usize>, rank: nat) -> bool {
    forall|i: int| 0 <= i < perm.len() ==> #[trigger] perm[i] < rank
}

impl PermuteOp {
    pub fn new(input: ID, output: ID, shape: Vec<u32>, perm: Vec<usize>) -> (r: Self)
        requires
            axes_in_range(perm@, shape@.len()),
            prefix_prods_fit(permuted(shape@, perm@)),
        ensures
            r.input == input,
            r.output == output,
            r.shape@ == shape@,
            r.perm@ == perm@,
            r.out_shape@ == permuted(shape@, perm@),
            r.total == prod(permuted(shape@, perm@)),
    {
        let mut out_shape: Vec<u32> = Vec::new();
        let mut i: usize = 0;
        while i < perm.len()
            invariant
                i <= perm@.len(),
                axes_in_range(perm@, shape@.len()),
                out_shape@ == permuted(shape@, perm@).take(i as int),
            decreases perm@.len() - i,
        {
            let p = perm[i];
            out_shape.push(shape[p]);
            i = i + 1;
            assert(out_shape@ =~= permuted(shape@, perm@).take(i as int));
        }
        assert(permuted(shape@, perm@).take(perm@.len() as int) =~= permuted(shape@, perm@));
        let total = shape_product(out_shape.as_slice());
        PermuteOp { input, output, shape, perm, out_shape, total }
    }
}

} // verus!
