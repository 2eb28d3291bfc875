//! Variables of the computation graph and the operations that build it.
use vstd::prelude::*;

use crate::context::{next_counter, Context};
use crate::dims::{prefix_prods_fit, prod, range_product, shape_product};
use crate::ops::group_ops::{GroupMaxOp, GroupMulOp, GroupSumOp};
use crate::ops::matmul::MatMulOp;
use crate::ops::permute::{axes_in_range, permuted, PermuteOp};
use crate::ops::reshape::ReshapeOp;
use crate::ops::softmax::SoftmaxOp;
use crate::errors::{Result, VolticError};
use crate::ops::activation::{ExpOp, GeluOp, ReLUOp, SigmoidOp, TanhOp};
use crate::ops::broadcast::{AddOp, DivOp, MulOp, SubOp};
use crate::ops::broadcast_shape::{
    explicit_dims_match, greedy_align, infer_fits, is_explicit_broadcast, is_inferred_broadcast,
    longer_of, non_broadcast_axes, shorter_of, BroadcastShape,
};
use crate::dims::{prefix_prods_fit_usize, range_product_usize, strides_fit};
use crate::ops::constant::ConstantOp;
use crate::ops::mse::MseOp;
use crate::ops::op::Op;

verus! {

/// Identifier of a variable of the graph.
#[derive(PartialEq, Eq, Structural, Copy, Clone, Debug, Hash)]
pub struct ID(pub u64);

impl ID {
    /// A fresh id from the graph's counter.
    pub fn next(ctx: &mut Context) -> (r: ID)
        ensures
            r.0 == old(ctx).id_counter(),
            final(ctx).id_counter() == next_counter(old(ctx).id_counter()),
            final(ctx).shapes_view() == old(ctx).shapes_view(),
            final(ctx).op_seq() == old(ctx).op_seq(),
    {
        ID(ctx.allocate_id())
    }
}

/// A handle to a tensor of the graph.
#[derive(PartialEq, Eq, Structural, Copy, Clone, Debug)]
pub struct Var(pub ID);

/// `c2` is `c1` with one fresh variable `out` of shape `shape`; the
/// operations are unchanged.
pub open spec fn fresh_var(c1: Context, c2: Context, out: Var, shape: Seq<u32>) -> bool {
    &&& out.0.0 == c1.id_counter()
    &&& c2.id_counter() == next_counter(c1.id_counter())
    &&& c2.shapes_view() == c1.shapes_view().insert(out.0.0, shape)
}

/// `c2` is `c1` with one fresh variable `out` of shape `shape`, produced by
/// the appended operation `op`.
pub open spec fn op_appended(c1: Context, c2: Context, out: Var, shape: Seq<u32>, op: Op) -> bool {
    &&& fresh_var(c1, c2, out, shape)
    &&& c2.op_seq() == c1.op_seq().push(op)
}

/// `c2` is `c1` with one fresh variable `out` of shape `shape` and one more
/// operation at the end.
pub open spec fn one_op_appended(c1: Context, c2: Context, out: Var, shape: Seq<u32>) -> bool {
    &&& fresh_var(c1, c2, out, shape)
    &&& c2.op_seq().len() == c1.op_seq().len() + 1
    &&& c2.op_seq().drop_last() == c1.op_seq()
}

/// Entry `k` of `perm` names an axis and repeats no earlier entry.
pub open spec fn perm_entry_ok(perm: Seq<usize>, k: int) -> bool {
    &&& perm[k] < perm.len()
    &&& forall|j: int| 0 <= j < k ==> perm[j] != perm[k]
}

/// The first `k` entries of `perm` are all acceptable.
pub open spec fn perm_prefix_ok(perm: Seq<usize>, k: int) -> bool {
    forall|i: int| 0 <= i < k ==> perm_entry_ok(perm, i)
}

/// `perm` is a permutation of `0..perm.len()`.
pub open spec fn is_permutation(perm: Seq<usize>) -> bool {
    perm_prefix_ok(perm, perm.len() as int)
}

/// The identity permutation of `0..rank` with axes `a` and `b` exchanged.
pub open spec fn swap_perm(rank: nat, a: usize, b: usize) -> Seq<usize> {
    Seq::new(rank, |i: int| if i == a { b } else if i == b { a } else { i as usize })
}

/// `shape` with the sizes of axes `a` and `b` exchanged.
pub open spec fn swap_axes(shape: Seq<u32>, a: usize, b: usize) -> Seq<u32> {
    shape.update(a as int, shape[b as int]).update(b as int, shape[a as int])
}

/// Swapping the same two axes twice gives the shape back.
pub proof fn law_swap_axes_twice(shape: Seq<u32>, a: usize, b: usize)
    requires
        a < shape.len(),
        b < shape.len(),
    ensures
        swap_axes(swap_axes(shape, a, b), a, b) == shape,
{
    assert(swap_axes(swap_axes(shape, a, b), a, b) =~= shape);
}

/// Swapping an axis with itself keeps the shape.
pub proof fn law_swap_axis_with_itself(shape: Seq<u32>, a: usize)
    requires
        a < shape.len(),
    ensures
        swap_axes(shape, a, a) == shape,
{
    assert(swap_axes(shape, a, a) =~= shape);
}

/// The shape of `v` is known and its element count fits a `u32`.
pub open spec fn countable(ctx: Context, v: Var) -> bool {
    ctx.has_shape(v.0) ==> prefix_prods_fit(ctx.shape_of(v.0))
}

/// Equality of two shapes.
pub fn shapes_equal(a: &[u32], b: &[u32]) -> (r: bool)
    ensures
        r == (a@ == b@),
{
    if a.len() != b.len() {
        return false;
    }
    let mut i: usize = 0;
    while i < a.len()
        invariant
            i <= a.len(),
            a@.len() == b@.len(),
            forall|j: int| 0 <= j < i ==> a@[j] == b@[j],
        decreases a.len() - i,
    {
        if a[i] != b[i] {
            return false;
        }
        i = i + 1;
    }
    assert(a@ =~= b@);
    true
}

impl Var {
    /// A fresh variable with no shape.
    pub fn new(ctx: &mut Context) -> (r: Var)
        ensures
            r.0.0 == old(ctx).id_counter(),
            final(ctx).id_counter() == next_counter(old(ctx).id_counter()),
            final(ctx).shapes_view() == old(ctx).shapes_view(),
            final(ctx).op_seq() == old(ctx).op_seq(),
    {
        Var(ID::next(ctx))
    }

    /// A fresh variable of shape `shape`.
    pub fn with_shape(ctx: &mut Context, shape: Vec<u32>) -> (r: Var)
        ensures
            fresh_var(*old(ctx), *final(ctx), r, shape@),
            final(ctx).op_seq() == old(ctx).op_seq(),
    {
        let id = ID::next(ctx);
        ctx.insert_shape(id, shape);
        Var(id)
    }

    /// The shape of this variable, which must have one.
    pub fn shape(&self, ctx: &Context) -> (r: Vec<u32>)
        requires
            ctx.has_shape(self.0),
        ensures
            r@ == ctx.shape_of(self.0),
    {
        match ctx.shape(self.0) {
            Some(s) => s,
            None => Vec::new(),
        }
    }

    pub fn id(&self) -> (r: ID)
        ensures
            r == self.0,
    {
        self.0
    }

    /// The variable whose id precedes this one.
    pub fn prev(&self) -> (r: Self)
        requires
            self.0.0 > 0,
        ensures
            r.0.0 == self.0.0 - 1,
    {
        Var(ID(self.0.0 - 1))
    }

    /// The variable whose id follows this one.
    pub fn next(&self) -> (r: Self)
        requires
            self.0.0 < u64::MAX,
        ensures
            r.0.0 == self.0.0 + 1,
    {
        Var(ID(self.0.0 + 1))
    }

    /// Allocates the output of a unary op with the same shape as `self`;
    /// returns it with the element count.
    fn unary_output(&self, ctx: &mut Context) -> (r: Result<(Var, u32)>)
        requires
            countable(*old(ctx), *self),
        ensures
            match r {
                Ok((out, n)) => {
                    &&& old(ctx).has_shape(self.0)
                    &&& n == prod(old(ctx).shape_of(self.0))
                    &&& fresh_var(*old(ctx), *final(ctx), out, old(ctx).shape_of(self.0))
                    &&& final(ctx).op_seq() == old(ctx).op_seq()
                },
                Err(e) => {
                    &&& !old(ctx).has_shape(self.0)
                    &&& e is EmptyShape
                    &&& *final(ctx) == *old(ctx)
                },
            },
    {
        let shape = match ctx.shape(self.0) {
            Some(s) => s,
            None => return Err(VolticError::EmptyShape),
        };
        let n = shape_product(shape.as_slice());
        let output = Var::new(ctx);
        ctx.insert_shape(output.0, shape);
        Ok((output, n))
    }

    /// Element-wise `tanh`.
    pub fn tanh(&self, ctx: &mut Context) -> (r: Result<Var>)
        requires
            countable(*old(ctx), *self),
        ensures
            match r {
                Ok(out) => old(ctx).has_shape(self.0) && op_appended(
                    *old(ctx),
                    *final(ctx),
                    out,
                    old(ctx).shape_of(self.0),
                    Op::Tanh(
                        TanhOp { input: self.0, output: out.0, n: prod(old(ctx).shape_of(self.0)) as u32 },
                    ),
                ),
                Err(e) => !old(ctx).has_shape(self.0) && e is EmptyShape && *final(ctx) == *old(ctx),
            },
    {
        let (output, n) = self.unary_output(ctx)?;
        ctx.push_operation(Op::Tanh(TanhOp::new(self.0, output.0, n)));
        Ok(output)
    }

    /// Element-wise `max(x, 0)`.
    pub fn relu(&self, ctx: &mut Context) -> (r: Result<Var>)
        requires
            countable(*old(ctx), *self),
        ensures
            match r {
                Ok(out) => old(ctx).has_shape(self.0) && op_appended(
                    *old(ctx),
                    *final(ctx),
                    out,
                    old(ctx).shape_of(self.0),
                    Op::ReLU(
                        ReLUOp { input: self.0, output: out.0, n: prod(old(ctx).shape_of(self.0)) as u32 },
                    ),
                ),
                Err(e) => !old(ctx).has_shape(self.0) && e is EmptyShape && *final(ctx) == *old(ctx),
            },
    {
        let (output, n) = self.unary_output(ctx)?;
        ctx.push_operation(Op::ReLU(ReLUOp::new(self.0, output.0, n)));
        Ok(output)
    }

    /// Element-wise logistic sigmoid.
    pub fn sigmoid(&self, ctx: &mut Context) -> (r: Result<Var>)
        requires
            countable(*old(ctx), *self),
        ensures
            match r {
                Ok(out) => old(ctx).has_shape(self.0) && op_appended(
                    *old(ctx),
                    *final(ctx),
                    out,
                    old(ctx).shape_of(self.0),
                    Op::Sigmoid(
                        SigmoidOp {
                            input: self.0,
                            output: out.0,
                            n: prod(old(ctx).shape_of(self.0)) as u32,
                        },
                    ),
                ),
                Err(e) => !old(ctx).has_shape(self.0) && e is EmptyShape && *final(ctx) == *old(ctx),
            },
    {
        let (output, n) = self.unary_output(ctx)?;
        ctx.push_operation(Op::Sigmoid(SigmoidOp::new(self.0, output.0, n)));
        Ok(output)
    }

    /// Element-wise GELU.
    pub fn gelu(&self, ctx: &mut Context) -> (r: Result<Var>)
        requires
            countable(*old(ctx), *self),
        ensures
            match r {
                Ok(out) => old(ctx).has_shape(self.0) && op_appended(
                    *old(ctx),
                    *final(ctx),
                    out,
                    old(ctx).shape_of(self.0),
                    Op::Gelu(
                        GeluOp { input: self.0, output: out.0, n: prod(old(ctx).shape_of(self.0)) as u32 },
                    ),
                ),
                Err(e) => !old(ctx).has_shape(self.0) && e is EmptyShape && *final(ctx) == *old(ctx),
            },
    {
        let (output, n) = self.unary_output(ctx)?;
        ctx.push_operation(Op::Gelu(GeluOp::new(self.0, output.0, n)));
        Ok(output)
    }

    /// Element-wise `exp`.
    pub fn exp(&self, ctx: &mut Context) -> (r: Result<Var>)
        requires
            countable(*old(ctx), *self),
        ensures
            match r {
                Ok(out) => old(ctx).has_shape(self.0) && op_appended(
                    *old(ctx),
                    *final(ctx),
                    out,
                    old(ctx).shape_of(self.0),
                    Op::Exp(
                        ExpOp { input: self.0, output: out.0, n: prod(old(ctx).shape_of(self.0)) as u32 },
                    ),
                ),
                Err(e) => !old(ctx).has_shape(self.0) && e is EmptyShape && *final(ctx) == *old(ctx),
            },
    {
        let (output, n) = self.unary_output(ctx)?;
        ctx.push_operation(Op::Exp(ExpOp::new(self.0, output.0, n)));
        Ok(output)
    }

    /// Mean squared error against `y_true`: one squared error per element,
    /// as a flat vector.
    pub fn mse(&self, ctx: &mut Context, y_true: Var) -> (r: Result<Var>)
        requires
            countable(*old(ctx), *self),
        ensures
            match r {
                Ok(out) => {
                    &&& old(ctx).has_shape(self.0)
                    &&& old(ctx).has_shape(y_true.0)
                    &&& old(ctx).shape_of(self.0) == old(ctx).shape_of(y_true.0)
                    &&& op_appended(
                        *old(ctx),
                        *final(ctx),
                        out,
                        seq![prod(old(ctx).shape_of(self.0)) as u32],
                        Op::Mse(
                            MseOp {
                                y_pred: self.0,
                                y_true: y_true.0,
                                output: out.0,
                                n: prod(old(ctx).shape_of(self.0)) as u32,
                            },
                        ),
                    )
                },
                Err(e) => {
                    &&& *final(ctx) == *old(ctx)
                    &&& if !old(ctx).has_shape(self.0) || !old(ctx).has_shape(y_true.0) {
                        e is EmptyShape
                    } else {
                        &&& old(ctx).shape_of(self.0) != old(ctx).shape_of(y_true.0)
                        &&& e matches VolticError::IncompatibleShapes { lhs, rhs, op }
                        &&& lhs@ == old(ctx).shape_of(self.0)
                        &&& rhs@ == old(ctx).shape_of(y_true.0)
                        &&& op == "mse"
                    }
                },
            },
    {
        let pred_shape = match ctx.shape(self.0) {
            Some(s) => s,
            None => return Err(VolticError::EmptyShape),
        };
        let true_shape = match ctx.shape(y_true.0) {
            Some(s) => s,
            None => return Err(VolticError::EmptyShape),
        };
        if !shapes_equal(pred_shape.as_slice(), true_shape.as_slice()) {
            return Err(VolticError::IncompatibleShapes { lhs: pred_shape, rhs: true_shape, op: "mse" });
        }
        let n = shape_product(pred_shape.as_slice());
        let output = Var::new(ctx);
        let mut out_shape: Vec<u32> = Vec::new();
        out_shape.push(n);
        ctx.insert_shape(output.0, out_shape);
        ctx.push_operation(Op::Mse(MseOp::new(self.0, y_true.0, output.0, n)));
        Ok(output)
    }
}

/// A copy of a list of axes.
fn axes_to_vec(s: &[usize]) -> (v: Vec<usize>)
    ensures
        v@ == s@,
{
    let mut v: Vec<usize> = Vec::new();
    let mut i: usize = 0;
    while i < s.len()
        invariant
            i <= s.len(),
            v@ == s@.take(i as int),
        decreases s.len() - i,
    {
        v.push(s[i]);
        i = i + 1;
        assert(v@ =~= s@.take(i as int));
    }
    assert(s@.take(s.len() as int) =~= s@);
    v
}

impl Var {
    /// Softmax along `axis`.
    pub fn softmax(&self, ctx: &mut Context, axis: usize) -> (r: Result<Var>)
        requires
            old(ctx).has_shape(self.0) && axis < old(ctx).shape_of(self.0).len() ==> {
                let s = old(ctx).shape_of(self.0);
                &&& prefix_prods_fit(s.subrange(0, axis as int))
                &&& prefix_prods_fit(s.subrange(axis + 1, s.len() as int))
            },
        ensures
            ({
                let s = old(ctx).shape_of(self.0);
                match r {
                    Ok(out) => {
                        &&& old(ctx).has_shape(self.0)
                        &&& axis < s.len()
                        &&& op_appended(
                            *old(ctx),
                            *final(ctx),
                            out,
                            s,
                            Op::Softmax(
                                SoftmaxOp {
                                    input: self.0,
                                    output: out.0,
                                    outer: prod(s.subrange(0, axis as int)) as u32,
                                    reduce: s[axis as int],
                                    inner: prod(s.subrange(axis + 1, s.len() as int)) as u32,
                                },
                            ),
                        )
                    },
                    Err(e) => {
                        &&& *final(ctx) == *old(ctx)
                        &&& if !old(ctx).has_shape(self.0) {
                            e is EmptyShape
                        } else {
                            &&& axis >= s.len()
                            &&& e matches VolticError::InvalidDimension { dim, ndim }
                            &&& dim == axis
                            &&& ndim == s.len()
                        }
                    },
                }
            }),
    {
        let shape = match ctx.shape(self.0) {
            Some(s) => s,
            None => return Err(VolticError::EmptyShape),
        };
        if axis >= shape.len() {
            return Err(VolticError::InvalidDimension { dim: axis, ndim: shape.len() });
        }
        let outer = range_product(shape.as_slice(), 0, axis);
        let reduce = shape[axis];
        let inner = range_product(shape.as_slice(), axis + 1, shape.len());
        let output = Var::new(ctx);
        ctx.insert_shape(output.0, shape);
        ctx.push_operation(Op::Softmax(SoftmaxOp::new(self.0, output.0, outer, reduce, inner)));
        Ok(output)
    }

    /// Reorders the axes: output axis `i` is input axis `perm[i]`.
    #[verifier::loop_isolation(false)]
    pub fn permute(&self, ctx: &mut Context, perm: &[usize]) -> (r: Result<Self>)
        requires
            old(ctx).has_shape(self.0) && perm@.len() == old(ctx).shape_of(self.0).len()
                && is_permutation(perm@) ==> prefix_prods_fit(
                permuted(old(ctx).shape_of(self.0), perm@),
            ),
        ensures
            ({
                let s = old(ctx).shape_of(self.0);
                match r {
                    Ok(out) => {
                        &&& old(ctx).has_shape(self.0)
                        &&& perm@.len() == s.len()
                        &&& is_permutation(perm@)
                        &&& one_op_appended(*old(ctx), *final(ctx), out, permuted(s, perm@))
                        &&& final(ctx).op_seq().last() matches Op::Permute(p)
                        &&& p.input == self.0
                        &&& p.output == out.0
                        &&& p.shape@ == s
                        &&& p.perm@ == perm@
                        &&& p.out_shape@ == permuted(s, perm@)
                        &&& p.total == prod(permuted(s, perm@))
                    },
                    Err(e) => {
                        &&& *final(ctx) == *old(ctx)
                        &&& if !old(ctx).has_shape(self.0) {
                            e is EmptyShape
                        } else if perm@.len() != s.len() {
                            e matches VolticError::InvalidDimension { dim, ndim }
                                && dim == perm@.len() && ndim == s.len()
                        } else {
                            &&& !is_permutation(perm@)
                            &&& e matches VolticError::InvalidDimension { dim, ndim }
                            &&& ndim == perm@.len()
                            &&& exists|k: int|
                                0 <= k < perm@.len() && perm_prefix_ok(perm@, k) && !perm_entry_ok(
                                    perm@,
                                    k,
                                ) && dim == perm@[k]
                        }
                    },
                }
            }),
    {
        let shape = match ctx.shape(self.0) {
            Some(s) => s,
            None => return Err(VolticError::EmptyShape),
        };
        if perm.len() != shape.len() {
            return Err(VolticError::InvalidDimension { dim: perm.len(), ndim: shape.len() });
        }

        // Validate permutation: must be a permutation of 0..rank
        let mut seen: Vec<bool> = Vec::new();
        let mut q: usize = 0;
        while q < perm.len()
            invariant
                q <= perm@.len(),
                seen@.len() == q,
                forall|j: int| 0 <= j < q ==> !seen@[j],
            decreases perm@.len() - q,
        {
            seen.push(false);
            q = q + 1;
        }
        let mut i: usize = 0;
        while i < perm.len()
            invariant
                i <= perm@.len(),
                seen@.len() == perm@.len(),
                perm_prefix_ok(perm@, i as int),
                forall|x: int|
                    0 <= x < perm@.len() ==> (#[trigger] seen@[x] <==> exists|j: int|
                        0 <= j < i && perm@[j] == x),
            decreases perm@.len() - i,
        {
            let p = perm[i];
            if p >= perm.len() || seen[p] {
                proof {
                    assert(!perm_entry_ok(perm@, i as int)) by {
                        if p < perm@.len() {
                            assert(seen@[p as int]);
                            let j = choose|j: int| 0 <= j < i && perm@[j] == p;
                            assert(perm@[j] == perm@[i as int]);
                        }
                    }
                }
                assert(perm_prefix_ok(perm@, i as int) && !perm_entry_ok(perm@, i as int));
                return Err(VolticError::InvalidDimension { dim: p, ndim: perm.len() });
            }
            proof {
                assert forall|j: int| 0 <= j < i implies perm@[j] != perm@[i as int] by {
                    if perm@[j] == p {
                        assert(seen@[p as int]);
                    }
                }
            }
            seen.set(p, true);
            i = i + 1;
            proof {
                assert forall|x: int| 0 <= x < perm@.len() implies (#[trigger] seen@[x]
                    <==> exists|j: int| 0 <= j < i && perm@[j] == x) by {
                    if x == p as int {
                        assert(perm@[i - 1] == x);
                    } else if seen@[x] {
                        let j = choose|j: int| 0 <= j < i - 1 && perm@[j] == x;
                        assert(0 <= j < i && perm@[j] == x);
                    } else {
                        assert forall|j: int| 0 <= j < i implies perm@[j] != x by {
                            if j < i - 1 && perm@[j] == x {
                                assert(exists|j2: int| 0 <= j2 < i - 1 && perm@[j2] == x);
                            }
                        }
                    }
                }
            }
        }
        assert forall|k: int| 0 <= k < perm@.len() implies #[trigger] perm@[k] < shape@.len() by {
            assert(perm_entry_ok(perm@, k));
        }
        assert(axes_in_range(perm@, shape@.len()));

        let mut out_shape: Vec<u32> = Vec::new();
        let mut k: usize = 0;
        while k < perm.len()
            invariant
                k <= perm@.len(),
                perm@.len() == shape@.len(),
                axes_in_range(perm@, shape@.len()),
                out_shape@ == permuted(shape@, perm@).take(k as int),
            decreases perm@.len() - k,
        {
            out_shape.push(shape[perm[k]]);
            k = k + 1;
            assert(out_shape@ =~= permuted(shape@, perm@).take(k as int));
        }
        assert(permuted(shape@, perm@).take(perm@.len() as int) =~= permuted(shape@, perm@));
        let output = Self::new(ctx);
        ctx.insert_shape(output.0, out_shape);
        let op = PermuteOp::new(self.0, output.0, shape, axes_to_vec(perm));
        ctx.push_operation(Op::Permute(op));
        assert(ctx.op_seq().drop_last() =~= old(ctx).op_seq());
        Ok(output)
    }

    /// Swaps two axes.
    #[verifier::loop_isolation(false)]
    pub fn transpose(&self, ctx: &mut Context, axis_a: usize, axis_b: usize) -> (r: Result<Self>)
        requires
            old(ctx).has_shape(self.0) && axis_a < old(ctx).shape_of(self.0).len() && axis_b
                < old(ctx).shape_of(self.0).len() ==> prefix_prods_fit(
                swap_axes(old(ctx).shape_of(self.0), axis_a, axis_b),
            ),
        ensures
            ({
                let s = old(ctx).shape_of(self.0);
                let perm = swap_perm(s.len(), axis_a, axis_b);
                match r {
                    Ok(out) => {
                        &&& old(ctx).has_shape(self.0)
                        &&& axis_a < s.len()
                        &&& axis_b < s.len()
                        &&& one_op_appended(*old(ctx), *final(ctx), out, swap_axes(s, axis_a, axis_b))
                        &&& final(ctx).op_seq().last() matches Op::Permute(p)
                        &&& p.input == self.0
                        &&& p.output == out.0
                        &&& p.shape@ == s
                        &&& p.perm@ == perm
                        &&& p.out_shape@ == swap_axes(s, axis_a, axis_b)
                        &&& p.total == prod(swap_axes(s, axis_a, axis_b))
                    },
                    Err(e) => {
                        &&& *final(ctx) == *old(ctx)
                        &&& if !old(ctx).has_shape(self.0) {
                            e is EmptyShape
                        } else {
                            &&& axis_a >= s.len() || axis_b >= s.len()
                            &&& e matches VolticError::InvalidDimension { dim, ndim }
                            &&& dim == (if axis_a >= axis_b { axis_a } else { axis_b })
                            &&& ndim == s.len()
                        }
                    },
                }
            }),
    {
        let shape = match ctx.shape(self.0) {
            Some(s) => s,
            None => return Err(VolticError::EmptyShape),
        };
        let rank = shape.len();
        if axis_a >= rank || axis_b >= rank {
            let dim = if axis_a >= axis_b {
                axis_a
            } else {
                axis_b
            };
            return Err(VolticError::InvalidDimension { dim, ndim: rank });
        }
        let ghost s = shape@;
        let mut perm: Vec<usize> = Vec::new();
        let mut i: usize = 0;
        while i < rank
            invariant
                i <= rank,
                perm@.len() == i,
                forall|j: int| 0 <= j < i ==> perm@[j] == j,
            decreases rank - i,
        {
            perm.push(i);
            i = i + 1;
        }
        perm.set(axis_a, axis_b);
        perm.set(axis_b, axis_a);
        proof {
            assert(perm@ =~= swap_perm(rank as nat, axis_a, axis_b));
            assert forall|k: int| 0 <= k < rank implies perm_entry_ok(perm@, k) by {
                assert forall|j: int| 0 <= j < k implies perm@[j] != perm@[k] by {}
            }
            assert(permuted(s, perm@) =~= swap_axes(s, axis_a, axis_b));
        }
        self.permute(ctx, perm.as_slice())
    }
}

/// The first `n` dimensions of `a` and `b` agree.
fn prefix_equal(a: &[u32], b: &[u32], n: usize) -> (r: bool)
    requires
        n <= a@.len(),
        n <= b@.len(),
    ensures
        r == (a@.subrange(0, n as int) == b@.subrange(0, n as int)),
{
    let mut i: usize = 0;
    while i < n
        invariant
            i <= n <= a@.len(),
            n <= b@.len(),
            forall|j: int| 0 <= j < i ==> a@[j] == b@[j],
        decreases n - i,
    {
        if a[i] != b[i] {
            assert(a@.subrange(0, n as int)[i as int] != b@.subrange(0, n as int)[i as int]);
            return false;
        }
        i = i + 1;
    }
    assert(a@.subrange(0, n as int) =~= b@.subrange(0, n as int));
    true
}

/// The checks of `mat_mul` pass on shapes `l` and `r`.
pub open spec fn matmul_compatible(l: Seq<u32>, r: Seq<u32>) -> bool {
    &&& l.len() >= 2
    &&& r.len() >= 2
    &&& l[l.len() - 1] == r[r.len() - 2]
    &&& r.len() > 2 ==> l.subrange(0, l.len() - 2) == r.subrange(0, r.len() - 2)
}

/// The batch dimensions of a matrix-multiply operand (all but the last two).
pub open spec fn batch_dims(s: Seq<u32>) -> Seq<u32> {
    s.subrange(0, s.len() - 2)
}

impl Var {
    /// Batched matrix multiply `[..., M, K] @ [..., K, N] -> [..., M, N]`.
    /// A 2-D `rhs` is shared by every batch.
    #[verifier::loop_isolation(false)]
    pub fn mat_mul(&self, ctx: &mut Context, rhs: Var) -> (r: Result<Self>)
        requires
            old(ctx).has_shape(self.0) && old(ctx).has_shape(rhs.0) && matmul_compatible(
                old(ctx).shape_of(self.0),
                old(ctx).shape_of(rhs.0),
            ) ==> prefix_prods_fit(batch_dims(old(ctx).shape_of(self.0))),
        ensures
            ({
                let l = old(ctx).shape_of(self.0);
                let rs = old(ctx).shape_of(rhs.0);
                match r {
                    Ok(out) => {
                        &&& old(ctx).has_shape(self.0)
                        &&& old(ctx).has_shape(rhs.0)
                        &&& matmul_compatible(l, rs)
                        &&& op_appended(
                            *old(ctx),
                            *final(ctx),
                            out,
                            batch_dims(l).push(l[l.len() - 2]).push(rs[rs.len() - 1]),
                            Op::MatMul(
                                MatMulOp {
                                    lhs: self.0,
                                    rhs: rhs.0,
                                    output: out.0,
                                    batch: (if prod(batch_dims(l)) >= 1 {
                                        prod(batch_dims(l))
                                    } else {
                                        1
                                    }) as u32,
                                    m: l[l.len() - 2],
                                    k: l[l.len() - 1],
                                    n: rs[rs.len() - 1],
                                    rhs_batched: if rs.len() > 2 { 1u32 } else { 0u32 },
                                },
                            ),
                        )
                    },
                    Err(e) => {
                        &&& *final(ctx) == *old(ctx)
                        &&& if !old(ctx).has_shape(self.0) || !old(ctx).has_shape(rhs.0) {
                            e is EmptyShape
                        } else if l.len() < 2 || rs.len() < 2 {
                            e matches VolticError::InvalidDimension { dim, ndim } && dim == (if l.len()
                                <= rs.len() {
                                l.len()
                            } else {
                                rs.len()
                            }) && ndim == 2
                        } else {
                            &&& !matmul_compatible(l, rs)
                            &&& e matches VolticError::IncompatibleShapes { lhs, rhs, op }
                            &&& lhs@ == l
                            &&& rhs@ == rs
                            &&& op == (if l[l.len() - 1] != rs[rs.len() - 2] {
                                "mat_mul: K mismatch"
                            } else {
                                "mat_mul: batch dims mismatch"
                            })
                        }
                    },
                }
            }),
    {
        let lhs_shape = match ctx.shape(self.0) {
            Some(s) => s,
            None => return Err(VolticError::EmptyShape),
        };
        let rhs_shape = match ctx.shape(rhs.0) {
            Some(s) => s,
            None => return Err(VolticError::EmptyShape),
        };
        let lhs_rank = lhs_shape.len();
        let rhs_rank = rhs_shape.len();

        if lhs_rank < 2 || rhs_rank < 2 {
            let dim = if lhs_rank <= rhs_rank {
                lhs_rank
            } else {
                rhs_rank
            };
            return Err(VolticError::InvalidDimension { dim, ndim: 2 });
        }

        // Last two dims: lhs [..., M, K] @ rhs [..., K, N]
        let m = lhs_shape[lhs_rank - 2];
        let k = lhs_shape[lhs_rank - 1];
        let k2 = rhs_shape[rhs_rank - 2];
        let n = rhs_shape[rhs_rank - 1];

        if k != k2 {
            return Err(
                VolticError::IncompatibleShapes {
                    lhs: lhs_shape,
                    rhs: rhs_shape,
                    op: "mat_mul: K mismatch",
                },
            );
        }

        // rhs is allowed to be 2D (no batch dims) - acts as shared weights
        if rhs_rank > 2 && (lhs_rank != rhs_rank || !prefix_equal(
            lhs_shape.as_slice(),
            rhs_shape.as_slice(),
            lhs_rank - 2,
        )) {
            return Err(
                VolticError::IncompatibleShapes {
                    lhs: lhs_shape,
                    rhs: rhs_shape,
                    op: "mat_mul: batch dims mismatch",
                },
            );
        }

        let batch_prod = range_product(lhs_shape.as_slice(), 0, lhs_rank - 2);
        let batch: u32 = if batch_prod >= 1 {
            batch_prod
        } else {
            1
        };
        let rhs_batched: u32 = if rhs_rank > 2 {
            1
        } else {
            0
        };

        // Output shape: [...lhs_batch, M, N]
        let mut out_shape: Vec<u32> = Vec::new();
        let mut i: usize = 0;
        while i < lhs_rank - 2
            invariant
                i <= lhs_rank - 2,
                lhs_rank == lhs_shape@.len(),
                out_shape@ == lhs_shape@.subrange(0, i as int),
            decreases lhs_rank - 2 - i,
        {
            out_shape.push(lhs_shape[i]);
            i = i + 1;
            assert(out_shape@ =~= lhs_shape@.subrange(0, i as int));
        }
        out_shape.push(m);
        out_shape.push(n);

        let output = Self::new(ctx);
        ctx.insert_shape(output.0, out_shape);
        ctx.push_operation(
            Op::MatMul(MatMulOp::new(self.0, rhs.0, output.0, batch, m, k, n, rhs_batched)),
        );
        Ok(output)
    }

    /// The same elements viewed with shape `new_shape`.
    pub fn reshape(&self, ctx: &mut Context, new_shape: Vec<u32>) -> (r: Result<Self>)
        requires
            old(ctx).has_shape(self.0) ==> prefix_prods_fit(old(ctx).shape_of(self.0))
                && prefix_prods_fit(new_shape@),
        ensures
            ({
                let s = old(ctx).shape_of(self.0);
                match r {
                    Ok(out) => {
                        &&& old(ctx).has_shape(self.0)
                        &&& prod(s) == prod(new_shape@)
                        &&& one_op_appended(*old(ctx), *final(ctx), out, new_shape@)
                        &&& final(ctx).op_seq().last() matches Op::Reshape(p)
                        &&& p.input == self.0
                        &&& p.output == out.0
                        &&& p.new_shape@ == new_shape@
                        &&& p.n == prod(new_shape@)
                    },
                    Err(e) => {
                        &&& *final(ctx) == *old(ctx)
                        &&& if !old(ctx).has_shape(self.0) {
                            e is EmptyShape
                        } else {
                            &&& prod(s) != prod(new_shape@)
                            &&& e matches VolticError::IncompatibleShapes { lhs, rhs, op }
                            &&& lhs@ == s
                            &&& rhs@ == new_shape@
                            &&& op == "reshape: element count mismatch"
                        }
                    },
                }
            }),
    {
        let shape = match ctx.shape(self.0) {
            Some(s) => s,
            None => return Err(VolticError::EmptyShape),
        };
        let old_n = shape_product(shape.as_slice());
        let new_n = shape_product(new_shape.as_slice());
        if old_n != new_n {
            return Err(
                VolticError::IncompatibleShapes {
                    lhs: shape,
                    rhs: new_shape,
                    op: "reshape: element count mismatch",
                },
            );
        }
        let output = Self::new(ctx);
        let ghost ns = new_shape@;
        let op = ReshapeOp::new(self.0, output.0, slice_copy(new_shape.as_slice()));
        ctx.insert_shape(output.0, new_shape);
        ctx.push_operation(Op::Reshape(op));
        assert(ctx.op_seq().drop_last() =~= old(ctx).op_seq());
        Ok(output)
    }

    /// The same elements as a 1-D tensor.
    pub fn flatten(&self, ctx: &mut Context) -> (r: Result<Self>)
        requires
            old(ctx).has_shape(self.0) ==> prefix_prods_fit(old(ctx).shape_of(self.0)),
        ensures
            ({
                let s = old(ctx).shape_of(self.0);
                match r {
                    Ok(out) => {
                        &&& old(ctx).has_shape(self.0)
                        &&& one_op_appended(*old(ctx), *final(ctx), out, seq![prod(s) as u32])
                        &&& final(ctx).op_seq().last() matches Op::Reshape(p)
                        &&& p.input == self.0
                        &&& p.output == out.0
                        &&& p.new_shape@ == seq![prod(s) as u32]
                        &&& p.n == prod(s)
                    },
                    Err(e) => *final(ctx) == *old(ctx) && !old(ctx).has_shape(self.0) && e is EmptyShape,
                }
            }),
    {
        let shape = match ctx.shape(self.0) {
            Some(s) => s,
            None => return Err(VolticError::EmptyShape),
        };
        let n = shape_product(shape.as_slice());
        let mut flat: Vec<u32> = Vec::new();
        flat.push(n);
        proof {
            lemma_prod_single(n);
        }
        self.reshape(ctx, flat)
    }

    /// Checks that `group_size` divides the element count of `shape`;
    /// returns that count.
    fn validate_group_size(shape: &[u32], group_size: u32) -> (r: Result<u32>)
        requires
            prefix_prods_fit(shape@),
            group_size != 0,
        ensures
            match r {
                Ok(n) => n == prod(shape@) && n % group_size == 0,
                Err(e) => {
                    &&& prod(shape@) % (group_size as int) != 0
                    &&& e matches VolticError::IncompatibleShapes { lhs, rhs, op }
                    &&& lhs@ == shape@
                    &&& rhs@ == seq![group_size]
                    &&& op == "group operation: total elements must be divisible by group_size"
                },
            },
    {
        let n = shape_product(shape);
        if n % group_size != 0 {
            let mut g: Vec<u32> = Vec::new();
            g.push(group_size);
            assert(g@ =~= seq![group_size]);
            return Err(
                VolticError::IncompatibleShapes {
                    lhs: crate::ops::broadcast_shape::slice_to_vec(shape),
                    rhs: g,
                    op: "group operation: total elements must be divisible by group_size",
                },
            );
        }
        Ok(n)
    }

    /// Product of each group of `group_size` consecutive elements.
    pub fn group_mul(&self, ctx: &mut Context, group_size: u32) -> (r: Result<Self>)
        requires
            old(ctx).has_shape(self.0) ==> prefix_prods_fit(old(ctx).shape_of(self.0)) && group_size
                != 0,
        ensures
            group_op_result(*old(ctx), *final(ctx), *self, group_size, r, GroupKind::Mul),
    {
        let shape = match ctx.shape(self.0) {
            Some(s) => s,
            None => return Err(VolticError::EmptyShape),
        };
        let n = Self::validate_group_size(shape.as_slice(), group_size)?;
        let num_groups = n / group_size;
        let output = Var::new(ctx);
        let mut out_shape: Vec<u32> = Vec::new();
        out_shape.push(num_groups);
        ctx.insert_shape(output.0, out_shape);
        ctx.push_operation(Op::GroupMul(GroupMulOp::new(self.0, output.0, n, group_size)));
        Ok(output)
    }

    /// Sum of each group of `group_size` consecutive elements.
    pub fn group_add(&self, ctx: &mut Context, group_size: u32) -> (r: Result<Self>)
        requires
            old(ctx).has_shape(self.0) ==> prefix_prods_fit(old(ctx).shape_of(self.0)) && group_size
                != 0,
        ensures
            group_op_result(*old(ctx), *final(ctx), *self, group_size, r, GroupKind::Sum),
    {
        let shape = match ctx.shape(self.0) {
            Some(s) => s,
            None => return Err(VolticError::EmptyShape),
        };
        let n = Self::validate_group_size(shape.as_slice(), group_size)?;
        let num_groups = n / group_size;
        let output = Var::new(ctx);
        let mut out_shape: Vec<u32> = Vec::new();
        out_shape.push(num_groups);
        ctx.insert_shape(output.0, out_shape);
        ctx.push_operation(Op::GroupSum(GroupSumOp::new(self.0, output.0, n, group_size)));
        Ok(output)
    }

    /// Maximum of each group of `group_size` consecutive elements.
    pub fn group_max(&self, ctx: &mut Context, group_size: u32) -> (r: Result<Self>)
        requires
            old(ctx).has_shape(self.0) ==> prefix_prods_fit(old(ctx).shape_of(self.0)) && group_size
                != 0,
        ensures
            group_op_result(*old(ctx), *final(ctx), *self, group_size, r, GroupKind::Max),
    {
        let shape = match ctx.shape(self.0) {
            Some(s) => s,
            None => return Err(VolticError::EmptyShape),
        };
        let n = Self::validate_group_size(shape.as_slice(), group_size)?;
        let num_groups = n / group_size;
        let output = Var::new(ctx);
        let mut out_shape: Vec<u32> = Vec::new();
        out_shape.push(num_groups);
        ctx.insert_shape(output.0, out_shape);
        ctx.push_operation(Op::GroupMax(GroupMaxOp::new(self.0, output.0, n, group_size)));
        Ok(output)
    }
}

/// Which reduction a group op performs.
pub enum GroupKind {
    Mul,
    Sum,
    Max,
}

/// The group op of kind `kind` over `n` inputs.
pub open spec fn group_op(kind: GroupKind, input: ID, output: ID, n: u32, group_size: u32) -> Op {
    match kind {
        GroupKind::Mul => Op::GroupMul(GroupMulOp { input, output, n, group_size }),
        GroupKind::Sum => Op::GroupSum(GroupSumOp { input, output, n, group_size }),
        GroupKind::Max => Op::GroupMax(GroupMaxOp { input, output, n, group_size }),
    }
}

/// What a group op on `v` with `group_size` does to the graph and returns.
pub open spec fn group_op_result(
    c1: Context,
    c2: Context,
    v: Var,
    group_size: u32,
    r: Result<Var>,
    kind: GroupKind,
) -> bool {
    let s = c1.shape_of(v.0);
    match r {
        Ok(out) => {
            &&& c1.has_shape(v.0)
            &&& prod(s) % (group_size as int) == 0
            &&& op_appended(
                c1,
                c2,
                out,
                seq![(prod(s) / (group_size as int)) as u32],
                group_op(kind, v.0, out.0, prod(s) as u32, group_size),
            )
        },
        Err(e) => {
            &&& c2 == c1
            &&& if !c1.has_shape(v.0) {
                e is EmptyShape
            } else {
                &&& prod(s) % (group_size as int) != 0
                &&& e matches VolticError::IncompatibleShapes { lhs, rhs, op }
                &&& lhs@ == s
                &&& rhs@ == seq![group_size]
                &&& op == "group operation: total elements must be divisible by group_size"
            }
        },
    }
}

/// A copy of a shape.
pub fn slice_copy(s: &[u32]) -> (v: Vec<u32>)
    ensures
        v@ == s@,
{
    crate::ops::broadcast_shape::slice_to_vec(s)
}

pub proof fn lemma_prod_single(x: u32)
    ensures
        prod(seq![x]) == x,
        crate::dims::prefix_prods_fit(seq![x]),
{
    assert(seq![x].drop_last() =~= Seq::<u32>::empty());
    assert(prod(Seq::<u32>::empty()) == 1);
    assert forall|j: int| 0 <= j <= 1 implies #[trigger] prod(seq![x].take(j)) <= u32::MAX by {
        if j == 0 {
            assert(seq![x].take(0) =~= Seq::<u32>::empty());
        } else {
            assert(seq![x].take(1) =~= seq![x]);
        }
    }
}

/// The arithmetic of a broadcast binary op.
pub enum BinaryKind {
    Add,
    Sub,
    Mul,
    Div,
}

/// The graph node of a binary op of kind `kind`.
pub open spec fn binary_op(kind: BinaryKind, lhs: ID, rhs: ID, output: ID, bs: BroadcastShape) -> Op {
    match kind {
        BinaryKind::Add => Op::Add(AddOp { lhs, rhs, output, bs }),
        BinaryKind::Sub => Op::Sub(SubOp { lhs, rhs, output, bs }),
        BinaryKind::Mul => Op::Mul(MulOp { lhs, rhs, output, bs }),
        BinaryKind::Div => Op::Div(DivOp { lhs, rhs, output, bs }),
    }
}

/// The broadcast description carried by a binary op (an arbitrary value for other ops).
pub open spec fn op_broadcast(op: Op) -> BroadcastShape {
    match op {
        Op::Add(p) => p.bs,
        Op::Sub(p) => p.bs,
        Op::Mul(p) => p.bs,
        Op::Div(p) => p.bs,
        _ => arbitrary(),
    }
}

/// The name a failing binary op reports.
pub open spec fn binary_name(kind: BinaryKind) -> &'static str {
    match kind {
        BinaryKind::Add => "add",
        BinaryKind::Sub => "sub",
        BinaryKind::Mul => "mul",
        BinaryKind::Div => "div",
    }
}

/// Both operands have shapes whose broadcast can be computed without overflow.
pub open spec fn binary_fits(c: Context, a: Var, b: Var) -> bool {
    c.has_shape(a.0) && c.has_shape(b.0) ==> infer_fits(c.shape_of(a.0), c.shape_of(b.0))
}

/// Both operands have shapes and the right one aligns into the left one.
pub open spec fn binary_succeeds(c: Context, a: Var, b: Var) -> bool {
    &&& c.has_shape(a.0)
    &&& c.has_shape(b.0)
    &&& greedy_align(
        longer_of(c.shape_of(a.0), c.shape_of(b.0)),
        shorter_of(c.shape_of(a.0), c.shape_of(b.0)),
    ) is Some
}

/// What a successful broadcast binary op `a (kind) b` with output `out` did to the graph.
pub open spec fn binary_appended(c1: Context, c2: Context, a: Var, b: Var, out: Var, kind: BinaryKind) -> bool {
    let bs = op_broadcast(c2.op_seq().last());
    &&& one_op_appended(c1, c2, out, longer_of(c1.shape_of(a.0), c1.shape_of(b.0)))
    &&& c2.op_seq().last() == binary_op(kind, a.0, b.0, out.0, bs)
    &&& is_inferred_broadcast(c1.shape_of(a.0), c1.shape_of(b.0), bs)
}

/// What `a (kind) b` returns and does to the graph.
pub open spec fn binary_result(c1: Context, c2: Context, a: Var, b: Var, r: Result<Var>, kind: BinaryKind) -> bool {
    match r {
        Ok(out) => binary_succeeds(c1, a, b) && binary_appended(c1, c2, a, b, out, kind),
        Err(e) => {
            &&& c2 == c1
            &&& !binary_succeeds(c1, a, b)
            &&& if !c1.has_shape(a.0) || !c1.has_shape(b.0) {
                e is EmptyShape
            } else {
                &&& e matches VolticError::IncompatibleShapes { lhs, rhs, op }
                &&& lhs@ == c1.shape_of(a.0)
                &&& rhs@ == c1.shape_of(b.0)
                &&& op == binary_name(kind)
            }
        },
    }
}

/// What `a (kind) b` with explicit broadcast axes `dims` did to the graph.
pub open spec fn explicit_appended(
    c1: Context,
    c2: Context,
    a: Var,
    b: Var,
    dims: Seq<usize>,
    out: Var,
    kind: BinaryKind,
) -> bool {
    let bs = op_broadcast(c2.op_seq().last());
    &&& one_op_appended(c1, c2, out, c1.shape_of(a.0))
    &&& c2.op_seq().last() == binary_op(kind, a.0, b.0, out.0, bs)
    &&& is_explicit_broadcast(c1.shape_of(a.0), c1.shape_of(b.0), dims, bs)
}

/// The requirements of an explicit-axes binary op, which panics unless
/// both shapes exist and match.
pub open spec fn explicit_ok(c: Context, a: Var, b: Var, dims: Seq<usize>) -> bool {
    &&& c.has_shape(a.0)
    &&& c.has_shape(b.0)
    &&& explicit_dims_match(c.shape_of(a.0), c.shape_of(b.0), dims)
    &&& strides_fit(c.shape_of(a.0))
    &&& prefix_prods_fit(c.shape_of(a.0))
    &&& strides_fit(c.shape_of(b.0))
}

/// The axes `0..n`.
pub open spec fn leading_axes(n: nat) -> Seq<usize> {
    Seq::new(n, |i: int| i as usize)
}

proof fn lemma_leading_axes_non_broadcast(n: nat, k: nat)
    requires
        n >= 1,
        k <= n,
        n <= usize::MAX,
    ensures
        non_broadcast_axes(k, leading_axes((n - 1) as nat)) == (if k == n {
            seq![(n - 1) as usize]
        } else {
            Seq::<usize>::empty()
        }),
    decreases k,
{
    if k > 0 {
        lemma_leading_axes_non_broadcast(n, (k - 1) as nat);
        let bd = leading_axes((n - 1) as nat);
        if k < n {
            assert(bd[(k - 1) as int] == (k - 1) as usize);
            assert(bd.contains((k - 1) as usize));
        } else {
            assert forall|i: int| 0 <= i < bd.len() implies bd[i] != (k - 1) as usize by {}
            assert(!bd.contains((k - 1) as usize));
            assert(Seq::<usize>::empty().push((n - 1) as usize) =~= seq![(n - 1) as usize]);
        }
    }
}

impl Var {
    /// Allocates the output of a broadcast binary op and infers its layout.
    fn binary_output(&self, ctx: &mut Context, rhs: Var, name: &'static str) -> (r: Result<(Var, BroadcastShape)>)
        requires
            binary_fits(*old(ctx), *self, rhs),
        ensures
            match r {
                Ok((out, bs)) => {
                    &&& binary_succeeds(*old(ctx), *self, rhs)
                    &&& is_inferred_broadcast(old(ctx).shape_of(self.0), old(ctx).shape_of(rhs.0), bs)
                    &&& fresh_var(*old(ctx), *final(ctx), out, longer_of(old(ctx).shape_of(self.0), old(ctx).shape_of(rhs.0)))
                    &&& final(ctx).op_seq() == old(ctx).op_seq()
                },
                Err(e) => {
                    &&& *final(ctx) == *old(ctx)
                    &&& !binary_succeeds(*old(ctx), *self, rhs)
                    &&& if !old(ctx).has_shape(self.0) || !old(ctx).has_shape(rhs.0) {
                        e is EmptyShape
                    } else {
                        &&& e matches VolticError::IncompatibleShapes { lhs: el, rhs: er, op }
                        &&& el@ == old(ctx).shape_of(self.0)
                        &&& er@ == old(ctx).shape_of(rhs.0)
                        &&& op == name
                    }
                },
            },
    {
        let lhs_shape = match ctx.shape(self.0) {
            Some(s) => s,
            None => return Err(VolticError::EmptyShape),
        };
        let rhs_shape = match ctx.shape(rhs.0) {
            Some(s) => s,
            None => return Err(VolticError::EmptyShape),
        };
        let info = match BroadcastShape::infer(lhs_shape.as_slice(), rhs_shape.as_slice()) {
            Ok(info) => info,
            Err(_) => {
                return Err(VolticError::IncompatibleShapes { lhs: lhs_shape, rhs: rhs_shape, op: name });
            },
        };
        let out_shape = slice_copy(info.out_shape.as_slice());
        let output = Var::new(ctx);
        ctx.insert_shape(output.0, out_shape);
        Ok((output, info))
    }

    /// Builds a broadcast binary op of kind `kind`.
    fn binary_safe(self, ctx: &mut Context, rhs: Var, kind: BinaryKind) -> (r: Result<Var>)
        requires
            binary_fits(*old(ctx), self, rhs),
        ensures
            binary_result(*old(ctx), *final(ctx), self, rhs, r, kind),
    {
        let name = match kind {
            BinaryKind::Add => "add",
            BinaryKind::Sub => "sub",
            BinaryKind::Mul => "mul",
            BinaryKind::Div => "div",
        };
        let (output, info) = self.binary_output(ctx, rhs, name)?;
        let op = match kind {
            BinaryKind::Add => Op::Add(AddOp::new(self.0, rhs.0, output.0, info)),
            BinaryKind::Sub => Op::Sub(SubOp::new(self.0, rhs.0, output.0, info)),
            BinaryKind::Mul => Op::Mul(MulOp::new(self.0, rhs.0, output.0, info)),
            BinaryKind::Div => Op::Div(DivOp::new(self.0, rhs.0, output.0, info)),
        };
        ctx.push_operation(op);
        assert(ctx.op_seq().drop_last() =~= old(ctx).op_seq());
        Ok(output)
    }

    /// Builds a binary op of kind `kind` broadcasting `rhs` over the axes `dims`.
    fn binary_bc(self, ctx: &mut Context, rhs: &Var, dims: &[usize], kind: BinaryKind) -> (out: Var)
        requires
            explicit_ok(*old(ctx), self, *rhs, dims@),
        ensures
            explicit_appended(*old(ctx), *final(ctx), self, *rhs, dims@, out, kind),
    {
        let lhs_shape = self.shape(ctx);
        let rhs_shape = rhs.shape(ctx);
        let info = match BroadcastShape::with_dims(lhs_shape.as_slice(), rhs_shape.as_slice(), dims) {
            Ok(info) => info,
            Err(_) => {
                assert(false);
                return Var::new(ctx);
            },
        };
        let out_shape = slice_copy(info.out_shape.as_slice());
        let output = Var::new(ctx);
        ctx.insert_shape(output.0, out_shape);
        let op = match kind {
            BinaryKind::Add => Op::Add(AddOp::new(self.0, rhs.0, output.0, info)),
            BinaryKind::Sub => Op::Sub(SubOp::new(self.0, rhs.0, output.0, info)),
            BinaryKind::Mul => Op::Mul(MulOp::new(self.0, rhs.0, output.0, info)),
            BinaryKind::Div => Op::Div(DivOp::new(self.0, rhs.0, output.0, info)),
        };
        ctx.push_operation(op);
        assert(ctx.op_seq().drop_last() =~= old(ctx).op_seq());
        output
    }

    /// `self + rhs` with subsequence broadcasting.
    pub fn add_safe(self, ctx: &mut Context, rhs: Var) -> (r: Result<Var>)
        requires
            binary_fits(*old(ctx), self, rhs),
        ensures
            binary_result(*old(ctx), *final(ctx), self, rhs, r, BinaryKind::Add),
    {
        self.binary_safe(ctx, rhs, BinaryKind::Add)
    }

    /// `self - rhs` with subsequence broadcasting.
    pub fn sub_safe(self, ctx: &mut Context, rhs: Var) -> (r: Result<Var>)
        requires
            binary_fits(*old(ctx), self, rhs),
        ensures
            binary_result(*old(ctx), *final(ctx), self, rhs, r, BinaryKind::Sub),
    {
        self.binary_safe(ctx, rhs, BinaryKind::Sub)
    }

    /// `self * rhs` with subsequence broadcasting.
    pub fn mul_safe(self, ctx: &mut Context, rhs: Var) -> (r: Result<Var>)
        requires
            binary_fits(*old(ctx), self, rhs),
        ensures
            binary_result(*old(ctx), *final(ctx), self, rhs, r, BinaryKind::Mul),
    {
        self.binary_safe(ctx, rhs, BinaryKind::Mul)
    }

    /// `self / rhs` with subsequence broadcasting.
    pub fn div_safe(self, ctx: &mut Context, rhs: Var) -> (r: Result<Var>)
        requires
            binary_fits(*old(ctx), self, rhs),
        ensures
            binary_result(*old(ctx), *final(ctx), self, rhs, r, BinaryKind::Div),
    {
        self.binary_safe(ctx, rhs, BinaryKind::Div)
    }

    /// `self + rhs`; the shapes must be broadcastable.
    pub fn add(self, ctx: &mut Context, rhs: Var) -> (out: Var)
        requires
            binary_fits(*old(ctx), self, rhs),
            binary_succeeds(*old(ctx), self, rhs),
        ensures
            binary_appended(*old(ctx), *final(ctx), self, rhs, out, BinaryKind::Add),
    {
        match self.binary_safe(ctx, rhs, BinaryKind::Add) {
            Ok(out) => out,
            Err(_) => {
                assert(false);
                self
            },
        }
    }

    /// `self - rhs`; the shapes must be broadcastable.
    pub fn sub(self, ctx: &mut Context, rhs: Var) -> (out: Var)
        requires
            binary_fits(*old(ctx), self, rhs),
            binary_succeeds(*old(ctx), self, rhs),
        ensures
            binary_appended(*old(ctx), *final(ctx), self, rhs, out, BinaryKind::Sub),
    {
        match self.binary_safe(ctx, rhs, BinaryKind::Sub) {
            Ok(out) => out,
            Err(_) => {
                assert(false);
                self
            },
        }
    }

    /// `self * rhs`; the shapes must be broadcastable.
    pub fn mul(self, ctx: &mut Context, rhs: Var) -> (out: Var)
        requires
            binary_fits(*old(ctx), self, rhs),
            binary_succeeds(*old(ctx), self, rhs),
        ensures
            binary_appended(*old(ctx), *final(ctx), self, rhs, out, BinaryKind::Mul),
    {
        match self.binary_safe(ctx, rhs, BinaryKind::Mul) {
            Ok(out) => out,
            Err(_) => {
                assert(false);
                self
            },
        }
    }

    /// `self / rhs`; the shapes must be broadcastable.
    pub fn div(self, ctx: &mut Context, rhs: Var) -> (out: Var)
        requires
            binary_fits(*old(ctx), self, rhs),
            binary_succeeds(*old(ctx), self, rhs),
        ensures
            binary_appended(*old(ctx), *final(ctx), self, rhs, out, BinaryKind::Div),
    {
        match self.binary_safe(ctx, rhs, BinaryKind::Div) {
            Ok(out) => out,
            Err(_) => {
                assert(false);
                self
            },
        }
    }

    /// `self + rhs`, broadcasting `rhs` over the axes `dims` of `self`.
    pub fn add_bc(self, ctx: &mut Context, rhs: &Var, dims: &[usize]) -> (out: Var)
        requires
            explicit_ok(*old(ctx), self, *rhs, dims@),
        ensures
            explicit_appended(*old(ctx), *final(ctx), self, *rhs, dims@, out, BinaryKind::Add),
    {
        self.binary_bc(ctx, rhs, dims, BinaryKind::Add)
    }

    /// `self - rhs`, broadcasting `rhs` over the axes `dims` of `self`.
    pub fn sub_bc(self, ctx: &mut Context, rhs: &Var, dims: &[usize]) -> (out: Var)
        requires
            explicit_ok(*old(ctx), self, *rhs, dims@),
        ensures
            explicit_appended(*old(ctx), *final(ctx), self, *rhs, dims@, out, BinaryKind::Sub),
    {
        self.binary_bc(ctx, rhs, dims, BinaryKind::Sub)
    }

    /// `self * rhs`, broadcasting `rhs` over the axes `dims` of `self`.
    pub fn mul_bc(self, ctx: &mut Context, rhs: &Var, dims: &[usize]) -> (out: Var)
        requires
            explicit_ok(*old(ctx), self, *rhs, dims@),
        ensures
            explicit_appended(*old(ctx), *final(ctx), self, *rhs, dims@, out, BinaryKind::Mul),
    {
        self.binary_bc(ctx, rhs, dims, BinaryKind::Mul)
    }

    /// `self / rhs`, broadcasting `rhs` over the axes `dims` of `self`.
    pub fn div_bc(self, ctx: &mut Context, rhs: &Var, dims: &[usize]) -> (out: Var)
        requires
            explicit_ok(*old(ctx), self, *rhs, dims@),
        ensures
            explicit_appended(*old(ctx), *final(ctx), self, *rhs, dims@, out, BinaryKind::Div),
    {
        self.binary_bc(ctx, rhs, dims, BinaryKind::Div)
    }

    /// Applies a row bias: `rhs` runs along the last axis of `self` and is
    /// broadcast over all the others.
    fn bias_op(self, ctx: &mut Context, rhs: Var, kind: BinaryKind) -> (out: Var)
        requires
            bias_ok(*old(ctx), self, rhs),
        ensures
            explicit_appended(
                *old(ctx),
                *final(ctx),
                self,
                rhs,
                leading_axes((old(ctx).shape_of(self.0).len() - 1) as nat),
                out,
                kind,
            ),
    {
        let ndim = self.shape(ctx).len();
        let mut dims: Vec<usize> = Vec::new();
        let mut i: usize = 0;
        while i < ndim - 1
            invariant
                i <= ndim - 1,
                dims@ == leading_axes(i as nat),
            decreases ndim - 1 - i,
        {
            dims.push(i);
            i = i + 1;
            assert(dims@ =~= leading_axes(i as nat));
        }
        proof {
            let s = ctx.shape_of(self.0);
            lemma_leading_axes_non_broadcast(ndim as nat, ndim as nat);
            assert(explicit_dims_match(s, ctx.shape_of(rhs.0), dims@));
        }
        self.binary_bc(ctx, &rhs, dims.as_slice(), kind)
    }

    /// `self + rhs` with `rhs` a bias along the last axis.
    pub fn bias_add(self, ctx: &mut Context, rhs: Var) -> (out: Var)
        requires
            bias_ok(*old(ctx), self, rhs),
        ensures
            explicit_appended(*old(ctx), *final(ctx), self, rhs,
                leading_axes((old(ctx).shape_of(self.0).len() - 1) as nat), out, BinaryKind::Add),
    {
        self.bias_op(ctx, rhs, BinaryKind::Add)
    }

    /// `self - rhs` with `rhs` a bias along the last axis.
    pub fn bias_sub(self, ctx: &mut Context, rhs: Var) -> (out: Var)
        requires
            bias_ok(*old(ctx), self, rhs),
        ensures
            explicit_appended(*old(ctx), *final(ctx), self, rhs,
                leading_axes((old(ctx).shape_of(self.0).len() - 1) as nat), out, BinaryKind::Sub),
    {
        self.bias_op(ctx, rhs, BinaryKind::Sub)
    }

    /// `self * rhs` with `rhs` a bias along the last axis.
    pub fn bias_mul(self, ctx: &mut Context, rhs: Var) -> (out: Var)
        requires
            bias_ok(*old(ctx), self, rhs),
        ensures
            explicit_appended(*old(ctx), *final(ctx), self, rhs,
                leading_axes((old(ctx).shape_of(self.0).len() - 1) as nat), out, BinaryKind::Mul),
    {
        self.bias_op(ctx, rhs, BinaryKind::Mul)
    }

    /// `self / rhs` with `rhs` a bias along the last axis.
    pub fn bias_div(self, ctx: &mut Context, rhs: Var) -> (out: Var)
        requires
            bias_ok(*old(ctx), self, rhs),
        ensures
            explicit_appended(*old(ctx), *final(ctx), self, rhs,
                leading_axes((old(ctx).shape_of(self.0).len() - 1) as nat), out, BinaryKind::Div),
    {
        self.bias_op(ctx, rhs, BinaryKind::Div)
    }
}

/// A row-bias op applies: `a` has at least one axis and `b` is a vector as
/// long as `a`'s last axis.
pub open spec fn bias_ok(c: Context, a: Var, b: Var) -> bool {
    let s = c.shape_of(a.0);
    &&& c.has_shape(a.0)
    &&& c.has_shape(b.0)
    &&& s.len() >= 1
    &&& c.shape_of(b.0) == seq![s[s.len() - 1]]
    &&& strides_fit(s)
    &&& prefix_prods_fit(s)
}

/// `best` is the first position along a reduced axis (entries
/// `keys[base + r * stride]`, `r < reduce`) holding the largest key; 0 when
/// every key is 0, or when the axis is empty.
pub open spec fn is_first_max(keys: Seq<u32>, base: int, stride: int, reduce: int, best: int) -> bool {
    &&& reduce == 0 ==> best == 0
    &&& reduce > 0 ==> {
        &&& 0 <= best < reduce
        &&& forall|r: int| 0 <= r < reduce ==> #[trigger] key_at(keys, base, stride, r) <= key_at(keys, base, stride, best)
        &&& forall|r: int| 0 <= r < best ==> #[trigger] key_at(keys, base, stride, r) < key_at(keys, base, stride, best)
    }
}

/// The key at position `r` of a reduced axis.
pub open spec fn key_at(keys: Seq<u32>, base: int, stride: int, r: int) -> u32 {
    keys[base + r * stride]
}

/// The `[outer, reduce, inner]` view of `shape` around `axis`.
pub open spec fn axis_layout(shape: Seq<u32>, axis: int) -> (int, int, int) {
    (prod(shape.subrange(0, axis)), shape[axis] as int, prod(shape.subrange(axis + 1, shape.len() as int)))
}

proof fn lemma_step_bound(r: int, reduce: int, stride: int)
    requires
        0 <= r < reduce,
        stride >= 0,
    ensures
        r * stride <= (reduce - 1) * stride,
{
    assert(r * stride <= (reduce - 1) * stride) by (nonlinear_arith)
        requires
            0 <= r <= reduce - 1,
            stride >= 0,
    ;
}

proof fn lemma_layout_bounds(o: int, i: int, outer: int, reduce: int, inner: int)
    requires
        0 <= o < outer,
        0 <= i < inner,
        reduce > 0,
    ensures
        o * reduce * inner + i + (reduce - 1) * inner < outer * reduce * inner,
        o * inner + i < outer * inner,
        (o + 1) * inner == o * inner + inner,
        o * reduce <= o * reduce * inner,
{
    assert(o * reduce <= o * reduce * inner) by (nonlinear_arith)
        requires
            0 <= o,
            reduce > 0,
            inner >= 1,
    ;
    assert(o * reduce * inner + i + (reduce - 1) * inner < outer * reduce * inner) by (nonlinear_arith)
        requires
            0 <= o < outer,
            0 <= i < inner,
            reduce > 0,
    ;
    assert(o * inner + i < outer * inner) by (nonlinear_arith)
        requires
            0 <= o < outer,
            0 <= i < inner,
    ;
    assert((o + 1) * inner == o * inner + inner) by (nonlinear_arith);
}

/// Position of the first largest key along a reduced axis.
fn first_max(keys: &[u32], base: usize, stride: usize, reduce: usize) -> (best: usize)
    requires
        reduce > 0 ==> base + (reduce - 1) * stride < keys@.len(),
    ensures
        is_first_max(keys@, base as int, stride as int, reduce as int, best as int),
{
    let klen = keys.len();
    let mut max_idx: usize = 0;
    let mut max_val: u32 = 0;
    let mut r: usize = 0;
    while r < reduce
        invariant
            klen == keys@.len(),
            r <= reduce,
            reduce > 0 ==> base + (reduce - 1) * stride < keys@.len(),
            (max_val == 0 && max_idx == 0) || (max_idx < r && max_val > 0 && max_val
                == key_at(keys@, base as int, stride as int, max_idx as int)),
            forall|q: int| 0 <= q < r ==> #[trigger] key_at(keys@, base as int, stride as int, q) <= max_val,
            forall|q: int| 0 <= q < max_idx ==> #[trigger] key_at(keys@, base as int, stride as int, q) < max_val,
        decreases reduce - r,
    {
        proof {
            lemma_step_bound(r as int, reduce as int, stride as int);
            assert(r * stride <= (reduce - 1) * stride);
        }
        let idx = base + r * stride;
        if keys[idx] > max_val {
            max_val = keys[idx];
            max_idx = r;
        }
        r = r + 1;
    }
    proof {
        if reduce > 0 && max_val == 0 {
            assert(key_at(keys@, base as int, stride as int, 0) <= 0);
        }
    }
    max_idx
}

impl Var {
    /// Index of the largest value along `axis`, for every position of the
    /// other axes (row-major).  The values are given as order keys: a larger
    /// value has a larger key, and `-inf` and NaN have key 0, so that they
    /// are never picked over the first position.
    /// Whether `argmax` along `axis` can run on `n_keys` keys: the products
    /// of the sizes before and after the axis fit in `usize`, and the keys
    /// cover every element.
    pub fn argmax_fits(&self, ctx: &Context, axis: usize, n_keys: usize) -> (r: bool)
        ensures
            r == (ctx.has_shape(self.0) && axis < ctx.shape_of(self.0).len() ==> {
                let s = ctx.shape_of(self.0);
                let (outer, reduce, inner) = axis_layout(s, axis as int);
                &&& prefix_prods_fit_usize(s.subrange(0, axis as int))
                &&& prefix_prods_fit_usize(s.subrange(axis + 1, s.len() as int))
                &&& outer * inner <= usize::MAX
                &&& outer * reduce * inner <= n_keys
            }),
    {
        let s = match ctx.shape(self.0) {
            Some(s) => s,
            None => return true,
        };
        if axis >= s.len() {
            return true;
        }
        if !crate::dims::range_prods_fit_usize(s.as_slice(), 0, axis) || !crate::dims::range_prods_fit_usize(
            s.as_slice(),
            axis + 1,
            s.len(),
        ) {
            return false;
        }
        let outer = range_product_usize(s.as_slice(), 0, axis) as u128;
        let inner = range_product_usize(s.as_slice(), axis + 1, s.len()) as u128;
        let reduce = s[axis] as u128;
        assert(outer * inner <= 0xffff_ffff_ffff_ffffu128 * 0xffff_ffff_ffff_ffffu128) by (nonlinear_arith)
            requires
                outer <= 0xffff_ffff_ffff_ffffu128,
                inner <= 0xffff_ffff_ffff_ffffu128,
        ;
        let oi = outer * inner;
        if oi > usize::MAX as u128 {
            return false;
        }
        assert(oi * reduce <= 0xffff_ffff_ffff_ffffu128 * 0xffff_ffffu128) by (nonlinear_arith)
            requires
                oi <= 0xffff_ffff_ffff_ffffu128,
                reduce <= 0xffff_ffffu128,
        ;
        assert(outer * reduce * inner == oi * reduce) by (nonlinear_arith)
            requires
                oi == outer * inner,
        ;
        oi * reduce <= n_keys as u128
    }

    #[verifier::loop_isolation(false)]
    pub fn argmax(&self, ctx: &Context, axis: usize, keys: &[u32]) -> (r: Result<Vec<u32>>)
        requires
            ctx.has_shape(self.0) && axis < ctx.shape_of(self.0).len() ==> {
                let s = ctx.shape_of(self.0);
                let (outer, reduce, inner) = axis_layout(s, axis as int);
                &&& prefix_prods_fit_usize(s.subrange(0, axis as int))
                &&& prefix_prods_fit_usize(s.subrange(axis + 1, s.len() as int))
                &&& outer * inner <= usize::MAX
                &&& outer * reduce * inner <= keys@.len()
            },
        ensures
            ({
                let s = ctx.shape_of(self.0);
                let (outer, reduce, inner) = axis_layout(s, axis as int);
                match r {
                    Ok(res) => {
                        &&& ctx.has_shape(self.0)
                        &&& axis < s.len()
                        &&& res@.len() == outer * inner
                        &&& forall|o: int, i: int|
                            0 <= o < outer && 0 <= i < inner ==> is_first_max(
                                keys@,
                                o * reduce * inner + i,
                                inner,
                                reduce,
                                #[trigger] res@[o * inner + i] as int,
                            )
                    },
                    Err(e) => if !ctx.has_shape(self.0) {
                        e is EmptyShape
                    } else {
                        &&& axis >= s.len()
                        &&& e matches VolticError::InvalidDimension { dim, ndim }
                        &&& dim == axis
                        &&& ndim == s.len()
                    },
                }
            }),
    {
        let shape = match ctx.shape(self.0) {
            Some(s) => s,
            None => return Err(VolticError::EmptyShape),
        };
        if axis >= shape.len() {
            return Err(VolticError::InvalidDimension { dim: axis, ndim: shape.len() });
        }
        let klen = keys.len();
        let outer = range_product_usize(shape.as_slice(), 0, axis);
        let reduce = shape[axis] as usize;
        let inner = range_product_usize(shape.as_slice(), axis + 1, shape.len());
        let ghost s = shape@;

        let mut result: Vec<u32> = Vec::new();
        let mut o: usize = 0;
        while o < outer
            invariant
                o <= outer,
                result@.len() == o * inner,
                forall|o2: int, i2: int|
                    0 <= o2 < o && 0 <= i2 < inner ==> is_first_max(
                        keys@,
                        o2 * reduce * inner + i2,
                        inner as int,
                        reduce as int,
                        #[trigger] result@[o2 * inner + i2] as int,
                    ),
            decreases outer - o,
        {
            let mut i: usize = 0;
            while i < inner
                invariant
                    o < outer,
                    i <= inner,
                    result@.len() == o * inner + i,
                    forall|o2: int, i2: int|
                        0 <= o2 < o && 0 <= i2 < inner ==> is_first_max(
                            keys@,
                            o2 * reduce * inner + i2,
                            inner as int,
                            reduce as int,
                            #[trigger] result@[o2 * inner + i2] as int,
                        ),
                    forall|i2: int|
                        0 <= i2 < i ==> is_first_max(
                            keys@,
                            o * reduce * inner + i2,
                            inner as int,
                            reduce as int,
                            #[trigger] result@[o * inner + i2] as int,
                        ),
                decreases inner - i,
            {
                proof {
                    lemma_layout_bounds(o as int, i as int, outer as int, 1, inner as int);
                    if reduce > 0 {
                        lemma_layout_bounds(o as int, i as int, outer as int, reduce as int, inner as int);
                    } else {
                        assert(o * reduce * inner == 0 && o * reduce == 0) by (nonlinear_arith)
                            requires
                                reduce == 0,
                        ;
                    }
                }
                let base = o * reduce * inner + i;
                let best = first_max(keys, base, inner, reduce);
                let ghost before = result@;
                result.push(best as u32);
                proof {
                    assert forall|o2: int, i2: int|
                        0 <= o2 < o && 0 <= i2 < inner implies is_first_max(
                        keys@,
                        o2 * reduce * inner + i2,
                        inner as int,
                        reduce as int,
                        #[trigger] result@[o2 * inner + i2] as int,
                    ) by {
                        lemma_layout_bounds(o2, i2, o as int, 1, inner as int);
                        assert(result@[o2 * inner + i2] == before[o2 * inner + i2]);
                    }
                }
                i = i + 1;
            }
            proof {
                assert((o + 1) * inner == o * inner + inner) by (nonlinear_arith);
            }
            o = o + 1;
        }
        Ok(result)
    }

    /// Checks that this variable is a square matrix `[n, n]` and returns the
    /// causal mask to load into it: entry `[row][col]` is `true` (attend)
    /// when `col <= row`, `false` (masked out) otherwise.
    pub fn load_causal_mask(&self, ctx: &Context) -> (r: Result<Vec<Vec<bool>>>)
        ensures
            ({
                let s = ctx.shape_of(self.0);
                match r {
                    Ok(mask) => {
                        &&& ctx.has_shape(self.0)
                        &&& s.len() == 2
                        &&& s[0] == s[1]
                        &&& mask@.len() == s[0]
                        &&& forall|row: int| 0 <= row < s[0] ==> (#[trigger] mask@[row])@.len() == s[0]
                        &&& forall|row: int, col: int|
                            0 <= row < s[0] && 0 <= col < s[0] ==> #[trigger] mask@[row]@[col] == (col
                                <= row)
                    },
                    Err(e) => if !ctx.has_shape(self.0) {
                        e is EmptyShape
                    } else {
                        &&& !(s.len() == 2 && s[0] == s[1])
                        &&& e matches VolticError::IncompatibleShapes { lhs, rhs, op }
                        &&& lhs@ == s
                        &&& rhs@ == Seq::<u32>::empty()
                        &&& op == "load_causal_mask: expected square 2D tensor"
                    },
                }
            }),
    {
        let shape = match ctx.shape(self.0) {
            Some(s) => s,
            None => return Err(VolticError::EmptyShape),
        };
        if shape.len() != 2 || shape[0] != shape[1] {
            return Err(
                VolticError::IncompatibleShapes {
                    lhs: shape,
                    rhs: Vec::new(),
                    op: "load_causal_mask: expected square 2D tensor",
                },
            );
        }
        let seq_len = shape[0] as usize;
        let mut mask: Vec<Vec<bool>> = Vec::new();
        let mut row: usize = 0;
        while row < seq_len
            invariant
                row <= seq_len,
                mask@.len() == row,
                forall|r2: int| 0 <= r2 < row ==> (#[trigger] mask@[r2])@.len() == seq_len,
                forall|r2: int, c2: int|
                    0 <= r2 < row && 0 <= c2 < seq_len ==> #[trigger] mask@[r2]@[c2] == (c2 <= r2),
            decreases seq_len - row,
        {
            let mut line: Vec<bool> = Vec::new();
            let mut col: usize = 0;
            while col < seq_len
                invariant
                    col <= seq_len,
                    line@.len() == col,
                    forall|c2: int| 0 <= c2 < col ==> #[trigger] line@[c2] == (c2 <= row),
                decreases seq_len - col,
            {
                line.push(col <= row);
                col = col + 1;
            }
            mask.push(line);
            row = row + 1;
        }
        Ok(mask)
    }

    /// A fresh `[1]`-shaped constant, whose value the caller loads.
    pub fn scalar_slot(ctx: &mut Context) -> (r: Var)
        ensures
            op_appended(*old(ctx), *final(ctx), r, seq![1u32], Op::Constant(ConstantOp { id: r.0 })),
    {
        let mut shape: Vec<u32> = Vec::new();
        shape.push(1);
        let v = Self::with_shape(ctx, shape);
        ctx.push_operation(Op::Constant(ConstantOp::new(v.0)));
        v
    }
}

} // verus!
