//! Run-time tests of the conditions under which an operation's launches,
//! training buffers and gradient reductions can be planned in `u32`.
use vstd::prelude::*;

use crate::context::Context;
use crate::dims::prods_fit;
use crate::ops::op::Op;
use crate::ops::plan::{buffers_fit, fits3, fits4, launches_fit};

verus! {

/// `fits3(a, b, c)`.
pub(crate) fn check_fits3(a: u32, b: u32, c: u64) -> (r: bool)
    ensures
        r == fits3(a as int, b as int, c as int),
{
    let a2 = a as u128;
    let b2 = b as u128;
    assert(a2 * b2 <= 0xffff_ffff_ffff_ffffu128 * 0xffff_ffffu128) by (nonlinear_arith)
        requires
            a2 <= 0xffff_ffff,
            b2 <= 0xffff_ffff,
    ;
    let ab = a2 * b2;
    if ab > 0xffff_ffff {
        return false;
    }
    let c2 = c as u128;
    assert(ab * c2 <= 0xffff_ffffu128 * 0xffff_ffff_ffff_ffffu128) by (nonlinear_arith)
        requires
            ab <= 0xffff_ffff,
            c2 <= 0xffff_ffff_ffff_ffff,
    ;
    ab * c2 <= 0xffff_ffff
}

/// Whether `a * b` fits in `u32`.
fn mul_fits(a: u32, b: u32) -> (r: bool)
    ensures
        r == (a * b <= u32::MAX),
{
    assert((a as u64) * (b as u64) <= 0xffff_ffffu64 * 0xffff_ffffu64) by (nonlinear_arith)
        requires
            a <= 0xffff_ffff,
            b <= 0xffff_ffff,
    ;
    (a as u64) * (b as u64) <= 0xffff_ffff
}

/// `a * b * c`, exactly.
fn wide3(a: u32, b: u32, c: u32) -> (r: u128)
    ensures
        r == a * b * c,
        r < 0x1_0000_0000_0000_0000_0000_0000u128,
{
    let (x, y, z) = (a as u128, b as u128, c as u128);
    assert(x * y <= 0xffff_ffffu128 * 0xffff_ffffu128) by (nonlinear_arith)
        requires
            x <= 0xffff_ffff,
            y <= 0xffff_ffff,
    ;
    let xy = x * y;
    assert(xy * z <= (0xffff_ffffu128 * 0xffff_ffffu128) * 0xffff_ffffu128) by (nonlinear_arith)
        requires
            xy <= 0xffff_ffffu128 * 0xffff_ffffu128,
            z <= 0xffff_ffff,
    ;
    xy * z
}

/// `fits4(a, b, c, d)` for a `d` below `2^96`.
fn check_fits4(a: u32, b: u32, c: u32, d: u128) -> (r: bool)
    requires
        d < 0x1_0000_0000_0000_0000_0000_0000u128,
    ensures
        r == fits4(a as int, b as int, c as int, d as int),
{
    if !check_fits3(a, b, c as u64) {
        return false;
    }
    let abc = (a as u128) * (b as u128) * (c as u128);
    if d > 0xffff_ffff {
        assert(abc * d > 0xffff_ffff ==> abc != 0) by (nonlinear_arith);
        assert(abc != 0 ==> abc * d >= d) by (nonlinear_arith)
            requires
                abc >= 0,
                d >= 0,
        ;
        return abc == 0;
    }
    assert(abc * d <= 0xffff_ffffu128 * 0xffff_ffffu128) by (nonlinear_arith)
        requires
            abc <= 0xffff_ffff,
            d <= 0xffff_ffff,
    ;
    abc * d <= 0xffff_ffff
}

impl Op {
    /// Whether the workgroup counts of the op's kernels can be computed
    /// (`launches_fit`), the condition of `forward_launches` and
    /// `backward_launches`.
    pub fn launches_ok(&self) -> (r: bool)
        ensures
            r == launches_fit(*self),
    {
        match self {
            Op::MatMul(p) => p.n <= 0xffff_fff0 && p.m <= 0xffff_fff0 && p.k <= 0xffff_fff0,
            Op::Softmax(p) => p.reduce <= 0xffff_ff00 && check_fits3(p.outer, p.inner, (p.reduce as u64 + 255) / 256)
                && check_fits3(p.outer, p.reduce, p.inner as u64),
            Op::LayerNorm(p) => p.reduce <= 0xffff_ff00 && check_fits3(
                p.outer,
                p.inner,
                (p.reduce as u64 + 255) / 256,
            ) && check_fits3(p.outer, p.reduce, p.inner as u64),
            Op::GroupMul(p) => p.group_size != 0,
            Op::GroupSum(p) => p.group_size != 0,
            Op::GroupMax(p) => p.group_size != 0,
            Op::Embedding(p) => mul_fits(p.seq_len, p.d_model),
            Op::Im2Col(p) => {
                let window = wide3(p.kernel_size, p.kernel_size, p.channels);
                check_fits3(p.kernel_size, p.kernel_size, p.channels as u64) && check_fits4(
                    p.batch,
                    p.out_height,
                    p.out_width,
                    window,
                ) && check_fits4(p.batch, p.channels, p.height, p.width as u128)
            },
            _ => true,
        }
    }

    /// Whether the op's training buffers can be listed in `ctx`
    /// (`buffers_fit`), the condition of `buffers_needed`.
    pub fn buffers_ok(&self, ctx: &Context) -> (r: bool)
        ensures
            r == buffers_fit(*self, *ctx),
    {
        match self {
            Op::MatMul(p) => check_fits3(p.batch, p.m, p.k as u64) && check_fits3(p.batch, p.m, p.n as u64) && if p.rhs_batched
                == 1 {
                check_fits3(p.batch, p.k, p.n as u64)
            } else {
                mul_fits(p.k, p.n)
            },
            Op::Mse(p) => ctx.has_countable_shape(p.y_pred),
            Op::Tanh(p) => ctx.has_countable_shape(p.input),
            Op::ReLU(p) => ctx.has_countable_shape(p.input),
            Op::Sigmoid(p) => ctx.has_countable_shape(p.input),
            Op::Gelu(p) => ctx.has_countable_shape(p.input),
            Op::Exp(p) => ctx.has_countable_shape(p.input),
            Op::Softmax(p) => p.reduce <= 0xffff_ff00 && check_fits3(p.outer, p.inner, p.reduce as u64 + 255)
                && check_fits3(p.outer, p.reduce, p.inner as u64),
            Op::Permute(p) => prods_fit(p.shape.as_slice()),
            Op::Add(p) => ctx.has_countable_shape(p.lhs) && ctx.has_countable_shape(p.rhs),
            Op::Sub(p) => ctx.has_countable_shape(p.lhs) && ctx.has_countable_shape(p.rhs),
            Op::Mul(p) => ctx.has_countable_shape(p.lhs) && ctx.has_countable_shape(p.rhs),
            Op::Div(p) => ctx.has_countable_shape(p.lhs) && ctx.has_countable_shape(p.rhs),
            Op::Embedding(p) => ctx.has_countable_shape(p.weights) && mul_fits(p.seq_len, p.d_model),
            Op::Im2Col(p) => ctx.has_countable_shape(p.input),
            Op::LayerNorm(p) => ctx.has_countable_shape(p.input) && ctx.has_countable_shape(p.gamma)
                && ctx.has_countable_shape(p.beta) && p.reduce <= 0xffff_ff00 && check_fits3(
                p.outer,
                p.inner,
                (p.reduce as u64 + 255) / 256,
            ),
            _ => true,
        }
    }
}

} // verus!
