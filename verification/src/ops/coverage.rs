//! How the planned launches cover the elements their kernels write.
use vstd::prelude::*;

use crate::buffer_kind::{PARTIAL, PARTIAL_SUM};
use crate::context::Context;
use crate::dims::{lemma_prod_concat, lemma_prod_nonneg, prefix_prods_fit, prod};
use crate::ops::op::Op;
use crate::ops::plan::{
    backward_launches, forward_launches, groups256, launches_fit, law_groups_cover, op_pipeline_keys, reduce_fits,
    reduce_steps, zero_axes_desc, buffers_fit, buffers_of, Dispatch,
};

verus! {

/// `x` groups of `size` threads give each of `n` elements a thread, and one
/// group fewer would not (no group is idle, none is missing).
pub open spec fn tight_cover(x: int, size: int, n: int) -> bool {
    size * x >= n && size * (x - 1) < n
}

/// A single launch of one-dimensional groups of 256 threads, one thread per
/// element of `n`.
pub open spec fn one_cover(ls: Seq<Dispatch>, n: int) -> bool {
    &&& ls.len() == 1
    &&& tight_cover(ls[0].x as int, 256, n)
    &&& ls[0].y == 1
    &&& ls[0].z == 1
}

/// A two-pass reduction over `outer * reduce * inner` values: the first
/// launch runs one group per row and chunk of 256 reduced values, the
/// second one thread per value.
pub open spec fn two_pass_cover(ls: Seq<Dispatch>, outer: int, reduce: int, inner: int) -> bool {
    &&& ls.len() == 2
    &&& exists|c: int| tight_cover(c, 256, reduce) && ls[0].x == outer * inner * c
    &&& ls[0].y == 1 && ls[0].z == 1
    &&& tight_cover(ls[1].x as int, 256, outer * reduce * inner)
    &&& ls[1].y == 1 && ls[1].z == 1
}

proof fn lemma_cover256(n: int)
    requires
        0 <= n <= u32::MAX,
    ensures
        groups256(n) <= n,
        tight_cover((groups256(n) as u32) as int, 256, n),
{
    law_groups_cover(n);
}

proof fn lemma_cover16(n: int)
    requires
        0 <= n,
        n + 15 <= u32::MAX,
    ensures
        tight_cover((((n + 15) / 16) as u32) as int, 16, n),
{
    let q = (n + 15) / 16;
    let r = (n + 15) % 16;
    assert(n + 15 == 16 * q + r && 0 <= r < 16) by (nonlinear_arith)
        requires
            q == (n + 15) / 16,
            r == (n + 15) % 16,
            n >= 0,
    ;
}

/// Every kernel of every operation covers the elements it writes: each
/// element gets one thread (16 x 16 tiles for matrix products, groups of
/// 256 otherwise), and no workgroup lies wholly past the end.
pub proof fn law_launches_cover(op: Op)
    requires
        launches_fit(op),
    ensures
        op matches Op::MatMul(p) ==> {
            let f = forward_launches(op);
            let b = backward_launches(op);
            &&& f.len() == 1
            &&& tight_cover(f[0].x as int, 16, p.n as int) && tight_cover(f[0].y as int, 16, p.m as int)
            &&& f[0].z == p.batch
            &&& b.len() == 2
            &&& tight_cover(b[0].x as int, 16, p.k as int) && tight_cover(b[0].y as int, 16, p.m as int)
            &&& b[0].z == p.batch
            &&& tight_cover(b[1].x as int, 16, p.n as int) && tight_cover(b[1].y as int, 16, p.k as int)
            &&& b[1].z == p.batch
        },
        op matches Op::Mse(p) ==> one_cover(forward_launches(op), p.n as int) && one_cover(
            backward_launches(op),
            p.n as int,
        ),
        op matches Op::Tanh(p) ==> one_cover(forward_launches(op), p.n as int) && one_cover(
            backward_launches(op),
            p.n as int,
        ),
        op matches Op::ReLU(p) ==> one_cover(forward_launches(op), p.n as int) && one_cover(
            backward_launches(op),
            p.n as int,
        ),
        op matches Op::Sigmoid(p) ==> one_cover(forward_launches(op), p.n as int) && one_cover(
            backward_launches(op),
            p.n as int,
        ),
        op matches Op::Gelu(p) ==> one_cover(forward_launches(op), p.n as int) && one_cover(
            backward_launches(op),
            p.n as int,
        ),
        op matches Op::Exp(p) ==> one_cover(forward_launches(op), p.n as int) && one_cover(
            backward_launches(op),
            p.n as int,
        ),
        op matches Op::Softmax(p) ==> two_pass_cover(
            forward_launches(op),
            p.outer as int,
            p.reduce as int,
            p.inner as int,
        ) && one_cover(backward_launches(op), p.outer * p.reduce * p.inner),
        op matches Op::LayerNorm(p) ==> two_pass_cover(
            forward_launches(op),
            p.outer as int,
            p.reduce as int,
            p.inner as int,
        ) && one_cover(backward_launches(op), p.outer * p.reduce * p.inner),
        op matches Op::Permute(p) ==> one_cover(forward_launches(op), p.total as int) && one_cover(
            backward_launches(op),
            p.total as int,
        ),
        op matches Op::GroupMul(p) ==> one_cover(forward_launches(op), (p.n / p.group_size) as int)
            && backward_launches(op).len() == 0,
        op matches Op::GroupSum(p) ==> one_cover(forward_launches(op), (p.n / p.group_size) as int)
            && backward_launches(op).len() == 0,
        op matches Op::GroupMax(p) ==> one_cover(forward_launches(op), (p.n / p.group_size) as int)
            && backward_launches(op).len() == 0,
        op matches Op::Add(p) ==> one_cover(forward_launches(op), p.bs.total as int) && one_cover(
            backward_launches(op),
            p.bs.total as int,
        ),
        op matches Op::Sub(p) ==> one_cover(forward_launches(op), p.bs.total as int) && one_cover(
            backward_launches(op),
            p.bs.total as int,
        ),
        op matches Op::Mul(p) ==> one_cover(forward_launches(op), p.bs.total as int) && one_cover(
            backward_launches(op),
            p.bs.total as int,
        ),
        op matches Op::Div(p) ==> one_cover(forward_launches(op), p.bs.total as int) && one_cover(
            backward_launches(op),
            p.bs.total as int,
        ),
        op matches Op::Embedding(p) ==> one_cover(forward_launches(op), p.seq_len * p.d_model) && one_cover(
            backward_launches(op),
            p.seq_len * p.d_model,
        ),
        op matches Op::Im2Col(p) ==> one_cover(
            forward_launches(op),
            p.batch * p.out_height * p.out_width * (p.kernel_size * p.kernel_size * p.channels),
        ) && one_cover(backward_launches(op), p.batch * p.channels * p.height * p.width),
        op matches Op::Reshape(_) ==> forward_launches(op).len() == 0 && backward_launches(op).len() == 0,
        op matches Op::Constant(_) ==> forward_launches(op).len() == 0 && backward_launches(op).len() == 0,
{
    match op {
        Op::MatMul(p) => {
            lemma_cover16(p.n as int);
            lemma_cover16(p.m as int);
            lemma_cover16(p.k as int);
        },
        Op::Mse(p) => lemma_cover256(p.n as int),
        Op::Tanh(p) => lemma_cover256(p.n as int),
        Op::ReLU(p) => lemma_cover256(p.n as int),
        Op::Sigmoid(p) => lemma_cover256(p.n as int),
        Op::Gelu(p) => lemma_cover256(p.n as int),
        Op::Exp(p) => lemma_cover256(p.n as int),
        Op::Softmax(p) => {
            lemma_two_pass(p.outer as int, p.reduce as int, p.inner as int);
            assert(two_pass_cover(forward_launches(op), p.outer as int, p.reduce as int, p.inner as int));
        },
        Op::LayerNorm(p) => {
            lemma_two_pass(p.outer as int, p.reduce as int, p.inner as int);
            assert(two_pass_cover(forward_launches(op), p.outer as int, p.reduce as int, p.inner as int));
        },
        Op::Permute(p) => lemma_cover256(p.total as int),
        Op::GroupMul(p) => lemma_group_count(p.n, p.group_size),
        Op::GroupSum(p) => lemma_group_count(p.n, p.group_size),
        Op::GroupMax(p) => lemma_group_count(p.n, p.group_size),
        Op::Add(p) => lemma_cover256(p.bs.total as int),
        Op::Sub(p) => lemma_cover256(p.bs.total as int),
        Op::Mul(p) => lemma_cover256(p.bs.total as int),
        Op::Div(p) => lemma_cover256(p.bs.total as int),
        Op::Embedding(p) => lemma_cover256(p.seq_len * p.d_model),
        Op::Im2Col(p) => {
            assert(0 <= p.batch * p.out_height * p.out_width * (p.kernel_size * p.kernel_size * p.channels))
                by (nonlinear_arith);
            assert(0 <= p.batch * p.channels * p.height * p.width) by (nonlinear_arith);
            lemma_cover256(p.batch * p.out_height * p.out_width * (p.kernel_size * p.kernel_size * p.channels));
            lemma_cover256(p.batch * p.channels * p.height * p.width);
        },
        _ => {},
    }
}

/// Every kernel an operation launches, forward or backward, is one of the
/// pipelines it asks to have compiled.
pub proof fn law_launch_keys_prepared(op: Op)
    ensures
        forall|i: int| 0 <= i < forward_launches(op).len() ==> op_pipeline_keys(op).contains(
            #[trigger] forward_launches(op)[i].key,
        ),
        forall|i: int| 0 <= i < backward_launches(op).len() ==> op_pipeline_keys(op).contains(
            #[trigger] backward_launches(op)[i].key,
        ),
{
    let keys = op_pipeline_keys(op);
    let f = forward_launches(op);
    let b = backward_launches(op);
    assert forall|i: int| 0 <= i < f.len() implies keys.contains(#[trigger] f[i].key) by {
        assert(keys[i] == f[i].key);
    }
    assert forall|i: int| 0 <= i < b.len() implies keys.contains(#[trigger] b[i].key) by {
        assert(keys[f.len() + i] == b[i].key);
    }
}

/// The axes a broadcast operand's gradient is reduced along are exactly
/// those with stride 0, each once, highest first.
pub proof fn law_zero_axes(strides: Seq<u32>)
    requires
        strides.len() <= usize::MAX,
    ensures
        forall|i: int| 0 <= i < zero_axes_desc(strides).len() ==> {
            let a = #[trigger] zero_axes_desc(strides)[i] as int;
            0 <= a < strides.len() && strides[a] == 0
        },
        forall|i: int, j: int|
            0 <= i < j < zero_axes_desc(strides).len() ==> #[trigger] zero_axes_desc(strides)[i]
                > #[trigger] zero_axes_desc(strides)[j],
        forall|a: int| 0 <= a < strides.len() && strides[a] == 0 ==> zero_axes_desc(strides).contains(a as usize),
    decreases strides.len(),
{
    if strides.len() > 0 {
        let rest = zero_axes_desc(strides.drop_last());
        law_zero_axes(strides.drop_last());
        let z = zero_axes_desc(strides);
        let n = strides.len() - 1;
        if strides.last() == 0 {
            assert(z == seq![n as usize] + rest);
            assert forall|i: int| 0 <= i < z.len() implies {
                let a = #[trigger] z[i] as int;
                0 <= a < strides.len() && strides[a] == 0
            } by {
                if i > 0 {
                    assert(z[i] == rest[i - 1]);
                }
            }
            assert forall|i: int, j: int| 0 <= i < j < z.len() implies #[trigger] z[i] > #[trigger] z[j] by {
                assert(z[j] == rest[j - 1]);
                if i > 0 {
                    assert(z[i] == rest[i - 1]);
                }
            }
            assert forall|a: int| 0 <= a < strides.len() && strides[a] == 0 implies z.contains(a as usize) by {
                if a < n {
                    assert(strides.drop_last()[a] == 0);
                    let k = choose|k: int| 0 <= k < rest.len() && rest[k] == a as usize;
                    assert(z[k + 1] == a as usize);
                } else {
                    assert(z[0] == a as usize);
                }
            }
        } else {
            assert forall|a: int| 0 <= a < strides.len() && strides[a] == 0 implies z.contains(a as usize) by {
                assert(strides.drop_last()[a] == 0);
            }
        }
    }
}

/// `s` with axis `a` removed has the product of the sizes before and after
/// it; `s` itself also has axis `a`'s size as a factor.
proof fn lemma_prod_around(s: Seq<u32>, a: int)
    requires
        0 <= a < s.len(),
    ensures
        prod(s) == prod(s.subrange(0, a)) * s[a] * prod(s.subrange(a + 1, s.len() as int)),
        prod(s.remove(a)) == prod(s.subrange(0, a)) * prod(s.subrange(a + 1, s.len() as int)),
{
    let pre = s.subrange(0, a);
    let post = s.subrange(a + 1, s.len() as int);
    assert(s =~= pre + seq![s[a]] + post);
    assert(s.remove(a) =~= pre + post);
    lemma_prod_concat(pre + seq![s[a]], post);
    lemma_prod_concat(pre, seq![s[a]]);
    lemma_prod_concat(pre, post);
    assert(seq![s[a]].drop_last() =~= Seq::<u32>::empty());
    assert(prod(Seq::<u32>::empty()) == 1);
    assert(prod(seq![s[a]]) == prod(seq![s[a]].drop_last()) * s[a]);
}

proof fn lemma_fit_prod(s: Seq<u32>)
    requires
        prefix_prods_fit(s),
    ensures
        0 <= prod(s) <= u32::MAX,
{
    assert(s.take(s.len() as int) =~= s);
    lemma_prod_nonneg(s);
}

/// A reduction plan covers the whole array, step after step: the first
/// step reduces all the elements of `shape` and each next one the output of
/// the previous; a step on axis `a` of the first shape has the product of
/// the sizes before `a` as its rows and of those after it as its columns;
/// every step writes one value per row and column, runs one group per row,
/// column and chunk of 256 reduced values, and only the last one writes the
/// gradient itself.
pub proof fn law_reduce_steps_chain(shape: Seq<u32>, axes: Seq<usize>)
    requires
        reduce_fits(shape, axes),
    ensures
        reduce_steps(shape, axes).len() == axes.len(),
        forall|i: int| 0 <= i < axes.len() ==> (#[trigger] reduce_steps(shape, axes)[i]).axis == axes[i],
        forall|i: int| 0 <= i < axes.len() ==> {
            let st = #[trigger] reduce_steps(shape, axes)[i];
            &&& st.out_size == st.outer * st.inner
            &&& st.n_partials == st.outer * st.inner * st.n_chunks
            &&& tight_cover(st.n_chunks as int, 256, st.reduce as int)
            &&& st.last == (i == axes.len() - 1)
        },
        axes.len() > 0 ==> {
            let st = reduce_steps(shape, axes)[0];
            &&& st.outer * st.reduce * st.inner == prod(shape)
            &&& st.outer == prod(shape.take(axes[0] as int))
            &&& st.reduce == shape[axes[0] as int]
            &&& st.inner == prod(shape.skip(axes[0] + 1))
        },
        forall|i: int|
            0 <= i < axes.len() - 1 ==> {
                let next = #[trigger] reduce_steps(shape, axes)[i + 1];
                next.outer * next.reduce * next.inner == reduce_steps(shape, axes)[i].out_size
            },
    decreases axes.len(),
{
    if axes.len() > 0 {
        let a = axes[0] as int;
        let pre = shape.subrange(0, a);
        let post = shape.subrange(a + 1, shape.len() as int);
        let rest_shape = shape.remove(a);
        let rest_axes = axes.drop_first();
        lemma_fit_prod(pre);
        lemma_fit_prod(post);
        lemma_prod_around(shape, a);
        law_groups_cover(shape[a] as int);
        lemma_cover256(shape[a] as int);
        let st = reduce_steps(shape, axes);
        let rest = reduce_steps(rest_shape, rest_axes);
        law_reduce_steps_chain(rest_shape, rest_axes);
        assert(st == seq![st[0]] + rest);
        assert(pre =~= shape.take(a));
        assert(post =~= shape.skip(a + 1));
        assert(prod(pre) * prod(post) <= u32::MAX);
        assert(st[0].out_size == st[0].outer * st[0].inner);
        assert(st[0].outer * st[0].reduce * st[0].inner == prod(shape)) by (nonlinear_arith)
            requires
                st[0].outer == prod(pre),
                st[0].inner == prod(post),
                st[0].reduce == shape[a],
                prod(shape) == prod(pre) * shape[a] * prod(post),
        ;
        assert forall|i: int| 0 <= i < axes.len() implies (#[trigger] st[i]).axis == axes[i] by {
            if i > 0 {
                assert(st[i] == rest[i - 1]);
                assert(rest_axes[i - 1] == axes[i]);
            }
        }
        assert forall|i: int| 0 <= i < axes.len() implies {
            let s_i = #[trigger] st[i];
            &&& s_i.out_size == s_i.outer * s_i.inner
            &&& s_i.n_partials == s_i.outer * s_i.inner * s_i.n_chunks
            &&& tight_cover(s_i.n_chunks as int, 256, s_i.reduce as int)
            &&& s_i.last == (i == axes.len() - 1)
        } by {
            if i > 0 {
                assert(st[i] == rest[i - 1]);
            }
        }
        assert forall|i: int| 0 <= i < axes.len() - 1 implies {
            let next = #[trigger] st[i + 1];
            next.outer * next.reduce * next.inner == st[i].out_size
        } by {
            assert(st[i + 1] == rest[i]);
            if i > 0 {
                assert(st[i] == rest[i - 1]);
            } else {
                assert(rest_shape.len() == shape.len() - 1);
            }
        }
    }
}

/// The first pass of softmax and of layer normalisation writes one partial
/// result per workgroup: both partial buffers it requests hold at least that
/// many values.
pub proof fn law_partials_hold_first_pass(op: Op, c: Context)
    requires
        launches_fit(op),
        buffers_fit(op, c),
        op is Softmax || op is LayerNorm,
    ensures
        forall|k: int|
            0 <= k < buffers_of(op, c).len() && ((#[trigger] buffers_of(op, c)[k]).1 == PARTIAL || buffers_of(op, c)[k].1
                == PARTIAL_SUM) ==> buffers_of(op, c)[k].2 >= forward_launches(op)[0].x,
{
    match op {
        Op::Softmax(p) => {
            let (o, i, r) = (p.outer as int, p.inner as int, p.reduce as int);
            assert(o * i * ((r + 255) / 256) <= o * i * (r + 255) / 256) by (nonlinear_arith)
                requires
                    o >= 0,
                    i >= 0,
                    r >= 0,
            ;
            assert(o * i * ((r + 255) / 256) >= 0) by (nonlinear_arith)
                requires
                    o >= 0,
                    i >= 0,
                    r >= 0,
            ;
            assert(o * i * (r + 255) / 256 <= o * i * (r + 255)) by (nonlinear_arith)
                requires
                    o >= 0,
                    i >= 0,
                    r >= 0,
            ;
        },
        _ => {},
    }
}

proof fn lemma_group_count(n: u32, group_size: u32)
    requires
        group_size != 0,
    ensures
        tight_cover((groups256((n / group_size) as int) as u32) as int, 256, (n / group_size) as int),
{
    assert(n / group_size <= n) by (nonlinear_arith)
        requires
            group_size >= 1,
    ;
    lemma_cover256((n / group_size) as int);
}

proof fn lemma_two_pass(outer: int, reduce: int, inner: int)
    requires
        0 <= outer,
        0 <= reduce,
        0 <= inner,
        reduce + 255 <= u32::MAX,
        outer * inner <= u32::MAX,
        outer * inner * ((reduce + 255) / 256) <= u32::MAX,
        outer * reduce <= u32::MAX,
        outer * reduce * inner <= u32::MAX,
    ensures
        tight_cover(groups256(reduce), 256, reduce),
        tight_cover((groups256(outer * reduce * inner) as u32) as int, 256, outer * reduce * inner),
        outer * inner * groups256(reduce) <= u32::MAX,
{
    law_groups_cover(reduce);
    assert(0 <= outer * reduce * inner) by (nonlinear_arith)
        requires
            0 <= outer,
            0 <= reduce,
            0 <= inner,
    ;
    lemma_cover256(outer * reduce * inner);
}

} // verus!
