//! 2-D convolution by unfolding windows into a matrix, and its transposed
//! counterpart.
use vstd::prelude::*;

use crate::context::Context;
use crate::dims::{lemma_prod_small, prefix_prods_fit, prod, strides_fit};
use crate::errors::{Result, VolticError};
use crate::layers::linear::{bias_steps, weight_steps};
use crate::layers::{
    grows, lemma_grows_refl, lemma_grows_trans, lemma_step, matrix_count, opt_seq, push_opt, room, Fill, InitStep,
};
use crate::ops::broadcast_shape::{explicit_dims_match, non_broadcast_axes};
use crate::ops::im2col::{conv_out, conv_out_ok, conv_output_size, Im2ColOp};
use crate::ops::op::Op;
use crate::dims::shape_product;
use crate::var::{explicit_ok, swap_axes, Var};

verus! {

/// A convolution with `out_channels` filters of size
/// `kernel_size x kernel_size`; weights `[out_channels, k * k * in_channels]`
/// and bias `[out_channels]` are created on the first forward pass.
pub struct Conv2d {
    pub out_channels: u32,
    pub kernel_size: u32,
    pub stride: u32,
    pub padding: u32,
    pub weights: Option<Var>,
    pub bias: Option<Var>,
}

/// The output shape of a convolution on `[b, c, h, w]`.
pub open spec fn conv_shape(s: Seq<u32>, out_channels: u32, k: u32, stride: u32, padding: u32) -> Seq<u32> {
    seq![
        s[0],
        out_channels,
        conv_out(s[2], k, stride, padding) as u32,
        conv_out(s[3], k, stride, padding) as u32,
    ]
}

impl Conv2d {
    /// The variables of the layer have the shapes it gave them.
    pub open spec fn wf(&self, c: Context) -> bool {
        &&& self.weights matches Some(w) ==> {
            &&& c.has_shape(w.0)
            &&& c.shape_of(w.0).len() == 2
            &&& c.shape_of(w.0)[0] == self.out_channels
            &&& self.out_channels * c.shape_of(w.0)[1] <= u32::MAX
        }
        &&& self.bias matches Some(b) ==> c.has_shape(b.0) && c.shape_of(b.0) == seq![self.out_channels]
    }

    /// A fresh `k x k` convolution with the given stride and padding.
    pub open spec fn fresh(out_channels: u32, k: u32, stride: u32, padding: u32) -> Conv2d {
        Conv2d { out_channels, kernel_size: k, stride, padding, weights: None, bias: None }
    }

    /// A fresh 3x3 convolution with stride 1 and padding 1.
    pub open spec fn same_3x3(out_channels: u32) -> Conv2d {
        Conv2d::fresh(out_channels, 3, 1, 1)
    }

    /// The sizes of the two layers agree (their variables may not).
    pub open spec fn same_layout(&self, other: Conv2d) -> bool {
        &&& self.out_channels == other.out_channels
        &&& self.kernel_size == other.kernel_size
        &&& self.stride == other.stride
        &&& self.padding == other.padding
    }

    /// The shape of the layer's output on input shape `s`.
    pub open spec fn out_shape(&self, s: Seq<u32>) -> Seq<u32> {
        conv_shape(s, self.out_channels, self.kernel_size, self.stride, self.padding)
    }

    /// What a forward pass on `x` returns, from layer `l` and graph `c`,
    /// when its output goes through an element-wise activation.
    pub open spec fn step_result(l: Conv2d, c: Context, c2: Context, x: Var, r: Result<Var>) -> bool {
        let s = c.shape_of(x.0);
        match r {
            Ok(out) => {
                &&& c.has_shape(x.0)
                &&& s.len() == 4
                &&& l.matches_input(c, s)
                &&& !c.has_shape(out.0)
                &&& c2.has_shape(out.0)
                &&& c2.shape_of(out.0) == l.out_shape(s)
            },
            Err(e) => if !c.has_shape(x.0) {
                e is EmptyShape && c2 == c
            } else if s.len() != 4 {
                e matches VolticError::InvalidDimension { dim, ndim } && dim == s.len() && ndim == 4 && c2 == c
            } else {
                &&& !l.matches_input(c, s)
                &&& e matches VolticError::IncompatibleShapes { op, .. }
                &&& op == "mat_mul: K mismatch"
            },
        }
    }

    /// The parameters of the layer: its weights and its bias, where they exist.
    pub open spec fn params(&self) -> Seq<Var> {
        opt_seq(self.weights) + opt_seq(self.bias)
    }

    /// The layer has run forward: its weights and its bias exist.
    pub open spec fn ready(&self) -> bool {
        self.weights is Some && self.bias is Some
    }

    /// The weights, if they exist, take the windows of input shape `s`.
    pub open spec fn matches_input(&self, c: Context, s: Seq<u32>) -> bool {
        self.weights matches Some(w) ==> c.shape_of(w.0)[1] == self.kernel_size * self.kernel_size * s[1]
    }

    /// A graph that keeps the shapes of `c1` keeps the layer well formed
    /// and its weights as they were.
    pub proof fn lemma_extends(&self, c1: Context, c2: Context)
        requires
            self.wf(c1),
            crate::layers::shapes_extend(c1, c2),
        ensures
            self.wf(c2),
            forall|s: Seq<u32>| self.matches_input(c2, s) == #[trigger] self.matches_input(c1, s),
    {
        if let Some(w) = self.weights {
            assert(c1.shapes_view().contains_key(w.0.0));
        }
        if let Some(b) = self.bias {
            assert(c1.shapes_view().contains_key(b.0.0));
        }
    }

    /// The arithmetic of a forward pass on input shape `s` stays in `u32`.
    pub open spec fn fits(&self, s: Seq<u32>) -> bool {
        s.len() == 4 ==> {
            let (k, st, p) = (self.kernel_size, self.stride, self.padding);
            let oh = conv_out(s[2], k, st, p) as u32;
            let ow = conv_out(s[3], k, st, p) as u32;
            &&& conv_out_ok(s[2], k, st, p)
            &&& conv_out_ok(s[3], k, st, p)
            &&& k * k <= u32::MAX
            &&& k * k * s[1] <= u32::MAX
            &&& self.out_channels * (k * k * s[1]) <= u32::MAX
            &&& prefix_prods_fit(seq![s[0], oh, ow, self.out_channels])
            &&& prefix_prods_fit(conv_shape(s, self.out_channels, k, st, p))
            &&& strides_fit(conv_shape(s, self.out_channels, k, st, p))
        }
    }

    /// A convolution with stride 1, no padding and a bias.
    pub fn new(out_channels: u32, kernel_size: u32) -> (r: Self)
        ensures
            r == (Conv2d { out_channels, kernel_size, stride: 1, padding: 0, weights: None, bias: None }),
    {
        Conv2d { out_channels, kernel_size, stride: 1, padding: 0, weights: None, bias: None }
    }

    pub fn stride(self, stride: u32) -> (r: Self)
        ensures
            r == (Conv2d { stride, ..self }),
    {
        Conv2d { stride, ..self }
    }

    pub fn padding(self, padding: u32) -> (r: Self)
        ensures
            r == (Conv2d { padding, ..self }),
    {
        Conv2d { padding, ..self }
    }

    /// Drops the bias variable; the next forward pass creates a new one.
    pub fn no_bias(self) -> (r: Self)
        ensures
            r == (Conv2d { bias: None, ..self }),
    {
        Conv2d { bias: None, ..self }
    }

    /// Convolves `x: [b, c, h, w]`: unfolds its windows into
    /// `[b * oh * ow, k * k * c]`, multiplies by the transposed weights,
    /// views the result as `[b, out_channels, oh, ow]` and adds the bias
    /// per channel.
    #[verifier::rlimit(60)]
    pub fn forward(&mut self, ctx: &mut Context, x: &Var) -> (r: Result<Var>)
        requires
            old(ctx).ids_ok(),
            room(*old(ctx), 7),
            old(self).wf(*old(ctx)),
            old(ctx).has_shape(x.0) ==> old(self).fits(old(ctx).shape_of(x.0)),
        ensures
            grows(*old(ctx), *final(ctx), 7),
            final(self).wf(*final(ctx)),
            final(self).out_channels == old(self).out_channels,
            final(self).kernel_size == old(self).kernel_size,
            final(self).stride == old(self).stride,
            final(self).padding == old(self).padding,
            old(self).weights is Some ==> final(self).weights == old(self).weights,
            old(self).bias is Some ==> final(self).bias == old(self).bias,
            old(self).ready() ==> final(self).params() == old(self).params(),
            r is Ok ==> {
                let ps = final(self).params();
                let s = old(ctx).shape_of(x.0);
                &&& ps.len() == 2
                &&& final(ctx).shape_of(ps[0].0) == seq![
                    old(self).out_channels,
                    (old(self).kernel_size * old(self).kernel_size * s[1]) as u32,
                ]
                &&& final(ctx).shape_of(ps[1].0) == seq![old(self).out_channels]
            },
            ({
                let s = old(ctx).shape_of(x.0);
                let (k, st, p) = (old(self).kernel_size, old(self).stride, old(self).padding);
                match r {
                    Ok(out) => {
                        &&& old(ctx).has_shape(x.0)
                        &&& s.len() == 4
                        &&& old(self).matches_input(*old(ctx), s)
                        &&& final(self).weights matches Some(w) && final(ctx).shape_of(w.0) == seq![
                            old(self).out_channels,
                            (k * k * s[1]) as u32,
                        ]
                        &&& final(self).bias is Some
                        &&& !old(ctx).has_shape(out.0)
                        &&& final(ctx).has_shape(out.0)
                        &&& final(ctx).shape_of(out.0) == conv_shape(s, old(self).out_channels, k, st, p)
                        &&& final(ctx).op_seq().len() == old(ctx).op_seq().len() + 5
                        &&& final(ctx).op_seq()[old(ctx).op_seq().len() as int] matches Op::Im2Col(m)
                        &&& m.input == x.0
                    },
                    Err(e) => if !old(ctx).has_shape(x.0) {
                        e is EmptyShape && *final(ctx) == *old(ctx) && *final(self) == *old(self)
                    } else if s.len() != 4 {
                        &&& e matches VolticError::InvalidDimension { dim, ndim }
                        &&& dim == s.len()
                        &&& ndim == 4
                        &&& *final(ctx) == *old(ctx)
                        &&& *final(self) == *old(self)
                    } else {
                        &&& !old(self).matches_input(*old(ctx), s)
                        &&& e matches VolticError::IncompatibleShapes { lhs, rhs, op }
                        &&& op == "mat_mul: K mismatch"
                    },
                }
            }),
    {
        let ghost c0 = *ctx;
        proof {
            lemma_grows_refl(c0);
        }
        let x_shape = match ctx.shape(x.0) {
            Some(s) => s,
            None => return Err(VolticError::EmptyShape),
        };
        if x_shape.len() != 4 {
            return Err(VolticError::InvalidDimension { dim: x_shape.len(), ndim: 4 });
        }
        let ghost s = x_shape@;
        let batch = x_shape[0];
        let in_channels = x_shape[1];
        let height = x_shape[2];
        let width = x_shape[3];
        let out_h = conv_output_size(height, self.kernel_size, self.stride, self.padding);
        let out_w = conv_output_size(width, self.kernel_size, self.stride, self.padding);
        let col_w = self.kernel_size * self.kernel_size * in_channels;

        if self.weights.is_none() {
            let ws: Vec<u32> = vec![self.out_channels, col_w];
            let ghost wsv = ws@;
            let w = Var::with_shape(ctx, ws);
            proof {
                lemma_step(c0, *ctx, w, wsv);
            }
            self.weights = Some(w);
        }
        let ghost c1 = *ctx;
        let ghost n1: nat = (c1.id_counter() - c0.id_counter()) as nat;
        assert(self.wf(c1));
        if self.bias.is_none() {
            let bs: Vec<u32> = vec![self.out_channels];
            let ghost bsv = bs@;
            let b = Var::with_shape(ctx, bs);
            proof {
                lemma_step(c1, *ctx, b, bsv);
                lemma_grows_trans(c0, c1, *ctx, n1, 1);
                assert(bsv =~= seq![self.out_channels]);
            }
            self.bias = Some(b);
        } else {
            proof {
                lemma_grows_refl(c1);
                lemma_grows_trans(c0, c1, c1, n1, 0);
            }
        }
        let ghost c2 = *ctx;
        let ghost n2: nat = (c2.id_counter() - c0.id_counter()) as nat;
        assert(self.wf(c2));
        proof {
            lemma_prod_small(batch, out_h, out_w, self.out_channels, 1, 1);
        }
        assert(prefix_prods_fit(seq![batch, out_h, out_w, self.out_channels]));
        assert(prod(seq![batch, out_h, out_w, self.out_channels].take(2)) <= u32::MAX);
        assert(seq![batch, out_h, out_w, self.out_channels].take(2) =~= seq![batch, out_h]);
        assert(seq![batch, out_h, out_w, self.out_channels].take(3) =~= seq![batch, out_h, out_w]);
        assert(prod(seq![batch, out_h, out_w, self.out_channels].take(3)) <= u32::MAX);
        let col_h = batch * out_h * out_w;
        let cs: Vec<u32> = vec![col_h, col_w];
        let ghost csv = cs@;
        let x_col = Var::with_shape(ctx, cs);
        proof {
            lemma_step(c2, *ctx, x_col, csv);
        }
        ctx.push_operation(
            Op::Im2Col(
                Im2ColOp::new(
                    x.0,
                    x_col.0,
                    batch,
                    in_channels,
                    height,
                    width,
                    self.kernel_size,
                    self.stride,
                    self.padding,
                ),
            ),
        );
        let ghost c3 = *ctx;
        proof {
            assert(c3.op_seq().drop_last() =~= c2.op_seq());
            lemma_step(c2, c3, x_col, csv);
            lemma_grows_trans(c0, c2, c3, n2, 1);
        }
        assert(self.wf(c3));
        let w = match self.weights {
            Some(w) => w,
            None => {
                assert(false);
                return Err(VolticError::EmptyShape);
            },
        };
        let ghost wsh = c3.shape_of(w.0);
        proof {
            assert(wsh[1] * wsh[0] <= u32::MAX) by (nonlinear_arith)
                requires
                    wsh[0] * wsh[1] <= u32::MAX,
            ;
            crate::dims::lemma_fits2(wsh[1], wsh[0]);
            assert(swap_axes(wsh, 0, 1) =~= seq![wsh[1], wsh[0]]);
        }
        let w_t = match w.transpose(ctx, 0, 1) {
            Ok(v) => v,
            Err(e) => {
                assert(false);
                return Err(e);
            },
        };
        let ghost c4 = *ctx;
        proof {
            lemma_step(c3, c4, w_t, swap_axes(wsh, 0, 1));
            lemma_grows_trans(c0, c3, c4, n2 + 1, 1);
        }
        assert(self.wf(c4));
        let out_flat = match x_col.mat_mul(ctx, w_t) {
            Ok(v) => v,
            Err(e) => return Err(e),
        };
        let ghost c5 = *ctx;
        let ghost flat_shape = seq![col_h, self.out_channels];
        proof {
            assert(csv =~= seq![col_h, col_w]);
            assert(Seq::<u32>::empty().push(col_h).push(self.out_channels) =~= flat_shape);
            assert(csv.subrange(0, 0) =~= Seq::<u32>::empty());
            crate::layers::lemma_op_step(c4, c5, out_flat, flat_shape, c5.op_seq().last());
            lemma_grows_trans(c0, c4, c5, n2 + 2, 1);
        }
        assert(self.wf(c5));
        let oc = self.out_channels;
        let target: Vec<u32> = vec![batch, oc, out_h, out_w];
        let ghost cshape = conv_shape(s, oc, self.kernel_size, self.stride, self.padding);
        proof {
            assert(target@ =~= cshape);
            lemma_prod_small(col_h, oc, 1, 1, 1, 1);
            lemma_prod_small(batch, oc, out_h, out_w, 1, 1);
            assert(batch * out_h * out_w * oc == batch * oc * out_h * out_w) by (nonlinear_arith);
            assert(seq![batch, out_h, out_w, oc].take(4) =~= seq![batch, out_h, out_w, oc]);
            assert(prod(seq![batch, out_h, out_w, oc].take(4)) <= u32::MAX);
            assert(prod(seq![batch, out_h, out_w, oc]) <= u32::MAX);
            assert(flat_shape.take(0) =~= Seq::<u32>::empty());
            assert(flat_shape.take(1) =~= seq![col_h]);
            assert(flat_shape.take(2) =~= flat_shape);
            assert(prefix_prods_fit(flat_shape));
        }
        let out = match out_flat.reshape(ctx, target) {
            Ok(v) => v,
            Err(e) => {
                assert(false);
                return Err(e);
            },
        };
        let ghost c6 = *ctx;
        proof {
            lemma_step(c5, c6, out, cshape);
            lemma_grows_trans(c0, c5, c6, n2 + 3, 1);
        }
        assert(self.wf(c6));
        let b = match self.bias {
            Some(b) => b,
            None => {
                assert(false);
                return Err(VolticError::EmptyShape);
            },
        };
        let dims: Vec<usize> = vec![0, 2, 3];
        proof {
            let bd = dims@;
            assert(bd =~= seq![0usize, 2, 3]);
            assert(bd[0] == 0 && bd[1] == 2 && bd[2] == 3);
            assert(bd.contains(3usize) && bd.contains(2usize) && bd.contains(0usize));
            assert(!bd.contains(1usize));
            assert(non_broadcast_axes(0, bd) =~= Seq::<usize>::empty());
            assert(non_broadcast_axes(1, bd) =~= Seq::<usize>::empty());
            assert(non_broadcast_axes(2, bd) =~= seq![1usize]);
            assert(non_broadcast_axes(3, bd) =~= seq![1usize]);
            assert(non_broadcast_axes(4, bd) =~= seq![1usize]);
            assert(explicit_dims_match(cshape, seq![oc], bd));
            assert(strides_fit(seq![oc])) by {
                assert forall|k: int| 1 <= k <= 1 implies #[trigger] prod(seq![oc].subrange(k, 1)) <= u32::MAX by {
                    assert(seq![oc].subrange(1, 1) =~= Seq::<u32>::empty());
                }
            }
            assert(explicit_ok(c6, out, b, bd));
        }
        let result = out.add_bc(ctx, &b, dims.as_slice());
        proof {
            lemma_step(c6, *ctx, result, cshape);
            lemma_grows_trans(c0, c6, *ctx, n2 + 4, 1);
            assert(ctx.op_seq()[c0.op_seq().len() as int] == c3.op_seq().last());
        }
        assert(self.wf(*ctx));
        Ok(result)
    }

    /// What to load into the layer's variables: Xavier values for every
    /// entry of the weights (their second axis is the fan-in), and zeros
    /// for the bias.
    pub fn init(&self, ctx: &Context) -> (r: Result<Vec<InitStep>>)
        requires
            self.weights matches Some(w) ==> (ctx.has_shape(w.0) ==> ctx.shape_of(w.0).len() == 2),
            self.bias matches Some(b) ==> (ctx.has_shape(b.0) ==> prefix_prods_fit(ctx.shape_of(b.0))),
        ensures
            match r {
                Ok(steps) => {
                    &&& self.weights matches Some(w) ==> ctx.has_shape(w.0)
                    &&& self.bias matches Some(b) ==> ctx.has_shape(b.0)
                    &&& steps@ == filter_steps(*ctx, self.weights, 1) + bias_steps(*ctx, self.bias)
                },
                Err(e) => {
                    &&& e is EmptyShape
                    &&& (self.weights matches Some(w) && !ctx.has_shape(w.0)) || (
                    self.bias matches Some(b) && !ctx.has_shape(b.0))
                },
            },
    {
        init_filter_and_bias(ctx, self.weights, 1, self.bias)
    }

    /// The weights and the bias, those that exist.
    pub fn parameters(&self) -> (r: Vec<Var>)
        ensures
            r@ == self.params(),
    {
        let mut p: Vec<Var> = Vec::new();
        push_opt(&mut p, self.weights);
        push_opt(&mut p, self.bias);
        p
    }
}

/// The init step of a filter bank: Xavier values for all its entries, with
/// its axis `axis` as the fan-in.
pub open spec fn filter_steps(c: Context, w: Option<Var>, axis: int) -> Seq<InitStep> {
    match w {
        Some(v) => seq![
            InitStep {
                var: v,
                fill: Fill::Xavier { fan_in: c.shape_of(v.0)[axis], n: prod(c.shape_of(v.0)) as u64 },
            },
        ],
        None => Seq::empty(),
    }
}

/// Xavier values for every entry of `weights` (axis `axis` is the fan-in),
/// zeros for `bias`.
fn init_filter_and_bias(ctx: &Context, weights: Option<Var>, axis: usize, bias: Option<Var>) -> (r: Result<
    Vec<InitStep>,
>)
    requires
        axis < 2,
        weights matches Some(w) ==> (ctx.has_shape(w.0) ==> ctx.shape_of(w.0).len() == 2),
        bias matches Some(b) ==> (ctx.has_shape(b.0) ==> prefix_prods_fit(ctx.shape_of(b.0))),
    ensures
        match r {
            Ok(steps) => {
                &&& weights matches Some(w) ==> ctx.has_shape(w.0)
                &&& bias matches Some(b) ==> ctx.has_shape(b.0)
                &&& steps@ == filter_steps(*ctx, weights, axis as int) + bias_steps(*ctx, bias)
            },
            Err(e) => {
                &&& e is EmptyShape
                &&& (weights matches Some(w) && !ctx.has_shape(w.0)) || (bias matches Some(b)
                    && !ctx.has_shape(b.0))
            },
        },
{
    let mut steps: Vec<InitStep> = Vec::new();
    if let Some(w) = weights {
        let shape = match ctx.shape(w.0) {
            Some(s) => s,
            None => return Err(VolticError::EmptyShape),
        };
        let n = matrix_count(&shape);
        steps.push(InitStep { var: w, fill: Fill::Xavier { fan_in: shape[axis], n } });
    }
    if let Some(b) = bias {
        let shape = match ctx.shape(b.0) {
            Some(s) => s,
            None => return Err(VolticError::EmptyShape),
        };
        let n = shape_product(shape.as_slice());
        steps.push(InitStep { var: b, fill: Fill::Zeros { n } });
    }
    assert(steps@ =~= filter_steps(*ctx, weights, axis as int) + bias_steps(*ctx, bias));
    Ok(steps)
}

/// A transposed convolution; it records the weights `[in_channels,
/// out_channels * k * k]` and bias `[out_channels]` and an output variable of
/// the upsampled shape, without operations.
pub struct TransposedConv2d {
    pub out_channels: u32,
    pub kernel_size: u32,
    pub stride: u32,
    pub padding: u32,
    pub output_padding: u32,
    pub weights: Option<Var>,
    pub bias: Option<Var>,
}

/// `(size - 1) * stride - 2 * padding + kernel_size`, the spatial output
/// size of a transposed convolution.
pub open spec fn tconv_out(size: u32, k: u32, stride: u32, padding: u32) -> int {
    (size - 1) * stride - 2 * padding + k
}

/// The size computations of a transposed convolution, with output padding
/// `extra`, stay in `u32`.
pub open spec fn tconv_ok(size: u32, k: u32, stride: u32, padding: u32, extra: u32) -> bool {
    &&& size >= 1
    &&& (size - 1) * stride <= u32::MAX
    &&& 2 * padding <= (size - 1) * stride
    &&& tconv_out(size, k, stride, padding) + extra <= u32::MAX
}

/// `(size - 1) * stride - 2 * padding + k` in `u32` arithmetic.
fn tconv_size(size: u32, k: u32, stride: u32, padding: u32) -> (r: u32)
    requires
        tconv_ok(size, k, stride, padding, 0),
    ensures
        r == tconv_out(size, k, stride, padding),
{
    (size - 1) * stride - 2 * padding + k
}

impl TransposedConv2d {
    /// The arithmetic of a forward pass on input shape `s` stays in `u32`.
    pub open spec fn fits(&self, s: Seq<u32>) -> bool {
        s.len() == 4 ==> {
            &&& tconv_ok(s[2], self.kernel_size, self.stride, self.padding, self.output_padding)
            &&& tconv_ok(s[3], self.kernel_size, self.stride, self.padding, self.output_padding)
            &&& self.out_channels * self.kernel_size * self.kernel_size <= u32::MAX
        }
    }

    pub fn new(out_channels: u32, kernel_size: u32) -> (r: Self)
        ensures
            r == (TransposedConv2d {
                out_channels,
                kernel_size,
                stride: 1,
                padding: 0,
                output_padding: 0,
                weights: None,
                bias: None,
            }),
    {
        TransposedConv2d {
            out_channels,
            kernel_size,
            stride: 1,
            padding: 0,
            output_padding: 0,
            weights: None,
            bias: None,
        }
    }

    pub fn stride(self, stride: u32) -> (r: Self)
        ensures
            r == (TransposedConv2d { stride, ..self }),
    {
        TransposedConv2d { stride, ..self }
    }

    pub fn padding(self, padding: u32) -> (r: Self)
        ensures
            r == (TransposedConv2d { padding, ..self }),
    {
        TransposedConv2d { padding, ..self }
    }

    pub fn output_padding(self, output_padding: u32) -> (r: Self)
        ensures
            r == (TransposedConv2d { output_padding, ..self }),
    {
        TransposedConv2d { output_padding, ..self }
    }

    /// Creates the weights and bias if needed and returns a fresh variable
    /// of shape `[b, out_channels, (h - 1) * stride - 2 * padding + k,
    /// (w - 1) * stride - 2 * padding + k]`.
    pub fn forward(&mut self, ctx: &mut Context, x: &Var) -> (r: Result<Var>)
        requires
            old(ctx).ids_ok(),
            room(*old(ctx), 3),
            old(ctx).has_shape(x.0) ==> old(self).fits(old(ctx).shape_of(x.0)),
        ensures
            grows(*old(ctx), *final(ctx), 3),
            final(ctx).op_seq() == old(ctx).op_seq(),
            final(self).out_channels == old(self).out_channels,
            final(self).kernel_size == old(self).kernel_size,
            final(self).stride == old(self).stride,
            final(self).padding == old(self).padding,
            final(self).output_padding == old(self).output_padding,
            old(self).weights is Some ==> final(self).weights == old(self).weights,
            old(self).bias is Some ==> final(self).bias == old(self).bias,
            ({
                let s = old(ctx).shape_of(x.0);
                let (k, st, p) = (old(self).kernel_size, old(self).stride, old(self).padding);
                match r {
                    Ok(out) => {
                        &&& old(ctx).has_shape(x.0)
                        &&& s.len() == 4
                        &&& final(self).weights is Some
                        &&& final(self).bias is Some
                        &&& old(self).weights is None ==> final(ctx).shape_of((final(self).weights->0).0)
                            == seq![s[1], (old(self).out_channels * k * k) as u32]
                        &&& old(self).bias is None ==> final(ctx).shape_of((final(self).bias->0).0)
                            == seq![old(self).out_channels]
                        &&& !old(ctx).has_shape(out.0)
                        &&& final(ctx).shape_of(out.0) == seq![
                            s[0],
                            old(self).out_channels,
                            tconv_out(s[2], k, st, p) as u32,
                            tconv_out(s[3], k, st, p) as u32,
                        ]
                    },
                    Err(e) => {
                        &&& *final(ctx) == *old(ctx)
                        &&& *final(self) == *old(self)
                        &&& if !old(ctx).has_shape(x.0) {
                            e is EmptyShape
                        } else {
                            &&& s.len() != 4
                            &&& e matches VolticError::InvalidDimension { dim, ndim }
                            &&& dim == s.len()
                            &&& ndim == 4
                        }
                    },
                }
            }),
    {
        let ghost c0 = *ctx;
        proof {
            lemma_grows_refl(c0);
        }
        let x_shape = match ctx.shape(x.0) {
            Some(s) => s,
            None => return Err(VolticError::EmptyShape),
        };
        if x_shape.len() != 4 {
            return Err(VolticError::InvalidDimension { dim: x_shape.len(), ndim: 4 });
        }
        let batch = x_shape[0];
        let in_channels = x_shape[1];
        let height = x_shape[2];
        let width = x_shape[3];
        let k = self.kernel_size;
        assert(self.out_channels * k <= u32::MAX) by (nonlinear_arith)
            requires
                self.out_channels * k * k <= u32::MAX,
        ;
        let _out_height = tconv_size(height, k, self.stride, self.padding) + self.output_padding;
        let _out_width = tconv_size(width, k, self.stride, self.padding) + self.output_padding;
        let ghost created_w = self.weights is None;
        if self.weights.is_none() {
            let ws: Vec<u32> = vec![in_channels, self.out_channels * k * k];
            let ghost wsv = ws@;
            let w = Var::with_shape(ctx, ws);
            proof {
                lemma_step(c0, *ctx, w, wsv);
            }
            self.weights = Some(w);
        }
        let ghost c1 = *ctx;
        let ghost n1: nat = (c1.id_counter() - c0.id_counter()) as nat;
        if self.bias.is_none() {
            let bs: Vec<u32> = vec![self.out_channels];
            let ghost bsv = bs@;
            let b = Var::with_shape(ctx, bs);
            proof {
                lemma_step(c1, *ctx, b, bsv);
                lemma_grows_trans(c0, c1, *ctx, n1, 1);
                if created_w {
                    assert(c1.shapes_view().contains_key((self.weights->0).0.0));
                }
            }
            self.bias = Some(b);
        } else {
            proof {
                lemma_grows_refl(c1);
                lemma_grows_trans(c0, c1, c1, n1, 0);
            }
        }
        let ghost c2 = *ctx;
        let ghost n2: nat = (c2.id_counter() - c0.id_counter()) as nat;
        let h_out = tconv_size(height, k, self.stride, self.padding);
        let w_out = tconv_size(width, k, self.stride, self.padding);
        let shape: Vec<u32> = vec![batch, self.out_channels, h_out, w_out];
        let ghost sv = shape@;
        let output = Var::with_shape(ctx, shape);
        proof {
            lemma_step(c2, *ctx, output, sv);
            lemma_grows_trans(c0, c2, *ctx, n2, 1);
            if created_w {
                assert(c2.shapes_view().contains_key((self.weights->0).0.0));
            }
            if old(self).bias is None {
                assert(c2.shapes_view().contains_key((self.bias->0).0.0));
            }
        }
        Ok(output)
    }

    /// What to load into the layer's variables: Xavier values for every
    /// entry of the weights (their first axis is the fan-in), and zeros for
    /// the bias.
    pub fn init(&self, ctx: &Context) -> (r: Result<Vec<InitStep>>)
        requires
            self.weights matches Some(w) ==> (ctx.has_shape(w.0) ==> ctx.shape_of(w.0).len() == 2),
            self.bias matches Some(b) ==> (ctx.has_shape(b.0) ==> prefix_prods_fit(ctx.shape_of(b.0))),
        ensures
            match r {
                Ok(steps) => {
                    &&& self.weights matches Some(w) ==> ctx.has_shape(w.0)
                    &&& self.bias matches Some(b) ==> ctx.has_shape(b.0)
                    &&& steps@ == weight_steps(*ctx, self.weights) + bias_steps(*ctx, self.bias)
                },
                Err(e) => {
                    &&& e is EmptyShape
                    &&& (self.weights matches Some(w) && !ctx.has_shape(w.0)) || (
                    self.bias matches Some(b) && !ctx.has_shape(b.0))
                },
            },
    {
        let r = init_filter_and_bias(ctx, self.weights, 0, self.bias);
        proof {
            assert(filter_steps(*ctx, self.weights, 0) == weight_steps(*ctx, self.weights));
        }
        r
    }

    /// The weights and the bias, those that exist.
    pub fn parameters(&self) -> (r: Vec<Var>)
        ensures
            r@ == opt_seq(self.weights) + opt_seq(self.bias),
    {
        let mut p: Vec<Var> = Vec::new();
        push_opt(&mut p, self.weights);
        push_opt(&mut p, self.bias);
        p
    }
}

} // verus!
