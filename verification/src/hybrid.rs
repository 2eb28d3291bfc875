//! State-space block of the hybrid Mamba/Transformer model.
use vstd::prelude::*;

use crate::context::Context;
use crate::errors::{Result, VolticError};
use crate::layers::linear::{bias_steps, dense_fits, dense_shape, fresh_linear, weight_steps};
use crate::layers::{
    grows, lemma_grows_refl, lemma_grows_trans, lemma_op_step, lemma_step, opt_seq, room, view_as, Fill, InitStep,
    Linear,
};
use crate::dims::{prefix_prods_fit, strides_fit};
use crate::layers::gpt_net::mask_steps;
use crate::layers::norm::{ones_then_zeros, LayerNorm};
use crate::ops::broadcast_shape::{greedy_align, lemma_greedy_self};
use crate::var::Var;

verus! {

/// A gated state-space step: `out_proj(sigmoid(x_proj x) * sigmoid(a_proj x))`,
/// with a `dt_proj` projection that is computed alongside.
pub struct SsmLayer {
    pub d_model: u32,
    pub state_dim: u32,
    pub x_proj: Linear,
    pub dt_proj: Linear,
    pub a_proj: Linear,
    pub out_proj: Linear,
}

/// The init steps of a linear layer.
pub open spec fn linear_steps(c: Context, l: Linear) -> Seq<InitStep> {
    weight_steps(c, l.weights) + bias_steps(c, l.bias)
}

/// The variables of a linear layer, weights first.
pub open spec fn linear_params(l: Linear) -> Seq<Var> {
    crate::layers::opt_seq(l.weights) + crate::layers::opt_seq(l.bias)
}

/// Collects the init steps of a well-formed linear layer.
pub fn linear_init(l: &Linear, ctx: &Context) -> (r: Vec<InitStep>)
    requires
        l.wf(*ctx),
    ensures
        r@ == linear_steps(*ctx, *l),
{
    proof {
        crate::var::lemma_prod_single(l.out_features);
    }
    match l.init(ctx) {
        Ok(steps) => steps,
        Err(_) => {
            assert(false);
            Vec::new()
        },
    }
}

impl SsmLayer {
    /// The projections have the widths the layer gave them and their
    /// variables have shapes in `c`.
    pub open spec fn wf(&self, c: Context) -> bool {
        &&& self.x_proj.out_features == self.state_dim
        &&& self.dt_proj.out_features == self.state_dim
        &&& self.a_proj.out_features == self.state_dim
        &&& self.out_proj.out_features == self.d_model
        &&& self.x_proj.wf(c)
        &&& self.dt_proj.wf(c)
        &&& self.a_proj.wf(c)
        &&& self.out_proj.wf(c)
    }

    /// The shapes of a step on `x` fit in `u32`.
    pub open spec fn accepts(&self, c: Context, x: Var) -> bool {
        c.has_shape(x.0) ==> {
            let s = c.shape_of(x.0);
            &&& dense_fits(s, self.state_dim)
            &&& s.len() >= 2 ==> dense_fits(dense_shape(s, self.state_dim), self.d_model)
        }
    }

    /// The shapes of a step on an input of shape `s` fit in `u32`.
    pub open spec fn accepts_shape(&self, s: Seq<u32>) -> bool {
        &&& dense_fits(s, self.state_dim)
        &&& s.len() >= 2 ==> dense_fits(dense_shape(s, self.state_dim), self.d_model)
    }

    /// The layer `new` makes.
    pub open spec fn new_spec(d_model: u32, state_dim: u32) -> SsmLayer {
        SsmLayer {
            d_model,
            state_dim,
            x_proj: fresh_linear(state_dim),
            dt_proj: fresh_linear(state_dim),
            a_proj: fresh_linear(state_dim),
            out_proj: fresh_linear(d_model),
        }
    }

    /// Every projection takes the inputs it will see on input shape `s`.
    pub open spec fn matches_input(&self, c: Context, s: Seq<u32>) -> bool {
        &&& self.x_proj.matches_input(c, s)
        &&& self.dt_proj.matches_input(c, s)
        &&& self.a_proj.matches_input(c, s)
        &&& self.out_proj.matches_input(c, dense_shape(s, self.state_dim))
    }

    /// What a step on `x` returns, from layer `l` and graph `c`.
    pub open spec fn step_result(l: SsmLayer, c: Context, c2: Context, x: Var, r: Result<Var>) -> bool {
        let s = c.shape_of(x.0);
        match r {
            Ok(out) => {
                &&& c.has_shape(x.0)
                &&& s.len() >= 2
                &&& l.matches_input(c, s)
                &&& !c.has_shape(out.0)
                &&& c2.has_shape(out.0)
                &&& c2.shape_of(out.0) == dense_shape(s, l.d_model)
            },
            Err(e) => if !c.has_shape(x.0) {
                e is EmptyShape && c2 == c
            } else if s.len() < 2 {
                e matches VolticError::InvalidDimension { dim, ndim } && dim == s.len() && ndim == 2
            } else {
                &&& !l.matches_input(c, s)
                &&& e matches VolticError::IncompatibleShapes { op, .. }
                &&& op == "mat_mul: K mismatch"
            },
        }
    }

    /// A graph that keeps the shapes of `c1` keeps the layer well formed
    /// and its projections taking the inputs they took.
    pub proof fn lemma_extends(&self, c1: Context, c2: Context)
        requires
            self.wf(c1),
            crate::layers::shapes_extend(c1, c2),
        ensures
            self.wf(c2),
            forall|s: Seq<u32>| self.matches_input(c2, s) == #[trigger] self.matches_input(c1, s),
    {
        self.x_proj.lemma_extends(c1, c2);
        self.dt_proj.lemma_extends(c1, c2);
        self.a_proj.lemma_extends(c1, c2);
        self.out_proj.lemma_extends(c1, c2);
    }

    /// A block of model width `d_model` with a state of `state_dim`.
    pub fn new(d_model: u32, state_dim: u32) -> (r: Self)
        ensures
            r.d_model == d_model,
            r.state_dim == state_dim,
            r.x_proj == fresh_linear(state_dim),
            r.dt_proj == fresh_linear(state_dim),
            r.a_proj == fresh_linear(state_dim),
            r.out_proj == fresh_linear(d_model),
    {
        SsmLayer {
            d_model,
            state_dim,
            x_proj: Linear::new(state_dim),
            dt_proj: Linear::new(state_dim),
            a_proj: Linear::new(state_dim),
            out_proj: Linear::new(d_model),
        }
    }

    /// One step on `x` (`[.., d_model]`), giving `[.., d_model]`.
    #[verifier::rlimit(80)]
    pub fn forward_step(&mut self, ctx: &mut Context, x: &Var) -> (r: Result<Var>)
        requires
            old(ctx).ids_ok(),
            room(*old(ctx), 19),
            old(self).wf(*old(ctx)),
            old(self).accepts(*old(ctx), *x),
        ensures
            grows(*old(ctx), *final(ctx), 19),
            final(self).wf(*final(ctx)),
            final(self).d_model == old(self).d_model,
            final(self).state_dim == old(self).state_dim,
            SsmLayer::step_result(*old(self), *old(ctx), *final(ctx), *x, r),
    {
        let ghost c0 = *ctx;
        let ghost l0 = *self;
        let ghost s = c0.shape_of(x.0);
        proof {
            lemma_grows_refl(c0);
        }
        let xo = match self.x_proj.forward(ctx, x) {
            Ok(v) => v,
            Err(e) => return Err(e),
        };
        let ghost c1 = *ctx;
        proof {
            l0.dt_proj.lemma_extends(c0, c1);
            l0.a_proj.lemma_extends(c0, c1);
            l0.out_proj.lemma_extends(c0, c1);
        }
        let _dt = match self.dt_proj.forward(ctx, x) {
            Ok(v) => v,
            Err(e) => {
                proof {
                    lemma_grows_trans(c0, c1, *ctx, 4, 4);
                }
                return Err(e);
            },
        };
        let ghost c2 = *ctx;
        proof {
            lemma_grows_trans(c0, c1, c2, 4, 4);
            self.x_proj.lemma_extends(c1, c2);
            l0.a_proj.lemma_extends(c1, c2);
            l0.out_proj.lemma_extends(c1, c2);
        }
        let a = match self.a_proj.forward(ctx, x) {
            Ok(v) => v,
            Err(e) => {
                proof {
                    lemma_grows_trans(c0, c2, *ctx, 8, 4);
                }
                return Err(e);
            },
        };
        let ghost c3 = *ctx;
        let ghost t = dense_shape(s, self.state_dim);
        proof {
            lemma_grows_trans(c0, c2, c3, 8, 4);
            self.x_proj.lemma_extends(c2, c3);
            self.dt_proj.lemma_extends(c2, c3);
            l0.out_proj.lemma_extends(c2, c3);
        }
        let a_sig = match a.sigmoid(ctx) {
            Ok(v) => v,
            Err(e) => {
                assert(false);
                return Err(e);
            },
        };
        let ghost c4 = *ctx;
        proof {
            lemma_op_step(c3, c4, a_sig, t, c4.op_seq().last());
            lemma_grows_trans(c0, c3, c4, 12, 1);
        }
        let x_sig = match xo.sigmoid(ctx) {
            Ok(v) => v,
            Err(e) => {
                assert(false);
                return Err(e);
            },
        };
        let ghost c5 = *ctx;
        proof {
            lemma_op_step(c4, c5, x_sig, t, c5.op_seq().last());
            lemma_grows_trans(c0, c4, c5, 13, 1);
            lemma_greedy_self(t);
        }
        let combined = x_sig.mul(ctx, a_sig);
        let ghost c6 = *ctx;
        proof {
            lemma_step(c5, c6, combined, t);
            lemma_grows_trans(c0, c5, c6, 14, 1);
            self.x_proj.lemma_extends(c3, c6);
            self.dt_proj.lemma_extends(c3, c6);
            self.a_proj.lemma_extends(c3, c6);
            l0.out_proj.lemma_extends(c3, c6);
            l0.out_proj.lemma_extends(c0, c6);
        }
        let out = self.out_proj.forward(ctx, &combined);
        proof {
            lemma_grows_trans(c0, c6, *ctx, 15, 4);
            self.x_proj.lemma_extends(c6, *ctx);
            self.dt_proj.lemma_extends(c6, *ctx);
            self.a_proj.lemma_extends(c6, *ctx);
            assert(dense_shape(t, self.d_model) =~= dense_shape(s, self.d_model));
        }
        out
    }

    /// The init steps of the four projections, in order.
    pub fn init(&self, ctx: &Context) -> (r: Vec<InitStep>)
        requires
            self.wf(*ctx),
        ensures
            r@ == linear_steps(*ctx, self.x_proj) + linear_steps(*ctx, self.dt_proj) + linear_steps(
                *ctx,
                self.a_proj,
            ) + linear_steps(*ctx, self.out_proj),
    {
        let mut steps = linear_init(&self.x_proj, ctx);
        let mut more = linear_init(&self.dt_proj, ctx);
        steps.append(&mut more);
        let mut more = linear_init(&self.a_proj, ctx);
        steps.append(&mut more);
        let mut more = linear_init(&self.out_proj, ctx);
        steps.append(&mut more);
        steps
    }

    /// The variables of the four projections, in order.
    pub fn parameters(&self) -> (r: Vec<Var>)
        ensures
            r@ == linear_params(self.x_proj) + linear_params(self.dt_proj) + linear_params(self.a_proj)
                + linear_params(self.out_proj),
    {
        let mut p = self.x_proj.parameters();
        let mut more = self.dt_proj.parameters();
        p.append(&mut more);
        let mut more = self.a_proj.parameters();
        p.append(&mut more);
        let mut more = self.out_proj.parameters();
        p.append(&mut more);
        p
    }
}


/// `[b * t, d]` for a `[b, t, d]` input.
pub open spec fn flat_shape(s: Seq<u32>) -> Seq<u32> {
    seq![(s[0] * s[1]) as u32, s[2]]
}

/// A hybrid block: a normalised state-space step added back to the input
/// (over `[b * t, d_model]`), then a normalised GELU feed-forward layer
/// whose output is normalised again and added back; the `[t, t]` causal
/// mask variable is created on the first forward pass and filled by `init`.
pub struct HybridMambaTransformer {
    pub ssm: SsmLayer,
    pub attn_norm: LayerNorm,
    pub ssm_norm: LayerNorm,
    pub ff_norm: LayerNorm,
    pub ff: Linear,
    pub num_heads: u32,
    pub d_model: u32,
    pub causal_mask: Option<Var>,
}

impl HybridMambaTransformer {
    /// The sublayers' variables and the mask (`[t, t]`) have their shapes in `c`.
    pub open spec fn wf(&self, c: Context) -> bool {
        &&& self.ssm.wf(c)
        &&& self.attn_norm.wf(c)
        &&& self.ssm_norm.wf(c)
        &&& self.ff_norm.wf(c)
        &&& self.ff.wf(c)
        &&& self.causal_mask matches Some(m) ==> c.has_shape(m.0) && c.shape_of(m.0).len() == 2
            && c.shape_of(m.0)[0] == c.shape_of(m.0)[1]
    }

    /// The state-space residual is reached on input shape `s`.
    pub open spec fn reaches_ssm_add(&self, c: Context, s: Seq<u32>) -> bool {
        s[2] == self.attn_norm.d_model && self.ssm.matches_input(c, flat_shape(s))
    }

    /// The feed-forward residual is reached on input shape `s`.
    pub open spec fn reaches_ff_add(&self, c: Context, s: Seq<u32>) -> bool {
        &&& self.reaches_ssm_add(c, s)
        &&& s[2] == self.ssm_norm.d_model
        &&& self.ff.matches_input(c, s)
        &&& self.ff.out_features == self.ff_norm.d_model
    }

    /// The shapes of a forward pass on `x` fit in `u32`, and the two
    /// residual additions, where they are reached, have broadcastable
    /// operands (the block panics on the others, as `+` does).
    pub open spec fn accepts(&self, c: Context, x: Var) -> bool {
        c.has_shape(x.0) && c.shape_of(x.0).len() == 3 ==> {
            let s = c.shape_of(x.0);
            let f = flat_shape(s);
            let hs = seq![s[0], s[1], self.ff.out_features];
            &&& prefix_prods_fit(s)
            &&& strides_fit(s)
            &&& self.ssm.accepts_shape(f)
            &&& dense_fits(s, self.ff.out_features)
            &&& strides_fit(hs)
            &&& self.reaches_ssm_add(c, s) ==> greedy_align(s, seq![f[0], self.ssm.d_model]) is Some
            &&& self.reaches_ff_add(c, s) ==> greedy_align(s, hs) is Some
        }
    }

    /// What a forward pass on `x` returns, from block `l` and graph `c`.
    pub open spec fn forward_result(l: HybridMambaTransformer, c: Context, c2: Context, x: Var, r: Result<Var>) -> bool {
        let s = c.shape_of(x.0);
        let hs = seq![s[0], s[1], l.ff.out_features];
        match r {
            Ok(out) => {
                &&& c.has_shape(x.0)
                &&& s.len() == 3
                &&& l.reaches_ff_add(c, s)
                &&& !c.has_shape(out.0)
                &&& c2.has_shape(out.0)
                &&& c2.shape_of(out.0) == s
            },
            Err(e) => if !c.has_shape(x.0) {
                e is EmptyShape && c2 == c
            } else if s.len() != 3 {
                e matches VolticError::InvalidDimension { dim, ndim } && dim == s.len() && ndim == 3 && c2 == c
            } else if s[2] != l.attn_norm.d_model {
                &&& e matches VolticError::IncompatibleShapes { lhs, rhs, op }
                &&& lhs@ == s
                &&& rhs@ == seq![l.attn_norm.d_model]
                &&& op == "layer_norm"
            } else if !l.ssm.matches_input(c, flat_shape(s)) {
                e matches VolticError::IncompatibleShapes { op, .. } && op == "mat_mul: K mismatch"
            } else if s[2] != l.ssm_norm.d_model {
                &&& e matches VolticError::IncompatibleShapes { lhs, rhs, op }
                &&& lhs@ == s
                &&& rhs@ == seq![l.ssm_norm.d_model]
                &&& op == "layer_norm"
            } else if !l.ff.matches_input(c, s) {
                e matches VolticError::IncompatibleShapes { lhs, op, .. } && lhs@ == s && op == "mat_mul: K mismatch"
            } else {
                &&& l.ff.out_features != l.ff_norm.d_model
                &&& e matches VolticError::IncompatibleShapes { lhs, rhs, op }
                &&& lhs@ == hs
                &&& rhs@ == seq![l.ff_norm.d_model]
                &&& op == "layer_norm"
            },
        }
    }

    /// A hybrid block of width `d_model` with a state of `state_dim` and a
    /// feed-forward width of `4 * d_model`.
    pub fn new(d_model: u32, num_heads: u32, state_dim: u32) -> (r: Result<Self>)
        requires
            d_model * 4 <= u32::MAX,
        ensures
            r matches Ok(h) && h.ssm == SsmLayer::new_spec(d_model, state_dim) && h.attn_norm == (LayerNorm {
                d_model,
                gamma: None,
                beta: None,
            }) && h.ssm_norm == (LayerNorm { d_model, gamma: None, beta: None }) && h.ff_norm == (LayerNorm {
                d_model,
                gamma: None,
                beta: None,
            }) && h.ff == fresh_linear((d_model * 4) as u32) && h.num_heads == num_heads && h.d_model == d_model
                && h.causal_mask is None,
    {
        Ok(HybridMambaTransformer {
            ssm: SsmLayer::new(d_model, state_dim),
            attn_norm: LayerNorm::new(d_model),
            ssm_norm: LayerNorm::new(d_model),
            ff_norm: LayerNorm::new(d_model),
            ff: Linear::new(d_model * 4),
            num_heads,
            d_model,
            causal_mask: None,
        })
    }
}


impl HybridMambaTransformer {
    /// A graph that keeps the shapes of `c1` keeps the block well formed
    /// and its projections taking the inputs they took.
    pub proof fn lemma_extends(&self, c1: Context, c2: Context)
        requires
            self.wf(c1),
            crate::layers::shapes_extend(c1, c2),
        ensures
            self.wf(c2),
            forall|s: Seq<u32>| self.ssm.matches_input(c2, s) == #[trigger] self.ssm.matches_input(c1, s),
            forall|s: Seq<u32>| self.ff.matches_input(c2, s) == #[trigger] self.ff.matches_input(c1, s),
    {
        self.ssm.lemma_extends(c1, c2);
        self.attn_norm.lemma_extends(c1, c2);
        self.ssm_norm.lemma_extends(c1, c2);
        self.ff_norm.lemma_extends(c1, c2);
        self.ff.lemma_extends(c1, c2);
        if let Some(m) = self.causal_mask {
            assert(c1.shapes_view().contains_key(m.0.0));
        }
    }

    /// `h = x + ssm(norm(x))` over `[b * t, d_model]`, then
    /// `h + norm(gelu(ff(norm(h))))`, on `x` (`[b, t, d_model]`); creates the
    /// `[t, t]` causal mask on first use. The `mask` argument is not read.
    #[verifier::rlimit(100)]
    pub fn forward(&mut self, ctx: &mut Context, x: &Var, mask: Option<&Var>) -> (r: Result<Var>)
        requires
            old(ctx).ids_ok(),
            room(*old(ctx), 37),
            old(self).wf(*old(ctx)),
            old(self).accepts(*old(ctx), *x),
        ensures
            grows(*old(ctx), *final(ctx), 37),
            final(self).wf(*final(ctx)),
            final(self).d_model == old(self).d_model,
            final(self).num_heads == old(self).num_heads,
            old(self).causal_mask is Some ==> final(self).causal_mask == old(self).causal_mask,
            ({
                let s = old(ctx).shape_of(x.0);
                old(ctx).has_shape(x.0) && s.len() == 3 && old(self).causal_mask is None ==> (final(self).causal_mask matches Some(m) && final(ctx).shape_of(m.0) == seq![s[1], s[1]])
            }),
            HybridMambaTransformer::forward_result(*old(self), *old(ctx), *final(ctx), *x, r),
    {
        let ghost c0 = *ctx;
        let ghost l0 = *self;
        proof {
            lemma_grows_refl(c0);
        }
        let shape = match ctx.shape(x.0) {
            Some(s) => s,
            None => return Err(VolticError::EmptyShape),
        };
        if shape.len() != 3 {
            return Err(VolticError::InvalidDimension { dim: shape.len(), ndim: 3 });
        }
        let batch = shape[0];
        let seq_len = shape[1];
        let d_model = shape[2];
        let ghost s = shape@;
        let ghost f = flat_shape(s);
        let ghost hs = seq![s[0], s[1], l0.ff.out_features];
        assert(s =~= seq![batch, seq_len, d_model]);
        if self.causal_mask.is_none() {
            let ms: Vec<u32> = vec![seq_len, seq_len];
            assert(ms@ =~= seq![seq_len, seq_len]);
            let m = Var::with_shape(ctx, ms);
            proof {
                lemma_step(c0, *ctx, m, seq![seq_len, seq_len]);
            }
            self.causal_mask = Some(m);
        } else {
            proof {
                lemma_grows_refl(*ctx);
            }
        }
        let ghost c1 = *ctx;
        let ghost l1 = *self;
        proof {
            l0.lemma_extends(c0, c1);
            assert(c0.shapes_view().contains_key(x.0.0));
            crate::dims::lemma_fits_prefix(s, 2);
            assert(s.subrange(0, 2) =~= seq![batch, seq_len]);
            crate::dims::lemma_prod_small(batch, seq_len, d_model, 0, 0, 0);
            assert(s.take(3) =~= s);
            assert(s.take(2) =~= seq![batch, seq_len]);
        }
        let xn = match self.attn_norm.forward(ctx, x) {
            Ok(v) => v,
            Err(e) => return Err(e),
        };
        let ghost c2 = *ctx;
        proof {
            lemma_grows_trans(c0, c1, c2, 1, 3);
            l1.lemma_extends(c1, c2);
        }
        let bt = batch * seq_len;
        proof {
            assert(bt * d_model == batch * seq_len * d_model);
            crate::dims::lemma_pair_fits(bt, d_model);
            assert(f =~= seq![bt, d_model]);
        }
        let x2 = match view_as(ctx, xn, vec![bt, d_model]) {
            Ok(v) => v,
            Err(e) => {
                assert(false);
                return Err(e);
            },
        };
        let ghost c3 = *ctx;
        let ghost l3 = *self;
        proof {
            lemma_grows_trans(c0, c2, c3, 4, 1);
            l3.lemma_extends(c2, c3);
        }
        let so = match self.ssm.forward_step(ctx, &x2) {
            Ok(v) => v,
            Err(e) => {
                proof {
                    lemma_grows_trans(c0, c3, *ctx, 5, 19);
                    l3.lemma_extends(c3, *ctx);
                    l0.lemma_extends(c0, c3);
                }
                return Err(e);
            },
        };
        let ghost c4 = *ctx;
        let ghost l4 = *self;
        let ghost so_shape = seq![bt, l0.ssm.d_model];
        proof {
            lemma_grows_trans(c0, c3, c4, 5, 19);
            l3.lemma_extends(c3, c4);
            l0.lemma_extends(c0, c3);
            assert(dense_shape(f, l0.ssm.d_model) =~= so_shape);
            crate::dims::lemma_pair_fits(bt, 1);
            assert(strides_fit(so_shape)) by {
                assert forall|k: int| 1 <= k <= 2 implies #[trigger] crate::dims::prod(so_shape.subrange(k, 2))
                    <= u32::MAX by {
                    if k == 1 {
                        assert(so_shape.subrange(1, 2) =~= seq![l0.ssm.d_model]);
                        crate::dims::lemma_prod_small(l0.ssm.d_model, 0, 0, 0, 0, 0);
                    } else {
                        assert(so_shape.subrange(2, 2) =~= Seq::<u32>::empty());
                    }
                }
            }
            assert(c0.shapes_view().contains_key(x.0.0));
        }
        let h = x.add(ctx, so);
        let ghost c5 = *ctx;
        proof {
            lemma_step(c4, c5, h, s);
            lemma_grows_trans(c0, c4, c5, 24, 1);
            l4.lemma_extends(c4, c5);
        }
        let hn = match self.ssm_norm.forward(ctx, &h) {
            Ok(v) => v,
            Err(e) => {
                proof {
                    lemma_grows_trans(c0, c5, *ctx, 25, 3);
                    l4.lemma_extends(c5, *ctx);
                }
                return Err(e);
            },
        };
        let ghost c6 = *ctx;
        let ghost l6 = *self;
        proof {
            lemma_grows_trans(c0, c5, c6, 25, 3);
            l4.lemma_extends(c5, c6);
            l0.lemma_extends(c0, c6);
        }
        let fo = match self.ff.forward(ctx, &hn) {
            Ok(v) => v,
            Err(e) => {
                proof {
                    lemma_grows_trans(c0, c6, *ctx, 28, 4);
                    l6.lemma_extends(c6, *ctx);
                }
                return Err(e);
            },
        };
        let ghost c7 = *ctx;
        let ghost l7 = *self;
        proof {
            lemma_grows_trans(c0, c6, c7, 28, 4);
            l6.lemma_extends(c6, c7);
            assert(dense_shape(s, l0.ff.out_features) =~= hs);
        }
        let g = match fo.gelu(ctx) {
            Ok(v) => v,
            Err(e) => {
                assert(false);
                return Err(e);
            },
        };
        let ghost c8 = *ctx;
        proof {
            lemma_op_step(c7, c8, g, hs, c8.op_seq().last());
            lemma_grows_trans(c0, c7, c8, 32, 1);
            l7.lemma_extends(c7, c8);
        }
        let gn = match self.ff_norm.forward(ctx, &g) {
            Ok(v) => v,
            Err(e) => {
                proof {
                    lemma_grows_trans(c0, c8, *ctx, 33, 3);
                    l7.lemma_extends(c8, *ctx);
                }
                return Err(e);
            },
        };
        let ghost c9 = *ctx;
        let ghost l9 = *self;
        proof {
            lemma_grows_trans(c0, c8, c9, 33, 3);
            l7.lemma_extends(c8, c9);
        }
        let out = h.add(ctx, gn);
        proof {
            lemma_step(c9, *ctx, out, s);
            lemma_grows_trans(c0, c9, *ctx, 36, 1);
            l9.lemma_extends(c9, *ctx);
        }
        Ok(out)
    }
}


impl HybridMambaTransformer {
    /// What to load once the buffers exist: the state-space layer's
    /// weights, ones and zeros into the three normalisations, the
    /// feed-forward weights, and the causal mask into the mask.
    pub fn init(&self, ctx: &Context) -> (r: Vec<InitStep>)
        requires
            self.wf(*ctx),
        ensures
            r@ == linear_steps(*ctx, self.ssm.x_proj) + linear_steps(*ctx, self.ssm.dt_proj) + linear_steps(
                *ctx,
                self.ssm.a_proj,
            ) + linear_steps(*ctx, self.ssm.out_proj) + ones_then_zeros(
                self.attn_norm.gamma,
                self.attn_norm.beta,
                self.attn_norm.d_model,
            ) + ones_then_zeros(self.ssm_norm.gamma, self.ssm_norm.beta, self.ssm_norm.d_model) + ones_then_zeros(
                self.ff_norm.gamma,
                self.ff_norm.beta,
                self.ff_norm.d_model,
            ) + linear_steps(*ctx, self.ff) + mask_steps(*ctx, self.causal_mask),
    {
        let mut steps = self.ssm.init(ctx);
        let mut more = self.attn_norm.init();
        steps.append(&mut more);
        let mut more = self.ssm_norm.init();
        steps.append(&mut more);
        let mut more = self.ff_norm.init();
        steps.append(&mut more);
        let mut more = linear_init(&self.ff, ctx);
        steps.append(&mut more);
        let ghost before = steps@;
        if let Some(m) = self.causal_mask {
            let size = match ctx.shape(m.0) {
                Some(sh) => sh[0],
                None => {
                    assert(false);
                    0
                },
            };
            steps.push(InitStep { var: m, fill: Fill::CausalMask { size } });
        }
        assert(steps@ =~= before + mask_steps(*ctx, self.causal_mask));
        steps
    }

    /// The variables of the state-space layer, the three normalisations
    /// and the feed-forward layer.
    pub fn parameters(&self) -> (r: Vec<Var>)
        ensures
            r@ == linear_params(self.ssm.x_proj) + linear_params(self.ssm.dt_proj) + linear_params(self.ssm.a_proj)
                + linear_params(self.ssm.out_proj) + (opt_seq(self.attn_norm.gamma) + opt_seq(self.attn_norm.beta))
                + (opt_seq(self.ssm_norm.gamma) + opt_seq(self.ssm_norm.beta)) + (opt_seq(self.ff_norm.gamma)
                + opt_seq(self.ff_norm.beta)) + linear_params(self.ff),
    {
        let mut p = self.ssm.parameters();
        let mut more = self.attn_norm.parameters();
        p.append(&mut more);
        let mut more = self.ssm_norm.parameters();
        p.append(&mut more);
        let mut more = self.ff_norm.parameters();
        p.append(&mut more);
        let mut more = self.ff.parameters();
        p.append(&mut more);
        p
    }
}

} // verus!
