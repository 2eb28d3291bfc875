//! Fully connected layer `y = x W + b`.
use vstd::prelude::*;

use crate::context::Context;
use crate::dims::{prefix_prods_fit, prod, shape_product, strides_fit};
use crate::errors::{Result, VolticError};
use crate::layers::{
    grows, lemma_grows_trans, lemma_op_step, lemma_step, matrix_count, opt_seq, push_opt, room, shapes_extend, Fill,
    InitStep,
};
use crate::ops::op::Op;
use crate::var::{batch_dims, bias_ok, Var};

verus! {

/// A dense layer whose weights `[in_features, out_features]` and bias
/// `[out_features]` are created on the first forward pass.
#[derive(Clone, Copy)]
pub struct Linear {
    pub out_features: u32,
    pub use_bias: bool,
    pub weights: Option<Var>,
    pub bias: Option<Var>,
}

/// Output shape of a dense layer: the last axis of `s` becomes `out`.
pub open spec fn dense_shape(s: Seq<u32>, out: u32) -> Seq<u32> {
    s.drop_last().push(out)
}

/// The element counts and strides of a dense layer's output on input shape
/// `s` fit in `u32`.
pub open spec fn dense_fits(s: Seq<u32>, out: u32) -> bool {
    &&& s.len() >= 1
    &&& s.len() >= 2 ==> {
        &&& prefix_prods_fit(batch_dims(s))
        &&& prefix_prods_fit(dense_shape(s, out))
        &&& strides_fit(dense_shape(s, out))
    }
}

/// A layer with `out` outputs and a bias, before its first forward pass.
pub open spec fn fresh_linear(out: u32) -> Linear {
    Linear { out_features: out, use_bias: true, weights: None, bias: None }
}

impl Linear {
    /// The variables of the layer have the shapes it gave them.
    pub open spec fn wf(&self, c: Context) -> bool {
        &&& self.weights matches Some(w) ==> {
            &&& c.has_shape(w.0)
            &&& c.shape_of(w.0).len() == 2
            &&& c.shape_of(w.0)[1] == self.out_features
        }
        &&& self.bias matches Some(b) ==> c.has_shape(b.0) && c.shape_of(b.0) == seq![self.out_features]
    }

    /// The layer has run forward: its weights exist, and its bias if it
    /// has one.
    pub open spec fn ready(&self) -> bool {
        self.weights is Some && (self.use_bias ==> self.bias is Some)
    }

    /// The weights, if they exist, take inputs whose last axis is that of `s`.
    pub open spec fn matches_input(&self, c: Context, s: Seq<u32>) -> bool {
        self.weights matches Some(w) ==> c.shape_of(w.0)[0] == s[s.len() - 1]
    }

    /// A graph that keeps the shapes of `c1` keeps the layer well formed
    /// and its weights as they were.
    pub proof fn lemma_extends(&self, c1: Context, c2: Context)
        requires
            self.wf(c1),
            shapes_extend(c1, c2),
        ensures
            self.wf(c2),
            forall|s: Seq<u32>| self.matches_input(c2, s) == #[trigger] self.matches_input(c1, s),
    {
        if let Some(w) = self.weights {
            assert(c1.shapes_view().contains_key(w.0.0));
        }
        if let Some(b) = self.bias {
            assert(c1.shapes_view().contains_key(b.0.0));
        }
    }

    /// The layer's input can be `x` in graph `c`.
    pub open spec fn accepts(&self, c: Context, x: Var) -> bool {
        c.has_shape(x.0) ==> dense_fits(c.shape_of(x.0), self.out_features)
    }

    /// The result of `forward` on input shape `s` from layer state `l`.
    pub open spec fn forward_result(l: Linear, c: Context, x: Var, r: Result<Var>) -> bool {
        let s = c.shape_of(x.0);
        match r {
            Ok(out) => {
                &&& c.has_shape(x.0)
                &&& s.len() >= 2
                &&& !c.has_shape(out.0)
            },
            Err(e) => if !c.has_shape(x.0) {
                e is EmptyShape
            } else if s.len() < 2 {
                e matches VolticError::InvalidDimension { dim, ndim } && dim == s.len() && ndim == 2
            } else {
                &&& l.weights matches Some(w) && c.shape_of(w.0)[0] != s[s.len() - 1]
                &&& e matches VolticError::IncompatibleShapes { lhs, rhs, op }
                &&& lhs@ == s
                &&& op == "mat_mul: K mismatch"
            },
        }
    }

    /// A layer with `out_features` outputs and a bias.
    pub fn new(out_features: u32) -> (r: Self)
        ensures
            r == (Linear { out_features, use_bias: true, weights: None, bias: None }),
    {
        Linear { out_features, use_bias: true, weights: None, bias: None }
    }

    /// The same layer with the bias switched on or off.
    pub fn bias(self, enabled: bool) -> (r: Self)
        ensures
            r == (Linear { use_bias: enabled, ..self }),
    {
        Linear { use_bias: enabled, ..self }
    }

    /// `x W (+ b)` over the last axis of `x`, creating the weights (and the
    /// bias) on first use.
    #[verifier::rlimit(40)]
    pub fn forward(&mut self, ctx: &mut Context, x: &Var) -> (r: Result<Var>)
        requires
            old(ctx).ids_ok(),
            room(*old(ctx), 4),
            old(self).wf(*old(ctx)),
            old(self).accepts(*old(ctx), *x),
        ensures
            Linear::forward_result(*old(self), *old(ctx), *x, r),
            old(ctx).has_shape(x.0) && old(ctx).shape_of(x.0).len() >= 2 ==> (r is Ok
                <==> old(self).matches_input(*old(ctx), old(ctx).shape_of(x.0))),
            grows(*old(ctx), *final(ctx), 4),
            final(self).wf(*final(ctx)),
            final(self).out_features == old(self).out_features,
            final(self).use_bias == old(self).use_bias,
            old(self).weights is Some ==> final(self).weights == old(self).weights,
            old(self).bias is Some || !old(self).use_bias ==> final(self).bias == old(self).bias,
            !old(ctx).has_shape(x.0) ==> *final(ctx) == *old(ctx) && *final(self) == *old(self),
            r is Ok ==> {
                let s = old(ctx).shape_of(x.0);
                let out = r->Ok_0;
                &&& final(self).weights matches Some(w) && final(ctx).shape_of(w.0) == seq![
                    s[s.len() - 1],
                    old(self).out_features,
                ]
                &&& old(self).use_bias ==> final(self).bias is Some
                &&& final(ctx).has_shape(out.0)
                &&& final(ctx).shape_of(out.0) == dense_shape(s, old(self).out_features)
                &&& final(ctx).op_seq().len() == old(ctx).op_seq().len() + if old(self).use_bias {
                    2int
                } else {
                    1int
                }
                &&& final(ctx).op_seq()[old(ctx).op_seq().len() as int] matches Op::MatMul(m)
                    && m.lhs == x.0 && m.rhs == (final(self).weights->0).0
            },
    {
        let ghost c0 = *ctx;
        proof {
            crate::layers::lemma_grows_refl(c0);
        }
        let x_shape = match ctx.shape(x.0) {
            Some(s) => s,
            None => return Err(VolticError::EmptyShape),
        };
        let in_features = x_shape[x_shape.len() - 1];
        if self.weights.is_none() {
            let mut ws: Vec<u32> = Vec::new();
            ws.push(in_features);
            ws.push(self.out_features);
            let ghost wsv = ws@;
            let w = Var::with_shape(ctx, ws);
            proof {
                lemma_step(c0, *ctx, w, wsv);
            }
            self.weights = Some(w);
        }
        let ghost c1 = *ctx;
        let ghost n1: nat = (c1.id_counter() - c0.id_counter()) as nat;
        let w = match self.weights {
            Some(w) => w,
            None => {
                assert(false);
                return Err(VolticError::EmptyShape);
            },
        };
        assert(self.wf(c1));
        let out = match x.mat_mul(ctx, w) {
            Ok(o) => o,
            Err(e) => return Err(e),
        };
        let ghost c2 = *ctx;
        let ghost out_shape = dense_shape(c0.shape_of(x.0), self.out_features);
        proof {
            assert(batch_dims(c0.shape_of(x.0)).push(c0.shape_of(x.0)[c0.shape_of(x.0).len() - 2]).push(
                self.out_features) =~= out_shape);
            lemma_op_step(c1, c2, out, out_shape, c2.op_seq().last());
            lemma_grows_trans(c0, c1, c2, n1, 1);
        }
        if self.use_bias {
            if self.bias.is_none() {
                let mut bs: Vec<u32> = Vec::new();
                bs.push(self.out_features);
                let ghost bsv = bs@;
                let b = Var::with_shape(ctx, bs);
                proof {
                    lemma_step(c2, *ctx, b, bsv);
                    lemma_grows_trans(c0, c2, *ctx, n1 + 1, 1);
                }
                self.bias = Some(b);
            } else {
                proof {
                    crate::layers::lemma_grows_refl(c2);
                    lemma_grows_trans(c0, c2, c2, n1 + 1, 0);
                }
            }
            let ghost c3 = *ctx;
            let ghost n3: nat = (c3.id_counter() - c0.id_counter()) as nat;
            let b = match self.bias {
                Some(b) => b,
                None => {
                    assert(false);
                    return Err(VolticError::EmptyShape);
                },
            };
            assert(bias_ok(c3, out, b));
            let out2 = out.bias_add(ctx, b);
            proof {
                lemma_step(c3, *ctx, out2, out_shape);
                lemma_grows_trans(c0, c3, *ctx, n3, 1);
                assert(ctx.op_seq().drop_last() == c3.op_seq());
                assert(ctx.op_seq()[c0.op_seq().len() as int] == c2.op_seq()[c0.op_seq().len() as int]);
            }
            Ok(out2)
        } else {
            Ok(out)
        }
    }

    /// The weights and the bias, those that exist.
    pub fn parameters(&self) -> (r: Vec<Var>)
        ensures
            r@ == opt_seq(self.weights) + opt_seq(self.bias),
    {
        let mut p: Vec<Var> = Vec::new();
        push_opt(&mut p, self.weights);
        push_opt(&mut p, self.bias);
        p
    }

    /// What to load into the layer's variables: Xavier values for every
    /// entry of the weights (scaled by their first axis, the fan-in), and
    /// zeros for the bias.
    pub fn init(&self, ctx: &Context) -> (r: Result<Vec<InitStep>>)
        requires
            self.weights matches Some(w) ==> (ctx.has_shape(w.0) ==> ctx.shape_of(w.0).len() == 2),
            self.bias matches Some(b) ==> (ctx.has_shape(b.0) ==> prefix_prods_fit(ctx.shape_of(b.0))),
        ensures
            match r {
                Ok(steps) => {
                    &&& self.weights matches Some(w) ==> ctx.has_shape(w.0)
                    &&& self.bias matches Some(b) ==> ctx.has_shape(b.0)
                    &&& steps@ == weight_steps(*ctx, self.weights) + bias_steps(*ctx, self.bias)
                },
                Err(e) => {
                    &&& e is EmptyShape
                    &&& (self.weights matches Some(w) && !ctx.has_shape(w.0)) || (
                    self.bias matches Some(b) && !ctx.has_shape(b.0))
                },
            },
    {
        let mut steps: Vec<InitStep> = Vec::new();
        if let Some(w) = self.weights {
            let shape = match ctx.shape(w.0) {
                Some(s) => s,
                None => return Err(VolticError::EmptyShape),
            };
            let n = matrix_count(&shape);
            steps.push(InitStep { var: w, fill: Fill::Xavier { fan_in: shape[0], n } });
        }
        let ghost mid = steps@;
        if let Some(b) = self.bias {
            let shape = match ctx.shape(b.0) {
                Some(s) => s,
                None => return Err(VolticError::EmptyShape),
            };
            let n = shape_product(shape.as_slice());
            steps.push(InitStep { var: b, fill: Fill::Zeros { n } });
        }
        assert(steps@ =~= weight_steps(*ctx, self.weights) + bias_steps(*ctx, self.bias));
        Ok(steps)
    }
}

/// The init step of a weight matrix: Xavier values for all its entries,
/// with its first axis as the fan-in.
pub open spec fn weight_steps(c: Context, w: Option<Var>) -> Seq<InitStep> {
    match w {
        Some(v) => seq![
            InitStep {
                var: v,
                fill: Fill::Xavier { fan_in: c.shape_of(v.0)[0], n: prod(c.shape_of(v.0)) as u64 },
            },
        ],
        None => Seq::empty(),
    }
}

/// The init step of a bias: zeros.
pub open spec fn bias_steps(c: Context, b: Option<Var>) -> Seq<InitStep> {
    match b {
        Some(v) => seq![InitStep { var: v, fill: Fill::Zeros { n: prod(c.shape_of(v.0)) as u32 } }],
        None => Seq::empty(),
    }
}

} // verus!
