//! Layer and batch normalisation layers (their float settings, the
//! epsilon and the momentum, are kept by whoever runs the graph).
use vstd::prelude::*;

use crate::context::Context;
use crate::dims::{prefix_prods_fit, prod, range_product};
use crate::errors::{Result, VolticError};
use crate::layers::{
    grows, lemma_grows_refl, lemma_grows_trans, lemma_step, opt_seq, push_opt, room, view_as, Fill, InitStep,
};
use crate::ops::layer_norm_op::LayerNormOp;
use crate::ops::op::Op;
use crate::var::{fresh_var, Var};

verus! {

/// Normalisation over the last axis, of width `d_model`, with a scale
/// `gamma` and a shift `beta` created on the first forward pass.
#[derive(Clone, Copy)]
pub struct LayerNorm {
    pub d_model: u32,
    pub gamma: Option<Var>,
    pub beta: Option<Var>,
}

/// `Some(v)`'s variable has shape `[n]`.
pub open spec fn vector_slot(c: Context, o: Option<Var>, n: u32) -> bool {
    o matches Some(v) ==> c.has_shape(v.0) && c.shape_of(v.0) == seq![n]
}

/// The init steps of optional vectors of `n` ones and of `n` zeros.
pub open spec fn ones_then_zeros(ones: Option<Var>, zeros: Option<Var>, n: u32) -> Seq<InitStep> {
    (match ones {
        Some(v) => seq![InitStep { var: v, fill: Fill::Ones { n } }],
        None => Seq::empty(),
    }) + (match zeros {
        Some(v) => seq![InitStep { var: v, fill: Fill::Zeros { n } }],
        None => Seq::empty(),
    })
}

/// Appends the init step of an optional variable.
fn push_step(steps: &mut Vec<InitStep>, o: Option<Var>, fill: Fill)
    ensures
        final(steps)@ == old(steps)@ + match o {
            Some(v) => seq![InitStep { var: v, fill }],
            None => Seq::<InitStep>::empty(),
        },
{
    if let Some(v) = o {
        steps.push(InitStep { var: v, fill });
    }
    assert(final(steps)@ =~= old(steps)@ + match o {
        Some(v) => seq![InitStep { var: v, fill }],
        None => Seq::<InitStep>::empty(),
    });
}

/// A fresh variable of shape `[n]`.
fn vector(ctx: &mut Context, n: u32) -> (r: Var)
    requires
        old(ctx).ids_ok(),
        room(*old(ctx), 1),
    ensures
        grows(*old(ctx), *final(ctx), 1),
        !old(ctx).has_shape(r.0),
        final(ctx).has_shape(r.0),
        final(ctx).shape_of(r.0) == seq![n],
        final(ctx).op_seq() == old(ctx).op_seq(),
{
    let shape: Vec<u32> = vec![n];
    let ghost sv = shape@;
    let v = Var::with_shape(ctx, shape);
    proof {
        lemma_step(*old(ctx), *ctx, v, sv);
    }
    v
}

impl LayerNorm {
    /// The scale and the shift have shape `[d_model]`.
    pub open spec fn wf(&self, c: Context) -> bool {
        vector_slot(c, self.gamma, self.d_model) && vector_slot(c, self.beta, self.d_model)
    }

    /// A graph that keeps the shapes of `c1` keeps the layer well formed.
    pub proof fn lemma_extends(&self, c1: Context, c2: Context)
        requires
            self.wf(c1),
            crate::layers::shapes_extend(c1, c2),
        ensures
            self.wf(c2),
    {
        if let Some(g) = self.gamma {
            assert(c1.shapes_view().contains_key(g.0.0));
        }
        if let Some(b) = self.beta {
            assert(c1.shapes_view().contains_key(b.0.0));
        }
    }

    /// A layer over `d_model` features.
    pub fn new(d_model: u32) -> (r: Self)
        ensures
            r == (LayerNorm { d_model, gamma: None, beta: None }),
    {
        LayerNorm { d_model, gamma: None, beta: None }
    }

    /// Normalises `x` (`[.., d_model]`) over its last axis; creates the
    /// scale and shift on first use.
    pub fn forward(&mut self, ctx: &mut Context, x: &Var) -> (r: Result<Var>)
        requires
            old(ctx).ids_ok(),
            room(*old(ctx), 3),
            old(self).wf(*old(ctx)),
            old(ctx).has_shape(x.0) ==> prefix_prods_fit(old(ctx).shape_of(x.0)),
        ensures
            grows(*old(ctx), *final(ctx), 3),
            final(self).wf(*final(ctx)),
            final(self).d_model == old(self).d_model,
            old(self).gamma is Some ==> final(self).gamma == old(self).gamma,
            old(self).beta is Some ==> final(self).beta == old(self).beta,
            ({
                let s = old(ctx).shape_of(x.0);
                match r {
                    Ok(out) => {
                        &&& old(ctx).has_shape(x.0)
                        &&& s.len() >= 1
                        &&& s[s.len() - 1] == old(self).d_model
                        &&& !old(ctx).has_shape(out.0)
                        &&& final(ctx).has_shape(out.0)
                        &&& final(ctx).shape_of(out.0) == s
                        &&& final(ctx).op_seq() == old(ctx).op_seq().push(
                            Op::LayerNorm(
                                LayerNormOp {
                                    input: x.0,
                                    gamma: (final(self).gamma->0).0,
                                    beta: (final(self).beta->0).0,
                                    output: out.0,
                                    outer: prod(s.drop_last()) as u32,
                                    reduce: s[s.len() - 1],
                                    inner: 1,
                                },
                            ),
                        )
                    },
                    Err(e) => {
                        &&& *final(ctx) == *old(ctx)
                        &&& *final(self) == *old(self)
                        &&& if !old(ctx).has_shape(x.0) || s.len() == 0 {
                            e is EmptyShape
                        } else {
                            &&& s[s.len() - 1] != old(self).d_model
                            &&& e matches VolticError::IncompatibleShapes { lhs, rhs, op }
                            &&& lhs@ == s
                            &&& rhs@ == seq![old(self).d_model]
                            &&& op == "layer_norm"
                        }
                    },
                }
            }),
    {
        let ghost c0 = *ctx;
        proof {
            lemma_grows_refl(c0);
        }
        let shape = match ctx.shape(x.0) {
            Some(s) => s,
            None => return Err(VolticError::EmptyShape),
        };
        if shape.len() == 0 {
            return Err(VolticError::EmptyShape);
        }
        if shape[shape.len() - 1] != self.d_model {
            let mut d: Vec<u32> = Vec::new();
            d.push(self.d_model);
            assert(d@ =~= seq![self.d_model]);
            return Err(VolticError::IncompatibleShapes { lhs: shape, rhs: d, op: "layer_norm" });
        }
        if self.gamma.is_none() {
            let g = vector(ctx, self.d_model);
            self.gamma = Some(g);
        } else {
            proof {
                lemma_grows_refl(*ctx);
            }
        }
        let ghost c1 = *ctx;
        proof {
            lemma_grows_trans(c0, c0, c1, 0, 1);
        }
        if self.beta.is_none() {
            let b = vector(ctx, self.d_model);
            self.beta = Some(b);
        } else {
            proof {
                lemma_grows_refl(*ctx);
            }
        }
        let ghost c2 = *ctx;
        proof {
            lemma_grows_trans(c0, c1, c2, 1, 1);
        }
        let gamma = match self.gamma {
            Some(g) => g,
            None => {
                assert(false);
                return Err(VolticError::EmptyShape);
            },
        };
        let beta = match self.beta {
            Some(b) => b,
            None => {
                assert(false);
                return Err(VolticError::EmptyShape);
            },
        };
        let axis = shape.len() - 1;
        proof {
            crate::dims::lemma_fits_prefix(shape@, axis as int);
            assert(shape@.subrange(0, axis as int) =~= shape@.drop_last());
        }
        let outer = range_product(shape.as_slice(), 0, axis);
        let reduce = shape[axis];
        let ghost s = shape@;
        let output = Var::new(ctx);
        ctx.insert_shape(output.0, shape);
        let ghost c3 = *ctx;
        proof {
            assert(fresh_var(c2, c3, output, s));
            lemma_step(c2, c3, output, s);
        }
        ctx.push_operation(Op::LayerNorm(LayerNormOp::new(x.0, gamma.0, beta.0, output.0, outer, reduce, 1)));
        proof {
            assert(ctx.op_seq().drop_last() =~= c2.op_seq());
            lemma_step(c2, *ctx, output, s);
            lemma_grows_trans(c0, c2, *ctx, 2, 1);
        }
        Ok(output)
    }

    /// Ones into the scale and zeros into the shift, those that exist.
    pub fn init(&self) -> (r: Vec<InitStep>)
        ensures
            r@ == ones_then_zeros(self.gamma, self.beta, self.d_model),
    {
        let mut steps: Vec<InitStep> = Vec::new();
        push_step(&mut steps, self.gamma, Fill::Ones { n: self.d_model });
        push_step(&mut steps, self.beta, Fill::Zeros { n: self.d_model });
        steps
    }

    /// The scale and the shift, those that exist.
    pub fn parameters(&self) -> (r: Vec<Var>)
        ensures
            r@ == opt_seq(self.gamma) + opt_seq(self.beta),
    {
        let mut p: Vec<Var> = Vec::new();
        push_opt(&mut p, self.gamma);
        push_opt(&mut p, self.beta);
        p
    }
}

/// Normalisation of `[b, c, h, w]` images per channel, with a scale, a
/// shift and (while training) running statistics created on the first
/// forward pass.
pub struct BatchNorm {
    pub num_features: u32,
    pub gamma: Option<Var>,
    pub beta: Option<Var>,
    pub running_mean: Option<Var>,
    pub running_var: Option<Var>,
    pub training: bool,
}

impl BatchNorm {
    /// A layer over `num_features` channels, in training mode.
    pub fn new(num_features: u32) -> (r: Self)
        ensures
            r == (BatchNorm {
                num_features,
                gamma: None,
                beta: None,
                running_mean: None,
                running_var: None,
                training: true,
            }),
    {
        BatchNorm { num_features, gamma: None, beta: None, running_mean: None, running_var: None, training: true }
    }

    /// The same layer in evaluation mode.
    pub fn eval(self) -> (r: Self)
        ensures
            r == (BatchNorm { training: false, ..self }),
    {
        BatchNorm { training: false, ..self }
    }

    /// Creates the layer's variables on first use (shape `[channels]`),
    /// views `x` as `[b * h * w, channels]`, allocates the batch mean and
    /// variance, and gives a copy of `x` with its shape.
    #[verifier::rlimit(40)]
    pub fn forward(&mut self, ctx: &mut Context, x: &Var) -> (r: Result<Var>)
        requires
            old(ctx).ids_ok(),
            room(*old(ctx), 8),
            old(ctx).has_shape(x.0) && old(ctx).shape_of(x.0).len() == 4 ==> {
                let s = old(ctx).shape_of(x.0);
                &&& prefix_prods_fit(s)
                &&& prefix_prods_fit(seq![s[0], s[2]])
                &&& prefix_prods_fit(seq![(s[0] * s[2]) as u32, s[3]])
                &&& prefix_prods_fit(seq![(s[0] * s[2] * s[3]) as u32, s[1]])
            },
        ensures
            grows(*old(ctx), *final(ctx), 8),
            final(self).num_features == old(self).num_features,
            final(self).training == old(self).training,
            old(self).gamma is Some ==> final(self).gamma == old(self).gamma,
            old(self).beta is Some ==> final(self).beta == old(self).beta,
            old(self).running_mean is Some || !old(self).training ==> final(self).running_mean == old(self).running_mean,
            old(self).running_var is Some || !old(self).training ==> final(self).running_var == old(self).running_var,
            ({
                let s = old(ctx).shape_of(x.0);
                match r {
                    Ok(out) => {
                        &&& old(ctx).has_shape(x.0)
                        &&& s.len() == 4
                        &&& final(self).gamma is Some
                        &&& final(self).beta is Some
                        &&& old(self).gamma is None ==> (final(self).gamma matches Some(g) && final(ctx).has_shape(g.0)
                            && final(ctx).shape_of(g.0) == seq![s[1]])
                        &&& old(self).beta is None ==> (final(self).beta matches Some(b) && final(ctx).has_shape(b.0)
                            && final(ctx).shape_of(b.0) == seq![s[1]])
                        &&& !old(ctx).has_shape(out.0)
                        &&& final(ctx).has_shape(out.0)
                        &&& final(ctx).shape_of(out.0) == s
                    },
                    Err(e) => {
                        &&& *final(ctx) == *old(ctx)
                        &&& *final(self) == *old(self)
                        &&& if !old(ctx).has_shape(x.0) {
                            e is EmptyShape
                        } else {
                            e matches VolticError::InvalidDimension { dim, ndim } && dim == s.len() && ndim == 4
                        }
                    },
                }
            }),
    {
        let ghost c0 = *ctx;
        proof {
            lemma_grows_refl(c0);
        }
        let shape = match ctx.shape(x.0) {
            Some(s) => s,
            None => return Err(VolticError::EmptyShape),
        };
        if shape.len() != 4 {
            return Err(VolticError::InvalidDimension { dim: shape.len(), ndim: 4 });
        }
        let ghost s = shape@;
        let batch = shape[0];
        let channels = shape[1];
        let height = shape[2];
        let width = shape[3];
        proof {
            assert(s =~= seq![batch, channels, height, width]);
            assert(seq![batch, height].take(2) =~= seq![batch, height]);
            crate::dims::lemma_prod_small(batch, height, 1, 1, 1, 1);
            assert(batch * height <= u32::MAX);
            let bh = (batch * height) as u32;
            assert(seq![bh, width].take(2) =~= seq![bh, width]);
            crate::dims::lemma_prod_small(bh, width, 1, 1, 1, 1);
            assert(bh * width <= u32::MAX);
        }
        if self.gamma.is_none() {
            self.gamma = Some(vector(ctx, channels));
        } else {
            proof {
                lemma_grows_refl(*ctx);
            }
        }
        let ghost c1 = *ctx;
        proof {
            lemma_grows_trans(c0, c0, c1, 0, 1);
        }
        if self.beta.is_none() {
            self.beta = Some(vector(ctx, channels));
        } else {
            proof {
                lemma_grows_refl(*ctx);
            }
        }
        let ghost c2 = *ctx;
        proof {
            lemma_grows_trans(c0, c1, c2, 1, 1);
        }
        if self.training {
            if self.running_mean.is_none() {
                self.running_mean = Some(vector(ctx, channels));
            } else {
                proof {
                    lemma_grows_refl(*ctx);
                }
            }
        } else {
            proof {
                lemma_grows_refl(*ctx);
            }
        }
        let ghost c3 = *ctx;
        proof {
            lemma_grows_trans(c0, c2, c3, 2, 1);
        }
        if self.training {
            if self.running_var.is_none() {
                self.running_var = Some(vector(ctx, channels));
            } else {
                proof {
                    lemma_grows_refl(*ctx);
                }
            }
        } else {
            proof {
                lemma_grows_refl(*ctx);
            }
        }
        let ghost c4 = *ctx;
        proof {
            lemma_grows_trans(c0, c3, c4, 3, 1);
            crate::dims::lemma_prod_small(batch, channels, height, width, 1, 1);
            crate::dims::lemma_prod_small((batch * height * width) as u32, channels, 1, 1, 1, 1);
            assert(batch * height * width * channels == batch * channels * height * width) by (nonlinear_arith);
        }
        let rows = batch * height * width;
        proof {
            assert(c4.shape_of(x.0) == s);
            assert(prod(s) == prod(seq![rows, channels]));
        }
        let _x_rows = match view_as(ctx, *x, vec![rows, channels]) {
            Ok(v) => v,
            Err(e) => {
                assert(false);
                return Err(e);
            },
        };
        let ghost c5 = *ctx;
        proof {
            lemma_grows_trans(c0, c4, c5, 4, 1);
        }
        let _mean = vector(ctx, channels);
        let ghost c6 = *ctx;
        proof {
            lemma_grows_trans(c0, c5, c6, 5, 1);
        }
        let _var = vector(ctx, channels);
        let ghost c7 = *ctx;
        proof {
            lemma_grows_trans(c0, c6, c7, 6, 1);
            assert(s =~= seq![batch, channels, height, width]);
        }
        let full: Vec<u32> = vec![batch, channels, height, width];
        assert(full@ =~= s);
        let output = match view_as(ctx, *x, full) {
            Ok(v) => v,
            Err(e) => {
                assert(false);
                return Err(e);
            },
        };
        proof {
            lemma_grows_trans(c0, c7, *ctx, 7, 1);
        }
        Ok(output)
    }

    /// Ones into the scale and the running variance, zeros into the shift
    /// and the running mean, those that exist.
    pub fn init(&self) -> (r: Vec<InitStep>)
        ensures
            r@ == ones_then_zeros(self.gamma, self.beta, self.num_features) + ones_then_zeros(
                None,
                self.running_mean,
                self.num_features,
            ) + ones_then_zeros(self.running_var, None, self.num_features),
    {
        let mut steps: Vec<InitStep> = Vec::new();
        push_step(&mut steps, self.gamma, Fill::Ones { n: self.num_features });
        push_step(&mut steps, self.beta, Fill::Zeros { n: self.num_features });
        push_step(&mut steps, self.running_mean, Fill::Zeros { n: self.num_features });
        push_step(&mut steps, self.running_var, Fill::Ones { n: self.num_features });
        proof {
            assert(steps@ =~= ones_then_zeros(self.gamma, self.beta, self.num_features) + ones_then_zeros(
                None,
                self.running_mean,
                self.num_features,
            ) + ones_then_zeros(self.running_var, None, self.num_features));
        }
        steps
    }

    /// The scale, the shift and the running statistics, those that exist.
    pub fn parameters(&self) -> (r: Vec<Var>)
        ensures
            r@ == opt_seq(self.gamma) + opt_seq(self.beta) + opt_seq(self.running_mean) + opt_seq(
                self.running_var,
            ),
    {
        let mut p: Vec<Var> = Vec::new();
        push_opt(&mut p, self.gamma);
        push_opt(&mut p, self.beta);
        push_opt(&mut p, self.running_mean);
        push_opt(&mut p, self.running_var);
        p
    }
}

} // verus!
