//! Multi-head self-attention of the GPT block.
use vstd::prelude::*;

use crate::context::Context;
use crate::dims::{lemma_fits_prefix, prefix_prods_fit, prod, strides_fit};
use crate::errors::{decimal, two_numbers_message, Result, VolticError};
use crate::hybrid::{linear_params};
use crate::layers::linear::{dense_fits, dense_shape, fresh_linear};
use crate::layers::norm::{ones_then_zeros, LayerNorm};
use crate::layers::{
    grows, lemma_grows_refl, lemma_grows_trans, lemma_op_step, lemma_step, opt_seq, room, shapes_extend, view_as,
    InitStep, Linear,
};
use crate::ops::broadcast_shape::{explicit_dims_match, greedy_align, lemma_greedy_self, non_broadcast_axes};
use crate::ops::permute::permuted;
use crate::var::{is_permutation, perm_entry_ok, swap_axes, Var};

verus! {

/// The message of the error for a width that the heads do not divide.
pub open spec fn heads_message_text(d_model: u32, num_heads: u32) -> Seq<char> {
    "d_model ("@ + decimal(d_model as nat) + ") must be divisible by num_heads ("@ + decimal(
        num_heads as nat,
    ) + ")"@
}

/// The message of the error for a width that the heads do not divide.
fn heads_message(d_model: u32, num_heads: u32) -> (r: String)
    ensures
        r@ == heads_message_text(d_model, num_heads),
{
    two_numbers_message("d_model (", d_model as u64, ") must be divisible by num_heads (", num_heads as u64, ")")
}

/// `num_heads` heads of width `d_k` over a model of width `d_model`; the
/// `[1]`-shaped variable that scales the scores, created on the first
/// forward pass, is kept in `scale_slot`.
#[derive(Clone, Copy)]
pub struct MultiHeadAttention {
    pub d_model: u32,
    pub num_heads: u32,
    pub d_k: u32,
    pub linear_q: Linear,
    pub linear_k: Linear,
    pub linear_v: Linear,
    pub linear_out: Linear,
    pub scale_slot: Option<Var>,
}

/// The axis order `[0, 2, 1, 3]` that swaps heads and positions.
pub open spec fn head_perm() -> Seq<usize> {
    seq![0usize, 2, 1, 3]
}

impl MultiHeadAttention {
    /// The projections are well formed in `c`.
    pub open spec fn wf(&self, c: Context) -> bool {
        &&& self.linear_q.wf(c)
        &&& self.linear_k.wf(c)
        &&& self.linear_v.wf(c)
        &&& self.linear_out.wf(c)
    }

    /// A projection of width `d` on `[b, t, _]` splits into `[b, t, h, d_k]`.
    pub open spec fn splits(&self, s: Seq<u32>, d: u32) -> bool {
        prod(seq![s[0], s[1], d]) == prod(self.head_shape(s))
    }

    /// `[b, t, num_heads, d_k]` for input shape `[b, t, _]`.
    pub open spec fn head_shape(&self, s: Seq<u32>) -> Seq<u32> {
        seq![s[0], s[1], self.num_heads, self.d_k]
    }

    /// `[b, num_heads, t, t]`, the shape of the scores.
    pub open spec fn score_shape(&self, s: Seq<u32>) -> Seq<u32> {
        seq![s[0], self.num_heads, s[1], s[1]]
    }

    /// The projections and head splits succeed on input shape `s`, so the
    /// mask is reached.
    pub open spec fn reaches_mask(&self, c: Context, s: Seq<u32>) -> bool {
        &&& self.linear_q.matches_input(c, s)
        &&& self.linear_k.matches_input(c, s)
        &&& self.linear_v.matches_input(c, s)
        &&& self.splits(s, self.linear_q.out_features)
        &&& self.splits(s, self.linear_k.out_features)
        &&& self.splits(s, self.linear_v.out_features)
    }

    /// The merged heads `[b, t, h * d_k]` view as `[b, t, d_model]`.
    pub open spec fn merges(&self, s: Seq<u32>) -> bool {
        prod(self.head_shape(s)) == prod(seq![s[0], s[1], self.d_model])
    }

    /// The shapes of a forward pass on a 3-axis input of shape `s` fit in `u32`.
    pub open spec fn fits(&self, s: Seq<u32>) -> bool {
        let (b, t, h, dk) = (s[0], s[1], self.num_heads, self.d_k);
        &&& dense_fits(s, self.linear_q.out_features)
        &&& dense_fits(s, self.linear_k.out_features)
        &&& dense_fits(s, self.linear_v.out_features)
        &&& prefix_prods_fit(seq![b, t, h, dk])
        &&& prefix_prods_fit(seq![b, h, t, dk])
        &&& prefix_prods_fit(seq![b, h, dk, t])
        &&& prefix_prods_fit(seq![b, h, t, t])
        &&& strides_fit(seq![b, h, t, t])
        &&& prefix_prods_fit(seq![b, t, self.d_model])
        &&& dense_fits(seq![b, t, self.d_model], self.linear_out.out_features)
    }

    /// The shapes of a forward pass on `x` fit in `u32`, and the mask has
    /// the shape `[t, t]` where it is reached.
    pub open spec fn accepts(&self, c: Context, x: Var, mask: Var) -> bool {
        c.has_shape(x.0) && c.shape_of(x.0).len() == 3 ==> {
            let s = c.shape_of(x.0);
            let t = s[1];
            &&& self.fits(s)
            &&& self.reaches_mask(c, s) ==> {
                &&& c.has_shape(mask.0)
                &&& c.shape_of(mask.0) == seq![t, t]
                &&& strides_fit(seq![t, t])
            }
        }
    }

    /// A graph that keeps the shapes of `c1` keeps the projections well
    /// formed, and an input of the same shape as `x` is accepted as `x` was.
    pub proof fn lemma_accepts_moves(&self, c1: Context, c2: Context, x: Var, y: Var, mask: Var)
        requires
            self.wf(c1),
            crate::layers::shapes_extend(c1, c2),
            self.accepts(c1, x, mask),
            c1.has_shape(x.0),
            c2.has_shape(y.0),
            c2.shape_of(y.0) == c1.shape_of(x.0),
        ensures
            self.wf(c2),
            self.accepts(c2, y, mask),
            forall|s: Seq<u32>| self.reaches_mask(c2, s) == #[trigger] self.reaches_mask(c1, s),
    {
        self.linear_q.lemma_extends(c1, c2);
        self.linear_k.lemma_extends(c1, c2);
        self.linear_v.lemma_extends(c1, c2);
        self.linear_out.lemma_extends(c1, c2);
        if c1.has_shape(mask.0) {
            assert(c1.shapes_view().contains_key(mask.0.0));
        }
    }

    /// What a forward pass on `x` returns, from layer `l` and graph `c`.
    pub open spec fn forward_result(l: MultiHeadAttention, c: Context, c2: Context, x: Var, r: Result<Var>) -> bool {
        let s = c.shape_of(x.0);
        let hs = l.head_shape(s);
        match r {
            Ok(out) => {
                &&& c.has_shape(x.0)
                &&& s.len() == 3
                &&& l.reaches_mask(c, s)
                &&& l.merges(s)
                &&& l.linear_out.matches_input(c, seq![s[0], s[1], l.d_model])
                &&& !c.has_shape(out.0)
                &&& c2.has_shape(out.0)
                &&& c2.shape_of(out.0) == seq![s[0], s[1], l.linear_out.out_features]
            },
            Err(e) => if !c.has_shape(x.0) {
                e is EmptyShape && c2 == c
            } else if s.len() != 3 {
                &&& e matches VolticError::InvalidDimension { dim, ndim }
                &&& dim == s.len()
                &&& ndim == 3
                &&& c2 == c
            } else if !l.linear_q.matches_input(c, s) || !l.linear_k.matches_input(c, s)
                || !l.linear_v.matches_input(c, s) {
                e matches VolticError::IncompatibleShapes { op, .. } && op == "mat_mul: K mismatch"
            } else if !l.reaches_mask(c, s) {
                let d = if !l.splits(s, l.linear_q.out_features) {
                    l.linear_q.out_features
                } else if !l.splits(s, l.linear_k.out_features) {
                    l.linear_k.out_features
                } else {
                    l.linear_v.out_features
                };
                &&& e matches VolticError::IncompatibleShapes { lhs, rhs, op }
                &&& lhs@ == seq![s[0], s[1], d]
                &&& rhs@ == hs
                &&& op == "reshape: element count mismatch"
            } else if !l.merges(s) {
                &&& e matches VolticError::IncompatibleShapes { lhs, rhs, op }
                &&& lhs@ == seq![s[0], s[1], l.num_heads, l.d_k]
                &&& rhs@ == seq![s[0], s[1], l.d_model]
                &&& op == "reshape: element count mismatch"
            } else {
                &&& !l.linear_out.matches_input(c, seq![s[0], s[1], l.d_model])
                &&& e matches VolticError::IncompatibleShapes { op, .. }
                &&& op == "mat_mul: K mismatch"
            },
        }
    }

    /// Attention of width `d_model` split into `num_heads` heads; fails
    /// when the heads do not divide the width.
    pub fn new(d_model: u32, num_heads: u32) -> (r: Result<Self>)
        requires
            num_heads != 0,
        ensures
            match r {
                Ok(m) => {
                    &&& d_model % num_heads == 0
                    &&& m.d_model == d_model
                    &&& m.num_heads == num_heads
                    &&& m.d_k == d_model / num_heads
                    &&& m.linear_q == fresh_linear(d_model)
                    &&& m.linear_k == fresh_linear(d_model)
                    &&& m.linear_v == fresh_linear(d_model)
                    &&& m.linear_out == fresh_linear(d_model)
                    &&& m.scale_slot is None
                },
                Err(e) => {
                    &&& d_model % num_heads != 0
                    &&& e matches VolticError::Internal(msg)
                    &&& msg@ == heads_message_text(d_model, num_heads)
                },
            },
    {
        if d_model % num_heads != 0 {
            return Err(VolticError::Internal(heads_message(d_model, num_heads)));
        }
        let d_k = d_model / num_heads;
        Ok(MultiHeadAttention {
            d_model,
            num_heads,
            d_k,
            linear_q: Linear::new(d_model),
            linear_k: Linear::new(d_model),
            linear_v: Linear::new(d_model),
            linear_out: Linear::new(d_model),
            scale_slot: None,
        })
    }

    /// Causal self-attention on `x` (`[b, t, d_model]`) with the additive
    /// mask `mask` (`[t, t]`): projects to queries, keys and values, splits
    /// the heads, scales the query-key scores by the value in
    /// `scale_slot`, adds the mask, takes the softmax over the keys, weights
    /// the values, merges the heads and projects the result.
    #[verifier::rlimit(100)]
    pub fn forward(&mut self, ctx: &mut Context, x: &Var, mask: &Var) -> (r: Result<Var>)
        requires
            old(ctx).ids_ok(),
            room(*old(ctx), 31),
            old(self).wf(*old(ctx)),
            old(self).accepts(*old(ctx), *x, *mask),
        ensures
            grows(*old(ctx), *final(ctx), 31),
            final(self).wf(*final(ctx)),
            final(self).d_model == old(self).d_model,
            final(self).num_heads == old(self).num_heads,
            final(self).d_k == old(self).d_k,
            final(self).linear_out.out_features == old(self).linear_out.out_features,
            r is Ok ==> final(self).linear_q.ready() && final(self).linear_k.ready() && final(self).linear_v.ready()
                && final(self).linear_out.ready(),
            r is Ok ==> (final(self).scale_slot matches Some(v) && final(ctx).has_shape(v.0)
                && final(ctx).shape_of(v.0) == seq![1u32]),
            MultiHeadAttention::forward_result(*old(self), *old(ctx), *final(ctx), *x, r),
    {
        let ghost c0 = *ctx;
        let ghost l0 = *self;
        proof {
            lemma_grows_refl(c0);
        }
        let shape = match ctx.shape(x.0) {
            Some(s) => s,
            None => return Err(VolticError::EmptyShape),
        };
        if shape.len() != 3 {
            return Err(VolticError::InvalidDimension { dim: shape.len(), ndim: 3 });
        }
        let ghost s = shape@;
        let b = shape[0];
        let t = shape[1];
        let h = self.num_heads;
        let d_k = self.d_k;
        let q = match self.linear_q.forward(ctx, x) {
            Ok(v) => v,
            Err(e) => {
                proof {
                    l0.linear_k.lemma_extends(c0, *ctx);
                    l0.linear_v.lemma_extends(c0, *ctx);
                    l0.linear_out.lemma_extends(c0, *ctx);
                }
                return Err(e);
            },
        };
        let ghost c1 = *ctx;
        proof {
            l0.linear_k.lemma_extends(c0, c1);
            l0.linear_v.lemma_extends(c0, c1);
            l0.linear_out.lemma_extends(c0, c1);
        }
        let k = match self.linear_k.forward(ctx, x) {
            Ok(v) => v,
            Err(e) => {
                proof {
                    lemma_grows_trans(c0, c1, *ctx, 4, 4);
                    self.linear_q.lemma_extends(c1, *ctx);
                    l0.linear_v.lemma_extends(c1, *ctx);
                    l0.linear_out.lemma_extends(c1, *ctx);
                }
                return Err(e);
            },
        };
        let ghost c2 = *ctx;
        proof {
            lemma_grows_trans(c0, c1, c2, 4, 4);
            self.linear_q.lemma_extends(c1, c2);
            l0.linear_v.lemma_extends(c1, c2);
            l0.linear_out.lemma_extends(c1, c2);
        }
        let v = match self.linear_v.forward(ctx, x) {
            Ok(v) => v,
            Err(e) => {
                proof {
                    lemma_grows_trans(c0, c2, *ctx, 8, 4);
                    self.linear_q.lemma_extends(c2, *ctx);
                    self.linear_k.lemma_extends(c2, *ctx);
                    l0.linear_out.lemma_extends(c2, *ctx);
                }
                return Err(e);
            },
        };
        let ghost c3 = *ctx;
        let ghost hs = self.head_shape(s);
        proof {
            lemma_grows_trans(c0, c2, c3, 8, 4);
            self.linear_q.lemma_extends(c2, c3);
            self.linear_k.lemma_extends(c2, c3);
            l0.linear_out.lemma_extends(c2, c3);
            assert(dense_shape(s, l0.linear_q.out_features) =~= seq![b, t, l0.linear_q.out_features]);
            assert(dense_shape(s, l0.linear_k.out_features) =~= seq![b, t, l0.linear_k.out_features]);
            assert(dense_shape(s, l0.linear_v.out_features) =~= seq![b, t, l0.linear_v.out_features]);
        }
        let q4 = match view_as(ctx, q, vec![b, t, h, d_k]) {
            Ok(v) => v,
            Err(e) => {
                proof {
                    self.linear_q.lemma_extends(c3, *ctx);
                }
                return Err(e);
            },
        };
        let ghost c4 = *ctx;
        let k4 = match view_as(ctx, k, vec![b, t, h, d_k]) {
            Ok(v) => v,
            Err(e) => {
                proof {
                    lemma_grows_trans(c0, c3, c4, 12, 1);
                    self.linear_q.lemma_extends(c3, c4);
                    self.linear_k.lemma_extends(c3, c4);
                    self.linear_v.lemma_extends(c3, c4);
                    l0.linear_out.lemma_extends(c3, c4);
                }
                return Err(e);
            },
        };
        let ghost c5 = *ctx;
        proof {
            lemma_grows_trans(c0, c3, c4, 12, 1);
            lemma_grows_trans(c0, c4, c5, 13, 1);
        }
        let v4 = match view_as(ctx, v, vec![b, t, h, d_k]) {
            Ok(v) => v,
            Err(e) => {
                proof {
                    self.linear_q.lemma_extends(c3, c5);
                    self.linear_k.lemma_extends(c3, c5);
                    self.linear_v.lemma_extends(c3, c5);
                    l0.linear_out.lemma_extends(c3, c5);
                }
                return Err(e);
            },
        };
        let ghost c6 = *ctx;
        proof {
            lemma_grows_trans(c0, c5, c6, 14, 1);
        }
        let perm: Vec<usize> = vec![0, 2, 1, 3];
        let ghost ph = seq![b, h, t, d_k];
        proof {
            assert(perm@ =~= head_perm());
            assert forall|j: int| 0 <= j < 4 implies perm_entry_ok(perm@, j) by {}
            assert(is_permutation(perm@));
            assert(permuted(hs, head_perm()) =~= ph);
        }
        let qh = match q4.permute(ctx, perm.as_slice()) {
            Ok(v) => v,
            Err(e) => {
                assert(false);
                return Err(e);
            },
        };
        let ghost c7 = *ctx;
        proof {
            lemma_step(c6, c7, qh, ph);
            lemma_grows_trans(c0, c6, c7, 15, 1);
        }
        let kh = match k4.permute(ctx, perm.as_slice()) {
            Ok(v) => v,
            Err(e) => {
                assert(false);
                return Err(e);
            },
        };
        let ghost c8 = *ctx;
        proof {
            lemma_step(c7, c8, kh, ph);
            lemma_grows_trans(c0, c7, c8, 16, 1);
        }
        let vh = match v4.permute(ctx, perm.as_slice()) {
            Ok(v) => v,
            Err(e) => {
                assert(false);
                return Err(e);
            },
        };
        let ghost c9 = *ctx;
        proof {
            lemma_step(c8, c9, vh, ph);
            lemma_grows_trans(c0, c8, c9, 17, 1);
            assert(swap_axes(ph, 2, 3) =~= seq![b, h, d_k, t]);
        }
        let k_t = match kh.transpose(ctx, 2, 3) {
            Ok(v) => v,
            Err(e) => {
                assert(false);
                return Err(e);
            },
        };
        let ghost c10 = *ctx;
        let ghost ss = self.score_shape(s);
        proof {
            lemma_step(c9, c10, k_t, seq![b, h, d_k, t]);
            lemma_grows_trans(c0, c9, c10, 18, 1);
            lemma_fits_prefix(ph, 2);
            assert(ph.subrange(0, 2) =~= seq![b, h]);
            assert(seq![b, h, d_k, t].subrange(0, 2) =~= seq![b, h]);
            assert(crate::var::batch_dims(ph).push(t).push(t) =~= ss);
        }
        let scores = match qh.mat_mul(ctx, k_t) {
            Ok(v) => v,
            Err(e) => {
                assert(false);
                return Err(e);
            },
        };
        let ghost c11 = *ctx;
        proof {
            lemma_op_step(c10, c11, scores, ss, c11.op_seq().last());
            lemma_grows_trans(c0, c10, c11, 19, 1);
        }
        let scale = Var::scalar_slot(ctx);
        self.scale_slot = Some(scale);
        let ghost c12 = *ctx;
        proof {
            lemma_op_step(c11, c12, scale, seq![1u32], c12.op_seq().last());
            lemma_grows_trans(c0, c11, c12, 20, 1);
            crate::var::lemma_prod_single(1);
            assert(strides_fit(seq![1u32])) by {
                assert forall|j: int| 1 <= j <= 1 implies #[trigger] prod(seq![1u32].subrange(j, 1)) <= u32::MAX by {
                    assert(seq![1u32].subrange(1, 1) =~= Seq::<u32>::empty());
                }
            }
            assert(greedy_align(ss, seq![1u32]) is Some) by {
                assert(seq![1u32].drop_last() =~= Seq::<u32>::empty());
                assert(greedy_align(ss.drop_last(), Seq::<u32>::empty()) is Some);
                assert(crate::ops::broadcast_shape::compatible(ss.last(), seq![1u32].last()));
            }
        }
        let scaled = scores.mul(ctx, scale);
        let ghost c13 = *ctx;
        proof {
            lemma_step(c12, c13, scaled, ss);
            lemma_grows_trans(c0, c12, c13, 21, 1);
            let bd = seq![0usize, 1];
            assert(bd.contains(0usize) && bd.contains(1usize));
            assert(!bd.contains(2usize) && !bd.contains(3usize)) by {
                assert(bd[0] == 0 && bd[1] == 1);
            }
            assert(non_broadcast_axes(0, bd) =~= Seq::<usize>::empty());
            assert(non_broadcast_axes(1, bd) =~= Seq::<usize>::empty());
            assert(non_broadcast_axes(2, bd) =~= Seq::<usize>::empty());
            assert(non_broadcast_axes(3, bd) =~= seq![2usize]);
            assert(non_broadcast_axes(4, bd) =~= seq![2usize, 3]);
            assert(explicit_dims_match(ss, seq![t, t], bd));
        }
        let dims: Vec<usize> = vec![0, 1];
        assert(dims@ =~= seq![0usize, 1]);
        let masked = scaled.add_bc(ctx, mask, dims.as_slice());
        let ghost c14 = *ctx;
        proof {
            lemma_step(c13, c14, masked, ss);
            lemma_grows_trans(c0, c13, c14, 22, 1);
            lemma_fits_prefix(ss, 3);
            assert(ss.subrange(4, 4) =~= Seq::<u32>::empty());
            assert(prod(Seq::<u32>::empty()) == 1);
            assert forall|j: int| 0 <= j <= 0 implies #[trigger] prod(Seq::<u32>::empty().take(j)) <= u32::MAX by {
                assert(Seq::<u32>::empty().take(j) =~= Seq::<u32>::empty());
            }
        }
        let attn = match masked.softmax(ctx, 3) {
            Ok(v) => v,
            Err(e) => {
                assert(false);
                return Err(e);
            },
        };
        let ghost c15 = *ctx;
        proof {
            lemma_op_step(c14, c15, attn, ss, c15.op_seq().last());
            lemma_grows_trans(c0, c14, c15, 23, 1);
            lemma_fits_prefix(ss, 2);
            assert(ss.subrange(0, 2) =~= seq![b, h]);
            assert(crate::var::batch_dims(ss).push(t).push(d_k) =~= ph);
        }
        let weighted = match attn.mat_mul(ctx, vh) {
            Ok(v) => v,
            Err(e) => {
                assert(false);
                return Err(e);
            },
        };
        let ghost c16 = *ctx;
        proof {
            lemma_op_step(c15, c16, weighted, ph, c16.op_seq().last());
            lemma_grows_trans(c0, c15, c16, 24, 1);
            assert(permuted(ph, head_perm()) =~= hs);
        }
        let merged = match weighted.permute(ctx, perm.as_slice()) {
            Ok(v) => v,
            Err(e) => {
                assert(false);
                return Err(e);
            },
        };
        let ghost c17 = *ctx;
        proof {
            lemma_step(c16, c17, merged, hs);
            lemma_grows_trans(c0, c16, c17, 25, 1);
        }
        let flat = match view_as(ctx, merged, vec![b, t, self.d_model]) {
            Ok(v) => v,
            Err(e) => {
                proof {
                    self.linear_q.lemma_extends(c3, c17);
                    self.linear_k.lemma_extends(c3, c17);
                    self.linear_v.lemma_extends(c3, c17);
                    l0.linear_out.lemma_extends(c3, c17);
                }
                return Err(e);
            },
        };
        let ghost c18 = *ctx;
        proof {
            lemma_grows_trans(c0, c17, c18, 26, 1);
            self.linear_q.lemma_extends(c3, c18);
            self.linear_k.lemma_extends(c3, c18);
            self.linear_v.lemma_extends(c3, c18);
            l0.linear_out.lemma_extends(c3, c18);
        }
        let out = self.linear_out.forward(ctx, &flat);
        proof {
            lemma_grows_trans(c0, c18, *ctx, 27, 4);
            self.linear_q.lemma_extends(c18, *ctx);
            self.linear_k.lemma_extends(c18, *ctx);
            self.linear_v.lemma_extends(c18, *ctx);
            assert(dense_shape(seq![b, t, self.d_model], l0.linear_out.out_features) =~= seq![
                b,
                t,
                l0.linear_out.out_features,
            ]);
        }
        out
    }

    /// The variables of the four projections: queries, keys, values, output.
    pub fn parameters(&self) -> (r: Vec<Var>)
        ensures
            r@ == linear_params(self.linear_q) + linear_params(self.linear_k) + linear_params(self.linear_v)
                + linear_params(self.linear_out),
    {
        let mut p = self.linear_q.parameters();
        let mut more = self.linear_k.parameters();
        p.append(&mut more);
        let mut more = self.linear_v.parameters();
        p.append(&mut more);
        let mut more = self.linear_out.parameters();
        p.append(&mut more);
        p
    }
}


/// The attention sublayer gets through its projections, head splits and
/// merge on an input of shape `s`.
pub open spec fn attention_passes(a: MultiHeadAttention, c: Context, s: Seq<u32>) -> bool {
    &&& a.reaches_mask(c, s)
    &&& a.merges(s)
    &&& a.linear_out.matches_input(c, seq![s[0], s[1], a.d_model])
}

/// The error of the attention sublayer on a 3-axis input of shape `s`
/// that it does not get through.
pub open spec fn attention_error(a: MultiHeadAttention, c: Context, s: Seq<u32>, e: VolticError) -> bool {
    if !a.linear_q.matches_input(c, s) || !a.linear_k.matches_input(c, s) || !a.linear_v.matches_input(c, s) {
        e matches VolticError::IncompatibleShapes { op, .. } && op == "mat_mul: K mismatch"
    } else if !a.reaches_mask(c, s) {
        let d = if !a.splits(s, a.linear_q.out_features) {
            a.linear_q.out_features
        } else if !a.splits(s, a.linear_k.out_features) {
            a.linear_k.out_features
        } else {
            a.linear_v.out_features
        };
        &&& e matches VolticError::IncompatibleShapes { lhs, rhs, op }
        &&& lhs@ == seq![s[0], s[1], d]
        &&& rhs@ == a.head_shape(s)
        &&& op == "reshape: element count mismatch"
    } else if !a.merges(s) {
        &&& e matches VolticError::IncompatibleShapes { lhs, rhs, op }
        &&& lhs@ == seq![s[0], s[1], a.num_heads, a.d_k]
        &&& rhs@ == seq![s[0], s[1], a.d_model]
        &&& op == "reshape: element count mismatch"
    } else {
        e matches VolticError::IncompatibleShapes { op, .. } && op == "mat_mul: K mismatch"
    }
}

/// A pre-norm transformer block: causal self-attention and a two-layer
/// GELU feed-forward network, each applied to a layer-normalised input and
/// added back to it.
#[derive(Clone, Copy)]
pub struct GptBlock {
    pub ln1: LayerNorm,
    pub attn: MultiHeadAttention,
    pub ln2: LayerNorm,
    pub ff1: Linear,
    pub ff2: Linear,
}

impl GptBlock {
    /// The sublayers agree on the model width `ln1.d_model` and their
    /// variables have their shapes in `c`.
    pub open spec fn wf(&self, c: Context) -> bool {
        &&& self.ln2.d_model == self.ln1.d_model
        &&& self.attn.linear_out.out_features == self.ln1.d_model
        &&& self.ff2.out_features == self.ln1.d_model
        &&& self.ln1.wf(c)
        &&& self.attn.wf(c)
        &&& self.ln2.wf(c)
        &&& self.ff1.wf(c)
        &&& self.ff2.wf(c)
    }

    /// The shape of the hidden feed-forward activations on input shape `s`.
    pub open spec fn ff_shape(&self, s: Seq<u32>) -> Seq<u32> {
        dense_shape(s, self.ff1.out_features)
    }

    /// The shapes of a forward pass on `x` fit in `u32`.
    pub open spec fn accepts(&self, c: Context, x: Var, mask: Var) -> bool {
        &&& self.attn.accepts(c, x, mask)
        &&& c.has_shape(x.0) ==> {
            let s = c.shape_of(x.0);
            &&& prefix_prods_fit(s)
            &&& strides_fit(s)
            &&& dense_fits(s, self.ff1.out_features)
            &&& dense_fits(self.ff_shape(s), self.ff2.out_features)
        }
    }

    /// Every sublayer takes the input it sees on input shape `s`.
    pub open spec fn passes(&self, c: Context, s: Seq<u32>) -> bool {
        &&& attention_passes(self.attn, c, s)
        &&& self.ff1.matches_input(c, s)
        &&& self.ff2.matches_input(c, self.ff_shape(s))
    }

    /// What a forward pass on `x` returns, from block `l` and graph `c`.
    pub open spec fn forward_result(l: GptBlock, c: Context, c2: Context, x: Var, r: Result<Var>) -> bool {
        let s = c.shape_of(x.0);
        let d = l.ln1.d_model;
        match r {
            Ok(out) => {
                &&& c.has_shape(x.0)
                &&& s.len() == 3
                &&& s[2] == d
                &&& l.passes(c, s)
                &&& !c.has_shape(out.0)
                &&& c2.has_shape(out.0)
                &&& c2.shape_of(out.0) == s
            },
            Err(e) => if !c.has_shape(x.0) || s.len() == 0 {
                e is EmptyShape && c2 == c
            } else if s[s.len() - 1] != d {
                &&& e matches VolticError::IncompatibleShapes { lhs, rhs, op }
                &&& lhs@ == s
                &&& rhs@ == seq![d]
                &&& op == "layer_norm"
                &&& c2 == c
            } else if s.len() != 3 {
                e matches VolticError::InvalidDimension { dim, ndim } && dim == s.len() && ndim == 3
            } else {
                GptBlock::pass_error(l, c, s, e)
            },
        }
    }

    /// The error of a forward pass on an input of shape `s` (`[b, t,
    /// d_model]`) that some sublayer does not take.
    pub open spec fn pass_error(l: GptBlock, c: Context, s: Seq<u32>, e: VolticError) -> bool {
        if !attention_passes(l.attn, c, s) {
            attention_error(l.attn, c, s, e)
        } else if !l.ff1.matches_input(c, s) {
            e matches VolticError::IncompatibleShapes { lhs, op, .. } && lhs@ == s && op == "mat_mul: K mismatch"
        } else {
            &&& !l.ff2.matches_input(c, l.ff_shape(s))
            &&& e matches VolticError::IncompatibleShapes { lhs, op, .. }
            &&& lhs@ == l.ff_shape(s)
            &&& op == "mat_mul: K mismatch"
        }
    }

    /// The shapes of a forward pass on an input of shape `s` fit in `u32`.
    pub open spec fn fits(&self, s: Seq<u32>) -> bool {
        &&& s.len() == 3 ==> self.attn.fits(s) && strides_fit(seq![s[1], s[1]])
        &&& prefix_prods_fit(s)
        &&& strides_fit(s)
        &&& dense_fits(s, self.ff1.out_features)
        &&& dense_fits(self.ff_shape(s), self.ff2.out_features)
    }

    /// A block whose shapes fit takes an input with a `[t, t]` mask.
    pub proof fn lemma_accepts(&self, c: Context, x: Var, mask: Var)
        requires
            c.has_shape(x.0),
            c.shape_of(x.0).len() == 3,
            self.fits(c.shape_of(x.0)),
            c.has_shape(mask.0),
            c.shape_of(mask.0) == seq![c.shape_of(x.0)[1], c.shape_of(x.0)[1]],
        ensures
            self.accepts(c, x, mask),
    {
    }

    /// A graph that keeps the shapes of `c1` keeps the block well formed
    /// and its sublayers taking the inputs they took.
    pub proof fn lemma_extends(&self, c1: Context, c2: Context)
        requires
            self.wf(c1),
            shapes_extend(c1, c2),
        ensures
            self.wf(c2),
            forall|s: Seq<u32>| self.passes(c2, s) == #[trigger] self.passes(c1, s),
            forall|s: Seq<u32>| attention_passes(self.attn, c2, s) == #[trigger] attention_passes(self.attn, c1, s),
            forall|s: Seq<u32>, e: VolticError| attention_error(self.attn, c2, s, e) == #[trigger] attention_error(self.attn, c1, s, e),
            forall|s: Seq<u32>, e: VolticError| GptBlock::pass_error(*self, c2, s, e) == #[trigger] GptBlock::pass_error(*self, c1, s, e),
    {
        self.ln1.lemma_extends(c1, c2);
        self.ln2.lemma_extends(c1, c2);
        self.attn.linear_q.lemma_extends(c1, c2);
        self.attn.linear_k.lemma_extends(c1, c2);
        self.attn.linear_v.lemma_extends(c1, c2);
        self.attn.linear_out.lemma_extends(c1, c2);
        self.ff1.lemma_extends(c1, c2);
        self.ff2.lemma_extends(c1, c2);
    }

    /// A block of width `d_model` with `num_heads` attention heads and a
    /// feed-forward width of `4 * d_model`; fails when the heads do not
    /// divide the width.
    pub fn new(d_model: u32, num_heads: u32) -> (r: Result<Self>)
        requires
            num_heads != 0,
            d_model * 4 <= u32::MAX,
        ensures
            match r {
                Ok(b) => {
                    &&& d_model % num_heads == 0
                    &&& b.ln1 == LayerNorm { d_model, gamma: None, beta: None }
                    &&& b.ln2 == LayerNorm { d_model, gamma: None, beta: None }
                    &&& b.attn.d_model == d_model
                    &&& b.attn.num_heads == num_heads
                    &&& b.attn.d_k == d_model / num_heads
                    &&& b.attn.linear_q == fresh_linear(d_model)
                    &&& b.attn.linear_k == fresh_linear(d_model)
                    &&& b.attn.linear_v == fresh_linear(d_model)
                    &&& b.attn.linear_out == fresh_linear(d_model)
                    &&& b.attn.scale_slot is None
                    &&& b.ff1 == fresh_linear((d_model * 4) as u32)
                    &&& b.ff2 == fresh_linear(d_model)
                },
                Err(e) => {
                    &&& d_model % num_heads != 0
                    &&& e matches VolticError::Internal(msg)
                    &&& msg@ == heads_message_text(d_model, num_heads)
                },
            },
    {
        let ff_dim = d_model * 4;
        let attn = match MultiHeadAttention::new(d_model, num_heads) {
            Ok(a) => a,
            Err(e) => return Err(e),
        };
        Ok(GptBlock {
            ln1: LayerNorm::new(d_model),
            attn,
            ln2: LayerNorm::new(d_model),
            ff1: Linear::new(ff_dim),
            ff2: Linear::new(d_model),
        })
    }

    /// `x + attn(ln1(x))`, then `h + ff2(gelu(ff1(ln2(h))))`, on `x`
    /// (`[b, t, d_model]`) with the causal mask `mask` (`[t, t]`).
    #[verifier::rlimit(100)]
    pub fn forward(&mut self, ctx: &mut Context, x: &Var, mask: &Var) -> (r: Result<Var>)
        requires
            old(ctx).ids_ok(),
            room(*old(ctx), 48),
            old(self).wf(*old(ctx)),
            old(self).accepts(*old(ctx), *x, *mask),
        ensures
            grows(*old(ctx), *final(ctx), 48),
            final(self).wf(*final(ctx)),
            final(self).ln1.d_model == old(self).ln1.d_model,
            GptBlock::forward_result(*old(self), *old(ctx), *final(ctx), *x, r),
    {
        let ghost c0 = *ctx;
        let ghost l0 = *self;
        let ghost s = c0.shape_of(x.0);
        proof {
            lemma_grows_refl(c0);
        }
        let x1 = match self.ln1.forward(ctx, x) {
            Ok(v) => v,
            Err(e) => return Err(e),
        };
        let ghost c1 = *ctx;
        proof {
            l0.attn.lemma_accepts_moves(c0, c1, *x, x1, *mask);
            l0.lemma_extends(c0, c1);
        }
        let a = match self.attn.forward(ctx, &x1, mask) {
            Ok(v) => v,
            Err(e) => {
                proof {
                    lemma_grows_trans(c0, c1, *ctx, 3, 31);
                    self.ln1.lemma_extends(c1, *ctx);
                    l0.lemma_extends(c0, *ctx);
                }
                return Err(e);
            },
        };
        let ghost c2 = *ctx;
        proof {
            lemma_grows_trans(c0, c1, c2, 3, 31);
            assert(seq![s[0], s[1], l0.ln1.d_model] =~= s);
            lemma_greedy_self(s);
        }
        let h = x.add(ctx, a);
        let ghost c3 = *ctx;
        proof {
            lemma_step(c2, c3, h, s);
            lemma_grows_trans(c0, c2, c3, 34, 1);
            self.ln1.lemma_extends(c1, c3);
            self.attn.linear_q.lemma_extends(c2, c3);
            self.attn.linear_k.lemma_extends(c2, c3);
            self.attn.linear_v.lemma_extends(c2, c3);
            self.attn.linear_out.lemma_extends(c2, c3);
            l0.lemma_extends(c0, c3);
        }
        let hn = match self.ln2.forward(ctx, &h) {
            Ok(v) => v,
            Err(e) => {
                assert(false);
                return Err(e);
            },
        };
        let ghost c4 = *ctx;
        proof {
            lemma_grows_trans(c0, c3, c4, 35, 3);
            self.ln1.lemma_extends(c3, c4);
            self.attn.linear_q.lemma_extends(c3, c4);
            self.attn.linear_k.lemma_extends(c3, c4);
            self.attn.linear_v.lemma_extends(c3, c4);
            self.attn.linear_out.lemma_extends(c3, c4);
            l0.lemma_extends(c0, c4);
        }
        let f1 = match self.ff1.forward(ctx, &hn) {
            Ok(v) => v,
            Err(e) => {
                proof {
                    lemma_grows_trans(c0, c4, *ctx, 38, 4);
                    self.ln1.lemma_extends(c4, *ctx);
                    self.ln2.lemma_extends(c4, *ctx);
                    self.attn.linear_q.lemma_extends(c4, *ctx);
                    self.attn.linear_k.lemma_extends(c4, *ctx);
                    self.attn.linear_v.lemma_extends(c4, *ctx);
                    self.attn.linear_out.lemma_extends(c4, *ctx);
                    l0.ff2.lemma_extends(c0, *ctx);
                }
                return Err(e);
            },
        };
        let ghost c5 = *ctx;
        let ghost fs = l0.ff_shape(s);
        proof {
            lemma_grows_trans(c0, c4, c5, 38, 4);
            self.ln1.lemma_extends(c4, c5);
            self.ln2.lemma_extends(c4, c5);
            self.attn.linear_q.lemma_extends(c4, c5);
            self.attn.linear_k.lemma_extends(c4, c5);
            self.attn.linear_v.lemma_extends(c4, c5);
            self.attn.linear_out.lemma_extends(c4, c5);
            l0.ff2.lemma_extends(c0, c5);
        }
        let g = match f1.gelu(ctx) {
            Ok(v) => v,
            Err(e) => {
                assert(false);
                return Err(e);
            },
        };
        let ghost c6 = *ctx;
        proof {
            lemma_op_step(c5, c6, g, fs, c6.op_seq().last());
            lemma_grows_trans(c0, c5, c6, 42, 1);
            self.ln1.lemma_extends(c5, c6);
            self.ln2.lemma_extends(c5, c6);
            self.attn.linear_q.lemma_extends(c5, c6);
            self.attn.linear_k.lemma_extends(c5, c6);
            self.attn.linear_v.lemma_extends(c5, c6);
            self.attn.linear_out.lemma_extends(c5, c6);
            self.ff1.lemma_extends(c5, c6);
            l0.ff2.lemma_extends(c0, c6);
        }
        let f2 = match self.ff2.forward(ctx, &g) {
            Ok(v) => v,
            Err(e) => {
                proof {
                    lemma_grows_trans(c0, c6, *ctx, 43, 4);
                    self.ln1.lemma_extends(c6, *ctx);
                    self.ln2.lemma_extends(c6, *ctx);
                    self.attn.linear_q.lemma_extends(c6, *ctx);
                    self.attn.linear_k.lemma_extends(c6, *ctx);
                    self.attn.linear_v.lemma_extends(c6, *ctx);
                    self.attn.linear_out.lemma_extends(c6, *ctx);
                    self.ff1.lemma_extends(c6, *ctx);
                }
                return Err(e);
            },
        };
        let ghost c7 = *ctx;
        proof {
            lemma_grows_trans(c0, c6, c7, 43, 4);
            assert(dense_shape(fs, l0.ff2.out_features) =~= s);
            self.ln1.lemma_extends(c6, c7);
            self.ln2.lemma_extends(c6, c7);
            self.attn.linear_q.lemma_extends(c6, c7);
            self.attn.linear_k.lemma_extends(c6, c7);
            self.attn.linear_v.lemma_extends(c6, c7);
            self.attn.linear_out.lemma_extends(c6, c7);
            self.ff1.lemma_extends(c6, c7);
        }
        let out = h.add(ctx, f2);
        proof {
            lemma_step(c7, *ctx, out, s);
            lemma_grows_trans(c0, c7, *ctx, 47, 1);
            self.ln1.lemma_extends(c7, *ctx);
            self.ln2.lemma_extends(c7, *ctx);
            self.attn.linear_q.lemma_extends(c7, *ctx);
            self.attn.linear_k.lemma_extends(c7, *ctx);
            self.attn.linear_v.lemma_extends(c7, *ctx);
            self.attn.linear_out.lemma_extends(c7, *ctx);
            self.ff1.lemma_extends(c7, *ctx);
            self.ff2.lemma_extends(c7, *ctx);
        }
        Ok(out)
    }

    /// The init steps of the two layer normalisations.
    pub fn init(&self) -> (r: Vec<InitStep>)
        ensures
            r@ == ones_then_zeros(self.ln1.gamma, self.ln1.beta, self.ln1.d_model) + ones_then_zeros(
                self.ln2.gamma,
                self.ln2.beta,
                self.ln2.d_model,
            ),
    {
        let mut steps = self.ln1.init();
        let mut more = self.ln2.init();
        steps.append(&mut more);
        steps
    }

    /// The variables of the sublayers: first norm, attention, second norm,
    /// the two feed-forward layers.
    pub fn parameters(&self) -> (r: Vec<Var>)
        ensures
            r@ == opt_seq(self.ln1.gamma) + opt_seq(self.ln1.beta) + (linear_params(self.attn.linear_q)
                + linear_params(self.attn.linear_k) + linear_params(self.attn.linear_v) + linear_params(
                self.attn.linear_out,
            )) + (opt_seq(self.ln2.gamma) + opt_seq(self.ln2.beta)) + linear_params(self.ff1)
                + linear_params(self.ff2),
    {
        let mut p = self.ln1.parameters();
        let mut more = self.attn.parameters();
        p.append(&mut more);
        let mut more = self.ln2.parameters();
        p.append(&mut more);
        let mut more = self.ff1.parameters();
        p.append(&mut more);
        let mut more = self.ff2.parameters();
        p.append(&mut more);
        p
    }
}

} // verus!
