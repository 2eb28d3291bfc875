//! Multi-head attention followed by a chain of gating matrices.
use vstd::prelude::*;

use crate::context::Context;
use crate::dims::{lemma_fits_prefix, prefix_prods_fit, prod, strides_fit};
use crate::errors::{Result, VolticError};
use crate::hybrid::{linear_init, linear_params, linear_steps};
use crate::layers::linear::{dense_fits, dense_shape, fresh_linear};
use crate::layers::{grows, lemma_grows_refl, lemma_grows_trans, lemma_op_step, lemma_step, room, view_as, InitStep, Linear};
use crate::moe::{all_match, all_wf, lemma_all_extend, linears_init, linears_parameters, linears_params, linears_steps};
use crate::ops::broadcast_shape::{greedy_align, infer_fits, lemma_greedy_self};
use crate::ops::permute::permuted;
use crate::var::{is_permutation, perm_entry_ok, swap_axes, Var};

verus! {

/// Attention over `d_model / d_k` heads whose merged output is multiplied
/// element-wise by each matrix's projection of it in turn; the `[1]`-shaped
/// variable that scales the scores is kept in `scale_slot`.
pub struct MultiMatrixAttention {
    pub num_matrices: u32,
    pub d_model: u32,
    pub d_k: u32,
    pub q_proj: Linear,
    pub k_proj: Linear,
    pub v_proj: Linear,
    pub matrices: Vec<Linear>,
    pub out_proj: Linear,
    pub scale_slot: Option<Var>,
}

impl MultiMatrixAttention {
    /// The projections are well formed in `c`.
    pub open spec fn wf(&self, c: Context) -> bool {
        &&& self.q_proj.wf(c)
        &&& self.k_proj.wf(c)
        &&& self.v_proj.wf(c)
        &&& all_wf(self.matrices@, c)
        &&& self.out_proj.wf(c)
    }

    /// `[b, t, d / d_k, d_k]` for input shape `[b, t, d]`.
    pub open spec fn head_shape(&self, s: Seq<u32>) -> Seq<u32> {
        seq![s[0], s[1], s[2] / self.d_k, self.d_k]
    }

    /// `[b, d / d_k, t, t]`, the shape of the scores.
    pub open spec fn score_shape(&self, s: Seq<u32>) -> Seq<u32> {
        seq![s[0], s[2] / self.d_k, s[1], s[1]]
    }

    /// `[b, d / d_k, t, d_k]`, the heads moved before the positions.
    pub open spec fn split_shape(&self, s: Seq<u32>) -> Seq<u32> {
        seq![s[0], s[2] / self.d_k, s[1], self.d_k]
    }

    /// A projection of width `w` on `[b, t, d]` splits into heads.
    pub open spec fn splits(&self, s: Seq<u32>, w: u32) -> bool {
        prod(seq![s[0], s[1], w]) == prod(self.head_shape(s))
    }

    /// The projections and head splits succeed on input shape `s`.
    pub open spec fn reaches_scores(&self, c: Context, s: Seq<u32>) -> bool {
        &&& self.q_proj.matches_input(c, s)
        &&& self.k_proj.matches_input(c, s)
        &&& self.v_proj.matches_input(c, s)
        &&& self.splits(s, self.q_proj.out_features)
        &&& self.splits(s, self.k_proj.out_features)
        &&& self.splits(s, self.v_proj.out_features)
    }

    /// The merged heads view as `[b, t, d]`.
    pub open spec fn merges(&self, s: Seq<u32>) -> bool {
        prod(self.head_shape(s)) == prod(s)
    }

    /// The shapes of a forward pass on `x` fit in `u32`, and the steps that
    /// would panic on a bad shape (the head count, the mask and, once the
    /// heads are merged, the gating products, which need each matrix to
    /// keep the width) get shapes that fit.
    pub open spec fn accepts(&self, c: Context, x: Var, mask: Option<Var>) -> bool {
        c.has_shape(x.0) && c.shape_of(x.0).len() == 3 ==> {
            let s = c.shape_of(x.0);
            let ss = self.score_shape(s);
            &&& dense_fits(s, self.q_proj.out_features)
            &&& dense_fits(s, self.k_proj.out_features)
            &&& dense_fits(s, self.v_proj.out_features)
            &&& self.q_proj.matches_input(c, s) && self.k_proj.matches_input(c, s)
                && self.v_proj.matches_input(c, s) ==> self.d_k != 0
            &&& self.d_k != 0 ==> {
                &&& prefix_prods_fit(self.head_shape(s))
                &&& prefix_prods_fit(self.split_shape(s))
                &&& prefix_prods_fit(seq![s[0], s[2] / self.d_k, self.d_k, s[1]])
                &&& prefix_prods_fit(ss)
                &&& strides_fit(ss)
                &&& prefix_prods_fit(s)
                &&& strides_fit(s)
                &&& dense_fits(s, self.out_proj.out_features)
                &&& forall|i: int|
                    0 <= i < self.matrices@.len() ==> dense_fits(s, (#[trigger] self.matrices@[i]).out_features)
                &&& self.reaches_scores(c, s) && self.merges(s) ==> forall|i: int|
                    0 <= i < self.matrices@.len() ==> (#[trigger] self.matrices@[i]).out_features == s[2]
                &&& self.reaches_scores(c, s) ==> (mask matches Some(m) ==> {
                    &&& c.has_shape(m.0)
                    &&& c.shape_of(m.0).len() <= 4
                    &&& greedy_align(ss, c.shape_of(m.0)) is Some
                    &&& infer_fits(ss, c.shape_of(m.0))
                })
            }
        }
    }

    /// What a forward pass on `x` returns, from layer `l` and graph `c`.
    pub open spec fn forward_result(l: MultiMatrixAttention, c: Context, c2: Context, x: Var, r: Result<Var>) -> bool {
        let s = c.shape_of(x.0);
        match r {
            Ok(out) => {
                &&& c.has_shape(x.0)
                &&& s.len() == 3
                &&& l.reaches_scores(c, s)
                &&& l.merges(s)
                &&& all_match(l.matrices@, c, s)
                &&& l.out_proj.matches_input(c, s)
                &&& !c.has_shape(out.0)
                &&& c2.has_shape(out.0)
                &&& c2.shape_of(out.0) == dense_shape(s, l.out_proj.out_features)
            },
            Err(e) => if !c.has_shape(x.0) {
                e is EmptyShape && c2 == c
            } else if s.len() != 3 {
                &&& e matches VolticError::InvalidDimension { dim, ndim }
                &&& dim == s.len()
                &&& ndim == 3
                &&& c2 == c
            } else if !l.q_proj.matches_input(c, s) || !l.k_proj.matches_input(c, s)
                || !l.v_proj.matches_input(c, s) {
                e matches VolticError::IncompatibleShapes { op, .. } && op == "mat_mul: K mismatch"
            } else if !l.reaches_scores(c, s) {
                let w = if !l.splits(s, l.q_proj.out_features) {
                    l.q_proj.out_features
                } else if !l.splits(s, l.k_proj.out_features) {
                    l.k_proj.out_features
                } else {
                    l.v_proj.out_features
                };
                &&& e matches VolticError::IncompatibleShapes { lhs, rhs, op }
                &&& lhs@ == seq![s[0], s[1], w]
                &&& rhs@ == l.head_shape(s)
                &&& op == "reshape: element count mismatch"
            } else if !l.merges(s) {
                &&& e matches VolticError::IncompatibleShapes { lhs, rhs, op }
                &&& lhs@ == l.head_shape(s)
                &&& rhs@ == s
                &&& op == "reshape: element count mismatch"
            } else {
                &&& !(all_match(l.matrices@, c, s) && l.out_proj.matches_input(c, s))
                &&& e matches VolticError::IncompatibleShapes { op, .. }
                &&& op == "mat_mul: K mismatch"
            },
        }
    }

    /// Projections of width `d_model`, heads of width `d_model / num_heads`
    /// and `num_matrices` gating matrices.
    pub fn new(d_model: u32, num_heads: u32, num_matrices: u32) -> (r: Result<Self>)
        requires
            num_heads != 0,
        ensures
            r is Ok,
            r->Ok_0.num_matrices == num_matrices,
            r->Ok_0.d_model == d_model,
            r->Ok_0.d_k == d_model / num_heads,
            r->Ok_0.q_proj == fresh_linear(d_model),
            r->Ok_0.k_proj == fresh_linear(d_model),
            r->Ok_0.v_proj == fresh_linear(d_model),
            r->Ok_0.out_proj == fresh_linear(d_model),
            r->Ok_0.matrices@.len() == num_matrices,
            forall|i: int| 0 <= i < num_matrices ==> #[trigger] r->Ok_0.matrices@[i] == fresh_linear(d_model),
            r->Ok_0.scale_slot is None,
    {
        let d_k = d_model / num_heads;
        let mut matrices: Vec<Linear> = Vec::new();
        let mut i: u32 = 0;
        while i < num_matrices
            invariant
                i <= num_matrices,
                matrices@.len() == i,
                forall|j: int| 0 <= j < i ==> #[trigger] matrices@[j] == fresh_linear(d_model),
            decreases num_matrices - i,
        {
            matrices.push(Linear::new(d_model));
            i = i + 1;
        }
        Ok(MultiMatrixAttention {
            num_matrices,
            d_model,
            d_k,
            q_proj: Linear::new(d_model),
            k_proj: Linear::new(d_model),
            v_proj: Linear::new(d_model),
            matrices,
            out_proj: Linear::new(d_model),
            scale_slot: None,
        })
    }

    /// Attention on `x` (`[b, t, d]`) with an optional additive mask; the
    /// merged heads are then gated by each matrix and projected.
    #[verifier::rlimit(100)]
    #[verifier::loop_isolation(false)]
    pub fn forward(&mut self, ctx: &mut Context, x: &Var, mask: Option<&Var>) -> (r: Result<Var>)
        requires
            old(ctx).ids_ok(),
            room(*old(ctx), 31 + 5 * old(self).matrices@.len()),
            old(self).wf(*old(ctx)),
            old(self).accepts(*old(ctx), *x, match mask { Some(m) => Some(*m), None => None }),
        ensures
            grows(*old(ctx), *final(ctx), 31 + 5 * old(self).matrices@.len()),
            final(self).wf(*final(ctx)),
            final(self).d_model == old(self).d_model,
            final(self).d_k == old(self).d_k,
            final(self).num_matrices == old(self).num_matrices,
            final(self).matrices@.len() == old(self).matrices@.len(),
            r is Ok ==> (final(self).scale_slot matches Some(v) && final(ctx).has_shape(v.0)
                && final(ctx).shape_of(v.0) == seq![1u32]),
            MultiMatrixAttention::forward_result(*old(self), *old(ctx), *final(ctx), *x, r),
    {
        let ghost c0 = *ctx;
        let ghost l0 = *self;
        let ghost n: nat = self.matrices@.len();
        proof {
            lemma_grows_refl(c0);
        }
        let shape = match ctx.shape(x.0) {
            Some(s) => s,
            None => return Err(VolticError::EmptyShape),
        };
        if shape.len() != 3 {
            return Err(VolticError::InvalidDimension { dim: shape.len(), ndim: 3 });
        }
        let ghost s = shape@;
        let b = shape[0];
        let t = shape[1];
        let d_model = shape[2];
        let q = match self.q_proj.forward(ctx, x) {
            Ok(v) => v,
            Err(e) => {
                proof {
                    l0.k_proj.lemma_extends(c0, *ctx);
                    l0.v_proj.lemma_extends(c0, *ctx);
                    l0.out_proj.lemma_extends(c0, *ctx);
                    lemma_all_extend(l0.matrices@, c0, *ctx);
                }
                return Err(e);
            },
        };
        let ghost c1 = *ctx;
        proof {
            l0.k_proj.lemma_extends(c0, c1);
            l0.v_proj.lemma_extends(c0, c1);
            l0.out_proj.lemma_extends(c0, c1);
            lemma_all_extend(l0.matrices@, c0, c1);
        }
        let k = match self.k_proj.forward(ctx, x) {
            Ok(v) => v,
            Err(e) => {
                proof {
                    lemma_grows_trans(c0, c1, *ctx, 4, 4);
                    self.q_proj.lemma_extends(c1, *ctx);
                    l0.v_proj.lemma_extends(c1, *ctx);
                    l0.out_proj.lemma_extends(c1, *ctx);
                    lemma_all_extend(l0.matrices@, c1, *ctx);
                }
                return Err(e);
            },
        };
        let ghost c2 = *ctx;
        proof {
            lemma_grows_trans(c0, c1, c2, 4, 4);
            self.q_proj.lemma_extends(c1, c2);
            l0.v_proj.lemma_extends(c1, c2);
            l0.out_proj.lemma_extends(c1, c2);
            lemma_all_extend(l0.matrices@, c1, c2);
        }
        let v = match self.v_proj.forward(ctx, x) {
            Ok(v) => v,
            Err(e) => {
                proof {
                    lemma_grows_trans(c0, c2, *ctx, 8, 4);
                    self.q_proj.lemma_extends(c2, *ctx);
                    self.k_proj.lemma_extends(c2, *ctx);
                    l0.out_proj.lemma_extends(c2, *ctx);
                    lemma_all_extend(l0.matrices@, c2, *ctx);
                }
                return Err(e);
            },
        };
        let ghost c3 = *ctx;
        proof {
            lemma_grows_trans(c0, c2, c3, 8, 4);
            self.q_proj.lemma_extends(c2, c3);
            self.k_proj.lemma_extends(c2, c3);
            l0.out_proj.lemma_extends(c2, c3);
            lemma_all_extend(l0.matrices@, c2, c3);
            assert(dense_shape(s, l0.q_proj.out_features) =~= seq![b, t, l0.q_proj.out_features]);
            assert(dense_shape(s, l0.k_proj.out_features) =~= seq![b, t, l0.k_proj.out_features]);
            assert(dense_shape(s, l0.v_proj.out_features) =~= seq![b, t, l0.v_proj.out_features]);
        }
        let d_k = self.d_k;
        let num_heads = d_model / d_k;
        let ghost hs = self.head_shape(s);
        let q4 = match view_as(ctx, q, vec![b, t, num_heads, d_k]) {
            Ok(v) => v,
            Err(e) => {
                proof {
                    self.q_proj.lemma_extends(c3, *ctx);
                }
                return Err(e);
            },
        };
        let ghost c4 = *ctx;
        proof {
            lemma_grows_trans(c0, c3, c4, 12, 1);
            self.q_proj.lemma_extends(c3, c4);
            self.k_proj.lemma_extends(c3, c4);
            self.v_proj.lemma_extends(c3, c4);
            l0.out_proj.lemma_extends(c3, c4);
            lemma_all_extend(l0.matrices@, c3, c4);
        }
        let k4 = match view_as(ctx, k, vec![b, t, num_heads, d_k]) {
            Ok(v) => v,
            Err(e) => return Err(e),
        };
        let ghost c5 = *ctx;
        proof {
            lemma_grows_trans(c0, c4, c5, 13, 1);
            self.q_proj.lemma_extends(c4, c5);
            self.k_proj.lemma_extends(c4, c5);
            self.v_proj.lemma_extends(c4, c5);
            l0.out_proj.lemma_extends(c4, c5);
            lemma_all_extend(l0.matrices@, c4, c5);
        }
        let v4 = match view_as(ctx, v, vec![b, t, num_heads, d_k]) {
            Ok(v) => v,
            Err(e) => return Err(e),
        };
        let ghost c6 = *ctx;
        let ghost th = seq![b, num_heads, t, d_k];
        proof {
            lemma_grows_trans(c0, c5, c6, 14, 1);
            assert(swap_axes(hs, 1, 2) =~= th);
        }
        let q_t = match q4.transpose(ctx, 1, 2) {
            Ok(v) => v,
            Err(e) => {
                assert(false);
                return Err(e);
            },
        };
        let ghost c7 = *ctx;
        proof {
            lemma_step(c6, c7, q_t, th);
            lemma_grows_trans(c0, c6, c7, 15, 1);
        }
        let k_t = match k4.transpose(ctx, 1, 2) {
            Ok(v) => v,
            Err(e) => {
                assert(false);
                return Err(e);
            },
        };
        let ghost c8 = *ctx;
        proof {
            lemma_step(c7, c8, k_t, th);
            lemma_grows_trans(c0, c7, c8, 16, 1);
        }
        let v_t = match v4.transpose(ctx, 1, 2) {
            Ok(v) => v,
            Err(e) => {
                assert(false);
                return Err(e);
            },
        };
        let ghost c9 = *ctx;
        let ghost kt = seq![b, num_heads, d_k, t];
        proof {
            lemma_step(c8, c9, v_t, th);
            lemma_grows_trans(c0, c8, c9, 17, 1);
            assert(swap_axes(th, 2, 3) =~= kt);
        }
        let k_tt = match k_t.transpose(ctx, 2, 3) {
            Ok(v) => v,
            Err(e) => {
                assert(false);
                return Err(e);
            },
        };
        let ghost c10 = *ctx;
        let ghost ss = self.score_shape(s);
        proof {
            lemma_step(c9, c10, k_tt, kt);
            lemma_grows_trans(c0, c9, c10, 18, 1);
            lemma_fits_prefix(th, 2);
            assert(th.subrange(0, 2) =~= seq![b, num_heads]);
            assert(kt.subrange(0, 2) =~= seq![b, num_heads]);
            assert(crate::var::batch_dims(th).push(t).push(t) =~= ss);
        }
        let scores = match q_t.mat_mul(ctx, k_tt) {
            Ok(v) => v,
            Err(e) => {
                assert(false);
                return Err(e);
            },
        };
        let ghost c11 = *ctx;
        proof {
            lemma_op_step(c10, c11, scores, ss, c11.op_seq().last());
            lemma_grows_trans(c0, c10, c11, 19, 1);
        }
        let scale = Var::scalar_slot(ctx);
        self.scale_slot = Some(scale);
        let ghost c12 = *ctx;
        proof {
            lemma_op_step(c11, c12, scale, seq![1u32], c12.op_seq().last());
            lemma_grows_trans(c0, c11, c12, 20, 1);
            crate::var::lemma_prod_single(1);
            assert(strides_fit(seq![1u32])) by {
                assert forall|j: int| 1 <= j <= 1 implies #[trigger] prod(seq![1u32].subrange(j, 1)) <= u32::MAX by {
                    assert(seq![1u32].subrange(1, 1) =~= Seq::<u32>::empty());
                }
            }
            assert(greedy_align(ss, seq![1u32]) is Some) by {
                assert(seq![1u32].drop_last() =~= Seq::<u32>::empty());
                assert(greedy_align(ss.drop_last(), Seq::<u32>::empty()) is Some);
                assert(crate::ops::broadcast_shape::compatible(ss.last(), seq![1u32].last()));
            }
        }
        let scaled = scores.mul(ctx, scale);
        let ghost c13 = *ctx;
        proof {
            lemma_step(c12, c13, scaled, ss);
            lemma_grows_trans(c0, c12, c13, 21, 1);
        }
        let masked = match mask {
            Some(m) => {
                let o = scaled.add(ctx, *m);
                proof {
                    lemma_step(c13, *ctx, o, ss);
                }
                o
            },
            None => {
                proof {
                    lemma_grows_refl(c13);
                }
                scaled
            },
        };
        let ghost c14 = *ctx;
        proof {
            lemma_grows_trans(c0, c13, c14, 22, 1);
            lemma_fits_prefix(ss, 3);
            assert(ss.subrange(4, 4) =~= Seq::<u32>::empty());
            assert(prod(Seq::<u32>::empty()) == 1);
            assert forall|j: int| 0 <= j <= 0 implies #[trigger] prod(Seq::<u32>::empty().take(j)) <= u32::MAX by {
                assert(Seq::<u32>::empty().take(j) =~= Seq::<u32>::empty());
            }
        }
        let attn = match masked.softmax(ctx, 3) {
            Ok(v) => v,
            Err(e) => {
                assert(false);
                return Err(e);
            },
        };
        let ghost c15 = *ctx;
        proof {
            lemma_op_step(c14, c15, attn, ss, c15.op_seq().last());
            lemma_grows_trans(c0, c14, c15, 23, 1);
            lemma_fits_prefix(ss, 2);
            assert(ss.subrange(0, 2) =~= seq![b, num_heads]);
            assert(crate::var::batch_dims(ss).push(t).push(d_k) =~= th);
        }
        let context = match attn.mat_mul(ctx, v_t) {
            Ok(v) => v,
            Err(e) => {
                assert(false);
                return Err(e);
            },
        };
        let ghost c16 = *ctx;
        let perm: Vec<usize> = vec![0, 2, 1, 3];
        proof {
            lemma_op_step(c15, c16, context, th, c16.op_seq().last());
            lemma_grows_trans(c0, c15, c16, 24, 1);
            assert forall|j: int| 0 <= j < 4 implies perm_entry_ok(perm@, j) by {}
            assert(is_permutation(perm@));
            assert(permuted(th, perm@) =~= hs);
        }
        let merged = match context.permute(ctx, perm.as_slice()) {
            Ok(v) => v,
            Err(e) => {
                assert(false);
                return Err(e);
            },
        };
        let ghost c17 = *ctx;
        proof {
            lemma_step(c16, c17, merged, hs);
            lemma_grows_trans(c0, c16, c17, 25, 1);
            self.q_proj.lemma_extends(c5, c17);
            self.k_proj.lemma_extends(c5, c17);
            self.v_proj.lemma_extends(c5, c17);
            l0.out_proj.lemma_extends(c5, c17);
            lemma_all_extend(l0.matrices@, c5, c17);
        }
        let full: Vec<u32> = vec![b, t, d_model];
        assert(full@ =~= s);
        let mut combined = match view_as(ctx, merged, full) {
            Ok(v) => v,
            Err(e) => return Err(e),
        };
        let ghost c18 = *ctx;
        proof {
            lemma_grows_trans(c0, c17, c18, 26, 1);
            self.q_proj.lemma_extends(c17, c18);
            self.k_proj.lemma_extends(c17, c18);
            self.v_proj.lemma_extends(c17, c18);
            l0.out_proj.lemma_extends(c17, c18);
            lemma_all_extend(l0.matrices@, c17, c18);
            lemma_greedy_self(s);
        }
        let mut i: usize = 0;
        while i < self.matrices.len()
            invariant
                0 <= i <= n,
                self.matrices@.len() == n,
                self.d_model == l0.d_model,
                self.d_k == l0.d_k,
                self.num_matrices == l0.num_matrices,
                self.scale_slot == Some(scale),
                grows(c0, *ctx, (27 + 5 * i) as nat),
                ctx.has_shape(scale.0),
                ctx.shape_of(scale.0) == seq![1u32],
                ctx.has_shape(combined.0),
                ctx.shape_of(combined.0) == s,
                !c0.has_shape(combined.0),
                self.q_proj.wf(*ctx),
                self.k_proj.wf(*ctx),
                self.v_proj.wf(*ctx),
                self.out_proj == l0.out_proj,
                l0.out_proj.wf(*ctx),
                all_wf(self.matrices@, *ctx),
                forall|j: int| 0 <= j < i ==> #[trigger] l0.matrices@[j].matches_input(c0, s),
                forall|j: int|
                    0 <= j < n ==> (#[trigger] self.matrices@[j]).out_features == l0.matrices@[j].out_features,
                forall|j: int| i <= j < n ==> #[trigger] self.matrices@[j] == l0.matrices@[j],
            decreases n - i,
        {
            let ghost ci = *ctx;
            let mut mat = self.matrices[i];
            let ghost m0 = mat;
            let res = mat.forward(ctx, &combined);
            let ghost cj = *ctx;
            proof {
                lemma_grows_trans(c0, ci, cj, (27 + 5 * i) as nat, 4);
                self.q_proj.lemma_extends(ci, cj);
                self.k_proj.lemma_extends(ci, cj);
                self.v_proj.lemma_extends(ci, cj);
                l0.out_proj.lemma_extends(ci, cj);
                lemma_all_extend(self.matrices@, ci, cj);
                m0.lemma_extends(c0, ci);
            }
            let ghost before = self.matrices@;
            self.matrices.set(i, mat);
            proof {
                assert forall|j: int| 0 <= j < n implies #[trigger] self.matrices@[j].wf(cj) by {
                    if j != i {
                        assert(self.matrices@[j] == before[j]);
                    }
                }
            }
            let transformed = match res {
                Ok(tv) => tv,
                Err(e) => {
                    proof {
                        assert(!m0.matches_input(ci, s));
                        assert(!l0.matrices@[i as int].matches_input(c0, s));
                    }
                    return Err(e);
                },
            };
            proof {
                assert(dense_shape(s, m0.out_features) =~= s);
            }
            let next = transformed.mul(ctx, combined);
            proof {
                lemma_step(cj, *ctx, next, s);
                lemma_grows_trans(c0, cj, *ctx, (31 + 5 * i) as nat, 1);
                self.q_proj.lemma_extends(cj, *ctx);
                self.k_proj.lemma_extends(cj, *ctx);
                self.v_proj.lemma_extends(cj, *ctx);
                l0.out_proj.lemma_extends(cj, *ctx);
                lemma_all_extend(self.matrices@, cj, *ctx);
            }
            combined = next;
            i = i + 1;
        }
        let ghost c19 = *ctx;
        proof {
            l0.out_proj.lemma_extends(c0, c19);
            assert(all_match(l0.matrices@, c0, s));
        }
        let out = self.out_proj.forward(ctx, &combined);
        proof {
            lemma_grows_trans(c0, c19, *ctx, (27 + 5 * n) as nat, 4);
            self.q_proj.lemma_extends(c19, *ctx);
            self.k_proj.lemma_extends(c19, *ctx);
            self.v_proj.lemma_extends(c19, *ctx);
            lemma_all_extend(self.matrices@, c19, *ctx);
        }
        out
    }

    /// The init steps of the projections, then of each matrix, then of
    /// the output projection.
    pub fn init(&self, ctx: &Context) -> (r: Vec<InitStep>)
        requires
            self.wf(*ctx),
        ensures
            r@ == linear_steps(*ctx, self.q_proj) + linear_steps(*ctx, self.k_proj) + linear_steps(*ctx, self.v_proj)
                + linears_steps(*ctx, self.matrices@) + linear_steps(*ctx, self.out_proj),
    {
        let mut steps = linear_init(&self.q_proj, ctx);
        let mut more = linear_init(&self.k_proj, ctx);
        steps.append(&mut more);
        let mut more = linear_init(&self.v_proj, ctx);
        steps.append(&mut more);
        let mut more = linears_init(&self.matrices, ctx);
        steps.append(&mut more);
        let mut more = linear_init(&self.out_proj, ctx);
        steps.append(&mut more);
        steps
    }

    /// The variables of the projections, then of each matrix, then of the
    /// output projection.
    pub fn parameters(&self) -> (r: Vec<Var>)
        ensures
            r@ == linear_params(self.q_proj) + linear_params(self.k_proj) + linear_params(self.v_proj)
                + linears_params(self.matrices@) + linear_params(self.out_proj),
    {
        let mut p = self.q_proj.parameters();
        let mut more = self.k_proj.parameters();
        p.append(&mut more);
        let mut more = self.v_proj.parameters();
        p.append(&mut more);
        let mut more = linears_parameters(&self.matrices);
        p.append(&mut more);
        let mut more = self.out_proj.parameters();
        p.append(&mut more);
        p
    }
}

} // verus!
