//! Nearest-neighbour resizing of `[batch, channels, height, width]` tensors
//! by reshaping.
use vstd::prelude::*;

use crate::context::Context;
use crate::dims::{lemma_prod_small, prefix_prods_fit, prod};
use crate::errors::{Result, VolticError};
use crate::layers::{grows, lemma_grows_refl, lemma_grows_trans, lemma_step, room};
use crate::ops::permute::permuted;
use crate::var::{is_permutation, perm_entry_ok, Var};

verus! {

/// Scales the two spatial axes up by `scale_factor`.
pub struct Upsample {
    pub scale_factor: u32,
}

/// Scales the two spatial axes down by `scale_factor`.
pub struct Downsample {
    pub scale_factor: u32,
}

/// `[b, c, h, 1, w, 1]` for a `[b, c, h, w]` shape.
pub open spec fn spread_shape(s: Seq<u32>) -> Seq<u32> {
    seq![s[0], s[1], s[2], 1u32, s[3], 1u32]
}

/// `[b, c, h * f, w * f]` for a `[b, c, h, w]` shape.
pub open spec fn scaled_shape(s: Seq<u32>, f: u32) -> Seq<u32> {
    seq![s[0], s[1], (s[2] * f) as u32, (s[3] * f) as u32]
}

/// `[b, c, h / f, f, w / f, f]` for a `[b, c, h, w]` shape.
pub open spec fn blocks_shape(s: Seq<u32>, f: u32) -> Seq<u32> {
    seq![s[0], s[1], (s[2] / f) as u32, f, (s[3] / f) as u32, f]
}

/// `[b, c, h / f, w / f]` for a `[b, c, h, w]` shape.
pub open spec fn pooled_shape(s: Seq<u32>, f: u32) -> Seq<u32> {
    seq![s[0], s[1], (s[2] / f) as u32, (s[3] / f) as u32]
}

/// The axis order that gathers the two block axes at the end.
pub open spec fn block_perm() -> Seq<usize> {
    seq![0usize, 1, 2, 4, 3, 5]
}

impl Upsample {
    /// The products the resizing computes fit in `u32`.
    pub open spec fn fits(&self, s: Seq<u32>) -> bool {
        s.len() == 4 ==> {
            &&& s[2] * self.scale_factor <= u32::MAX
            &&& s[3] * self.scale_factor <= u32::MAX
            &&& prefix_prods_fit(s)
            &&& prefix_prods_fit(spread_shape(s))
            &&& prefix_prods_fit(scaled_shape(s, self.scale_factor))
        }
    }

    pub fn new(scale_factor: u32) -> (r: Self)
        ensures
            r.scale_factor == scale_factor,
    {
        Upsample { scale_factor }
    }

    /// Views `x` through `[b, c, h, 1, w, 1]` as `[b, c, h * f, w * f]`;
    /// the element counts must agree, so this succeeds only when `f` is 1
    /// or `x` is empty.
    pub fn forward(&self, ctx: &mut Context, x: &Var) -> (r: Result<Var>)
        requires
            old(ctx).ids_ok(),
            room(*old(ctx), 2),
            old(ctx).has_shape(x.0) ==> self.fits(old(ctx).shape_of(x.0)),
        ensures
            grows(*old(ctx), *final(ctx), 2),
            ({
                let s = old(ctx).shape_of(x.0);
                let f = self.scale_factor;
                match r {
                    Ok(out) => {
                        &&& old(ctx).has_shape(x.0)
                        &&& s.len() == 4
                        &&& prod(s) == prod(scaled_shape(s, f))
                        &&& !old(ctx).has_shape(out.0)
                        &&& final(ctx).has_shape(out.0)
                        &&& final(ctx).shape_of(out.0) == scaled_shape(s, f)
                        &&& final(ctx).op_seq().len() == old(ctx).op_seq().len() + 2
                    },
                    Err(e) => if !old(ctx).has_shape(x.0) {
                        e is EmptyShape && *final(ctx) == *old(ctx)
                    } else if s.len() != 4 {
                        &&& e matches VolticError::InvalidDimension { dim, ndim }
                        &&& dim == s.len()
                        &&& ndim == 4
                        &&& *final(ctx) == *old(ctx)
                    } else {
                        &&& prod(s) != prod(scaled_shape(s, f))
                        &&& e matches VolticError::IncompatibleShapes { lhs, rhs, op }
                        &&& lhs@ == spread_shape(s)
                        &&& rhs@ == scaled_shape(s, f)
                        &&& op == "reshape: element count mismatch"
                    },
                }
            }),
    {
        let ghost c0 = *ctx;
        proof {
            lemma_grows_refl(c0);
        }
        let shape = match ctx.shape(x.0) {
            Some(s) => s,
            None => return Err(VolticError::EmptyShape),
        };
        if shape.len() != 4 {
            return Err(VolticError::InvalidDimension { dim: shape.len(), ndim: 4 });
        }
        let batch = shape[0];
        let channels = shape[1];
        let height = shape[2];
        let width = shape[3];
        let new_height = height * self.scale_factor;
        let new_width = width * self.scale_factor;
        let ghost s = shape@;
        proof {
            assert(s =~= seq![batch, channels, height, width]);
            lemma_prod_small(batch, channels, height, width, 1, 1);
            lemma_prod_small(batch, channels, height, 1, width, 1);
            assert(batch * channels * height * 1 * width * 1 == batch * channels * height * width)
                by (nonlinear_arith);
        }
        let spread: Vec<u32> = vec![batch, channels, height, 1, width, 1];
        assert(spread@ =~= spread_shape(s));
        let x_reshaped = match x.reshape(ctx, spread) {
            Ok(v) => v,
            Err(e) => {
                assert(false);
                return Err(e);
            },
        };
        let ghost c1 = *ctx;
        proof {
            lemma_step(c0, c1, x_reshaped, spread_shape(s));
        }
        let target: Vec<u32> = vec![batch, channels, new_height, new_width];
        assert(target@ =~= scaled_shape(s, self.scale_factor));
        let r = x_reshaped.reshape(ctx, target);
        match r {
            Ok(out) => {
                proof {
                    lemma_step(c1, *ctx, out, scaled_shape(s, self.scale_factor));
                    lemma_grows_trans(c0, c1, *ctx, 1, 1);
                }
                Ok(out)
            },
            Err(e) => {
                proof {
                    lemma_grows_refl(c1);
                    lemma_grows_trans(c0, c1, c1, 1, 0);
                }
                Err(e)
            },
        }
    }
}

impl Downsample {
    /// The shapes the pooling goes through have element counts that fit in
    /// `u32`, and the factor is not zero.
    pub open spec fn fits(&self, s: Seq<u32>) -> bool {
        s.len() == 4 ==> {
            let f = self.scale_factor;
            &&& f != 0
            &&& prefix_prods_fit(s)
            &&& prefix_prods_fit(blocks_shape(s, f))
            &&& prefix_prods_fit(permuted(blocks_shape(s, f), block_perm()))
            &&& prefix_prods_fit(pooled_shape(s, f))
        }
    }

    pub fn new(scale_factor: u32) -> (r: Self)
        ensures
            r.scale_factor == scale_factor,
    {
        Downsample { scale_factor }
    }

    /// Splits each spatial axis into `(size / f, f)` blocks, moves the block
    /// axes last and views the result as `[b, c, h / f, w / f]`; each view
    /// must keep the element count.
    #[verifier::rlimit(30)]
    pub fn forward(&self, ctx: &mut Context, x: &Var) -> (r: Result<Var>)
        requires
            old(ctx).ids_ok(),
            room(*old(ctx), 3),
            old(ctx).has_shape(x.0) ==> self.fits(old(ctx).shape_of(x.0)),
        ensures
            grows(*old(ctx), *final(ctx), 3),
            ({
                let s = old(ctx).shape_of(x.0);
                let f = self.scale_factor;
                let bl = blocks_shape(s, f);
                let pooled = pooled_shape(s, f);
                match r {
                    Ok(out) => {
                        &&& old(ctx).has_shape(x.0)
                        &&& s.len() == 4
                        &&& prod(s) == prod(bl)
                        &&& prod(bl) == prod(pooled)
                        &&& !old(ctx).has_shape(out.0)
                        &&& final(ctx).shape_of(out.0) == pooled
                        &&& final(ctx).op_seq().len() == old(ctx).op_seq().len() + 3
                    },
                    Err(e) => if !old(ctx).has_shape(x.0) {
                        e is EmptyShape && *final(ctx) == *old(ctx)
                    } else if s.len() != 4 {
                        &&& e matches VolticError::InvalidDimension { dim, ndim }
                        &&& dim == s.len()
                        &&& ndim == 4
                        &&& *final(ctx) == *old(ctx)
                    } else {
                        &&& e matches VolticError::IncompatibleShapes { lhs, rhs, op }
                        &&& op == "reshape: element count mismatch"
                        &&& if prod(s) != prod(bl) {
                            lhs@ == s && rhs@ == bl
                        } else {
                            &&& prod(bl) != prod(pooled)
                            &&& lhs@ == permuted(bl, block_perm())
                            &&& rhs@ == pooled
                        }
                    },
                }
            }),
    {
        let ghost c0 = *ctx;
        proof {
            lemma_grows_refl(c0);
        }
        let shape = match ctx.shape(x.0) {
            Some(s) => s,
            None => return Err(VolticError::EmptyShape),
        };
        if shape.len() != 4 {
            return Err(VolticError::InvalidDimension { dim: shape.len(), ndim: 4 });
        }
        let ghost s = shape@;
        let f = self.scale_factor;
        let batch = shape[0];
        let channels = shape[1];
        let new_height = shape[2] / f;
        let new_width = shape[3] / f;
        let blocks: Vec<u32> = vec![batch, channels, new_height, f, new_width, f];
        assert(blocks@ =~= blocks_shape(s, f));
        let reshaped = match x.reshape(ctx, blocks) {
            Ok(v) => v,
            Err(e) => return Err(e),
        };
        let ghost c1 = *ctx;
        let ghost bl = blocks_shape(s, f);
        proof {
            lemma_step(c0, c1, reshaped, bl);
        }
        let perm: Vec<usize> = vec![0, 1, 2, 4, 3, 5];
        proof {
            assert(perm@ =~= block_perm());
            assert forall|k: int| 0 <= k < 6 implies perm_entry_ok(perm@, k) by {}
            assert(is_permutation(perm@));
        }
        let permuted_var = match reshaped.permute(ctx, perm.as_slice()) {
            Ok(v) => v,
            Err(e) => {
                assert(false);
                return Err(e);
            },
        };
        let ghost c2 = *ctx;
        proof {
            lemma_step(c1, c2, permuted_var, permuted(bl, block_perm()));
            lemma_grows_trans(c0, c1, c2, 1, 1);
            lemma_prod_small(batch, channels, new_height, new_width, f, f);
            lemma_prod_small(batch, channels, new_height, f, new_width, f);
            assert(permuted(bl, block_perm()) =~= seq![batch, channels, new_height, new_width, f, f]);
            assert(batch * channels * new_height * new_width * f * f == batch * channels * new_height * f
                * new_width * f) by (nonlinear_arith);
        }
        let pooled: Vec<u32> = vec![batch, channels, new_height, new_width];
        assert(pooled@ =~= pooled_shape(s, f));
        match permuted_var.reshape(ctx, pooled) {
            Ok(out) => {
                proof {
                    lemma_step(c2, *ctx, out, pooled_shape(s, f));
                    lemma_grows_trans(c0, c2, *ctx, 2, 1);
                }
                Ok(out)
            },
            Err(e) => Err(e),
        }
    }
}

} // verus!
