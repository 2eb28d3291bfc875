//! Grouped projections and channel-wise attention.
use vstd::prelude::*;

use crate::context::Context;
use crate::dims::{lemma_fits2, lemma_fits_prefix, prefix_prods_fit, prod, range_product};
use crate::errors::{Result, VolticError};
use crate::hybrid::{linear_init, linear_params, linear_steps};
use crate::layers::linear::{dense_fits, dense_shape, fresh_linear};
use crate::layers::{
    grows, lemma_grows_refl, lemma_grows_trans, lemma_op_step, lemma_step, room, view_as, InitStep, Linear,
};
use crate::ops::broadcast_shape::lemma_greedy_self;
use crate::moe::{all_match, all_wf, lemma_all_extend, linears_init, linears_parameters, linears_params, linears_steps};
use crate::var::Var;

verus! {

/// One projection per group, each applied to the rows of the input.
pub struct GroupedMatMul {
    pub num_groups: u32,
    pub group_weights: Vec<Linear>,
}

/// The input of shape `s` as rows: `[prod(s[..last]), last axis]`.
pub open spec fn rows_shape(s: Seq<u32>) -> Seq<u32> {
    seq![prod(s.drop_last()) as u32, s[s.len() - 1]]
}

impl GroupedMatMul {
    /// The group projections are well formed in `c`.
    pub open spec fn wf(&self, c: Context) -> bool {
        &&& self.num_groups != 0
        &&& all_wf(self.group_weights@, c)
    }

    /// The shapes of a forward pass on `x` fit in `u32`.
    pub open spec fn accepts(&self, c: Context, x: Var) -> bool {
        c.has_shape(x.0) && c.shape_of(x.0).len() >= 2 ==> {
            let s = c.shape_of(x.0);
            &&& prefix_prods_fit(s)
            &&& forall|i: int|
                0 <= i < self.group_weights@.len() ==> dense_fits(
                    rows_shape(s),
                    #[trigger] self.group_weights@[i].out_features,
                )
        }
    }

    /// What a forward pass on `x` returns, from layer `l` and graph `c`.
    pub open spec fn forward_result(l: GroupedMatMul, c: Context, c2: Context, x: Var, r: Result<Var>) -> bool {
        let s = c.shape_of(x.0);
        match r {
            Ok(out) => {
                &&& c.has_shape(x.0)
                &&& s.len() >= 2
                &&& all_match(l.group_weights@, c, rows_shape(s))
                &&& c.id_counter() <= out.0.0 < c2.id_counter()
                &&& !c2.has_shape(out.0)
            },
            Err(e) => if !c.has_shape(x.0) {
                e is EmptyShape && c2 == c
            } else if s.len() < 2 {
                &&& e matches VolticError::InvalidDimension { dim, ndim }
                &&& dim == s.len()
                &&& ndim == 2
                &&& c2 == c
            } else {
                &&& !all_match(l.group_weights@, c, rows_shape(s))
                &&& e matches VolticError::IncompatibleShapes { op, .. }
                &&& op == "mat_mul: K mismatch"
            },
        }
    }

    /// `num_groups` projections of width `output_dim / num_groups`.
    pub fn new(input_dim: u32, output_dim: u32, num_groups: u32) -> (r: Result<Self>)
        requires
            num_groups != 0,
        ensures
            r is Ok,
            r->Ok_0.num_groups == num_groups,
            r->Ok_0.group_weights@.len() == num_groups,
            forall|i: int|
                0 <= i < num_groups ==> #[trigger] r->Ok_0.group_weights@[i] == fresh_linear(
                    output_dim / num_groups,
                ),
    {
        let _dim_per_group = input_dim / num_groups;
        let output_per_group = output_dim / num_groups;
        let mut group_weights: Vec<Linear> = Vec::new();
        let mut i: u32 = 0;
        while i < num_groups
            invariant
                i <= num_groups,
                output_per_group == output_dim / num_groups,
                group_weights@.len() == i,
                forall|j: int| 0 <= j < i ==> #[trigger] group_weights@[j] == fresh_linear(output_per_group),
            decreases num_groups - i,
        {
            group_weights.push(Linear::new(output_per_group));
            i = i + 1;
        }
        Ok(GroupedMatMul { num_groups, group_weights })
    }

    /// Runs every group projection on the rows of `x`; the result is a
    /// fresh variable without a shape.
    #[verifier::rlimit(80)]
    #[verifier::loop_isolation(false)]
    pub fn forward(&mut self, ctx: &mut Context, x: &Var) -> (r: Result<Var>)
        requires
            old(ctx).ids_ok(),
            room(*old(ctx), 1 + 5 * old(self).group_weights@.len()),
            old(self).wf(*old(ctx)),
            old(self).accepts(*old(ctx), *x),
        ensures
            grows(*old(ctx), *final(ctx), 1 + 5 * old(self).group_weights@.len()),
            final(self).wf(*final(ctx)),
            final(self).num_groups == old(self).num_groups,
            final(self).group_weights@.len() == old(self).group_weights@.len(),
            GroupedMatMul::forward_result(*old(self), *old(ctx), *final(ctx), *x, r),
    {
        let ghost c0 = *ctx;
        let ghost l0 = *self;
        let ghost n: nat = self.group_weights@.len();
        proof {
            lemma_grows_refl(c0);
        }
        let x_shape = match ctx.shape(x.0) {
            Some(s) => s,
            None => return Err(VolticError::EmptyShape),
        };
        if x_shape.len() < 2 {
            return Err(VolticError::InvalidDimension { dim: x_shape.len(), ndim: 2 });
        }
        let ghost s = x_shape@;
        let ghost rs = rows_shape(s);
        proof {
            lemma_fits_prefix(s, s.len() - 1);
            assert(s.drop_last() =~= s.subrange(0, s.len() - 1));
            assert(s.take(s.len() - 1) =~= s.drop_last());
            assert(prod(s.take(s.len() - 1)) <= u32::MAX);
            assert(s.take(s.len() as int) =~= s);
            assert(prod(s.take(s.len() as int)) <= u32::MAX);
            assert(prod(s) == prod(s.drop_last()) * s.last());
            crate::dims::lemma_prod_nonneg(s.drop_last());
            lemma_fits2(prod(s.drop_last()) as u32, s[s.len() - 1]);
        }
        let batch = range_product(x_shape.as_slice(), 0, x_shape.len() - 1);
        let input_dim = x_shape[x_shape.len() - 1];
        let _dim_per_group = input_dim / self.num_groups;
        let mut i: usize = 0;
        while i < self.group_weights.len()
            invariant
                0 <= i <= n,
                self.group_weights@.len() == n,
                self.num_groups == l0.num_groups,
                self.num_groups != 0,
                batch == rs[0],
                input_dim == rs[1],
                grows(c0, *ctx, (5 * i) as nat),
                all_wf(self.group_weights@, *ctx),
                forall|j: int| 0 <= j < i ==> #[trigger] l0.group_weights@[j].matches_input(c0, rs),
                forall|j: int|
                    0 <= j < n ==> (#[trigger] self.group_weights@[j]).out_features
                        == l0.group_weights@[j].out_features,
                forall|j: int| i <= j < n ==> #[trigger] self.group_weights@[j] == l0.group_weights@[j],
            decreases n - i,
        {
            let ghost ci = *ctx;
            let x_rows = match x.reshape(ctx, vec![batch, input_dim]) {
                Ok(v) => v,
                Err(e) => {
                    assert(false);
                    return Err(e);
                },
            };
            let ghost ck = *ctx;
            proof {
                lemma_step(ci, ck, x_rows, rs);
                lemma_grows_trans(c0, ci, ck, (5 * i) as nat, 1);
                lemma_all_extend(self.group_weights@, ci, ck);
            }
            let mut w = self.group_weights[i];
            let ghost w0 = w;
            let res = w.forward(ctx, &x_rows);
            let ghost cj = *ctx;
            proof {
                lemma_grows_trans(c0, ck, cj, (5 * i + 1) as nat, 4);
                lemma_all_extend(self.group_weights@, ck, cj);
                w0.lemma_extends(c0, ck);
            }
            let ghost before = self.group_weights@;
            self.group_weights.set(i, w);
            proof {
                assert forall|j: int| 0 <= j < n implies #[trigger] self.group_weights@[j].wf(cj) by {
                    if j != i {
                        assert(self.group_weights@[j] == before[j]);
                    }
                }
            }
            match res {
                Ok(_) => {},
                Err(e) => {
                    proof {
                        assert(!w0.matches_input(ck, rs));
                        assert(!l0.group_weights@[i as int].matches_input(c0, rs));
                    }
                    return Err(e);
                },
            }
            i = i + 1;
        }
        let ghost c4 = *ctx;
        let out = Var::new(ctx);
        proof {
            assert(crate::layers::shapes_extend(c4, *ctx));
            assert(ctx.op_seq().subrange(0, c4.op_seq().len() as int) =~= c4.op_seq());
            lemma_grows_trans(c0, c4, *ctx, (5 * n) as nat, 1);
            lemma_all_extend(self.group_weights@, c4, *ctx);
            assert(all_match(l0.group_weights@, c0, rs));
            assert(!c4.has_shape(out.0));
        }
        Ok(out)
    }

    /// The init steps of every group projection, in order.
    pub fn init(&self, ctx: &Context) -> (r: Vec<InitStep>)
        requires
            self.wf(*ctx),
        ensures
            r@ == linears_steps(*ctx, self.group_weights@),
    {
        linears_init(&self.group_weights, ctx)
    }

    /// The variables of every group projection, in order.
    pub fn parameters(&self) -> (r: Vec<Var>)
        ensures
            r@ == linears_params(self.group_weights@),
    {
        linears_parameters(&self.group_weights)
    }
}

/// Attention across channel groups of an image batch `[b, c, h, w]`.
pub struct ChannelWiseAttention {
    pub num_groups: u32,
    pub query: Linear,
    pub key: Linear,
    pub value: Linear,
}

/// `[b, c, h, w]` split into `g` channel groups: `[b * g, c / g, h * w]`.
pub open spec fn group_view(s: Seq<u32>, g: u32) -> Seq<u32> {
    seq![(s[0] * g) as u32, s[1] / g, (s[2] * s[3]) as u32]
}

/// One row per group: `[b * g, (c / g) * h * w]`.
pub open spec fn group_rows(s: Seq<u32>, g: u32) -> Seq<u32> {
    seq![(s[0] * g) as u32, (s[1] / g * s[2] * s[3]) as u32]
}

/// A projection's output `[b * g, d]` viewed back as groups.
pub open spec fn regroups(s: Seq<u32>, g: u32, d: u32) -> bool {
    prod(seq![(s[0] * g) as u32, d]) == prod(group_view(s, g))
}

/// Views `x` as `rows`, then applies `lin`.
#[verifier::rlimit(40)]
fn project(lin: &mut Linear, ctx: &mut Context, x: Var, rows: Vec<u32>) -> (r: Result<Var>)
    requires
        old(ctx).ids_ok(),
        room(*old(ctx), 5),
        old(lin).wf(*old(ctx)),
        old(ctx).has_shape(x.0),
        prefix_prods_fit(old(ctx).shape_of(x.0)),
        prefix_prods_fit(rows@),
        prod(old(ctx).shape_of(x.0)) == prod(rows@),
        rows@.len() == 2,
        dense_fits(rows@, old(lin).out_features),
    ensures
        grows(*old(ctx), *final(ctx), 5),
        final(lin).wf(*final(ctx)),
        final(lin).out_features == old(lin).out_features,
        match r {
            Ok(out) => {
                &&& old(lin).matches_input(*old(ctx), rows@)
                &&& !old(ctx).has_shape(out.0)
                &&& final(ctx).has_shape(out.0)
                &&& final(ctx).shape_of(out.0) == dense_shape(rows@, old(lin).out_features)
            },
            Err(e) => {
                &&& !old(lin).matches_input(*old(ctx), rows@)
                &&& e matches VolticError::IncompatibleShapes { op, .. }
                &&& op == "mat_mul: K mismatch"
            },
        },
{
    let ghost c0 = *ctx;
    let ghost l0 = *lin;
    let ghost rv = rows@;
    let flat = match x.reshape(ctx, rows) {
        Ok(v) => v,
        Err(e) => {
            assert(false);
            return Err(e);
        },
    };
    let ghost c1 = *ctx;
    proof {
        lemma_step(c0, c1, flat, rv);
        l0.lemma_extends(c0, c1);
    }
    let r = lin.forward(ctx, &flat);
    proof {
        lemma_grows_trans(c0, c1, *ctx, 1, 4);
    }
    r
}

impl ChannelWiseAttention {
    /// The projections are well formed in `c`.
    pub open spec fn wf(&self, c: Context) -> bool {
        &&& self.query.wf(c)
        &&& self.key.wf(c)
        &&& self.value.wf(c)
    }

    /// The shapes of a forward pass on `x` fit in `u32`, and the channels
    /// can be split into groups.
    pub open spec fn accepts(&self, c: Context, x: Var) -> bool {
        c.has_shape(x.0) && c.shape_of(x.0).len() == 4 ==> {
            let s = c.shape_of(x.0);
            let g = self.num_groups;
            &&& g != 0
            &&& s[0] * g <= u32::MAX
            &&& s[2] * s[3] <= u32::MAX
            &&& s[1] / g * s[2] <= u32::MAX
            &&& s[1] / g * s[2] * s[3] <= u32::MAX
            &&& prefix_prods_fit(s)
            &&& prefix_prods_fit(group_view(s, g))
            &&& crate::dims::strides_fit(group_view(s, g))
            &&& prefix_prods_fit(group_rows(s, g))
            &&& dense_fits(group_rows(s, g), self.query.out_features)
            &&& dense_fits(group_rows(s, g), self.key.out_features)
            &&& dense_fits(group_rows(s, g), self.value.out_features)
        }
    }

    /// What a forward pass on `x` returns, from layer `l` and graph `c`.
    pub open spec fn forward_result(
        l: ChannelWiseAttention,
        c: Context,
        c2: Context,
        x: Var,
        r: Result<Var>,
    ) -> bool {
        let s = c.shape_of(x.0);
        let g = l.num_groups;
        let rows = group_rows(s, g);
        let gv = group_view(s, g);
        match r {
            Ok(out) => {
                &&& c.has_shape(x.0)
                &&& s.len() == 4
                &&& prod(gv) == prod(s)
                &&& l.query.matches_input(c, rows)
                &&& l.key.matches_input(c, rows)
                &&& l.value.matches_input(c, rows)
                &&& regroups(s, g, l.query.out_features)
                &&& regroups(s, g, l.key.out_features)
                &&& regroups(s, g, l.value.out_features)
                &&& !c.has_shape(out.0)
                &&& c2.has_shape(out.0)
                &&& c2.shape_of(out.0) == s
            },
            Err(e) => if !c.has_shape(x.0) {
                e is EmptyShape && c2 == c
            } else if s.len() != 4 {
                &&& e matches VolticError::InvalidDimension { dim, ndim }
                &&& dim == s.len()
                &&& ndim == 4
                &&& c2 == c
            } else if prod(gv) != prod(s) {
                &&& e matches VolticError::IncompatibleShapes { lhs, rhs, op }
                &&& lhs@ == s
                &&& rhs@ == gv
                &&& op == "reshape: element count mismatch"
                &&& c2 == c
            } else if !l.query.matches_input(c, rows) || !l.key.matches_input(c, rows)
                || !l.value.matches_input(c, rows) {
                e matches VolticError::IncompatibleShapes { op, .. } && op == "mat_mul: K mismatch"
            } else {
                let d = if !regroups(s, g, l.query.out_features) {
                    l.query.out_features
                } else if !regroups(s, g, l.key.out_features) {
                    l.key.out_features
                } else {
                    l.value.out_features
                };
                &&& !(regroups(s, g, l.query.out_features) && regroups(s, g, l.key.out_features)
                    && regroups(s, g, l.value.out_features))
                &&& e matches VolticError::IncompatibleShapes { lhs, rhs, op }
                &&& lhs@ == seq![gv[0], d]
                &&& rhs@ == gv
                &&& op == "reshape: element count mismatch"
            },
        }
    }

    /// Query, key and value projections of width `d_model` over `num_groups` groups.
    pub fn new(d_model: u32, num_groups: u32) -> (r: Self)
        ensures
            r.num_groups == num_groups,
            r.query == fresh_linear(d_model),
            r.key == fresh_linear(d_model),
            r.value == fresh_linear(d_model),
    {
        ChannelWiseAttention {
            num_groups,
            query: Linear::new(d_model),
            key: Linear::new(d_model),
            value: Linear::new(d_model),
        }
    }

    /// Splits the channels into groups, projects each group's rows to
    /// queries, keys and values, weights the values by the softmax of the
    /// query-key products and gives the result the input's shape.
    #[verifier::rlimit(100)]
    pub fn forward(&mut self, ctx: &mut Context, x: &Var) -> (r: Result<Var>)
        requires
            old(ctx).ids_ok(),
            room(*old(ctx), 23),
            old(self).wf(*old(ctx)),
            old(self).accepts(*old(ctx), *x),
        ensures
            grows(*old(ctx), *final(ctx), 23),
            final(self).wf(*final(ctx)),
            final(self).num_groups == old(self).num_groups,
            ChannelWiseAttention::forward_result(*old(self), *old(ctx), *final(ctx), *x, r),
    {
        let ghost c0 = *ctx;
        let ghost l0 = *self;
        proof {
            lemma_grows_refl(c0);
        }
        let shape = match ctx.shape(x.0) {
            Some(s) => s,
            None => return Err(VolticError::EmptyShape),
        };
        if shape.len() != 4 {
            return Err(VolticError::InvalidDimension { dim: shape.len(), ndim: 4 });
        }
        let ghost s = shape@;
        let batch = shape[0];
        let channels = shape[1];
        let height = shape[2];
        let width = shape[3];
        let dim_per_group = channels / self.num_groups;
        let ghost gv = group_view(s, self.num_groups);
        let ghost rows = group_rows(s, self.num_groups);
        let bg = batch * self.num_groups;
        let hw = height * width;
        let row_len = dim_per_group * height * width;
        proof {
            crate::dims::lemma_prod_small(bg, dim_per_group, hw, 1, 1, 1);
            crate::dims::lemma_prod_small(bg, row_len, 1, 1, 1, 1);
            assert(bg * dim_per_group * hw == bg * row_len) by (nonlinear_arith)
                requires
                    hw == height * width,
                    row_len == dim_per_group * height * width,
            ;
            assert(prod(gv) == prod(rows));
        }
        let x_flat = match view_as(ctx, *x, vec![bg, dim_per_group, hw]) {
            Ok(v) => v,
            Err(e) => return Err(e),
        };
        let ghost c1 = *ctx;
        proof {
            l0.query.lemma_extends(c0, c1);
            l0.key.lemma_extends(c0, c1);
            l0.value.lemma_extends(c0, c1);
        }
        let q = match project(&mut self.query, ctx, x_flat, vec![bg, row_len]) {
            Ok(v) => v,
            Err(e) => {
                proof {
                    lemma_grows_trans(c0, c1, *ctx, 1, 5);
                    l0.key.lemma_extends(c1, *ctx);
                    l0.value.lemma_extends(c1, *ctx);
                }
                return Err(e);
            },
        };
        let ghost c2 = *ctx;
        proof {
            lemma_grows_trans(c0, c1, c2, 1, 5);
            l0.key.lemma_extends(c1, c2);
            l0.value.lemma_extends(c1, c2);
        }
        let k = match project(&mut self.key, ctx, x_flat, vec![bg, row_len]) {
            Ok(v) => v,
            Err(e) => {
                proof {
                    lemma_grows_trans(c0, c2, *ctx, 6, 5);
                    self.query.lemma_extends(c2, *ctx);
                    l0.value.lemma_extends(c2, *ctx);
                }
                return Err(e);
            },
        };
        let ghost c3 = *ctx;
        proof {
            lemma_grows_trans(c0, c2, c3, 6, 5);
            self.query.lemma_extends(c2, c3);
            l0.value.lemma_extends(c2, c3);
        }
        let v = match project(&mut self.value, ctx, x_flat, vec![bg, row_len]) {
            Ok(v) => v,
            Err(e) => {
                proof {
                    lemma_grows_trans(c0, c3, *ctx, 11, 5);
                    self.query.lemma_extends(c3, *ctx);
                    self.key.lemma_extends(c3, *ctx);
                }
                return Err(e);
            },
        };
        let ghost c4 = *ctx;
        proof {
            lemma_grows_trans(c0, c3, c4, 11, 5);
            self.query.lemma_extends(c3, c4);
            self.key.lemma_extends(c3, c4);
            assert(dense_shape(rows, l0.query.out_features) =~= seq![bg, l0.query.out_features]);
            assert(dense_shape(rows, l0.key.out_features) =~= seq![bg, l0.key.out_features]);
            assert(dense_shape(rows, l0.value.out_features) =~= seq![bg, l0.value.out_features]);
        }
        let q_g = match view_as(ctx, q, vec![bg, dim_per_group, hw]) {
            Ok(v) => v,
            Err(e) => return Err(e),
        };
        let ghost c5 = *ctx;
        proof {
            lemma_grows_trans(c0, c4, c5, 16, 1);
        }
        let k_g = match view_as(ctx, k, vec![bg, dim_per_group, hw]) {
            Ok(v) => v,
            Err(e) => {
                proof {
                    self.query.lemma_extends(c4, c5);
                    self.key.lemma_extends(c4, c5);
                    self.value.lemma_extends(c4, c5);
                }
                return Err(e);
            },
        };
        let ghost c6 = *ctx;
        proof {
            lemma_grows_trans(c0, c5, c6, 17, 1);
        }
        let v_g = match view_as(ctx, v, vec![bg, dim_per_group, hw]) {
            Ok(v) => v,
            Err(e) => {
                proof {
                    self.query.lemma_extends(c4, c6);
                    self.key.lemma_extends(c4, c6);
                    self.value.lemma_extends(c4, c6);
                }
                return Err(e);
            },
        };
        let ghost c7 = *ctx;
        proof {
            lemma_grows_trans(c0, c6, c7, 18, 1);
            lemma_greedy_self(gv);
        }
        let attn = q_g.mul(ctx, k_g);
        let ghost c8 = *ctx;
        proof {
            lemma_step(c7, c8, attn, gv);
            lemma_grows_trans(c0, c7, c8, 19, 1);
            crate::dims::lemma_fits_prefix(gv, 2);
            assert(gv.subrange(3, 3) =~= Seq::<u32>::empty());
            assert(prod(Seq::<u32>::empty()) == 1);
            assert forall|j: int| 0 <= j <= 0 implies #[trigger] prod(Seq::<u32>::empty().take(j)) <= u32::MAX by {
                assert(Seq::<u32>::empty().take(j) =~= Seq::<u32>::empty());
            }
        }
        let attn = match attn.softmax(ctx, 2) {
            Ok(v) => v,
            Err(e) => {
                assert(false);
                return Err(e);
            },
        };
        let ghost c9 = *ctx;
        proof {
            lemma_op_step(c8, c9, attn, gv, c9.op_seq().last());
            lemma_grows_trans(c0, c8, c9, 20, 1);
        }
        let out = attn.mul(ctx, v_g);
        let ghost c10 = *ctx;
        proof {
            lemma_step(c9, c10, out, gv);
            lemma_grows_trans(c0, c9, c10, 21, 1);
        }
        let full: Vec<u32> = vec![batch, channels, height, width];
        assert(full@ =~= s);
        let output = match view_as(ctx, out, full) {
            Ok(v) => v,
            Err(e) => {
                assert(false);
                return Err(e);
            },
        };
        proof {
            assert(s =~= seq![batch, channels, height, width]);
            lemma_grows_trans(c0, c10, *ctx, 22, 1);
            self.query.lemma_extends(c4, *ctx);
            self.key.lemma_extends(c4, *ctx);
            self.value.lemma_extends(c4, *ctx);
        }
        Ok(output)
    }

    /// The init steps of the query, key and value projections.
    pub fn init(&self, ctx: &Context) -> (r: Vec<InitStep>)
        requires
            self.wf(*ctx),
        ensures
            r@ == linear_steps(*ctx, self.query) + linear_steps(*ctx, self.key) + linear_steps(*ctx, self.value),
    {
        let mut steps = linear_init(&self.query, ctx);
        let mut more = linear_init(&self.key, ctx);
        steps.append(&mut more);
        let mut more = linear_init(&self.value, ctx);
        steps.append(&mut more);
        steps
    }

    /// The variables of the query, key and value projections.
    pub fn parameters(&self) -> (r: Vec<Var>)
        ensures
            r@ == linear_params(self.query) + linear_params(self.key) + linear_params(self.value),
    {
        let mut p = self.query.parameters();
        let mut more = self.key.parameters();
        p.append(&mut more);
        let mut more = self.value.parameters();
        p.append(&mut more);
        p
    }
}

} // verus!
