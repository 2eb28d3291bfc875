//! Mixture-of-experts layer: a gate and a set of expert projections over
//! the flattened tokens.
use vstd::prelude::*;

use crate::context::Context;
use crate::dims::{lemma_prod_concat, prefix_prods_fit, prod, shape_product};
use crate::errors::{Result, VolticError};
use crate::hybrid::{linear_init, linear_params, linear_steps};
use crate::layers::linear::{dense_fits, fresh_linear};
use crate::layers::{grows, lemma_grows_refl, lemma_grows_trans, lemma_op_step, lemma_step, room, shapes_extend, InitStep, Linear};
use crate::var::{lemma_prod_single, Var};

verus! {

/// `num_experts` expert projections and a gate that scores them.
pub struct MoELayer {
    pub num_experts: u32,
    pub top_k: u32,
    pub experts: Vec<Linear>,
    pub gate: Linear,
}

/// The tokens of shape `s` as a matrix: `[prod(s), last axis]`.
pub open spec fn token_matrix(s: Seq<u32>) -> Seq<u32> {
    seq![prod(s) as u32, s[s.len() - 1]]
}

/// All layers of `v` are well formed in `c`.
pub open spec fn all_wf(v: Seq<Linear>, c: Context) -> bool {
    forall|i: int| 0 <= i < v.len() ==> #[trigger] v[i].wf(c)
}

/// All layers of `v` take inputs of shape `s`.
pub open spec fn all_match(v: Seq<Linear>, c: Context, s: Seq<u32>) -> bool {
    forall|i: int| 0 <= i < v.len() ==> #[trigger] v[i].matches_input(c, s)
}

/// The init steps of the layers of `v`, in order.
pub open spec fn linears_steps(c: Context, v: Seq<Linear>) -> Seq<InitStep>
    decreases v.len(),
{
    if v.len() == 0 {
        Seq::empty()
    } else {
        linears_steps(c, v.drop_last()) + linear_steps(c, v.last())
    }
}

/// The variables of the layers of `v`, in order.
pub open spec fn linears_params(v: Seq<Linear>) -> Seq<Var>
    decreases v.len(),
{
    if v.len() == 0 {
        Seq::empty()
    } else {
        linears_params(v.drop_last()) + linear_params(v.last())
    }
}

/// Collects the init steps of well-formed linear layers.
pub fn linears_init(v: &Vec<Linear>, ctx: &Context) -> (r: Vec<InitStep>)
    requires
        all_wf(v@, *ctx),
    ensures
        r@ == linears_steps(*ctx, v@),
{
    let mut steps: Vec<InitStep> = Vec::new();
    let mut i: usize = 0;
    while i < v.len()
        invariant
            i <= v@.len(),
            all_wf(v@, *ctx),
            steps@ == linears_steps(*ctx, v@.subrange(0, i as int)),
        decreases v@.len() - i,
    {
        let mut more = linear_init(&v[i], ctx);
        proof {
            assert(v@.subrange(0, i + 1).drop_last() =~= v@.subrange(0, i as int));
        }
        steps.append(&mut more);
        i = i + 1;
    }
    proof {
        assert(v@.subrange(0, v@.len() as int) =~= v@);
    }
    steps
}

/// Collects the variables of linear layers.
pub fn linears_parameters(v: &Vec<Linear>) -> (r: Vec<Var>)
    ensures
        r@ == linears_params(v@),
{
    let mut p: Vec<Var> = Vec::new();
    let mut i: usize = 0;
    while i < v.len()
        invariant
            i <= v@.len(),
            p@ == linears_params(v@.subrange(0, i as int)),
        decreases v@.len() - i,
    {
        let mut more = v[i].parameters();
        proof {
            assert(v@.subrange(0, i + 1).drop_last() =~= v@.subrange(0, i as int));
        }
        p.append(&mut more);
        i = i + 1;
    }
    proof {
        assert(v@.subrange(0, v@.len() as int) =~= v@);
    }
    p
}

/// A graph that keeps the shapes of `c1` keeps all layers of `v` well formed.
pub proof fn lemma_all_extend(v: Seq<Linear>, c1: Context, c2: Context)
    requires
        all_wf(v, c1),
        shapes_extend(c1, c2),
    ensures
        all_wf(v, c2),
        forall|s: Seq<u32>| all_match(v, c2, s) == #[trigger] all_match(v, c1, s),
{
    assert forall|i: int| 0 <= i < v.len() implies #[trigger] v[i].wf(c2) by {
        v[i].lemma_extends(c1, c2);
    }
    assert forall|s: Seq<u32>| all_match(v, c2, s) == #[trigger] all_match(v, c1, s) by {
        if all_match(v, c1, s) {
            assert forall|i: int| 0 <= i < v.len() implies #[trigger] v[i].matches_input(c2, s) by {
                v[i].lemma_extends(c1, c2);
                assert(v[i].matches_input(c1, s));
            }
        }
        if all_match(v, c2, s) {
            assert forall|i: int| 0 <= i < v.len() implies #[trigger] v[i].matches_input(c1, s) by {
                v[i].lemma_extends(c1, c2);
                assert(v[i].matches_input(c2, s));
            }
        }
    }
}

/// The first axis divides the element count: `prod(s) = s[0] * prod(s[1..])`.
proof fn lemma_first_factor(s: Seq<u32>)
    requires
        s.len() >= 1,
        s[0] != 0,
    ensures
        s[0] * (prod(s) / (s[0] as int)) == prod(s),
{
    assert(s =~= seq![s[0]] + s.subrange(1, s.len() as int));
    lemma_prod_concat(seq![s[0]], s.subrange(1, s.len() as int));
    lemma_prod_single(s[0]);
    let a = s[0] as int;
    let b = prod(s.subrange(1, s.len() as int));
    assert((a * b) / a == b) by (nonlinear_arith)
        requires
            a > 0,
    ;
}

impl MoELayer {
    /// Gate and experts are well formed in `c`.
    pub open spec fn wf(&self, c: Context) -> bool {
        &&& self.gate.wf(c)
        &&& all_wf(self.experts@, c)
    }

    /// The shapes of a forward pass on `x` fit in `u32`, and `x` has a
    /// non-empty first axis.
    pub open spec fn accepts(&self, c: Context, x: Var) -> bool {
        c.has_shape(x.0) ==> {
            let s = c.shape_of(x.0);
            &&& s.len() >= 1
            &&& s[0] != 0
            &&& prefix_prods_fit(s)
            &&& prefix_prods_fit(token_matrix(s))
            &&& dense_fits(token_matrix(s), self.gate.out_features)
            &&& forall|i: int|
                0 <= i < self.experts@.len() ==> dense_fits(
                    token_matrix(s),
                    #[trigger] self.experts@[i].out_features,
                )
        }
    }

    /// Gate and experts take the token matrix of input shape `s`.
    pub open spec fn matches_input(&self, c: Context, s: Seq<u32>) -> bool {
        &&& self.gate.matches_input(c, token_matrix(s))
        &&& all_match(self.experts@, c, token_matrix(s))
    }

    /// What a forward pass on `x` returns, from layer `l` and graph `c`.
    pub open spec fn forward_result(l: MoELayer, c: Context, c2: Context, x: Var, r: Result<Var>) -> bool {
        let s = c.shape_of(x.0);
        match r {
            Ok(out) => {
                &&& c.has_shape(x.0)
                &&& prod(token_matrix(s)) == prod(s)
                &&& l.matches_input(c, s)
                &&& !c.has_shape(out.0)
                &&& c2.has_shape(out.0)
                &&& c2.shape_of(out.0) == token_matrix(s)
            },
            Err(e) => if !c.has_shape(x.0) {
                e is EmptyShape && c2 == c
            } else if prod(token_matrix(s)) != prod(s) {
                &&& e matches VolticError::IncompatibleShapes { lhs, rhs, op }
                &&& lhs@ == s
                &&& rhs@ == token_matrix(s)
                &&& op == "reshape: element count mismatch"
                &&& c2 == c
            } else {
                &&& !l.matches_input(c, s)
                &&& e matches VolticError::IncompatibleShapes { op, .. }
                &&& op == "mat_mul: K mismatch"
            },
        }
    }

    /// `num_experts` experts of width `hidden_dim` and a gate over them.
    pub fn new(num_experts: u32, hidden_dim: u32, top_k: u32) -> (r: Self)
        ensures
            r.num_experts == num_experts,
            r.top_k == top_k,
            r.gate == fresh_linear(num_experts),
            r.experts@.len() == num_experts,
            forall|i: int| 0 <= i < num_experts ==> #[trigger] r.experts@[i] == fresh_linear(hidden_dim),
    {
        let mut experts: Vec<Linear> = Vec::new();
        let mut i: u32 = 0;
        while i < num_experts
            invariant
                i <= num_experts,
                experts@.len() == i,
                forall|j: int| 0 <= j < i ==> #[trigger] experts@[j] == fresh_linear(hidden_dim),
            decreases num_experts - i,
        {
            experts.push(Linear::new(hidden_dim));
            i = i + 1;
        }
        MoELayer { num_experts, top_k, experts, gate: Linear::new(num_experts) }
    }

    /// Scores the experts and runs each of them on the tokens of `x`,
    /// flattened to `[prod(shape), last axis]`; returns a fresh variable of
    /// that shape for the combined output.
    #[verifier::rlimit(80)]
    #[verifier::loop_isolation(false)]
    pub fn forward(&mut self, ctx: &mut Context, x: &Var) -> (r: Result<Var>)
        requires
            old(ctx).ids_ok(),
            room(*old(ctx), 7 + 4 * old(self).experts@.len()),
            old(self).wf(*old(ctx)),
            old(self).accepts(*old(ctx), *x),
        ensures
            grows(*old(ctx), *final(ctx), 7 + 4 * old(self).experts@.len()),
            final(self).wf(*final(ctx)),
            final(self).num_experts == old(self).num_experts,
            final(self).top_k == old(self).top_k,
            final(self).experts@.len() == old(self).experts@.len(),
            MoELayer::forward_result(*old(self), *old(ctx), *final(ctx), *x, r),
    {
        let ghost c0 = *ctx;
        let ghost l0 = *self;
        let ghost n: nat = self.experts@.len();
        proof {
            lemma_grows_refl(c0);
        }
        let x_shape = match ctx.shape(x.0) {
            Some(s) => s,
            None => return Err(VolticError::EmptyShape),
        };
        let ghost s = x_shape@;
        let ghost tm = token_matrix(s);
        let batch = x_shape[0];
        let total = shape_product(x_shape.as_slice());
        let seq_len = total / batch;
        proof {
            lemma_first_factor(s);
        }
        let x_2d = match x.reshape(ctx, vec![batch * seq_len, x_shape[x_shape.len() - 1]]) {
            Ok(v) => v,
            Err(e) => return Err(e),
        };
        let ghost c1 = *ctx;
        proof {
            lemma_step(c0, c1, x_2d, tm);
            l0.gate.lemma_extends(c0, c1);
            lemma_all_extend(l0.experts@, c0, c1);
        }
        let scores = match self.gate.forward(ctx, &x_2d) {
            Ok(v) => v,
            Err(e) => {
                proof {
                    lemma_grows_trans(c0, c1, *ctx, 1, 4);
                    lemma_all_extend(l0.experts@, c1, *ctx);
                }
                return Err(e);
            },
        };
        let ghost c2 = *ctx;
        proof {
            lemma_grows_trans(c0, c1, c2, 1, 4);
            lemma_all_extend(l0.experts@, c1, c2);
            lemma_prod_single(tm[0]);
            let gs = c2.shape_of(scores.0);
            assert(gs == crate::layers::linear::dense_shape(tm, l0.gate.out_features));
            assert(gs.subrange(0, 1) =~= seq![tm[0]]);
            assert(prod(Seq::<u32>::empty()) == 1);
            assert(prefix_prods_fit(Seq::<u32>::empty())) by {
                assert forall|j: int| 0 <= j <= 0 implies #[trigger] prod(
                    Seq::<u32>::empty().take(j),
                ) <= u32::MAX by {
                    assert(Seq::<u32>::empty().take(j) =~= Seq::<u32>::empty());
                }
            }
            assert(c2.shape_of(scores.0).subrange(2, 2) =~= Seq::<u32>::empty());
        }
        let rank = scores.shape(ctx).len();
        let _probs = match scores.softmax(ctx, rank - 1) {
            Ok(v) => v,
            Err(e) => {
                assert(false);
                return Err(e);
            },
        };
        let ghost c3 = *ctx;
        proof {
            lemma_op_step(c2, c3, _probs, c2.shape_of(scores.0), c3.op_seq().last());
            lemma_grows_trans(c0, c2, c3, 5, 1);
            self.gate.lemma_extends(c2, c3);
            lemma_all_extend(l0.experts@, c2, c3);
            lemma_grows_refl(c3);
        }
        let mut i: usize = 0;
        while i < self.experts.len()
            invariant
                0 <= i <= n,
                self.experts@.len() == n,
                self.num_experts == l0.num_experts,
                self.top_k == l0.top_k,
                grows(c0, *ctx, (6 + 4 * i) as nat),
                grows(c3, *ctx, (4 * i) as nat),
                ctx.has_shape(x_2d.0),
                ctx.shape_of(x_2d.0) == tm,
                self.gate.wf(*ctx),
                all_wf(self.experts@, *ctx),
                l0.gate.matches_input(c0, tm),
                forall|j: int| 0 <= j < i ==> #[trigger] l0.experts@[j].matches_input(c0, tm),
                forall|j: int|
                    0 <= j < n ==> (#[trigger] self.experts@[j]).out_features
                        == l0.experts@[j].out_features,
                forall|j: int| i <= j < n ==> #[trigger] self.experts@[j] == l0.experts@[j],
            decreases n - i,
        {
            let ghost ci = *ctx;
            let mut e = self.experts[i];
            let ghost e0 = e;
            assert(e0 == l0.experts@[i as int]);
            let res = e.forward(ctx, &x_2d);
            let ghost cj = *ctx;
            proof {
                lemma_grows_trans(c0, ci, cj, (6 + 4 * i) as nat, 4);
                lemma_grows_trans(c3, ci, cj, (4 * i) as nat, 4);
                self.gate.lemma_extends(ci, cj);
                lemma_all_extend(self.experts@, ci, cj);
                e0.lemma_extends(c0, ci);
            }
            let ghost before = self.experts@;
            self.experts.set(i, e);
            proof {
                assert forall|j: int| 0 <= j < n implies #[trigger] self.experts@[j].wf(cj) by {
                    if j != i {
                        assert(self.experts@[j] == before[j]);
                    }
                }
            }
            match res {
                Ok(_) => {},
                Err(e) => {
                    proof {
                        assert(!e0.matches_input(ci, tm));
                        assert(!l0.experts@[i as int].matches_input(c0, tm));
                        assert(!all_match(l0.experts@, c0, tm));
                    }
                    return Err(e);
                },
            }
            i = i + 1;
        }
        let ghost c4 = *ctx;
        let out = Var::with_shape(ctx, vec![batch * seq_len, x_shape[x_shape.len() - 1]]);
        proof {
            lemma_step(c4, *ctx, out, tm);
            lemma_grows_trans(c0, c4, *ctx, (6 + 4 * n) as nat, 1);
            self.gate.lemma_extends(c4, *ctx);
            lemma_all_extend(self.experts@, c4, *ctx);
            assert(all_match(l0.experts@, c0, tm));
        }
        Ok(out)
    }

    /// Init steps of the gating projection, then of each expert.
    pub fn init(&self, ctx: &Context) -> (r: Vec<InitStep>)
        requires
            self.wf(*ctx),
        ensures
            r@ == linear_steps(*ctx, self.gate) + linears_steps(*ctx, self.experts@),
    {
        let mut steps = linear_init(&self.gate, ctx);
        let mut more = linears_init(&self.experts, ctx);
        steps.append(&mut more);
        steps
    }

    /// Variables of the gating projection, then of each expert.
    pub fn parameters(&self) -> (r: Vec<Var>)
        ensures
            r@ == linear_params(self.gate) + linears_params(self.experts@),
    {
        let mut p = self.gate.parameters();
        let mut more = linears_parameters(&self.experts);
        p.append(&mut more);
        p
    }
}

} // verus!
