//! A learnable memory of slots that queries attend over.
use vstd::prelude::*;

use crate::context::Context;
use crate::dims::{prefix_prods_fit, prod, shape_product, strides_fit};
use crate::ops::broadcast_shape::greedy_align;
use crate::errors::{Result, VolticError};
use crate::hybrid::{linear_init, linear_params, linear_steps};
use crate::layers::linear::{dense_fits, dense_shape, fresh_linear};
use crate::layers::{
    grows, lemma_grows_refl, lemma_grows_trans, lemma_op_step, lemma_step, room, view_as, Fill, InitStep,
    Linear,
};
use crate::var::Var;

verus! {

/// `num_slots` memory vectors of width `memory_dim`, read by attention.
pub struct LearnableMemory {
    pub memory: Var,
    pub query_proj: Linear,
    pub key_proj: Linear,
    pub output_proj: Linear,
    pub memory_dim: u32,
    pub num_slots: u32,
}

impl LearnableMemory {
    /// The memory has shape `[num_slots, memory_dim]` and the projections
    /// are well formed in `c`.
    pub open spec fn wf(&self, c: Context) -> bool {
        &&& c.has_shape(self.memory.0)
        &&& c.shape_of(self.memory.0) == seq![self.num_slots, self.memory_dim]
        &&& self.query_proj.wf(c)
        &&& self.key_proj.wf(c)
        &&& self.output_proj.wf(c)
    }

    /// The shapes of a read with `query` fit in `u32`.
    pub open spec fn accepts(&self, c: Context, query: Var) -> bool {
        c.has_shape(query.0) ==> {
            let s = c.shape_of(query.0);
            let b = prod(s) as u32;
            let (md, ns) = (self.memory_dim, self.num_slots);
            &&& prefix_prods_fit(s)
            &&& prefix_prods_fit(seq![b, 1, md])
            &&& prefix_prods_fit(seq![1, ns, md])
            &&& prefix_prods_fit(seq![ns, md])
            &&& dense_fits(seq![ns, md], self.key_proj.out_features)
            &&& prefix_prods_fit(seq![1, md, ns])
            &&& prefix_prods_fit(seq![b, 1, ns])
            &&& prefix_prods_fit(seq![b, md])
            &&& dense_fits(seq![b, md], self.output_proj.out_features)
        }
    }

    /// What a read with `query` returns, from layer `l` and graph `c`.
    pub open spec fn forward_result(l: LearnableMemory, c: Context, c2: Context, query: Var, r: Result<Var>) -> bool {
        let s = c.shape_of(query.0);
        let b = prod(s) as u32;
        let (md, ns, ko) = (l.memory_dim, l.num_slots, l.key_proj.out_features);
        match r {
            Ok(out) => {
                &&& c.has_shape(query.0)
                &&& prod(seq![b, 1, md]) == prod(s)
                &&& l.key_proj.matches_input(c, seq![ns, md])
                &&& ns * ko == md * ns
                &&& b == 1
                &&& l.output_proj.matches_input(c, seq![b, md])
                &&& !c.has_shape(out.0)
                &&& c2.has_shape(out.0)
                &&& c2.shape_of(out.0) == seq![b, l.output_proj.out_features]
            },
            Err(e) => if !c.has_shape(query.0) {
                e is EmptyShape && c2 == c
            } else if prod(seq![b, 1, md]) != prod(s) {
                &&& e matches VolticError::IncompatibleShapes { lhs, rhs, op }
                &&& lhs@ == s
                &&& rhs@ == seq![b, 1, md]
                &&& op == "reshape: element count mismatch"
                &&& c2 == c
            } else if !l.key_proj.matches_input(c, seq![ns, md]) {
                e matches VolticError::IncompatibleShapes { op, .. } && op == "mat_mul: K mismatch"
            } else if ns * ko != md * ns {
                &&& e matches VolticError::IncompatibleShapes { lhs, rhs, op }
                &&& lhs@ == seq![ns, ko]
                &&& rhs@ == seq![1, md, ns]
                &&& op == "reshape: element count mismatch"
            } else if b != 1 {
                &&& e matches VolticError::IncompatibleShapes { lhs, rhs, op }
                &&& lhs@ == seq![b, 1, md]
                &&& rhs@ == seq![1, md, ns]
                &&& op == "mat_mul: batch dims mismatch"
            } else {
                &&& !l.output_proj.matches_input(c, seq![b, md])
                &&& e matches VolticError::IncompatibleShapes { op, .. }
                &&& op == "mat_mul: K mismatch"
            },
        }
    }

    /// A memory of `num_slots` slots of width `memory_dim`, created in `ctx`.
    pub fn new(ctx: &mut Context, num_slots: u32, memory_dim: u32, _query_dim: u32) -> (r: Self)
        requires
            old(ctx).ids_ok(),
            room(*old(ctx), 1),
        ensures
            grows(*old(ctx), *final(ctx), 1),
            !old(ctx).has_shape(r.memory.0),
            r.wf(*final(ctx)),
            r.num_slots == num_slots,
            r.memory_dim == memory_dim,
            r.query_proj == fresh_linear(memory_dim),
            r.key_proj == fresh_linear(memory_dim),
            r.output_proj == fresh_linear(memory_dim),
    {
        let shape: Vec<u32> = vec![num_slots, memory_dim];
        let ghost sv = shape@;
        let memory = Var::with_shape(ctx, shape);
        proof {
            lemma_step(*old(ctx), *ctx, memory, sv);
        }
        LearnableMemory {
            memory,
            query_proj: Linear::new(memory_dim),
            key_proj: Linear::new(memory_dim),
            output_proj: Linear::new(memory_dim),
            memory_dim,
            num_slots,
        }
    }

    /// Attends from each query (flattened to `[prod(shape), 1, memory_dim]`)
    /// over the projected memory slots and projects what it read.
    #[verifier::rlimit(100)]
    pub fn forward(&mut self, ctx: &mut Context, query: &Var) -> (r: Result<Var>)
        requires
            old(ctx).ids_ok(),
            room(*old(ctx), 17),
            old(self).wf(*old(ctx)),
            old(self).accepts(*old(ctx), *query),
        ensures
            grows(*old(ctx), *final(ctx), 17),
            final(self).wf(*final(ctx)),
            final(self).memory == old(self).memory,
            final(self).memory_dim == old(self).memory_dim,
            final(self).num_slots == old(self).num_slots,
            LearnableMemory::forward_result(*old(self), *old(ctx), *final(ctx), *query, r),
    {
        let ghost c0 = *ctx;
        let ghost l0 = *self;
        proof {
            lemma_grows_refl(c0);
            crate::var::lemma_prod_single(1);
        }
        let query_shape = match ctx.shape(query.0) {
            Some(s) => s,
            None => return Err(VolticError::EmptyShape),
        };
        let batch = shape_product(query_shape.as_slice());
        let md = self.memory_dim;
        let ns = self.num_slots;
        let query_aug = match view_as(ctx, *query, vec![batch, 1, md]) {
            Ok(v) => v,
            Err(e) => return Err(e),
        };
        let ghost c1 = *ctx;
        proof {
            assert(seq![ns, md].take(2) =~= seq![ns, md]);
        }
        let _memory_expanded = match view_as(ctx, self.memory, vec![1, ns, md]) {
            Ok(v) => v,
            Err(e) => {
                proof {
                    crate::dims::lemma_prod_small(ns, md, 1, 1, 1, 1);
                    crate::dims::lemma_prod_small(1, ns, md, 1, 1, 1);
                }
                assert(false);
                return Err(e);
            },
        };
        let ghost c2 = *ctx;
        let mem2 = match view_as(ctx, self.memory, vec![ns, md]) {
            Ok(v) => v,
            Err(e) => {
                assert(false);
                return Err(e);
            },
        };
        let ghost c3 = *ctx;
        proof {
            lemma_grows_trans(c0, c1, c2, 1, 1);
            lemma_grows_trans(c0, c2, c3, 2, 1);
            l0.query_proj.lemma_extends(c0, c3);
            l0.key_proj.lemma_extends(c0, c3);
            l0.output_proj.lemma_extends(c0, c3);
        }
        let keys = match self.key_proj.forward(ctx, &mem2) {
            Ok(v) => v,
            Err(e) => {
                proof {
                    lemma_grows_trans(c0, c3, *ctx, 3, 4);
                    l0.query_proj.lemma_extends(c3, *ctx);
                    l0.output_proj.lemma_extends(c3, *ctx);
                }
                return Err(e);
            },
        };
        let ghost c4 = *ctx;
        let ko = self.key_proj.out_features;
        proof {
            lemma_grows_trans(c0, c3, c4, 3, 4);
            l0.query_proj.lemma_extends(c3, c4);
            l0.output_proj.lemma_extends(c3, c4);
            assert(dense_shape(seq![ns, md], ko) =~= seq![ns, ko]);
        }
        let keys_t = match view_as(ctx, keys, vec![1, md, ns]) {
            Ok(v) => v,
            Err(e) => {
                proof {
                    crate::dims::lemma_prod_small(ns, ko, 1, 1, 1, 1);
                    crate::dims::lemma_prod_small(1, md, ns, 1, 1, 1);
                }
                return Err(e);
            },
        };
        let ghost c5 = *ctx;
        proof {
            lemma_grows_trans(c0, c4, c5, 7, 1);
            crate::dims::lemma_prod_small(ns, ko, 1, 1, 1, 1);
            crate::dims::lemma_prod_small(1, md, ns, 1, 1, 1);
            assert(seq![batch, 1, md].subrange(0, 1) =~= seq![batch]);
            assert(seq![1u32, md, ns].subrange(0, 1) =~= seq![1u32]);
            crate::var::lemma_prod_single(batch);
        }
        let scores = match query_aug.mat_mul(ctx, keys_t) {
            Ok(v) => v,
            Err(e) => {
                proof {
                    assert(batch != 1);
                }
                return Err(e);
            },
        };
        let ghost c6 = *ctx;
        let ghost ss = seq![batch, 1u32, ns];
        proof {
            assert(crate::var::batch_dims(seq![batch, 1u32, md]).push(1u32).push(ns) =~= ss);
            lemma_op_step(c5, c6, scores, ss, c6.op_seq().last());
            lemma_grows_trans(c0, c5, c6, 8, 1);
            assert(ss.subrange(0, 2) =~= seq![batch, 1u32]);
            assert(ss.subrange(3, 3) =~= Seq::<u32>::empty());
            crate::dims::lemma_fits_prefix(ss, 2);
            assert(prod(Seq::<u32>::empty()) == 1);
            assert forall|j: int| 0 <= j <= 0 implies #[trigger] prod(Seq::<u32>::empty().take(j)) <= u32::MAX by {
                assert(Seq::<u32>::empty().take(j) =~= Seq::<u32>::empty());
            }
        }
        let attn = match scores.softmax(ctx, 2) {
            Ok(v) => v,
            Err(e) => {
                assert(false);
                return Err(e);
            },
        };
        let ghost c7 = *ctx;
        proof {
            lemma_op_step(c6, c7, attn, ss, c7.op_seq().last());
            lemma_grows_trans(c0, c6, c7, 9, 1);
        }
        let mem3 = match view_as(ctx, self.memory, vec![ns, md]) {
            Ok(v) => v,
            Err(e) => {
                assert(false);
                return Err(e);
            },
        };
        let ghost c8 = *ctx;
        proof {
            lemma_grows_trans(c0, c7, c8, 10, 1);
            assert(crate::var::batch_dims(ss) =~= seq![batch]);
        }
        let context = match attn.mat_mul(ctx, mem3) {
            Ok(v) => v,
            Err(e) => {
                assert(false);
                return Err(e);
            },
        };
        let ghost c9 = *ctx;
        let ghost cs = seq![batch, 1u32, md];
        proof {
            assert(crate::var::batch_dims(ss).push(1u32).push(md) =~= cs);
            lemma_op_step(c8, c9, context, cs, c9.op_seq().last());
            lemma_grows_trans(c0, c8, c9, 11, 1);
            crate::dims::lemma_prod_small(batch, 1, md, 1, 1, 1);
            crate::dims::lemma_prod_small(batch, md, 1, 1, 1, 1);
        }
        let flat = match view_as(ctx, context, vec![batch, md]) {
            Ok(v) => v,
            Err(e) => {
                assert(false);
                return Err(e);
            },
        };
        let ghost c10 = *ctx;
        proof {
            lemma_grows_trans(c0, c9, c10, 12, 1);
            l0.output_proj.lemma_extends(c4, c10);
            l0.output_proj.lemma_extends(c0, c4);
            self.key_proj.lemma_extends(c4, c10);
            l0.query_proj.lemma_extends(c4, c10);
        }
        let out = self.output_proj.forward(ctx, &flat);
        proof {
            lemma_grows_trans(c0, c10, *ctx, 13, 4);
            self.key_proj.lemma_extends(c10, *ctx);
            l0.query_proj.lemma_extends(c10, *ctx);
            assert(dense_shape(seq![batch, md], l0.output_proj.out_features) =~= seq![
                batch,
                l0.output_proj.out_features,
            ]);
        }
        out
    }

    /// What to load: the values `0.1 * sin(0.1 * i)` into the memory, then
    /// the projections' init steps.
    pub fn init(&self, ctx: &Context) -> (r: Vec<InitStep>)
        requires
            self.wf(*ctx),
            self.num_slots * self.memory_dim <= u32::MAX,
        ensures
            r@ == seq![InitStep { var: self.memory, fill: Fill::Sine { n: (self.num_slots * self.memory_dim) as u32 } }]
                + linear_steps(*ctx, self.query_proj) + linear_steps(*ctx, self.key_proj) + linear_steps(
                *ctx,
                self.output_proj,
            ),
    {
        let mut steps: Vec<InitStep> = Vec::new();
        steps.push(InitStep { var: self.memory, fill: Fill::Sine { n: self.num_slots * self.memory_dim } });
        let mut more = linear_init(&self.query_proj, ctx);
        steps.append(&mut more);
        let mut more = linear_init(&self.key_proj, ctx);
        steps.append(&mut more);
        let mut more = linear_init(&self.output_proj, ctx);
        steps.append(&mut more);
        proof {
            assert(steps@ =~= seq![InitStep { var: self.memory, fill: Fill::Sine { n: (self.num_slots * self.memory_dim) as u32 } }]
                + linear_steps(*ctx, self.query_proj) + linear_steps(*ctx, self.key_proj) + linear_steps(
                *ctx,
                self.output_proj,
            ));
        }
        steps
    }

    /// The memory, then the variables of the three projections.
    pub fn parameters(&self) -> (r: Vec<Var>)
        ensures
            r@ == seq![self.memory] + linear_params(self.query_proj) + linear_params(self.key_proj)
                + linear_params(self.output_proj),
    {
        let mut p: Vec<Var> = Vec::new();
        p.push(self.memory);
        let mut more = self.query_proj.parameters();
        p.append(&mut more);
        let mut more = self.key_proj.parameters();
        p.append(&mut more);
        let mut more = self.output_proj.parameters();
        p.append(&mut more);
        proof {
            assert(p@ =~= seq![self.memory] + linear_params(self.query_proj) + linear_params(self.key_proj)
                + linear_params(self.output_proj));
        }
        p
    }
}


/// A differentiable key-value store: a query, flattened to `[b, key_dim]`,
/// is scored against `[b, num_entries]` fixed keys (a variable that the
/// caller fills, kept in `keys_slot`), scaled by the `[1]` variable kept in
/// `scale_slot` (the inverse temperature), normalised with a softmax, and
/// reads the `[num_entries, value_dim]` value memory through an output
/// projection.
pub struct NeuralDatabase {
    pub num_entries: u32,
    pub key_dim: u32,
    pub value_dim: u32,
    pub key_proj: Linear,
    pub value_memory: Var,
    pub output_proj: Linear,
    pub keys_slot: Option<Var>,
    pub scale_slot: Option<Var>,
}

impl NeuralDatabase {
    /// The value memory has shape `[num_entries, value_dim]`, the keys are
    /// a matrix and the scale a `[1]` variable, and the projections are
    /// well formed in `c`.
    pub open spec fn wf(&self, c: Context) -> bool {
        &&& c.has_shape(self.value_memory.0)
        &&& c.shape_of(self.value_memory.0) == seq![self.num_entries, self.value_dim]
        &&& self.key_proj.wf(c)
        &&& self.output_proj.wf(c)
        &&& self.keys_slot matches Some(k) ==> c.has_shape(k.0) && c.shape_of(k.0).len() == 2
        &&& self.scale_slot matches Some(v) ==> c.has_shape(v.0) && c.shape_of(v.0) == seq![1u32]
    }

    /// The number of queries in a query of shape `s`.
    pub open spec fn batch(&self, s: Seq<u32>) -> u32 {
        (prod(s) / self.key_dim as int) as u32
    }

    /// The shapes of a lookup with `query` fit in `u32`.
    pub open spec fn accepts(&self, c: Context, query: Var) -> bool {
        c.has_shape(query.0) ==> {
            let s = c.shape_of(query.0);
            let b = self.batch(s);
            let n = self.num_entries;
            &&& prefix_prods_fit(s)
            &&& prefix_prods_fit(seq![b, self.key_dim])
            &&& prefix_prods_fit(seq![n, b])
            &&& prefix_prods_fit(seq![b, b])
            &&& strides_fit(seq![b, b])
            &&& dense_fits(seq![b, self.value_dim], self.output_proj.out_features)
        }
    }

    /// What a lookup with `query` returns, from store `l` and graph `c`.
    pub open spec fn forward_result(l: NeuralDatabase, c: Context, c2: Context, query: Var, r: Result<Var>) -> bool {
        let s = c.shape_of(query.0);
        let b = l.batch(s);
        let (kd, n, v) = (l.key_dim, l.num_entries, l.value_dim);
        match r {
            Ok(out) => {
                &&& c.has_shape(query.0)
                &&& b * kd == prod(s)
                &&& kd == n
                &&& b == n
                &&& l.output_proj.matches_input(c, seq![b, v])
                &&& !c.has_shape(out.0)
                &&& c2.has_shape(out.0)
                &&& c2.shape_of(out.0) == seq![b, l.output_proj.out_features]
            },
            Err(e) => if !c.has_shape(query.0) {
                e is EmptyShape && c2 == c
            } else if b * kd != prod(s) {
                &&& e matches VolticError::IncompatibleShapes { lhs, rhs, op }
                &&& lhs@ == s
                &&& rhs@ == seq![b, kd]
                &&& op == "reshape: element count mismatch"
                &&& c2 == c
            } else if kd != n {
                &&& e matches VolticError::IncompatibleShapes { lhs, rhs, op }
                &&& lhs@ == seq![b, kd]
                &&& rhs@ == seq![n, b]
                &&& op == "mat_mul: K mismatch"
            } else if b != n {
                &&& e matches VolticError::IncompatibleShapes { lhs, rhs, op }
                &&& lhs@ == seq![b, b]
                &&& rhs@ == seq![n, v]
                &&& op == "mat_mul: K mismatch"
            } else {
                &&& !l.output_proj.matches_input(c, seq![b, v])
                &&& e matches VolticError::IncompatibleShapes { op, .. }
                &&& op == "mat_mul: K mismatch"
            },
        }
    }

    /// A store of `num_entries` values of width `value_dim`, looked up by
    /// keys of width `key_dim`; the value memory is created in `ctx`.
    pub fn new(ctx: &mut Context, num_entries: u32, key_dim: u32, value_dim: u32) -> (r: Result<Self>)
        requires
            old(ctx).ids_ok(),
            room(*old(ctx), 1),
        ensures
            grows(*old(ctx), *final(ctx), 1),
            r matches Ok(db) && {
                &&& !old(ctx).has_shape(db.value_memory.0)
                &&& db.wf(*final(ctx))
                &&& db.num_entries == num_entries
                &&& db.key_dim == key_dim
                &&& db.value_dim == value_dim
                &&& db.key_proj == fresh_linear(key_dim)
                &&& db.output_proj == fresh_linear(value_dim)
                &&& db.keys_slot is None
                &&& db.scale_slot is None
            },
    {
        let shape: Vec<u32> = vec![num_entries, value_dim];
        let ghost sv = shape@;
        let value_memory = Var::with_shape(ctx, shape);
        proof {
            lemma_step(*old(ctx), *ctx, value_memory, sv);
        }
        Ok(NeuralDatabase {
            num_entries,
            key_dim,
            value_dim,
            key_proj: Linear::new(key_dim),
            value_memory,
            output_proj: Linear::new(value_dim),
            keys_slot: None,
            scale_slot: None,
        })
    }

    /// Looks `query` up: its `[b, key_dim]` rows (b = elements / key_dim)
    /// are scored against the keys (`[b, num_entries]`, transposed), the
    /// scores scaled and normalised over the last axis, and the weights
    /// read the value memory, which the output projection maps. `top_k` is
    /// not used: every entry is read.
    #[verifier::rlimit(100)]
    pub fn forward(&mut self, ctx: &mut Context, query: &Var, top_k: usize) -> (r: Result<Var>)
        requires
            old(ctx).ids_ok(),
            room(*old(ctx), 12),
            old(self).key_dim != 0,
            old(self).wf(*old(ctx)),
            old(self).accepts(*old(ctx), *query),
        ensures
            grows(*old(ctx), *final(ctx), 12),
            final(self).wf(*final(ctx)),
            final(self).num_entries == old(self).num_entries,
            final(self).key_dim == old(self).key_dim,
            final(self).value_dim == old(self).value_dim,
            final(self).value_memory == old(self).value_memory,
            r is Ok ==> (final(self).keys_slot matches Some(k) && final(ctx).shape_of(k.0) == seq![
                old(self).batch(old(ctx).shape_of(query.0)),
                old(self).num_entries,
            ]),
            r is Ok ==> final(self).scale_slot is Some,
            NeuralDatabase::forward_result(*old(self), *old(ctx), *final(ctx), *query, r),
    {
        let ghost c0 = *ctx;
        let ghost l0 = *self;
        proof {
            lemma_grows_refl(c0);
        }
        let query_shape = match ctx.shape(query.0) {
            Some(s) => s,
            None => return Err(VolticError::EmptyShape),
        };
        let ghost s = query_shape@;
        let total = shape_product(query_shape.as_slice());
        let kd = self.key_dim;
        let n = self.num_entries;
        let v = self.value_dim;
        let batch = total / kd;
        let qf = match view_as(ctx, *query, vec![batch, kd]) {
            Ok(q) => q,
            Err(e) => {
                proof {
                    crate::dims::lemma_prod_small(batch, kd, 1, 1, 1, 1);
                }
                return Err(e);
            },
        };
        let ghost c1 = *ctx;
        proof {
            crate::dims::lemma_prod_small(batch, kd, 1, 1, 1, 1);
            l0.key_proj.lemma_extends(c0, c1);
            l0.output_proj.lemma_extends(c0, c1);
        }
        let keys = Var::with_shape(ctx, vec![batch, n]);
        let ghost c2 = *ctx;
        proof {
            lemma_step(c1, c2, keys, seq![batch, n]);
            lemma_grows_trans(c0, c1, c2, 1, 1);
            assert(crate::var::swap_axes(seq![batch, n], 0, 1) =~= seq![n, batch]);
        }
        self.keys_slot = Some(keys);
        let kt = match keys.transpose(ctx, 0, 1) {
            Ok(k) => k,
            Err(e) => {
                assert(false);
                return Err(e);
            },
        };
        let ghost c3 = *ctx;
        proof {
            lemma_step(c2, c3, kt, seq![n, batch]);
            lemma_grows_trans(c0, c2, c3, 2, 1);
            assert(crate::var::batch_dims(seq![batch, kd]) =~= Seq::<u32>::empty());
            assert(prefix_prods_fit(Seq::<u32>::empty())) by {
                assert forall|j: int| 0 <= j <= 0 implies #[trigger] prod(Seq::<u32>::empty().take(j)) <= u32::MAX by {
                    assert(Seq::<u32>::empty().take(j) =~= Seq::<u32>::empty());
                }
            }
        }
        let scores = match qf.mat_mul(ctx, kt) {
            Ok(x) => x,
            Err(e) => {
                proof {
                    l0.key_proj.lemma_extends(c1, c3);
                    l0.output_proj.lemma_extends(c1, c3);
                    assert(c2.shapes_view().contains_key(keys.0.0));
                    assert(c0.shapes_view().contains_key(l0.value_memory.0.0));
                    if let Some(sc) = l0.scale_slot {
                        assert(c0.shapes_view().contains_key(sc.0.0));
                    }
                }
                return Err(e);
            },
        };
        let ghost c4 = *ctx;
        let ghost ss = seq![batch, batch];
        proof {
            assert(crate::var::batch_dims(seq![batch, kd]).push(batch).push(batch) =~= ss);
            lemma_op_step(c3, c4, scores, ss, c4.op_seq().last());
            lemma_grows_trans(c0, c3, c4, 3, 1);
        }
        let scale = Var::scalar_slot(ctx);
        self.scale_slot = Some(scale);
        let ghost c5 = *ctx;
        proof {
            lemma_op_step(c4, c5, scale, seq![1u32], c5.op_seq().last());
            lemma_grows_trans(c0, c4, c5, 4, 1);
            crate::var::lemma_prod_single(1);
            assert(strides_fit(seq![1u32])) by {
                assert forall|j: int| 1 <= j <= 1 implies #[trigger] prod(seq![1u32].subrange(j, 1)) <= u32::MAX by {
                    assert(seq![1u32].subrange(1, 1) =~= Seq::<u32>::empty());
                }
            }
            assert(greedy_align(ss, seq![1u32]) is Some) by {
                assert(seq![1u32].drop_last() =~= Seq::<u32>::empty());
                assert(greedy_align(ss.drop_last(), Seq::<u32>::empty()) is Some);
                assert(crate::ops::broadcast_shape::compatible(ss.last(), seq![1u32].last()));
            }
        }
        let scaled = scores.mul(ctx, scale);
        let ghost c6 = *ctx;
        proof {
            lemma_step(c5, c6, scaled, ss);
            lemma_grows_trans(c0, c5, c6, 5, 1);
            assert(ss.subrange(0, 1) =~= seq![batch]);
            assert(ss.subrange(2, 2) =~= Seq::<u32>::empty());
            crate::var::lemma_prod_single(batch);
        }
        let attn = match scaled.softmax(ctx, 1) {
            Ok(x) => x,
            Err(e) => {
                assert(false);
                return Err(e);
            },
        };
        let ghost c7 = *ctx;
        proof {
            lemma_op_step(c6, c7, attn, ss, c7.op_seq().last());
            lemma_grows_trans(c0, c6, c7, 6, 1);
            assert(c0.shapes_view().contains_key(l0.value_memory.0.0));
            assert(crate::var::batch_dims(ss) =~= Seq::<u32>::empty());
        }
        let context = match attn.mat_mul(ctx, self.value_memory) {
            Ok(x) => x,
            Err(e) => {
                proof {
                    l0.key_proj.lemma_extends(c1, c7);
                    l0.output_proj.lemma_extends(c1, c7);
                    assert(c2.shapes_view().contains_key(keys.0.0));
                    assert(c5.shapes_view().contains_key(scale.0.0));
                }
                return Err(e);
            },
        };
        let ghost c8 = *ctx;
        let ghost cs = seq![batch, v];
        proof {
            assert(crate::var::batch_dims(ss).push(batch).push(v) =~= cs);
            lemma_op_step(c7, c8, context, cs, c8.op_seq().last());
            lemma_grows_trans(c0, c7, c8, 7, 1);
            l0.key_proj.lemma_extends(c1, c8);
            l0.output_proj.lemma_extends(c1, c8);
            l0.output_proj.lemma_extends(c0, c1);
            assert(c2.shapes_view().contains_key(keys.0.0));
            assert(c5.shapes_view().contains_key(scale.0.0));
        }
        let out = self.output_proj.forward(ctx, &context);
        proof {
            lemma_grows_trans(c0, c8, *ctx, 8, 4);
            l0.key_proj.lemma_extends(c8, *ctx);
            assert(c8.shapes_view().contains_key(keys.0.0));
            assert(c8.shapes_view().contains_key(scale.0.0));
            assert(c0.shapes_view().contains_key(l0.value_memory.0.0));
            assert(dense_shape(cs, l0.output_proj.out_features) =~= seq![batch, l0.output_proj.out_features]);
        }
        out
    }

    /// A lookup that reads every entry.
    pub fn differentiable_lookup(&mut self, ctx: &mut Context, query: &Var) -> (r: Result<Var>)
        requires
            old(ctx).ids_ok(),
            room(*old(ctx), 12),
            old(self).key_dim != 0,
            old(self).wf(*old(ctx)),
            old(self).accepts(*old(ctx), *query),
        ensures
            grows(*old(ctx), *final(ctx), 12),
            final(self).wf(*final(ctx)),
            NeuralDatabase::forward_result(*old(self), *old(ctx), *final(ctx), *query, r),
    {
        let k = self.num_entries as usize;
        self.forward(ctx, query, k)
    }

    /// What to load: the key projection's init steps, the values
    /// `sin(0.01 * i)` into the value memory, the output projection's.
    pub fn init(&self, ctx: &Context) -> (r: Vec<InitStep>)
        requires
            self.wf(*ctx),
            self.num_entries * self.value_dim <= u32::MAX,
        ensures
            r@ == linear_steps(*ctx, self.key_proj) + seq![
                InitStep { var: self.value_memory, fill: Fill::Wave { n: (self.num_entries * self.value_dim) as u32 } },
            ] + linear_steps(*ctx, self.output_proj),
    {
        let mut steps = linear_init(&self.key_proj, ctx);
        steps.push(InitStep { var: self.value_memory, fill: Fill::Wave { n: self.num_entries * self.value_dim } });
        let mut more = linear_init(&self.output_proj, ctx);
        steps.append(&mut more);
        steps
    }

    /// The key projection's variables, the value memory, the output
    /// projection's variables.
    pub fn parameters(&self) -> (r: Vec<Var>)
        ensures
            r@ == linear_params(self.key_proj) + seq![self.value_memory] + linear_params(self.output_proj),
    {
        let mut p = self.key_proj.parameters();
        p.push(self.value_memory);
        let mut more = self.output_proj.parameters();
        p.append(&mut more);
        p
    }
}

} // verus!
