//! Token embedding table.
use vstd::prelude::*;

use crate::context::Context;
use crate::errors::{Result, VolticError};
use crate::layers::{grows, lemma_grows_refl, lemma_grows_trans, lemma_step, opt_seq, push_opt, room};
use crate::ops::embedding_op::EmbeddingOp;
use crate::ops::op::Op;
use crate::var::Var;

verus! {

/// A `[vocab_size, d_model]` table of rows looked up by token id; the table
/// is created on the first forward pass.
pub struct Embedding {
    pub vocab_size: u32,
    pub d_model: u32,
    pub weights: Option<Var>,
}

impl Embedding {
    /// The table, when it exists, has the layer's shape.
    pub open spec fn wf(&self, c: Context) -> bool {
        self.weights matches Some(w) ==> c.has_shape(w.0) && c.shape_of(w.0) == seq![
            self.vocab_size,
            self.d_model,
        ]
    }

    /// A graph that keeps the shapes of `c1` keeps the table's shape.
    pub proof fn lemma_extends(&self, c1: Context, c2: Context)
        requires
            self.wf(c1),
            crate::layers::shapes_extend(c1, c2),
        ensures
            self.wf(c2),
    {
        if let Some(w) = self.weights {
            assert(c1.shapes_view().contains_key(w.0.0));
        }
    }

    /// A table of `vocab_size` rows of width `d_model`.
    pub fn new(vocab_size: u32, d_model: u32) -> (r: Self)
        ensures
            r == (Embedding { vocab_size, d_model, weights: None }),
    {
        Embedding { vocab_size, d_model, weights: None }
    }

    /// Looks up the rows of `token_ids`, a `[seq_len]` vector of ids;
    /// the output is `[seq_len, d_model]`.
    pub fn forward(&mut self, ctx: &mut Context, token_ids: &Var) -> (r: Result<Var>)
        requires
            old(ctx).ids_ok(),
            room(*old(ctx), 2),
            old(self).wf(*old(ctx)),
        ensures
            grows(*old(ctx), *final(ctx), 2),
            final(self).wf(*final(ctx)),
            final(self).vocab_size == old(self).vocab_size,
            final(self).d_model == old(self).d_model,
            old(self).weights is Some ==> final(self).weights == old(self).weights,
            ({
                let s = old(ctx).shape_of(token_ids.0);
                match r {
                    Ok(out) => {
                        let w = (final(self).weights->0).0;
                        &&& old(ctx).has_shape(token_ids.0)
                        &&& s.len() == 1
                        &&& final(self).weights is Some
                        &&& !old(ctx).has_shape(out.0)
                        &&& final(ctx).has_shape(out.0)
                        &&& final(ctx).shape_of(out.0) == seq![s[0], old(self).d_model]
                        &&& final(ctx).op_seq().len() == old(ctx).op_seq().len() + 1
                        &&& final(ctx).op_seq().last() == Op::Embedding(
                            EmbeddingOp {
                                token_ids: token_ids.0,
                                weights: w,
                                output: out.0,
                                seq_len: s[0],
                                d_model: old(self).d_model,
                            },
                        )
                    },
                    Err(e) => {
                        &&& *final(ctx) == *old(ctx)
                        &&& *final(self) == *old(self)
                        &&& if !old(ctx).has_shape(token_ids.0) {
                            e is EmptyShape
                        } else {
                            &&& s.len() != 1
                            &&& e matches VolticError::InvalidDimension { dim, ndim }
                            &&& dim == s.len()
                            &&& ndim == 1
                        }
                    },
                }
            }),
    {
        let ghost c0 = *ctx;
        proof {
            lemma_grows_refl(c0);
        }
        let shape = match ctx.shape(token_ids.0) {
            Some(s) => s,
            None => return Err(VolticError::EmptyShape),
        };
        if shape.len() != 1 {
            return Err(VolticError::InvalidDimension { dim: shape.len(), ndim: 1 });
        }
        let seq_len = shape[0];
        if self.weights.is_none() {
            let mut ws: Vec<u32> = Vec::new();
            ws.push(self.vocab_size);
            ws.push(self.d_model);
            let ghost wsv = ws@;
            let w = Var::with_shape(ctx, ws);
            proof {
                lemma_step(c0, *ctx, w, wsv);
                assert(wsv =~= seq![self.vocab_size, self.d_model]);
            }
            self.weights = Some(w);
        }
        let ghost c1 = *ctx;
        let ghost n1: nat = (c1.id_counter() - c0.id_counter()) as nat;
        let w = match self.weights {
            Some(w) => w,
            None => {
                assert(false);
                return Err(VolticError::EmptyShape);
            },
        };
        assert(self.wf(c1));
        let output = Var::new(ctx);
        let mut out_shape: Vec<u32> = Vec::new();
        out_shape.push(seq_len);
        out_shape.push(self.d_model);
        let ghost osv = out_shape@;
        ctx.insert_shape(output.0, out_shape);
        ctx.push_operation(Op::Embedding(EmbeddingOp::new(token_ids.0, w.0, output.0, seq_len, self.d_model)));
        proof {
            assert(ctx.op_seq().drop_last() =~= c1.op_seq());
            assert(osv =~= seq![seq_len, self.d_model]);
            lemma_step(c1, *ctx, output, osv);
            lemma_grows_trans(c0, c1, *ctx, n1, 1);
            assert(c1.shapes_view().contains_key(w.0.0));
        }
        Ok(output)
    }

    /// The table, if it exists.
    pub fn parameters(&self) -> (r: Vec<Var>)
        ensures
            r@ == opt_seq(self.weights),
    {
        let mut p: Vec<Var> = Vec::new();
        push_opt(&mut p, self.weights);
        assert(p@ =~= opt_seq(self.weights));
        p
    }
}

} // verus!
