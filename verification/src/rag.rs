//! Retrieval-augmented generation: a document store whose embeddings are
//! the documents' token ids, padded or cut to a fixed width, and an
//! embedding layer for queries.
use vstd::prelude::*;

use crate::context::Context;
use crate::errors::{Result, VolticError};
use crate::layers::embedding::Embedding;
use crate::layers::{grows, opt_seq, room};
use crate::ops::op::Op;
use crate::var::Var;

verus! {

/// The width of the document embeddings and how many documents a query
/// retrieves.
pub struct RagConfig {
    pub embedding_dim: u32,
    pub top_k: usize,
}

/// A stored document: its text and its embedding, the token ids of the
/// document (as the values of the embedding).
pub struct DocumentChunk {
    pub text: String,
    pub embedding: Vec<u32>,
}

/// `tokens` padded with zeros, or cut, to exactly `dim` entries.
pub open spec fn fit_width(tokens: Seq<u32>, dim: nat) -> Seq<u32> {
    Seq::new(dim, |i: int| if i < tokens.len() { tokens[i] } else { 0u32 })
}

/// A document store and the embedding layer of its queries.
pub struct RagHelper {
    pub embedding_layer: Embedding,
    pub config: RagConfig,
    pub document_chunks: Vec<DocumentChunk>,
}

impl RagHelper {
    /// An empty store of embeddings of width `embedding_dim` whose queries
    /// retrieve `top_k` documents and are embedded with a
    /// `[vocab_size, embedding_dim]` table.
    pub fn new(vocab_size: u32, embedding_dim: u32, top_k: usize) -> (r: Self)
        ensures
            r.embedding_layer == (Embedding { vocab_size, d_model: embedding_dim, weights: None }),
            r.config.embedding_dim == embedding_dim,
            r.config.top_k == top_k,
            r.document_chunks@.len() == 0,
    {
        RagHelper {
            embedding_layer: Embedding::new(vocab_size, embedding_dim),
            config: RagConfig { embedding_dim, top_k },
            document_chunks: Vec::new(),
        }
    }

    /// The embedding of a document or query with token ids `tokens`: the
    /// ids, padded with zeros or cut to the embedding width.
    pub fn embed_tokens(&self, tokens: &[u32]) -> (r: Vec<u32>)
        ensures
            r@ == fit_width(tokens@, self.config.embedding_dim as nat),
    {
        let dim = self.config.embedding_dim as usize;
        let mut e: Vec<u32> = Vec::new();
        let mut i: usize = 0;
        while i < dim
            invariant
                dim == self.config.embedding_dim,
                i <= dim,
                e@ == fit_width(tokens@, self.config.embedding_dim as nat).take(i as int),
            decreases dim - i,
        {
            if i < tokens.len() {
                e.push(tokens[i]);
            } else {
                e.push(0);
            }
            proof {
                assert(fit_width(tokens@, self.config.embedding_dim as nat).take(i + 1) =~= fit_width(
                    tokens@,
                    self.config.embedding_dim as nat,
                ).take(i as int).push(fit_width(tokens@, self.config.embedding_dim as nat)[i as int]));
            }
            i = i + 1;
        }
        assert(e@ =~= fit_width(tokens@, self.config.embedding_dim as nat));
        e
    }

    /// Stores the document `text` with the embedding of its `tokens`.
    pub fn add_document(&mut self, text: &str, tokens: &[u32])
        ensures
            final(self).config == old(self).config,
            final(self).embedding_layer == old(self).embedding_layer,
            final(self).document_chunks@.len() == old(self).document_chunks@.len() + 1,
            forall|i: int|
                0 <= i < old(self).document_chunks@.len() ==> #[trigger] final(self).document_chunks@[i]
                    == old(self).document_chunks@[i],
            final(self).document_chunks@.last().text@ == text@,
            final(self).document_chunks@.last().embedding@ == fit_width(
                tokens@,
                old(self).config.embedding_dim as nat,
            ),
    {
        let embedding = self.embed_tokens(tokens);
        let chunk = DocumentChunk { text: String::from_str(text), embedding };
        self.document_chunks.push(chunk);
    }

    /// Embeds the query token ids `query_tokens` (a `[n]` vector) with the
    /// store's embedding layer, giving `[n, embedding_dim]`.
    pub fn forward(&mut self, ctx: &mut Context, query_tokens: Var) -> (r: Result<Var>)
        requires
            old(ctx).ids_ok(),
            room(*old(ctx), 2),
            old(self).embedding_layer.wf(*old(ctx)),
        ensures
            grows(*old(ctx), *final(ctx), 2),
            final(self).embedding_layer.wf(*final(ctx)),
            final(self).config == old(self).config,
            final(self).document_chunks@ == old(self).document_chunks@,
            ({
                let s = old(ctx).shape_of(query_tokens.0);
                match r {
                    Ok(out) => {
                        &&& old(ctx).has_shape(query_tokens.0)
                        &&& s.len() == 1
                        &&& !old(ctx).has_shape(out.0)
                        &&& final(ctx).has_shape(out.0)
                        &&& final(ctx).shape_of(out.0) == seq![s[0], old(self).embedding_layer.d_model]
                        &&& final(ctx).op_seq().last() matches Op::Embedding(p)
                        &&& p.token_ids == query_tokens.0
                        &&& p.output == out.0
                    },
                    Err(e) => {
                        &&& *final(ctx) == *old(ctx)
                        &&& if !old(ctx).has_shape(query_tokens.0) {
                            e is EmptyShape
                        } else {
                            e matches VolticError::InvalidDimension { dim, ndim } && dim == s.len() && ndim == 1
                        }
                    },
                }
            }),
    {
        self.embedding_layer.forward(ctx, &query_tokens)
    }

    /// The embedding table, if it exists.
    pub fn parameters(&self) -> (r: Vec<Var>)
        ensures
            r@ == opt_seq(self.embedding_layer.weights),
    {
        self.embedding_layer.parameters()
    }
}

} // verus!
