//! Row lookup of a `[vocab_size, d_model]` table by token ids.
use vstd::prelude::*;

use crate::var::ID;

verus! {

/// Gathers `seq_len` rows of width `d_model` from `weights` by `token_ids`.
#[derive(Debug)]
pub struct EmbeddingOp {
    pub token_ids: ID,
    pub weights: ID,
    pub output: ID,
    pub seq_len: u32,
    pub d_model: u32,
}

impl EmbeddingOp {
    pub fn new(token_ids: ID, weights: ID, output: ID, seq_len: u32, d_model: u32) -> (r: Self)
        ensures
            r == (EmbeddingOp { token_ids, weights, output, seq_len, d_model }),
    {
        EmbeddingOp { token_ids, weights, output, seq_len, d_model }
    }
}

} // verus!
