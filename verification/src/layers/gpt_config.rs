//! Hyper-parameters of a GPT model.
use vstd::prelude::*;

verus! {

/// Sizes of a GPT model; `ff_dim` defaults to `4 * d_model`.
pub struct GptConfig {
    pub vocab_size: u32,
    pub seq_len: u32,
    pub d_model: u32,
    pub num_heads: u32,
    pub num_layers: u32,
    pub ff_dim: Option<u32>,
}

impl GptConfig {
    /// The width of the feed-forward layers: `ff_dim` if set, else
    /// `4 * d_model` (which is computed, and must fit, either way).
    pub fn ff_dim(&self) -> (r: u32)
        requires
            self.d_model * 4 <= u32::MAX,
        ensures
            r == match self.ff_dim {
                Some(f) => f,
                None => (self.d_model * 4) as u32,
            },
    {
        let default = self.d_model * 4;
        match self.ff_dim {
            Some(f) => f,
            None => default,
        }
    }
}

} // verus!
