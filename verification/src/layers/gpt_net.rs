//! The GPT language model: embeddings, a stack of transformer blocks, a
//! final normalisation and a softmax language-model head.
use vstd::prelude::*;

use crate::context::Context;
use crate::dims::{lemma_fits_prefix, lemma_pair_fits, lemma_prod_small, prefix_prods_fit, strides_fit};
use crate::errors::{decimal, two_numbers_message, Result, VolticError};
use crate::layers::embedding::Embedding;
use crate::layers::gpt_block::{heads_message_text, GptBlock, MultiHeadAttention};
use crate::layers::gpt_config::GptConfig;
use crate::layers::linear::{dense_fits, dense_shape, fresh_linear};
use crate::hybrid::linear_params;
use crate::layers::norm::{ones_then_zeros, LayerNorm};
use crate::layers::{
    grows, lemma_grows_refl, lemma_grows_trans, lemma_op_step, lemma_step, opt_seq, room, shapes_extend, view_as,
    Fill, InitStep, Linear,
};
use crate::ops::broadcast_shape::lemma_greedy_self;
use crate::var::Var;

verus! {

/// The message of the error for a sequence longer than the model takes.
pub open spec fn seq_message_text(t: u32, seq_len: u32) -> Seq<char> {
    "sequence length "@ + decimal(t as nat) + " exceeds max seq_len "@ + decimal(seq_len as nat)
}

/// The message of the error for a sequence longer than the model takes.
fn seq_message(t: u32, seq_len: u32) -> (r: String)
    ensures
        r@ == seq_message_text(t, seq_len),
{
    let r = two_numbers_message("sequence length ", t as u64, " exceeds max seq_len ", seq_len as u64, "");
    proof {
        reveal_strlit("");
        assert(r@ =~= seq_message_text(t, seq_len));
    }
    r
}

/// A transformer block as `GptBlock::new` makes it.
pub open spec fn fresh_block(d_model: u32, num_heads: u32) -> GptBlock {
    GptBlock {
        ln1: LayerNorm { d_model, gamma: None, beta: None },
        attn: MultiHeadAttention {
            d_model,
            num_heads,
            d_k: d_model / num_heads,
            linear_q: fresh_linear(d_model),
            linear_k: fresh_linear(d_model),
            linear_v: fresh_linear(d_model),
            linear_out: fresh_linear(d_model),
            scale_slot: None,
        },
        ln2: LayerNorm { d_model, gamma: None, beta: None },
        ff1: fresh_linear((d_model * 4) as u32),
        ff2: fresh_linear(d_model),
    }
}

/// Every one of the first `n` blocks takes the input it sees on input
/// shape `s`.
pub open spec fn blocks_pass(blocks: Seq<GptBlock>, c: Context, s: Seq<u32>, n: int) -> bool {
    forall|j: int| 0 <= j < n ==> #[trigger] blocks[j].passes(c, s)
}

/// A GPT model: token and position embeddings, `num_layers` blocks, a
/// final layer normalisation and a softmax head over the vocabulary; the
/// causal mask and the position ids are variables created by `forward`
/// and filled by `init`.
pub struct Gpt {
    pub config: GptConfig,
    pub tok_emb: Embedding,
    pub pos_emb: Embedding,
    pub blocks: Vec<GptBlock>,
    pub ln_f: LayerNorm,
    pub lm_head: Linear,
    pub pos_ids: Option<Var>,
    pub mask: Option<Var>,
}

impl Gpt {
    /// The layers agree on the model width and their variables, the mask
    /// (`[t, t]`) and the position ids (`[n]`) have their shapes in `c`.
    pub open spec fn wf(&self, c: Context) -> bool {
        let d = self.config.d_model;
        &&& self.tok_emb.wf(c)
        &&& self.pos_emb.wf(c)
        &&& self.ln_f.wf(c)
        &&& self.lm_head.wf(c)
        &&& self.tok_emb.d_model == d
        &&& self.pos_emb.d_model == d
        &&& self.ln_f.d_model == d
        &&& forall|j: int| 0 <= j < self.blocks@.len() ==> #[trigger] self.blocks@[j].wf(c)
            && self.blocks@[j].ln1.d_model == d
        &&& self.mask matches Some(m) ==> c.has_shape(m.0) && c.shape_of(m.0).len() == 2 && c.shape_of(m.0)[0]
            == c.shape_of(m.0)[1]
        &&& self.pos_ids matches Some(p) ==> c.has_shape(p.0) && c.shape_of(p.0).len() == 1
    }

    /// The shape `[b, t, d_model]` of the hidden states for tokens `[b, t]`.
    pub open spec fn hidden_shape(&self, s: Seq<u32>) -> Seq<u32> {
        seq![s[0], s[1], self.config.d_model]
    }

    /// The shapes of a forward pass on `tokens` fit in `u32`.
    pub open spec fn accepts(&self, c: Context, tokens: Var) -> bool {
        c.has_shape(tokens.0) && c.shape_of(tokens.0).len() == 2 ==> {
            let s = c.shape_of(tokens.0);
            let hs = self.hidden_shape(s);
            &&& s[0] * s[1] <= u32::MAX
            &&& prefix_prods_fit(hs)
            &&& strides_fit(hs)
            &&& forall|j: int| 0 <= j < self.blocks@.len() ==> #[trigger] self.blocks@[j].fits(hs)
            &&& dense_fits(hs, self.lm_head.out_features)
        }
    }

    /// Every block and the head take the inputs they see on hidden shape `hs`.
    pub open spec fn passes(&self, c: Context, hs: Seq<u32>) -> bool {
        &&& blocks_pass(self.blocks@, c, hs, self.blocks@.len() as int)
        &&& self.lm_head.matches_input(c, hs)
    }

    /// What a forward pass on `tokens` returns, from model `l` and graph
    /// `c`, with `l2` the model and `c2` the graph after it.
    pub open spec fn forward_result(l: Gpt, l2: Gpt, c: Context, c2: Context, tokens: Var, r: Result<Var>) -> bool {
        let s = c.shape_of(tokens.0);
        let hs = l.hidden_shape(s);
        match r {
            Ok(out) => {
                &&& c.has_shape(tokens.0)
                &&& s.len() == 2
                &&& s[1] <= l.config.seq_len
                &&& l.passes(c, hs)
                &&& !c.has_shape(out.0)
                &&& c2.has_shape(out.0)
                &&& c2.shape_of(out.0) == seq![s[0], s[1], l.lm_head.out_features]
                &&& l2.mask matches Some(m) && c2.shape_of(m.0) == seq![s[1], s[1]]
                &&& l2.pos_ids matches Some(p) && c2.shape_of(p.0) == seq![(s[0] * s[1]) as u32]
            },
            Err(e) => if !c.has_shape(tokens.0) {
                e is EmptyShape && c2 == c
            } else if s.len() != 2 {
                e matches VolticError::InvalidDimension { dim, ndim } && dim == s.len() && ndim == 2 && c2 == c
            } else if s[1] > l.config.seq_len {
                &&& e matches VolticError::Internal(msg)
                &&& msg@ == seq_message_text(s[1], l.config.seq_len)
                &&& c2 == c
            } else if !blocks_pass(l.blocks@, c, hs, l.blocks@.len() as int) {
                exists|i: int|
                    0 <= i < l.blocks@.len() && blocks_pass(l.blocks@, c, hs, i) && !#[trigger] l.blocks@[i].passes(
                        c,
                        hs,
                    ) && GptBlock::pass_error(l.blocks@[i], c, hs, e)
            } else {
                &&& !l.lm_head.matches_input(c, hs)
                &&& e matches VolticError::IncompatibleShapes { lhs, op, .. }
                &&& lhs@ == hs
                &&& op == "mat_mul: K mismatch"
            },
        }
    }

    /// A model with the sizes of `config`; fails, as `GptBlock::new` does,
    /// when there are blocks and the heads do not divide the width.
    pub fn new(config: GptConfig) -> (r: Result<Self>)
        requires
            config.num_layers > 0 ==> config.num_heads != 0 && config.d_model * 4 <= u32::MAX,
        ensures
            match r {
                Ok(g) => {
                    &&& config.num_layers > 0 ==> config.d_model % config.num_heads == 0
                    &&& g.config == config
                    &&& g.blocks@.len() == config.num_layers
                    &&& forall|j: int| 0 <= j < g.blocks@.len() ==> #[trigger] g.blocks@[j] == fresh_block(
                        config.d_model,
                        config.num_heads,
                    )
                    &&& g.tok_emb == (Embedding { vocab_size: config.vocab_size, d_model: config.d_model, weights: None })
                    &&& g.pos_emb == (Embedding { vocab_size: config.seq_len, d_model: config.d_model, weights: None })
                    &&& g.ln_f == (LayerNorm { d_model: config.d_model, gamma: None, beta: None })
                    &&& g.lm_head == fresh_linear(config.vocab_size)
                    &&& g.pos_ids is None
                    &&& g.mask is None
                },
                Err(e) => {
                    &&& config.num_layers > 0
                    &&& config.d_model % config.num_heads != 0
                    &&& e matches VolticError::Internal(msg)
                    &&& msg@ == heads_message_text(config.d_model, config.num_heads)
                },
            },
    {
        let mut blocks: Vec<GptBlock> = Vec::new();
        let mut i: u32 = 0;
        while i < config.num_layers
            invariant
                i <= config.num_layers,
                config.num_layers > 0 ==> config.num_heads != 0 && config.d_model * 4 <= u32::MAX,
                i > 0 ==> config.d_model % config.num_heads == 0,
                blocks@.len() == i,
                forall|j: int| 0 <= j < blocks@.len() ==> #[trigger] blocks@[j] == fresh_block(
                    config.d_model,
                    config.num_heads,
                ),
            decreases config.num_layers - i,
        {
            let b = match GptBlock::new(config.d_model, config.num_heads) {
                Ok(b) => b,
                Err(e) => return Err(e),
            };
            assert(b == fresh_block(config.d_model, config.num_heads));
            blocks.push(b);
            i = i + 1;
        }
        Ok(Gpt {
            tok_emb: Embedding::new(config.vocab_size, config.d_model),
            pos_emb: Embedding::new(config.seq_len, config.d_model),
            ln_f: LayerNorm::new(config.d_model),
            lm_head: Linear::new(config.vocab_size),
            blocks,
            pos_ids: None,
            mask: None,
            config,
        })
    }
}


impl Gpt {
    /// A graph that keeps the shapes of `c1` keeps the model well formed
    /// and its layers taking the inputs they took.
    pub proof fn lemma_extends(&self, c1: Context, c2: Context)
        requires
            self.wf(c1),
            shapes_extend(c1, c2),
        ensures
            self.wf(c2),
            forall|hs: Seq<u32>| self.lm_head.matches_input(c2, hs) == #[trigger] self.lm_head.matches_input(c1, hs),
            forall|j: int, hs: Seq<u32>|
                0 <= j < self.blocks@.len() ==> self.blocks@[j].passes(c2, hs) == #[trigger] self.blocks@[j].passes(
                    c1,
                    hs,
                ),
            forall|j: int, hs: Seq<u32>, e: VolticError|
                0 <= j < self.blocks@.len() ==> GptBlock::pass_error(self.blocks@[j], c2, hs, e)
                    == #[trigger] GptBlock::pass_error(self.blocks@[j], c1, hs, e),
            forall|hs: Seq<u32>, n: int|
                0 <= n <= self.blocks@.len() ==> blocks_pass(self.blocks@, c2, hs, n) == #[trigger] blocks_pass(
                    self.blocks@,
                    c1,
                    hs,
                    n,
                ),
    {
        self.tok_emb.lemma_extends(c1, c2);
        self.pos_emb.lemma_extends(c1, c2);
        self.ln_f.lemma_extends(c1, c2);
        self.lm_head.lemma_extends(c1, c2);
        if let Some(m) = self.mask {
            assert(c1.shapes_view().contains_key(m.0.0));
        }
        if let Some(p) = self.pos_ids {
            assert(c1.shapes_view().contains_key(p.0.0));
        }
        assert forall|j: int| 0 <= j < self.blocks@.len() implies #[trigger] self.blocks@[j].wf(c2)
            && self.blocks@[j].ln1.d_model == self.config.d_model by {
            self.blocks@[j].lemma_extends(c1, c2);
        }
        assert forall|j: int, hs: Seq<u32>| 0 <= j < self.blocks@.len() implies self.blocks@[j].passes(c2, hs)
            == #[trigger] self.blocks@[j].passes(c1, hs) by {
            self.blocks@[j].lemma_extends(c1, c2);
        }
        assert forall|j: int, hs: Seq<u32>, e: VolticError| 0 <= j < self.blocks@.len() implies GptBlock::pass_error(
            self.blocks@[j],
            c2,
            hs,
            e,
        ) == #[trigger] GptBlock::pass_error(self.blocks@[j], c1, hs, e) by {
            self.blocks@[j].lemma_extends(c1, c2);
        }
        assert forall|hs: Seq<u32>, n: int| 0 <= n <= self.blocks@.len() implies blocks_pass(self.blocks@, c2, hs, n)
            == #[trigger] blocks_pass(self.blocks@, c1, hs, n) by {
            assert forall|j: int| 0 <= j < n implies #[trigger] self.blocks@[j].passes(c2, hs) == self.blocks@[j].passes(
                c1,
                hs,
            ) by {
                self.blocks@[j].lemma_extends(c1, c2);
            }
        }
    }

    /// Token plus position embeddings of `tokens` (`[b, t]`), viewed as
    /// `[b, t, d_model]`; creates the `[b * t]` position ids.
    #[verifier::rlimit(80)]
    fn embed(&mut self, ctx: &mut Context, tokens: &Var, b: u32, t: u32) -> (r: Var)
        requires
            old(ctx).ids_ok(),
            room(*old(ctx), 9),
            old(self).wf(*old(ctx)),
            old(ctx).has_shape(tokens.0),
            old(ctx).shape_of(tokens.0) == seq![b, t],
            b * t <= u32::MAX,
            prefix_prods_fit(seq![b, t, old(self).config.d_model]),
            strides_fit(seq![b, t, old(self).config.d_model]),
        ensures
            grows(*old(ctx), *final(ctx), 9),
            final(self).wf(*final(ctx)),
            final(self).config == old(self).config,
            final(self).blocks@ == old(self).blocks@,
            final(self).ln_f == old(self).ln_f,
            final(self).lm_head == old(self).lm_head,
            final(self).mask == old(self).mask,
            final(self).pos_ids matches Some(p) && final(ctx).shape_of(p.0) == seq![(b * t) as u32],
            final(ctx).has_shape(r.0),
            final(ctx).shape_of(r.0) == seq![b, t, old(self).config.d_model],
    {
        let ghost c0 = *ctx;
        let ghost l0 = *self;
        let d = self.config.d_model;
        let n = b * t;
        let ghost hs = seq![b, t, d];
        proof {
            lemma_grows_refl(c0);
            lemma_prod_small(b, t, d, 0, 0, 0);
            lemma_fits_prefix(hs, 2);
            assert(hs.subrange(0, 2) =~= seq![b, t]);
            assert(hs.take(3) =~= hs);
            crate::var::lemma_prod_single(n);
            assert(n * d == b * t * d);
            lemma_pair_fits(n, d);
        }
        let nv: Vec<u32> = vec![n];
        assert(nv@ =~= seq![n]);
        let flat = match tokens.reshape(ctx, nv) {
            Ok(v) => v,
            Err(_) => {
                assert(false);
                return *tokens;
            },
        };
        let ghost c1 = *ctx;
        proof {
            lemma_step(c0, c1, flat, seq![n]);
            l0.lemma_extends(c0, c1);
        }
        let te = match self.tok_emb.forward(ctx, &flat) {
            Ok(v) => v,
            Err(_) => {
                assert(false);
                return *tokens;
            },
        };
        let ghost c2 = *ctx;
        proof {
            lemma_grows_trans(c0, c1, c2, 1, 2);
        }
        let tv = match view_as(ctx, te, vec![b, t, d]) {
            Ok(v) => v,
            Err(_) => {
                assert(false);
                return *tokens;
            },
        };
        let ghost c3 = *ctx;
        proof {
            lemma_grows_trans(c0, c2, c3, 3, 1);
        }
        let pos: Var = Var::with_shape(ctx, vec![n]);
        let ghost c4 = *ctx;
        proof {
            lemma_step(c3, c4, pos, seq![n]);
            lemma_grows_trans(c0, c3, c4, 4, 1);
            self.tok_emb.lemma_extends(c2, c4);
            l0.pos_emb.lemma_extends(c0, c4);
        }
        self.pos_ids = Some(pos);
        let pe = match self.pos_emb.forward(ctx, &pos) {
            Ok(v) => v,
            Err(_) => {
                assert(false);
                return *tokens;
            },
        };
        let ghost c5 = *ctx;
        proof {
            lemma_grows_trans(c0, c4, c5, 5, 2);
        }
        let pv = match view_as(ctx, pe, vec![b, t, d]) {
            Ok(v) => v,
            Err(_) => {
                assert(false);
                return *tokens;
            },
        };
        let ghost c6 = *ctx;
        proof {
            lemma_grows_trans(c0, c5, c6, 7, 1);
            lemma_greedy_self(hs);
        }
        let out = tv.add(ctx, pv);
        proof {
            lemma_step(c6, *ctx, out, hs);
            lemma_grows_trans(c0, c6, *ctx, 8, 1);
            l0.lemma_extends(c0, *ctx);
            self.tok_emb.lemma_extends(c2, *ctx);
            self.pos_emb.lemma_extends(c5, *ctx);
            assert(c4.shapes_view().contains_key(pos.0.0));
        }
        out
    }
}


impl Gpt {
    /// Runs the blocks in order on `x` (of shape `hs`, `[b, t, d_model]`)
    /// with the `[t, t]` mask; stops at the first block that fails.
    #[verifier::rlimit(80)]
    #[verifier::loop_isolation(false)]
    fn run_blocks(&mut self, ctx: &mut Context, x: Var, mask: Var, Ghost(hs): Ghost<Seq<u32>>) -> (r: Result<Var>)
        requires
            old(ctx).ids_ok(),
            room(*old(ctx), 48 * old(self).blocks@.len()),
            old(self).wf(*old(ctx)),
            hs.len() == 3,
            hs[2] == old(self).config.d_model,
            old(ctx).has_shape(x.0),
            old(ctx).shape_of(x.0) == hs,
            old(ctx).has_shape(mask.0),
            old(ctx).shape_of(mask.0) == seq![hs[1], hs[1]],
            forall|j: int| 0 <= j < old(self).blocks@.len() ==> #[trigger] old(self).blocks@[j].fits(hs),
        ensures
            grows(*old(ctx), *final(ctx), 48 * old(self).blocks@.len()),
            final(self).wf(*final(ctx)),
            final(self).config == old(self).config,
            final(self).blocks@.len() == old(self).blocks@.len(),
            final(self).tok_emb == old(self).tok_emb,
            final(self).pos_emb == old(self).pos_emb,
            final(self).ln_f == old(self).ln_f,
            final(self).lm_head == old(self).lm_head,
            final(self).mask == old(self).mask,
            final(self).pos_ids == old(self).pos_ids,
            match r {
                Ok(out) => {
                    &&& blocks_pass(old(self).blocks@, *old(ctx), hs, old(self).blocks@.len() as int)
                    &&& final(ctx).has_shape(out.0)
                    &&& final(ctx).shape_of(out.0) == hs
                },
                Err(e) => exists|i: int|
                    0 <= i < old(self).blocks@.len() && blocks_pass(old(self).blocks@, *old(ctx), hs, i)
                        && !#[trigger] old(self).blocks@[i].passes(*old(ctx), hs) && GptBlock::pass_error(
                        old(self).blocks@[i],
                        *old(ctx),
                        hs,
                        e,
                    ),
            },
    {
        let ghost c0 = *ctx;
        let ghost l0 = *self;
        proof {
            lemma_grows_refl(c0);
        }
        let n = self.blocks.len();
        let mut cur = x;
        let mut i: usize = 0;
        while i < n
            invariant
                n == self.blocks@.len(),
                n == l0.blocks@.len(),
                i <= n,
                grows(c0, *ctx, 48 * i as nat),
                room(c0, 48 * n as nat),
                self.wf(*ctx),
                self.config == l0.config,
                self.tok_emb == l0.tok_emb,
                self.pos_emb == l0.pos_emb,
                self.ln_f == l0.ln_f,
                self.lm_head == l0.lm_head,
                self.mask == l0.mask,
                self.pos_ids == l0.pos_ids,
                forall|j: int| i <= j < n ==> #[trigger] self.blocks@[j] == l0.blocks@[j],
                blocks_pass(l0.blocks@, c0, hs, i as int),
                l0.wf(c0),
                hs.len() == 3,
                hs[2] == l0.config.d_model,
                ctx.has_shape(cur.0),
                ctx.shape_of(cur.0) == hs,
                ctx.has_shape(mask.0),
                ctx.shape_of(mask.0) == seq![hs[1], hs[1]],
                forall|j: int| 0 <= j < n ==> #[trigger] l0.blocks@[j].fits(hs),
            decreases n - i,
        {
            let ghost ci = *ctx;
            let ghost li = *self;
            let mut blk = self.blocks[i];
            proof {
                assert(blk == l0.blocks@[i as int]);
                assert(blk.fits(hs));
                assert(blk.wf(ci));
                blk.lemma_accepts(ci, cur, mask);
                l0.lemma_extends(c0, ci);
            }
            let res = blk.forward(ctx, &cur, &mask);
            let ghost c2 = *ctx;
            self.blocks.set(i, blk);
            proof {
                lemma_grows_trans(c0, ci, c2, 48 * i as nat, 48);
                assert(48 * i as nat + 48 == 48 * (i + 1) as nat);
                li.lemma_extends(ci, c2);
                assert forall|j: int| 0 <= j < n implies #[trigger] self.blocks@[j].wf(c2)
                    && self.blocks@[j].ln1.d_model == self.config.d_model by {
                    if j != i {
                        assert(self.blocks@[j] == li.blocks@[j]);
                    }
                }
                if let Some(m) = self.mask {
                    assert(ci.shapes_view().contains_key(m.0.0));
                }
                if let Some(p) = self.pos_ids {
                    assert(ci.shapes_view().contains_key(p.0.0));
                }
                assert(ci.shapes_view().contains_key(mask.0.0));
            }
            match res {
                Ok(v) => {
                    cur = v;
                },
                Err(e) => {
                    proof {
                        assert(!l0.blocks@[i as int].passes(c0, hs));
                        assert(GptBlock::pass_error(l0.blocks@[i as int], c0, hs, e));
                        assert(grows(c0, c2, 48 * n as nat));
                        assert(self.config == l0.config);
                    }
                    return Err(e);
                },
            }
            proof {
                assert(l0.blocks@[i as int].passes(c0, hs));
                assert forall|j: int| 0 <= j < i + 1 implies #[trigger] l0.blocks@[j].passes(c0, hs) by {
                    if j < i {
                        assert(blocks_pass(l0.blocks@, c0, hs, i as int));
                    }
                }
            }
            i = i + 1;
        }
        Ok(cur)
    }
}


impl Gpt {
    /// Builds the graph of one forward pass on `tokens` (`[b, t]`, token
    /// ids) and returns the `[b, t, vocab_size]` next-token probabilities:
    /// creates the `[t, t]` causal mask and the `[b * t]` position ids
    /// (filled by `init`), adds token and position embeddings, runs the
    /// blocks, the final normalisation, the head and a softmax over the
    /// vocabulary.
    #[verifier::rlimit(80)]
    pub fn forward(&mut self, ctx: &mut Context, tokens: &Var) -> (r: Result<Var>)
        requires
            old(ctx).ids_ok(),
            room(*old(ctx), 18 + 48 * old(self).blocks@.len()),
            old(self).wf(*old(ctx)),
            old(self).accepts(*old(ctx), *tokens),
        ensures
            grows(*old(ctx), *final(ctx), 18 + 48 * old(self).blocks@.len()),
            final(self).wf(*final(ctx)),
            final(self).config == old(self).config,
            final(self).blocks@.len() == old(self).blocks@.len(),
            Gpt::forward_result(*old(self), *final(self), *old(ctx), *final(ctx), *tokens, r),
    {
        let ghost c0 = *ctx;
        let ghost l0 = *self;
        proof {
            lemma_grows_refl(c0);
        }
        let shape = match ctx.shape(tokens.0) {
            Some(s) => s,
            None => return Err(VolticError::EmptyShape),
        };
        if shape.len() != 2 {
            return Err(VolticError::InvalidDimension { dim: shape.len(), ndim: 2 });
        }
        let b = shape[0];
        let t = shape[1];
        let d = self.config.d_model;
        if t > self.config.seq_len {
            return Err(VolticError::Internal(seq_message(t, self.config.seq_len)));
        }
        let ghost hs = seq![b, t, d];
        assert(shape@ =~= seq![b, t]);
        let ms: Vec<u32> = vec![t, t];
        assert(ms@ =~= seq![t, t]);
        let mask = Var::with_shape(ctx, ms);
        let ghost c1 = *ctx;
        proof {
            lemma_step(c0, c1, mask, seq![t, t]);
            l0.lemma_extends(c0, c1);
            assert(c0.shapes_view().contains_key(tokens.0.0));
        }
        self.mask = Some(mask);
        let x = self.embed(ctx, tokens, b, t);
        let ghost c2 = *ctx;
        let ghost l2 = *self;
        proof {
            lemma_grows_trans(c0, c1, c2, 1, 9);
            l0.lemma_extends(c0, c2);
            assert(c1.shapes_view().contains_key(mask.0.0));
            assert(shape@ == seq![b, t]);
            assert(l2.blocks@ == l0.blocks@);
        }
        let y = match self.run_blocks(ctx, x, mask, Ghost(hs)) {
            Ok(v) => v,
            Err(e) => {
                proof {
                    lemma_grows_trans(c0, c2, *ctx, 10, 48 * l0.blocks@.len());
                    let i = choose|i: int|
                        0 <= i < l2.blocks@.len() && blocks_pass(l2.blocks@, c2, hs, i)
                            && !#[trigger] l2.blocks@[i].passes(c2, hs) && GptBlock::pass_error(
                            l2.blocks@[i],
                            c2,
                            hs,
                            e,
                        );
                    assert(blocks_pass(l0.blocks@, c0, hs, i));
                    assert(!l0.blocks@[i].passes(c0, hs));
                    assert(GptBlock::pass_error(l0.blocks@[i], c0, hs, e));
                    assert(!blocks_pass(l0.blocks@, c0, hs, l0.blocks@.len() as int));
                }
                return Err(e);
            },
        };
        let ghost c3 = *ctx;
        let ghost l3 = *self;
        proof {
            lemma_grows_trans(c0, c2, c3, 10, 48 * l0.blocks@.len());
            l2.ln_f.lemma_extends(c2, c3);
            l2.lm_head.lemma_extends(c2, c3);
        }
        let z = match self.ln_f.forward(ctx, &y) {
            Ok(v) => v,
            Err(e) => {
                assert(false);
                return Err(e);
            },
        };
        let ghost c4 = *ctx;
        let ghost l4 = *self;
        proof {
            lemma_grows_trans(c0, c3, c4, 10 + 48 * l0.blocks@.len(), 3);
            l3.lemma_extends(c3, c4);
            assert(l4.wf(c4));
            l2.lm_head.lemma_extends(c2, c4);
            l2.lm_head.lemma_extends(c0, c4);
        }
        let logits = match self.lm_head.forward(ctx, &z) {
            Ok(v) => v,
            Err(e) => {
                proof {
                    lemma_grows_trans(c0, c4, *ctx, 13 + 48 * l0.blocks@.len(), 4);
                    l4.lemma_extends(c4, *ctx);
                }
                return Err(e);
            },
        };
        let ghost c5 = *ctx;
        let ghost os = seq![b, t, l0.lm_head.out_features];
        proof {
            lemma_grows_trans(c0, c4, c5, 13 + 48 * l0.blocks@.len(), 4);
            assert(dense_shape(hs, l0.lm_head.out_features) =~= os);
            lemma_fits_prefix(os, 2);
            assert(os.subrange(3, 3) =~= Seq::<u32>::empty());
            assert(prefix_prods_fit(Seq::<u32>::empty())) by {
                assert forall|j: int| 0 <= j <= 0 implies #[trigger] crate::dims::prod(Seq::<u32>::empty().take(j))
                    <= u32::MAX by {
                    assert(Seq::<u32>::empty().take(j) =~= Seq::<u32>::empty());
                }
            }
        }
        let probs = match logits.softmax(ctx, 2) {
            Ok(v) => v,
            Err(e) => {
                assert(false);
                return Err(e);
            },
        };
        proof {
            lemma_op_step(c5, *ctx, probs, os, ctx.op_seq().last());
            lemma_grows_trans(c0, c5, *ctx, 17 + 48 * l0.blocks@.len(), 1);
            l4.lemma_extends(c4, *ctx);
            self.lm_head.lemma_extends(c5, *ctx);
        }
        Ok(probs)
    }
}


/// The init steps of a block's two layer normalisations.
pub open spec fn block_steps(b: GptBlock) -> Seq<InitStep> {
    ones_then_zeros(b.ln1.gamma, b.ln1.beta, b.ln1.d_model) + ones_then_zeros(b.ln2.gamma, b.ln2.beta, b.ln2.d_model)
}

/// The init steps of the blocks, in order.
pub open spec fn blocks_steps(bs: Seq<GptBlock>) -> Seq<InitStep>
    decreases bs.len(),
{
    if bs.len() == 0 {
        Seq::empty()
    } else {
        blocks_steps(bs.drop_last()) + block_steps(bs.last())
    }
}

/// The variables of a block, as `GptBlock::parameters` lists them.
pub open spec fn block_params(b: GptBlock) -> Seq<Var> {
    opt_seq(b.ln1.gamma) + opt_seq(b.ln1.beta) + (linear_params(b.attn.linear_q) + linear_params(b.attn.linear_k)
        + linear_params(b.attn.linear_v) + linear_params(b.attn.linear_out)) + (opt_seq(b.ln2.gamma) + opt_seq(
        b.ln2.beta,
    )) + linear_params(b.ff1) + linear_params(b.ff2)
}

/// The variables of the blocks, in order.
pub open spec fn blocks_params(bs: Seq<GptBlock>) -> Seq<Var>
    decreases bs.len(),
{
    if bs.len() == 0 {
        Seq::empty()
    } else {
        blocks_params(bs.drop_last()) + block_params(bs.last())
    }
}

/// The step that fills the position ids `p` (`[n]` in `c`) with `i % period`.
pub open spec fn position_steps(c: Context, p: Option<Var>, period: u32) -> Seq<InitStep> {
    match p {
        Some(v) => seq![InitStep { var: v, fill: Fill::Positions { n: c.shape_of(v.0)[0], period } }],
        None => Seq::empty(),
    }
}

/// The step that fills the mask `m` (`[t, t]` in `c`) with the causal mask.
pub open spec fn mask_steps(c: Context, m: Option<Var>) -> Seq<InitStep> {
    match m {
        Some(v) => seq![InitStep { var: v, fill: Fill::CausalMask { size: c.shape_of(v.0)[0] } }],
        None => Seq::empty(),
    }
}

impl Gpt {
    /// What to load once the buffers exist: ones and zeros into the layer
    /// normalisations (the final one, then the blocks'), the positions
    /// `i % seq_len` into the position ids and the causal mask into the mask.
    pub fn init(&self, ctx: &Context) -> (r: Vec<InitStep>)
        requires
            self.wf(*ctx),
        ensures
            r@ == ones_then_zeros(self.ln_f.gamma, self.ln_f.beta, self.ln_f.d_model) + blocks_steps(self.blocks@)
                + position_steps(*ctx, self.pos_ids, self.config.seq_len) + mask_steps(*ctx, self.mask),
    {
        let mut steps = self.ln_f.init();
        let ghost base = steps@;
        let mut i: usize = 0;
        while i < self.blocks.len()
            invariant
                i <= self.blocks@.len(),
                steps@ == base + blocks_steps(self.blocks@.take(i as int)),
            decreases self.blocks@.len() - i,
        {
            let mut more = self.blocks[i].init();
            proof {
                assert(self.blocks@.take(i + 1).drop_last() =~= self.blocks@.take(i as int));
                assert(self.blocks@.take(i + 1).last() == self.blocks@[i as int]);
            }
            steps.append(&mut more);
            i = i + 1;
        }
        proof {
            assert(self.blocks@.take(self.blocks@.len() as int) =~= self.blocks@);
        }
        let ghost with_blocks = steps@;
        if let Some(p) = self.pos_ids {
            let n = match ctx.shape(p.0) {
                Some(sh) => sh[0],
                None => {
                    assert(false);
                    0
                },
            };
            steps.push(InitStep { var: p, fill: Fill::Positions { n, period: self.config.seq_len } });
        }
        assert(steps@ =~= with_blocks + position_steps(*ctx, self.pos_ids, self.config.seq_len));
        let ghost with_pos = steps@;
        if let Some(m) = self.mask {
            let size = match ctx.shape(m.0) {
                Some(sh) => sh[0],
                None => {
                    assert(false);
                    0
                },
            };
            steps.push(InitStep { var: m, fill: Fill::CausalMask { size } });
        }
        assert(steps@ =~= with_pos + mask_steps(*ctx, self.mask));
        steps
    }

    /// The variables of the model: token and position tables, the blocks,
    /// the final normalisation, the head.
    pub fn parameters(&self) -> (r: Vec<Var>)
        ensures
            r@ == opt_seq(self.tok_emb.weights) + opt_seq(self.pos_emb.weights) + blocks_params(self.blocks@) + (
            opt_seq(self.ln_f.gamma) + opt_seq(self.ln_f.beta)) + linear_params(self.lm_head),
    {
        let mut p = self.tok_emb.parameters();
        let mut more = self.pos_emb.parameters();
        p.append(&mut more);
        let ghost base = p@;
        let mut i: usize = 0;
        while i < self.blocks.len()
            invariant
                i <= self.blocks@.len(),
                p@ == base + blocks_params(self.blocks@.take(i as int)),
            decreases self.blocks@.len() - i,
        {
            let mut more = self.blocks[i].parameters();
            proof {
                assert(self.blocks@.take(i + 1).drop_last() =~= self.blocks@.take(i as int));
                assert(self.blocks@.take(i + 1).last() == self.blocks@[i as int]);
            }
            p.append(&mut more);
            i = i + 1;
        }
        proof {
            assert(self.blocks@.take(self.blocks@.len() as int) =~= self.blocks@);
        }
        let mut more = self.ln_f.parameters();
        p.append(&mut more);
        let mut more = self.lm_head.parameters();
        p.append(&mut more);
        p
    }
}

} // verus!
