//! Neural-network layers that add their operations to a graph, and the
//! bookkeeping they share.
use vstd::prelude::*;

use crate::context::Context;
use crate::dims::{prefix_prods_fit, prod};
use crate::errors::{Result, VolticError};
use crate::ops::op::Op;
use crate::var::{fresh_var, op_appended, Var};

pub mod autoencoder;
pub mod conv2d;
pub mod embedding;
pub mod gpt_block;
pub mod gpt_config;
pub mod gpt_net;
pub mod linear;
pub mod norm;
pub mod upsample;
pub mod vae;

pub use autoencoder::SimpleAutoencoder;
pub use conv2d::{Conv2d, TransposedConv2d};
pub use embedding::Embedding;
pub use gpt_block::{GptBlock, MultiHeadAttention};
pub use gpt_config::GptConfig;
pub use gpt_net::Gpt;
pub use linear::Linear;
pub use norm::{BatchNorm, LayerNorm};
pub use upsample::{Downsample, Upsample};
pub use vae::{Vae, VaeDecoder, VaeEncoder};

verus! {

/// The values an initialisation step loads into a variable.
#[derive(PartialEq, Eq, Structural, Copy, Clone, Debug)]
pub enum Fill {
    /// `n` values (every entry of the variable) drawn uniformly from
    /// `[-sqrt(6 / fan_in), sqrt(6 / fan_in)]` by the seeded generator.
    Xavier { fan_in: u32, n: u64 },
    /// `n` zeros.
    Zeros { n: u32 },
    /// `n` ones.
    Ones { n: u32 },
    /// The `n` values `0.1 * sin(0.1 * i)`.
    Sine { n: u32 },
    /// The `n` positions `i % period`.
    Positions { n: u32, period: u32 },
    /// The `n` values `sin(0.01 * i)`.
    Wave { n: u32 },
    /// A `size x size` additive causal mask, row by row: `0` where the
    /// column is at most the row, `-inf` elsewhere.
    CausalMask { size: u32 },
}

/// One variable to load at initialisation, and what to load into it.
#[derive(PartialEq, Eq, Structural, Copy, Clone, Debug)]
pub struct InitStep {
    pub var: Var,
    pub fill: Fill,
}

/// The variables of an optional slot, as a sequence of zero or one.
pub open spec fn opt_seq(o: Option<Var>) -> Seq<Var> {
    match o {
        Some(v) => seq![v],
        None => Seq::empty(),
    }
}

/// Appends the variable of an optional slot.
pub fn push_opt(v: &mut Vec<Var>, o: Option<Var>)
    ensures
        final(v)@ == old(v)@ + opt_seq(o),
{
    match o {
        Some(x) => {
            v.push(x);
            assert(final(v)@ =~= old(v)@ + opt_seq(o));
        },
        None => {
            assert(final(v)@ =~= old(v)@ + opt_seq(o));
        },
    }
}

/// Every variable `c1` knows keeps its shape in `c2`.
pub open spec fn shapes_extend(c1: Context, c2: Context) -> bool {
    forall|k: u64| #[trigger]
        c1.shapes_view().contains_key(k) ==> c2.shapes_view().contains_key(k)
            && c2.shapes_view()[k] == c1.shapes_view()[k]
}

/// `c2` is `c1` with at most `n` more variables and some more operations
/// at the end; the variables of `c1` keep their shapes.
pub open spec fn grows(c1: Context, c2: Context, n: nat) -> bool {
    &&& c2.ids_ok()
    &&& c1.id_counter() <= c2.id_counter() <= c1.id_counter() + n
    &&& shapes_extend(c1, c2)
    &&& c1.op_seq().len() <= c2.op_seq().len()
    &&& c2.op_seq().subrange(0, c1.op_seq().len() as int) == c1.op_seq()
}

/// The id counter can hand out `n` more ids without wrapping around.
pub open spec fn room(c: Context, n: nat) -> bool {
    c.id_counter() + n <= u64::MAX
}

/// A fresh variable of a graph whose ids are in order is new, and keeps
/// the ids in order.
pub proof fn lemma_fresh(c1: Context, c2: Context, out: Var, shape: Seq<u32>)
    requires
        fresh_var(c1, c2, out, shape),
        c1.ids_ok(),
        c1.id_counter() < u64::MAX,
    ensures
        !c1.has_shape(out.0),
        c2.ids_ok(),
        c2.id_counter() == c1.id_counter() + 1,
        shapes_extend(c1, c2),
        c2.has_shape(out.0),
        c2.shape_of(out.0) == shape,
{
}

pub proof fn lemma_grows_refl(c: Context)
    requires
        c.ids_ok(),
    ensures
        grows(c, c, 0),
{
    assert(c.op_seq().subrange(0, c.op_seq().len() as int) =~= c.op_seq());
}

pub proof fn lemma_grows_trans(a: Context, b: Context, c: Context, n: nat, m: nat)
    requires
        grows(a, b, n),
        grows(b, c, m),
    ensures
        grows(a, c, n + m),
{
    let k = a.op_seq().len() as int;
    assert(c.op_seq().subrange(0, k) =~= c.op_seq().subrange(0, b.op_seq().len() as int).subrange(0, k));
}

/// A step that adds one fresh variable and at most one operation grows the graph.
pub proof fn lemma_step(c1: Context, c2: Context, out: Var, shape: Seq<u32>)
    requires
        fresh_var(c1, c2, out, shape),
        c1.ids_ok(),
        c1.id_counter() < u64::MAX,
        c2.op_seq() == c1.op_seq() || (c2.op_seq().len() == c1.op_seq().len() + 1
            && c2.op_seq().drop_last() == c1.op_seq()),
    ensures
        grows(c1, c2, 1),
        c2.has_shape(out.0),
        c2.shape_of(out.0) == shape,
        !c1.has_shape(out.0),
{
    lemma_fresh(c1, c2, out, shape);
    let k = c1.op_seq().len() as int;
    if c2.op_seq() == c1.op_seq() {
        assert(c2.op_seq().subrange(0, k) =~= c1.op_seq());
    } else {
        assert(c2.op_seq().subrange(0, k) =~= c2.op_seq().drop_last());
    }
}

/// A step that appends one operation producing one fresh variable grows the graph.
pub proof fn lemma_op_step(c1: Context, c2: Context, out: Var, shape: Seq<u32>, op: Op)
    requires
        op_appended(c1, c2, out, shape, op),
        c1.ids_ok(),
        c1.id_counter() < u64::MAX,
    ensures
        grows(c1, c2, 1),
        c2.has_shape(out.0),
        c2.shape_of(out.0) == shape,
        !c1.has_shape(out.0),
        c2.op_seq().last() == op,
{
    assert(c2.op_seq().drop_last() =~= c1.op_seq());
    lemma_step(c1, c2, out, shape);
}

/// The number of entries of a matrix of shape `shape`.
pub fn matrix_count(shape: &Vec<u32>) -> (r: u64)
    requires
        shape@.len() == 2,
    ensures
        r == prod(shape@),
{
    proof {
        crate::dims::lemma_prod_small(shape@[0], shape@[1], 0, 0, 0, 0);
        assert(shape@ =~= seq![shape@[0], shape@[1]]);
        assert(shape@[0] * shape@[1] <= u32::MAX * u32::MAX) by (nonlinear_arith)
            requires
                shape@[0] <= u32::MAX,
                shape@[1] <= u32::MAX,
        ;
    }
    (shape[0] as u64) * (shape[1] as u64)
}

/// Views `v` as `shape`.
pub fn view_as(ctx: &mut Context, v: Var, shape: Vec<u32>) -> (r: Result<Var>)
    requires
        old(ctx).ids_ok(),
        room(*old(ctx), 1),
        old(ctx).has_shape(v.0),
        prefix_prods_fit(old(ctx).shape_of(v.0)),
        prefix_prods_fit(shape@),
    ensures
        match r {
            Ok(out) => {
                &&& prod(old(ctx).shape_of(v.0)) == prod(shape@)
                &&& grows(*old(ctx), *final(ctx), 1)
                &&& !old(ctx).has_shape(out.0)
                &&& final(ctx).has_shape(out.0)
                &&& final(ctx).shape_of(out.0) == shape@
            },
            Err(e) => {
                &&& prod(old(ctx).shape_of(v.0)) != prod(shape@)
                &&& *final(ctx) == *old(ctx)
                &&& e matches VolticError::IncompatibleShapes { lhs, rhs, op }
                &&& lhs@ == old(ctx).shape_of(v.0)
                &&& rhs@ == shape@
                &&& op == "reshape: element count mismatch"
            },
        },
{
    let ghost sv = shape@;
    let r = v.reshape(ctx, shape);
    proof {
        if let Ok(out) = r {
            lemma_step(*old(ctx), *ctx, out, sv);
        }
    }
    r
}

} // verus!
