//! A convolutional autoencoder: two convolutions down to the latent
//! channels, two back up to the image channels.
use vstd::prelude::*;

use crate::context::Context;
use crate::errors::{Result, VolticError};
use crate::layers::conv2d::{filter_steps, Conv2d};
use crate::layers::linear::bias_steps;
use crate::layers::{grows, lemma_grows_trans, lemma_op_step, opt_seq, room, InitStep};
use crate::var::Var;

verus! {

/// The init steps of a convolution: Xavier filters (the second axis is the
/// fan-in), zero bias.
pub open spec fn conv_steps(c: Context, l: Conv2d) -> Seq<InitStep> {
    filter_steps(c, l.weights, 1) + bias_steps(c, l.bias)
}

/// The variables of a convolution, weights first.
pub open spec fn conv_params(l: Conv2d) -> Seq<Var> {
    opt_seq(l.weights) + opt_seq(l.bias)
}

/// Collects the init steps of a well-formed convolution.
pub fn conv_init(l: &Conv2d, ctx: &Context) -> (r: Vec<InitStep>)
    requires
        l.wf(*ctx),
    ensures
        r@ == conv_steps(*ctx, *l),
{
    proof {
        crate::var::lemma_prod_single(l.out_channels);
    }
    match l.init(ctx) {
        Ok(steps) => steps,
        Err(_) => {
            assert(false);
            Vec::new()
        },
    }
}

/// A convolution followed by GELU, or by the logistic sigmoid when
/// `sigmoid` is set.
pub fn conv_then(conv: &mut Conv2d, ctx: &mut Context, x: Var, sigmoid: bool) -> (r: Result<Var>)
    requires
        old(ctx).ids_ok(),
        room(*old(ctx), 8),
        old(conv).wf(*old(ctx)),
        old(ctx).has_shape(x.0) ==> old(conv).fits(old(ctx).shape_of(x.0)),
    ensures
        grows(*old(ctx), *final(ctx), 8),
        final(conv).wf(*final(ctx)),
        final(conv).out_channels == old(conv).out_channels,
        final(conv).kernel_size == old(conv).kernel_size,
        final(conv).stride == old(conv).stride,
        final(conv).padding == old(conv).padding,
        Conv2d::step_result(*old(conv), *old(ctx), *final(ctx), x, r),
        r is Ok ==> final(conv).ready(),
{
    let ghost c0 = *ctx;
    let h = match conv.forward(ctx, &x) {
        Ok(v) => v,
        Err(e) => return Err(e),
    };
    let ghost c1 = *ctx;
    let ghost sh = c1.shape_of(h.0);
    let r = if sigmoid {
        h.sigmoid(ctx)
    } else {
        h.gelu(ctx)
    };
    match r {
        Ok(out) => {
            proof {
                lemma_op_step(c1, *ctx, out, sh, ctx.op_seq().last());
                lemma_grows_trans(c0, c1, *ctx, 7, 1);
                conv.lemma_extends(c1, *ctx);
            }
            Ok(out)
        },
        Err(e) => {
            assert(false);
            Err(e)
        },
    }
}

/// Encoder and decoder convolutions with 3x3 kernels, stride 1 and
/// padding 1.
pub struct SimpleAutoencoder {
    pub encoder_conv1: Conv2d,
    pub encoder_conv2: Conv2d,
    pub decoder_conv1: Conv2d,
    pub decoder_conv2: Conv2d,
    pub latent_channels: u32,
    pub image_channels: u32,
}

/// The result of two activated convolutions `a` then `b` on `x`.
pub open spec fn pair_result(a: Conv2d, b: Conv2d, c: Context, c2: Context, x: Var, r: Result<Var>) -> bool {
    let s = c.shape_of(x.0);
    match r {
        Ok(out) => {
            &&& c.has_shape(x.0)
            &&& s.len() == 4
            &&& pair_matches(a, b, c, s)
            &&& !c.has_shape(out.0)
            &&& c2.has_shape(out.0)
            &&& c2.shape_of(out.0) == b.out_shape(a.out_shape(s))
        },
        Err(e) => if !c.has_shape(x.0) {
            e is EmptyShape && c2 == c
        } else if s.len() != 4 {
            e matches VolticError::InvalidDimension { dim, ndim } && dim == s.len() && ndim == 4 && c2 == c
        } else {
            &&& !pair_matches(a, b, c, s)
            &&& e matches VolticError::IncompatibleShapes { op, .. }
            &&& op == "mat_mul: K mismatch"
        },
    }
}

/// `a` takes input shape `s` and `b` takes `a`'s output.
pub open spec fn pair_matches(a: Conv2d, b: Conv2d, c: Context, s: Seq<u32>) -> bool {
    a.matches_input(c, s) && b.matches_input(c, a.out_shape(s))
}

/// The arithmetic of `a` then `b` on input shape `s` stays in `u32`.
pub open spec fn pair_fits(a: Conv2d, b: Conv2d, s: Seq<u32>) -> bool {
    a.fits(s) && b.fits(a.out_shape(s))
}

/// Runs two activated convolutions, GELU after the first, GELU or the
/// sigmoid after the second.
pub fn conv_pair(a: &mut Conv2d, b: &mut Conv2d, ctx: &mut Context, x: Var, sigmoid: bool) -> (r: Result<Var>)
    requires
        old(ctx).ids_ok(),
        room(*old(ctx), 16),
        old(a).wf(*old(ctx)),
        old(b).wf(*old(ctx)),
        old(ctx).has_shape(x.0) ==> pair_fits(*old(a), *old(b), old(ctx).shape_of(x.0)),
    ensures
        grows(*old(ctx), *final(ctx), 16),
        final(a).wf(*final(ctx)),
        final(b).wf(*final(ctx)),
        final(a).out_channels == old(a).out_channels && final(a).kernel_size == old(a).kernel_size
            && final(a).stride == old(a).stride && final(a).padding == old(a).padding,
        final(b).out_channels == old(b).out_channels && final(b).kernel_size == old(b).kernel_size
            && final(b).stride == old(b).stride && final(b).padding == old(b).padding,
        pair_result(*old(a), *old(b), *old(ctx), *final(ctx), x, r),
        r is Ok ==> final(a).ready() && final(b).ready(),
{
    let ghost c0 = *ctx;
    let ghost b0 = *b;
    let h = match conv_then(a, ctx, x, false) {
        Ok(v) => v,
        Err(e) => {
            proof {
                b0.lemma_extends(c0, *ctx);
            }
            return Err(e);
        },
    };
    let ghost c1 = *ctx;
    proof {
        b0.lemma_extends(c0, c1);
    }
    let r = conv_then(b, ctx, h, sigmoid);
    proof {
        lemma_grows_trans(c0, c1, *ctx, 8, 8);
        a.lemma_extends(c1, *ctx);
    }
    r
}

impl SimpleAutoencoder {
    /// The four convolutions are well formed in `c`.
    pub open spec fn wf(&self, c: Context) -> bool {
        &&& self.encoder_conv1.wf(c)
        &&& self.encoder_conv2.wf(c)
        &&& self.decoder_conv1.wf(c)
        &&& self.decoder_conv2.wf(c)
    }

    /// The shape of the latent code of input shape `s`.
    pub open spec fn latent_shape(&self, s: Seq<u32>) -> Seq<u32> {
        self.encoder_conv2.out_shape(self.encoder_conv1.out_shape(s))
    }

    /// 32 hidden channels around a latent of `latent_channels`.
    pub fn new(latent_channels: u32, image_channels: u32) -> (r: Self)
        ensures
            r.latent_channels == latent_channels,
            r.image_channels == image_channels,
            r.encoder_conv1 == Conv2d::same_3x3(32),
            r.encoder_conv2 == Conv2d::same_3x3(latent_channels),
            r.decoder_conv1 == Conv2d::same_3x3(32),
            r.decoder_conv2 == Conv2d::same_3x3(image_channels),
    {
        SimpleAutoencoder {
            encoder_conv1: Conv2d::new(32, 3).stride(1).padding(1),
            encoder_conv2: Conv2d::new(latent_channels, 3).stride(1).padding(1),
            decoder_conv1: Conv2d::new(32, 3).stride(1).padding(1),
            decoder_conv2: Conv2d::new(image_channels, 3).stride(1).padding(1),
            latent_channels,
            image_channels,
        }
    }

    /// The two encoder convolutions, each followed by GELU.
    pub fn encode(&mut self, ctx: &mut Context, x: &Var) -> (r: Result<Var>)
        requires
            old(ctx).ids_ok(),
            room(*old(ctx), 16),
            old(self).wf(*old(ctx)),
            old(ctx).has_shape(x.0) ==> pair_fits(
                old(self).encoder_conv1,
                old(self).encoder_conv2,
                old(ctx).shape_of(x.0),
            ),
        ensures
            grows(*old(ctx), *final(ctx), 16),
            final(self).wf(*final(ctx)),
            final(self).same_layout(*old(self)),
            final(self).decoder_conv1 == old(self).decoder_conv1,
            final(self).decoder_conv2 == old(self).decoder_conv2,
            pair_result(old(self).encoder_conv1, old(self).encoder_conv2, *old(ctx), *final(ctx), *x, r),
            r is Ok ==> final(self).encoder_conv1.ready() && final(self).encoder_conv2.ready(),
    {
        let ghost c0 = *ctx;
        let ghost l0 = *self;
        let r = conv_pair(&mut self.encoder_conv1, &mut self.encoder_conv2, ctx, *x, false);
        proof {
            l0.decoder_conv1.lemma_extends(c0, *ctx);
            l0.decoder_conv2.lemma_extends(c0, *ctx);
        }
        r
    }

    /// The two decoder convolutions, followed by GELU and the sigmoid.
    pub fn decode(&mut self, ctx: &mut Context, x: &Var) -> (r: Result<Var>)
        requires
            old(ctx).ids_ok(),
            room(*old(ctx), 16),
            old(self).wf(*old(ctx)),
            old(ctx).has_shape(x.0) ==> pair_fits(
                old(self).decoder_conv1,
                old(self).decoder_conv2,
                old(ctx).shape_of(x.0),
            ),
        ensures
            grows(*old(ctx), *final(ctx), 16),
            final(self).wf(*final(ctx)),
            final(self).same_layout(*old(self)),
            final(self).encoder_conv1 == old(self).encoder_conv1,
            final(self).encoder_conv2 == old(self).encoder_conv2,
            pair_result(old(self).decoder_conv1, old(self).decoder_conv2, *old(ctx), *final(ctx), *x, r),
            r is Ok ==> final(self).decoder_conv1.ready() && final(self).decoder_conv2.ready(),
    {
        let ghost c0 = *ctx;
        let ghost l0 = *self;
        let r = conv_pair(&mut self.decoder_conv1, &mut self.decoder_conv2, ctx, *x, true);
        proof {
            l0.encoder_conv1.lemma_extends(c0, *ctx);
            l0.encoder_conv2.lemma_extends(c0, *ctx);
        }
        r
    }

    /// Encodes, then decodes.
    pub fn forward(&mut self, ctx: &mut Context, x: &Var) -> (r: Result<Var>)
        requires
            old(ctx).ids_ok(),
            room(*old(ctx), 32),
            old(self).wf(*old(ctx)),
            old(ctx).has_shape(x.0) ==> {
                let s = old(ctx).shape_of(x.0);
                &&& pair_fits(old(self).encoder_conv1, old(self).encoder_conv2, s)
                &&& s.len() == 4 ==> pair_fits(
                    old(self).decoder_conv1,
                    old(self).decoder_conv2,
                    old(self).latent_shape(s),
                )
            },
        ensures
            grows(*old(ctx), *final(ctx), 32),
            final(self).wf(*final(ctx)),
            final(self).same_layout(*old(self)),
            r is Ok ==> final(self).encoder_conv1.ready() && final(self).encoder_conv2.ready()
                && final(self).decoder_conv1.ready() && final(self).decoder_conv2.ready(),
            ({
                let l = *old(self);
                let c = *old(ctx);
                let s = c.shape_of(x.0);
                match r {
                    Ok(out) => {
                        &&& c.has_shape(x.0)
                        &&& s.len() == 4
                        &&& pair_matches(l.encoder_conv1, l.encoder_conv2, c, s)
                        &&& pair_matches(l.decoder_conv1, l.decoder_conv2, c, l.latent_shape(s))
                        &&& !c.has_shape(out.0)
                        &&& final(ctx).has_shape(out.0)
                        &&& final(ctx).shape_of(out.0) == l.decoder_conv2.out_shape(
                            l.decoder_conv1.out_shape(l.latent_shape(s)),
                        )
                    },
                    Err(e) => if !c.has_shape(x.0) {
                        e is EmptyShape && *final(ctx) == c
                    } else if s.len() != 4 {
                        &&& e matches VolticError::InvalidDimension { dim, ndim }
                        &&& dim == s.len()
                        &&& ndim == 4
                        &&& *final(ctx) == c
                    } else {
                        &&& !(pair_matches(l.encoder_conv1, l.encoder_conv2, c, s) && pair_matches(
                            l.decoder_conv1,
                            l.decoder_conv2,
                            c,
                            l.latent_shape(s),
                        ))
                        &&& e matches VolticError::IncompatibleShapes { op, .. }
                        &&& op == "mat_mul: K mismatch"
                    },
                }
            }),
    {
        let ghost c0 = *ctx;
        let ghost l0 = *self;
        let encoded = match self.encode(ctx, x) {
            Ok(v) => v,
            Err(e) => return Err(e),
        };
        let ghost c1 = *ctx;
        proof {
            l0.decoder_conv1.lemma_extends(c0, c1);
            l0.decoder_conv2.lemma_extends(c0, c1);
        }
        let r = self.decode(ctx, &encoded);
        proof {
            lemma_grows_trans(c0, c1, *ctx, 16, 16);
        }
        r
    }

    /// The convolutions of the four layers have the sizes they had in `other`.
    pub open spec fn same_layout(&self, other: SimpleAutoencoder) -> bool {
        &&& self.latent_channels == other.latent_channels
        &&& self.image_channels == other.image_channels
        &&& self.encoder_conv1.same_layout(other.encoder_conv1)
        &&& self.encoder_conv2.same_layout(other.encoder_conv2)
        &&& self.decoder_conv1.same_layout(other.decoder_conv1)
        &&& self.decoder_conv2.same_layout(other.decoder_conv2)
    }

    /// The init steps of the four convolutions, encoder first.
    pub fn init(&self, ctx: &Context) -> (r: Vec<InitStep>)
        requires
            self.wf(*ctx),
        ensures
            r@ == conv_steps(*ctx, self.encoder_conv1) + conv_steps(*ctx, self.encoder_conv2)
                + conv_steps(*ctx, self.decoder_conv1) + conv_steps(*ctx, self.decoder_conv2),
    {
        let mut steps = conv_init(&self.encoder_conv1, ctx);
        let mut more = conv_init(&self.encoder_conv2, ctx);
        steps.append(&mut more);
        let mut more = conv_init(&self.decoder_conv1, ctx);
        steps.append(&mut more);
        let mut more = conv_init(&self.decoder_conv2, ctx);
        steps.append(&mut more);
        steps
    }

    /// The variables of the four convolutions, encoder first.
    pub fn parameters(&self) -> (r: Vec<Var>)
        ensures
            r@ == conv_params(self.encoder_conv1) + conv_params(self.encoder_conv2) + conv_params(
                self.decoder_conv1,
            ) + conv_params(self.decoder_conv2),
    {
        let mut p = self.encoder_conv1.parameters();
        let mut more = self.encoder_conv2.parameters();
        p.append(&mut more);
        let mut more = self.decoder_conv1.parameters();
        p.append(&mut more);
        let mut more = self.decoder_conv2.parameters();
        p.append(&mut more);
        p
    }
}

} // verus!
