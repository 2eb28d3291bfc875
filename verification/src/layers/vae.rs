//! Variational autoencoder: a strided convolutional encoder to a mean and
//! a log-variance, and a decoder from a latent sample back to an image.
use vstd::prelude::*;

use crate::context::Context;
use crate::dims::{lemma_prod_small, prefix_prods_fit, prod};
use crate::errors::{Result, VolticError};
use crate::hybrid::{linear_init, linear_params, linear_steps};
use crate::layers::autoencoder::{
    conv_init, conv_pair, conv_params, conv_steps, conv_then, pair_fits, pair_matches,
};
use crate::layers::conv2d::Conv2d;
use crate::layers::linear::{dense_fits, dense_shape, fresh_linear};
use crate::layers::upsample::{scaled_shape, spread_shape, Upsample};
use crate::layers::{grows, lemma_grows_refl, lemma_grows_trans, room, view_as, InitStep, Linear};
use crate::var::Var;

verus! {

/// Four stride-2 convolutions and two linear heads.
pub struct VaeEncoder {
    pub conv1: Conv2d,
    pub conv2: Conv2d,
    pub conv3: Conv2d,
    pub conv4: Conv2d,
    pub fc_mu: Linear,
    pub fc_log_var: Linear,
    pub latent_dim: u32,
}

impl VaeEncoder {
    /// The layers are well formed in `c`.
    pub open spec fn wf(&self, c: Context) -> bool {
        &&& self.conv1.wf(c)
        &&& self.conv2.wf(c)
        &&& self.conv3.wf(c)
        &&& self.conv4.wf(c)
        &&& self.fc_mu.wf(c)
        &&& self.fc_log_var.wf(c)
    }

    /// The shape after the first two convolutions.
    pub open spec fn mid_shape(&self, s: Seq<u32>) -> Seq<u32> {
        self.conv2.out_shape(self.conv1.out_shape(s))
    }

    /// The shape after all four convolutions.
    pub open spec fn features_shape(&self, s: Seq<u32>) -> Seq<u32> {
        self.conv4.out_shape(self.conv3.out_shape(self.mid_shape(s)))
    }

    /// The features flattened per sample: `[b, c * h * w]`.
    pub open spec fn flat_shape(&self, s: Seq<u32>) -> Seq<u32> {
        let f = self.features_shape(s);
        seq![f[0], (f[1] * f[2] * f[3]) as u32]
    }

    /// Every layer takes what reaches it from input shape `s`.
    pub open spec fn matches_input(&self, c: Context, s: Seq<u32>) -> bool {
        &&& pair_matches(self.conv1, self.conv2, c, s)
        &&& pair_matches(self.conv3, self.conv4, c, self.mid_shape(s))
        &&& self.fc_mu.matches_input(c, self.flat_shape(s))
        &&& self.fc_log_var.matches_input(c, self.flat_shape(s))
    }

    /// The arithmetic of a forward pass on input shape `s` stays in `u32`.
    pub open spec fn fits(&self, s: Seq<u32>) -> bool {
        &&& pair_fits(self.conv1, self.conv2, s)
        &&& s.len() == 4 ==> {
            let f = self.features_shape(s);
            &&& pair_fits(self.conv3, self.conv4, self.mid_shape(s))
            &&& prefix_prods_fit(seq![f[1], f[2], f[3]])
            &&& prefix_prods_fit(self.flat_shape(s))
            &&& dense_fits(self.flat_shape(s), self.fc_mu.out_features)
            &&& dense_fits(self.flat_shape(s), self.fc_log_var.out_features)
        }
    }

    /// What a forward pass on `x` returns, from encoder `l` and graph `c`.
    pub open spec fn forward_result(l: VaeEncoder, c: Context, c2: Context, x: Var, r: Result<(Var, Var)>) -> bool {
        let s = c.shape_of(x.0);
        let fl = l.flat_shape(s);
        match r {
            Ok((mu, log_var)) => {
                &&& c.has_shape(x.0)
                &&& s.len() == 4
                &&& l.matches_input(c, s)
                &&& !c.has_shape(mu.0)
                &&& !c.has_shape(log_var.0)
                &&& c2.has_shape(mu.0)
                &&& c2.has_shape(log_var.0)
                &&& c2.shape_of(mu.0) == seq![fl[0], l.fc_mu.out_features]
                &&& c2.shape_of(log_var.0) == seq![fl[0], l.fc_log_var.out_features]
            },
            Err(e) => if !c.has_shape(x.0) {
                e is EmptyShape && c2 == c
            } else if s.len() != 4 {
                e matches VolticError::InvalidDimension { dim, ndim } && dim == s.len() && ndim == 4 && c2 == c
            } else {
                &&& !l.matches_input(c, s)
                &&& e matches VolticError::IncompatibleShapes { op, .. }
                &&& op == "mat_mul: K mismatch"
            },
        }
    }

    /// Convolutions to 32, 64, 128 and 256 channels and heads of width
    /// `latent_dim`.
    pub fn new(latent_dim: u32, image_channels: u32) -> (r: Self)
        ensures
            r.conv1 == Conv2d::fresh(32, 3, 2, 1),
            r.conv2 == Conv2d::fresh(64, 3, 2, 1),
            r.conv3 == Conv2d::fresh(128, 3, 2, 1),
            r.conv4 == Conv2d::fresh(256, 3, 2, 1),
            r.fc_mu == fresh_linear(latent_dim),
            r.fc_log_var == fresh_linear(latent_dim),
            r.latent_dim == latent_dim,
    {
        VaeEncoder {
            conv1: Conv2d::new(32, 3).stride(2).padding(1),
            conv2: Conv2d::new(64, 3).stride(2).padding(1),
            conv3: Conv2d::new(128, 3).stride(2).padding(1),
            conv4: Conv2d::new(256, 3).stride(2).padding(1),
            fc_mu: Linear::new(latent_dim),
            fc_log_var: Linear::new(latent_dim),
            latent_dim,
        }
    }

    /// The mean and log-variance of `x` (`[b, c, h, w]`).
    #[verifier::rlimit(60)]
    pub fn forward(&mut self, ctx: &mut Context, x: &Var) -> (r: Result<(Var, Var)>)
        requires
            old(ctx).ids_ok(),
            room(*old(ctx), 41),
            old(self).wf(*old(ctx)),
            old(ctx).has_shape(x.0) ==> old(self).fits(old(ctx).shape_of(x.0)),
        ensures
            grows(*old(ctx), *final(ctx), 41),
            final(self).wf(*final(ctx)),
            final(self).same_layout(*old(self)),
            r is Ok ==> final(self).conv1.ready() && final(self).conv2.ready() && final(self).conv3.ready()
                && final(self).conv4.ready() && final(self).fc_mu.ready() && final(self).fc_log_var.ready(),
            VaeEncoder::forward_result(*old(self), *old(ctx), *final(ctx), *x, r),
    {
        let ghost c0 = *ctx;
        let ghost l0 = *self;
        let h = match conv_pair(&mut self.conv1, &mut self.conv2, ctx, *x, false) {
            Ok(v) => v,
            Err(e) => {
                proof {
                    l0.conv3.lemma_extends(c0, *ctx);
                    l0.conv4.lemma_extends(c0, *ctx);
                    l0.fc_mu.lemma_extends(c0, *ctx);
                    l0.fc_log_var.lemma_extends(c0, *ctx);
                }
                return Err(e);
            },
        };
        let ghost c1 = *ctx;
        let ghost s = c0.shape_of(x.0);
        proof {
            l0.conv3.lemma_extends(c0, c1);
            l0.conv4.lemma_extends(c0, c1);
            l0.fc_mu.lemma_extends(c0, c1);
            l0.fc_log_var.lemma_extends(c0, c1);
        }
        let f = match conv_pair(&mut self.conv3, &mut self.conv4, ctx, h, false) {
            Ok(v) => v,
            Err(e) => {
                proof {
                    lemma_grows_trans(c0, c1, *ctx, 16, 16);
                    self.conv1.lemma_extends(c1, *ctx);
                    self.conv2.lemma_extends(c1, *ctx);
                    l0.fc_mu.lemma_extends(c1, *ctx);
                    l0.fc_log_var.lemma_extends(c1, *ctx);
                }
                return Err(e);
            },
        };
        let ghost c2 = *ctx;
        let ghost fs = l0.features_shape(s);
        proof {
            lemma_grows_trans(c0, c1, c2, 16, 16);
            self.conv1.lemma_extends(c1, c2);
            self.conv2.lemma_extends(c1, c2);
            l0.fc_mu.lemma_extends(c1, c2);
            l0.fc_log_var.lemma_extends(c1, c2);
        }
        let shape = f.shape(ctx);
        proof {
            assert(shape@ == fs);
            let t3 = seq![shape[1], shape[2], shape[3]];
            assert(t3.take(2) =~= seq![shape[1], shape[2]]);
            assert(t3.take(3) =~= t3);
            assert(prod(t3.take(2)) <= u32::MAX);
            assert(prod(t3.take(3)) <= u32::MAX);
            lemma_prod_small(shape[1], shape[2], shape[3], 1, 1, 1);
        }
        let batch = shape[0];
        let feat_size = shape[1] * shape[2] * shape[3];
        proof {
            lemma_prod_small(batch, shape[1], shape[2], shape[3], 1, 1);
            lemma_prod_small(batch, feat_size, 1, 1, 1, 1);
            assert(batch * shape[1] * shape[2] * shape[3] == batch * (shape[1] * shape[2] * shape[3]))
                by (nonlinear_arith);
            assert(shape@ =~= seq![batch, shape[1], shape[2], shape[3]]);
        }
        let x_flat = match view_as(ctx, f, vec![batch, feat_size]) {
            Ok(v) => v,
            Err(e) => {
                assert(false);
                return Err(e);
            },
        };
        let ghost c3 = *ctx;
        proof {
            lemma_grows_trans(c0, c2, c3, 32, 1);
            self.conv1.lemma_extends(c2, c3);
            self.conv2.lemma_extends(c2, c3);
            self.conv3.lemma_extends(c2, c3);
            self.conv4.lemma_extends(c2, c3);
            l0.fc_mu.lemma_extends(c2, c3);
            l0.fc_log_var.lemma_extends(c2, c3);
            l0.fc_mu.lemma_extends(c0, c3);
            l0.fc_log_var.lemma_extends(c0, c3);
        }
        let mu = match self.fc_mu.forward(ctx, &x_flat) {
            Ok(v) => v,
            Err(e) => {
                proof {
                    lemma_grows_trans(c0, c3, *ctx, 33, 4);
                    self.conv1.lemma_extends(c3, *ctx);
                    self.conv2.lemma_extends(c3, *ctx);
                    self.conv3.lemma_extends(c3, *ctx);
                    self.conv4.lemma_extends(c3, *ctx);
                    l0.fc_log_var.lemma_extends(c3, *ctx);
                }
                return Err(e);
            },
        };
        let ghost c4 = *ctx;
        proof {
            lemma_grows_trans(c0, c3, c4, 33, 4);
            self.conv1.lemma_extends(c3, c4);
            self.conv2.lemma_extends(c3, c4);
            self.conv3.lemma_extends(c3, c4);
            self.conv4.lemma_extends(c3, c4);
            l0.fc_log_var.lemma_extends(c3, c4);
        }
        let log_var = match self.fc_log_var.forward(ctx, &x_flat) {
            Ok(v) => v,
            Err(e) => {
                proof {
                    lemma_grows_trans(c0, c4, *ctx, 37, 4);
                    self.conv1.lemma_extends(c4, *ctx);
                    self.conv2.lemma_extends(c4, *ctx);
                    self.conv3.lemma_extends(c4, *ctx);
                    self.conv4.lemma_extends(c4, *ctx);
                    self.fc_mu.lemma_extends(c4, *ctx);
                }
                return Err(e);
            },
        };
        proof {
            lemma_grows_trans(c0, c4, *ctx, 37, 4);
            self.conv1.lemma_extends(c4, *ctx);
            self.conv2.lemma_extends(c4, *ctx);
            self.conv3.lemma_extends(c4, *ctx);
            self.conv4.lemma_extends(c4, *ctx);
            self.fc_mu.lemma_extends(c4, *ctx);
            let fl = l0.flat_shape(s);
            assert(dense_shape(fl, l0.fc_mu.out_features) =~= seq![fl[0], l0.fc_mu.out_features]);
            assert(dense_shape(fl, l0.fc_log_var.out_features) =~= seq![fl[0], l0.fc_log_var.out_features]);
        }
        Ok((mu, log_var))
    }

    /// The sizes of the layers agree (their variables may not).
    pub open spec fn same_layout(&self, other: VaeEncoder) -> bool {
        &&& self.conv1.same_layout(other.conv1)
        &&& self.conv2.same_layout(other.conv2)
        &&& self.conv3.same_layout(other.conv3)
        &&& self.conv4.same_layout(other.conv4)
        &&& self.fc_mu.out_features == other.fc_mu.out_features
        &&& self.fc_log_var.out_features == other.fc_log_var.out_features
        &&& self.latent_dim == other.latent_dim
    }

    /// The init steps of the convolutions, then of the two heads.
    pub open spec fn steps(c: Context, l: VaeEncoder) -> Seq<InitStep> {
        conv_steps(c, l.conv1) + conv_steps(c, l.conv2) + conv_steps(c, l.conv3) + conv_steps(c, l.conv4)
            + linear_steps(c, l.fc_mu) + linear_steps(c, l.fc_log_var)
    }

    /// The variables of the convolutions, then of the two heads.
    pub open spec fn params(l: VaeEncoder) -> Seq<Var> {
        conv_params(l.conv1) + conv_params(l.conv2) + conv_params(l.conv3) + conv_params(l.conv4)
            + linear_params(l.fc_mu) + linear_params(l.fc_log_var)
    }

    /// The init steps of the convolutions, then of the two heads.
    pub fn init(&self, ctx: &Context) -> (r: Vec<InitStep>)
        requires
            self.wf(*ctx),
        ensures
            r@ == VaeEncoder::steps(*ctx, *self),
    {
        let mut steps = conv_init(&self.conv1, ctx);
        let mut more = conv_init(&self.conv2, ctx);
        steps.append(&mut more);
        let mut more = conv_init(&self.conv3, ctx);
        steps.append(&mut more);
        let mut more = conv_init(&self.conv4, ctx);
        steps.append(&mut more);
        let mut more = linear_init(&self.fc_mu, ctx);
        steps.append(&mut more);
        let mut more = linear_init(&self.fc_log_var, ctx);
        steps.append(&mut more);
        steps
    }

    /// The variables of the convolutions, then of the two heads.
    pub fn parameters(&self) -> (r: Vec<Var>)
        ensures
            r@ == VaeEncoder::params(*self),
    {
        let mut p = self.conv1.parameters();
        let mut more = self.conv2.parameters();
        p.append(&mut more);
        let mut more = self.conv3.parameters();
        p.append(&mut more);
        let mut more = self.conv4.parameters();
        p.append(&mut more);
        let mut more = self.fc_mu.parameters();
        p.append(&mut more);
        let mut more = self.fc_log_var.parameters();
        p.append(&mut more);
        p
    }
}

/// The shape after an activated convolution and a 2x upsampling.
pub open spec fn up_shape(conv: Conv2d, s: Seq<u32>) -> Seq<u32> {
    scaled_shape(conv.out_shape(s), 2)
}

/// The convolution takes `s` and the upsampling keeps the element count.
pub open spec fn up_ok(conv: Conv2d, c: Context, s: Seq<u32>) -> bool {
    conv.matches_input(c, s) && prod(conv.out_shape(s)) == prod(up_shape(conv, s))
}

/// The error of a convolution and upsampling on `s` that is not `up_ok`.
pub open spec fn up_error(conv: Conv2d, c: Context, s: Seq<u32>, e: VolticError) -> bool {
    if !conv.matches_input(c, s) {
        e matches VolticError::IncompatibleShapes { op, .. } && op == "mat_mul: K mismatch"
    } else {
        &&& e matches VolticError::IncompatibleShapes { lhs, rhs, op }
        &&& lhs@ == spread_shape(conv.out_shape(s))
        &&& rhs@ == up_shape(conv, s)
        &&& op == "reshape: element count mismatch"
    }
}

/// The arithmetic of a convolution and upsampling on `s` stays in `u32`.
pub open spec fn up_fits(conv: Conv2d, s: Seq<u32>) -> bool {
    conv.fits(s) && (Upsample { scale_factor: 2 }).fits(conv.out_shape(s))
}

/// An activated (GELU) convolution followed by a 2x upsampling.
fn conv_up(conv: &mut Conv2d, ctx: &mut Context, x: Var) -> (r: Result<Var>)
    requires
        old(ctx).ids_ok(),
        room(*old(ctx), 10),
        old(conv).wf(*old(ctx)),
        old(ctx).has_shape(x.0),
        old(ctx).shape_of(x.0).len() == 4,
        up_fits(*old(conv), old(ctx).shape_of(x.0)),
    ensures
        grows(*old(ctx), *final(ctx), 10),
        final(conv).wf(*final(ctx)),
        final(conv).same_layout(*old(conv)),
        ({
            let s = old(ctx).shape_of(x.0);
            match r {
                Ok(out) => {
                    &&& up_ok(*old(conv), *old(ctx), s)
                    &&& !old(ctx).has_shape(out.0)
                    &&& final(ctx).has_shape(out.0)
                    &&& final(ctx).shape_of(out.0) == up_shape(*old(conv), s)
                },
                Err(e) => !up_ok(*old(conv), *old(ctx), s) && up_error(*old(conv), *old(ctx), s, e),
            }
        }),
{
    let ghost c0 = *ctx;
    let h = match conv_then(conv, ctx, x, false) {
        Ok(v) => v,
        Err(e) => return Err(e),
    };
    let ghost c1 = *ctx;
    let up = Upsample::new(2);
    let r = up.forward(ctx, &h);
    proof {
        lemma_grows_trans(c0, c1, *ctx, 8, 2);
        conv.lemma_extends(c1, *ctx);
    }
    r
}

/// A linear layer to `256 x 4 x 4` features and four convolutions with 2x
/// upsampling between them.
pub struct VaeDecoder {
    pub fc: Linear,
    pub conv1: Conv2d,
    pub conv2: Conv2d,
    pub conv3: Conv2d,
    pub conv4: Conv2d,
    pub image_channels: u32,
    pub output_shape: Option<Vec<u32>>,
}

impl VaeDecoder {
    /// The layers are well formed in `c`.
    pub open spec fn wf(&self, c: Context) -> bool {
        &&& self.fc.wf(c)
        &&& self.conv1.wf(c)
        &&& self.conv2.wf(c)
        &&& self.conv3.wf(c)
        &&& self.conv4.wf(c)
    }

    /// `[b, 256, 4, 4]` for a latent of shape `[b, ..]`.
    pub open spec fn grid_shape(zs: Seq<u32>) -> Seq<u32> {
        seq![zs[0], 256, 4, 4]
    }

    /// The shapes entering the second, third and fourth convolutions.
    pub open spec fn s1(&self, zs: Seq<u32>) -> Seq<u32> {
        up_shape(self.conv1, VaeDecoder::grid_shape(zs))
    }

    pub open spec fn s2(&self, zs: Seq<u32>) -> Seq<u32> {
        up_shape(self.conv2, self.s1(zs))
    }

    pub open spec fn s3(&self, zs: Seq<u32>) -> Seq<u32> {
        up_shape(self.conv3, self.s2(zs))
    }

    /// The arithmetic of a forward pass on latent shape `zs` stays in `u32`.
    pub open spec fn fits(&self, zs: Seq<u32>) -> bool {
        &&& dense_fits(zs, self.fc.out_features)
        &&& zs.len() >= 2 ==> {
            &&& prefix_prods_fit(dense_shape(zs, self.fc.out_features))
            &&& prefix_prods_fit(VaeDecoder::grid_shape(zs))
            &&& up_fits(self.conv1, VaeDecoder::grid_shape(zs))
            &&& up_fits(self.conv2, self.s1(zs))
            &&& up_fits(self.conv3, self.s2(zs))
            &&& self.conv4.fits(self.s3(zs))
        }
    }

    /// A forward pass on a latent of shape `zs` succeeds in graph `c`.
    pub open spec fn ok_on(l: VaeDecoder, c: Context, zs: Seq<u32>) -> bool {
        let g = VaeDecoder::grid_shape(zs);
        &&& zs.len() >= 2
        &&& l.fc.matches_input(c, zs)
        &&& prod(dense_shape(zs, l.fc.out_features)) == prod(g)
        &&& up_ok(l.conv1, c, g)
        &&& up_ok(l.conv2, c, l.s1(zs))
        &&& up_ok(l.conv3, c, l.s2(zs))
        &&& l.conv4.matches_input(c, l.s3(zs))
    }

    /// The error of a forward pass on a latent of shape `zs` that is not
    /// `ok_on`.
    pub open spec fn error_on(l: VaeDecoder, c: Context, zs: Seq<u32>, e: VolticError) -> bool {
        let fo = dense_shape(zs, l.fc.out_features);
        let g = VaeDecoder::grid_shape(zs);
        if zs.len() < 2 {
            e matches VolticError::InvalidDimension { dim, ndim } && dim == zs.len() && ndim == 2
        } else if !l.fc.matches_input(c, zs) {
            e matches VolticError::IncompatibleShapes { op, .. } && op == "mat_mul: K mismatch"
        } else if prod(fo) != prod(g) {
            &&& e matches VolticError::IncompatibleShapes { lhs, rhs, op }
            &&& lhs@ == fo
            &&& rhs@ == g
            &&& op == "reshape: element count mismatch"
        } else if !up_ok(l.conv1, c, g) {
            up_error(l.conv1, c, g, e)
        } else if !up_ok(l.conv2, c, l.s1(zs)) {
            up_error(l.conv2, c, l.s1(zs), e)
        } else if !up_ok(l.conv3, c, l.s2(zs)) {
            up_error(l.conv3, c, l.s2(zs), e)
        } else {
            e matches VolticError::IncompatibleShapes { op, .. } && op == "mat_mul: K mismatch"
        }
    }

    /// A graph that keeps the shapes of `c1` keeps the decoder well formed
    /// and its outcomes as they were.
    pub proof fn lemma_extends(&self, c1: Context, c2: Context)
        requires
            self.wf(c1),
            crate::layers::shapes_extend(c1, c2),
        ensures
            self.wf(c2),
            forall|zs: Seq<u32>| VaeDecoder::ok_on(*self, c2, zs) == #[trigger] VaeDecoder::ok_on(*self, c1, zs),
            forall|zs: Seq<u32>, e: VolticError|
                VaeDecoder::error_on(*self, c2, zs, e) == #[trigger] VaeDecoder::error_on(*self, c1, zs, e),
    {
        self.fc.lemma_extends(c1, c2);
        self.conv1.lemma_extends(c1, c2);
        self.conv2.lemma_extends(c1, c2);
        self.conv3.lemma_extends(c1, c2);
        self.conv4.lemma_extends(c1, c2);
    }

    /// What a forward pass on `z` returns, from decoder `l` and graph `c`.
    pub open spec fn forward_result(l: VaeDecoder, c: Context, c2: Context, z: Var, r: Result<Var>) -> bool {
        let zs = c.shape_of(z.0);
        match r {
            Ok(out) => {
                &&& c.has_shape(z.0)
                &&& VaeDecoder::ok_on(l, c, zs)
                &&& !c.has_shape(out.0)
                &&& c2.has_shape(out.0)
                &&& c2.shape_of(out.0) == l.conv4.out_shape(l.s3(zs))
            },
            Err(e) => if !c.has_shape(z.0) {
                e is EmptyShape && c2 == c
            } else {
                !VaeDecoder::ok_on(l, c, zs) && VaeDecoder::error_on(l, c, zs, e)
            },
        }
    }

    /// A decoder to `image_channels` channels; `output_shape` records the
    /// intended image shape.
    pub fn new(latent_dim: u32, image_channels: u32, output_shape: Vec<u32>) -> (r: Self)
        ensures
            r.fc == fresh_linear(4096),
            r.conv1 == Conv2d::fresh(128, 3, 1, 1),
            r.conv2 == Conv2d::fresh(64, 3, 1, 1),
            r.conv3 == Conv2d::fresh(32, 3, 1, 1),
            r.conv4 == Conv2d::fresh(image_channels, 3, 1, 1),
            r.image_channels == image_channels,
            r.output_shape matches Some(v) && v@ == output_shape@,
    {
        VaeDecoder {
            fc: Linear::new(256 * 4 * 4),
            conv1: Conv2d::new(128, 3).padding(1),
            conv2: Conv2d::new(64, 3).padding(1),
            conv3: Conv2d::new(32, 3).padding(1),
            conv4: Conv2d::new(image_channels, 3).padding(1),
            image_channels,
            output_shape: Some(output_shape),
        }
    }

    /// Projects `z` (`[b, latent]`) to `[b, 256, 4, 4]` and runs the
    /// convolutions, upsampling after each of the first three; GELU after
    /// the first three, the sigmoid after the last.
    #[verifier::rlimit(80)]
    pub fn forward(&mut self, ctx: &mut Context, z: &Var) -> (r: Result<Var>)
        requires
            old(ctx).ids_ok(),
            room(*old(ctx), 43),
            old(self).wf(*old(ctx)),
            old(ctx).has_shape(z.0) ==> old(self).fits(old(ctx).shape_of(z.0)),
        ensures
            grows(*old(ctx), *final(ctx), 43),
            final(self).wf(*final(ctx)),
            final(self).same_layout(*old(self)),
            VaeDecoder::forward_result(*old(self), *old(ctx), *final(ctx), *z, r),
    {
        let ghost c0 = *ctx;
        let ghost l0 = *self;
        proof {
            lemma_grows_refl(c0);
        }
        let z_shape = match ctx.shape(z.0) {
            Some(s) => s,
            None => return Err(VolticError::EmptyShape),
        };
        let ghost zs = z_shape@;
        let batch = z_shape[0];
        let x = match self.fc.forward(ctx, z) {
            Ok(v) => v,
            Err(e) => {
                proof {
                    l0.conv1.lemma_extends(c0, *ctx);
                    l0.conv2.lemma_extends(c0, *ctx);
                    l0.conv3.lemma_extends(c0, *ctx);
                    l0.conv4.lemma_extends(c0, *ctx);
                }
                return Err(e);
            },
        };
        let ghost c1 = *ctx;
        let ghost g = VaeDecoder::grid_shape(zs);
        proof {
            l0.conv1.lemma_extends(c0, c1);
            l0.conv2.lemma_extends(c0, c1);
            l0.conv3.lemma_extends(c0, c1);
            l0.conv4.lemma_extends(c0, c1);
        }
        let grid: Vec<u32> = vec![batch, 256, 4, 4];
        assert(grid@ =~= g);
        let x = match view_as(ctx, x, grid) {
            Ok(v) => v,
            Err(e) => return Err(e),
        };
        let ghost c2 = *ctx;
        proof {
            lemma_grows_trans(c0, c1, c2, 4, 1);
            self.fc.lemma_extends(c1, c2);
            l0.conv1.lemma_extends(c1, c2);
            l0.conv2.lemma_extends(c1, c2);
            l0.conv3.lemma_extends(c1, c2);
            l0.conv4.lemma_extends(c1, c2);
        }
        let x = match conv_up(&mut self.conv1, ctx, x) {
            Ok(v) => v,
            Err(e) => {
                proof {
                    lemma_grows_trans(c0, c2, *ctx, 5, 10);
                    self.fc.lemma_extends(c2, *ctx);
                    l0.conv2.lemma_extends(c2, *ctx);
                    l0.conv3.lemma_extends(c2, *ctx);
                    l0.conv4.lemma_extends(c2, *ctx);
                }
                return Err(e);
            },
        };
        let ghost c3 = *ctx;
        proof {
            lemma_grows_trans(c0, c2, c3, 5, 10);
            self.fc.lemma_extends(c2, c3);
            l0.conv2.lemma_extends(c2, c3);
            l0.conv3.lemma_extends(c2, c3);
            l0.conv4.lemma_extends(c2, c3);
        }
        let x = match conv_up(&mut self.conv2, ctx, x) {
            Ok(v) => v,
            Err(e) => {
                proof {
                    lemma_grows_trans(c0, c3, *ctx, 15, 10);
                    self.fc.lemma_extends(c3, *ctx);
                    self.conv1.lemma_extends(c3, *ctx);
                    l0.conv3.lemma_extends(c3, *ctx);
                    l0.conv4.lemma_extends(c3, *ctx);
                }
                return Err(e);
            },
        };
        let ghost c4 = *ctx;
        proof {
            lemma_grows_trans(c0, c3, c4, 15, 10);
            self.fc.lemma_extends(c3, c4);
            self.conv1.lemma_extends(c3, c4);
            l0.conv3.lemma_extends(c3, c4);
            l0.conv4.lemma_extends(c3, c4);
        }
        let x = match conv_up(&mut self.conv3, ctx, x) {
            Ok(v) => v,
            Err(e) => {
                proof {
                    lemma_grows_trans(c0, c4, *ctx, 25, 10);
                    self.fc.lemma_extends(c4, *ctx);
                    self.conv1.lemma_extends(c4, *ctx);
                    self.conv2.lemma_extends(c4, *ctx);
                    l0.conv4.lemma_extends(c4, *ctx);
                }
                return Err(e);
            },
        };
        let ghost c5 = *ctx;
        proof {
            lemma_grows_trans(c0, c4, c5, 25, 10);
            self.fc.lemma_extends(c4, c5);
            self.conv1.lemma_extends(c4, c5);
            self.conv2.lemma_extends(c4, c5);
            l0.conv4.lemma_extends(c4, c5);
        }
        let r = conv_then(&mut self.conv4, ctx, x, true);
        proof {
            lemma_grows_trans(c0, c5, *ctx, 35, 8);
            self.fc.lemma_extends(c5, *ctx);
            self.conv1.lemma_extends(c5, *ctx);
            self.conv2.lemma_extends(c5, *ctx);
            self.conv3.lemma_extends(c5, *ctx);
        }
        r
    }

    /// The sizes of the layers agree (their variables may not).
    pub open spec fn same_layout(&self, other: VaeDecoder) -> bool {
        &&& self.fc.out_features == other.fc.out_features
        &&& self.conv1.same_layout(other.conv1)
        &&& self.conv2.same_layout(other.conv2)
        &&& self.conv3.same_layout(other.conv3)
        &&& self.conv4.same_layout(other.conv4)
        &&& self.image_channels == other.image_channels
    }

    /// The init steps of the linear layer, then of the convolutions.
    pub open spec fn steps(c: Context, l: VaeDecoder) -> Seq<InitStep> {
        linear_steps(c, l.fc) + conv_steps(c, l.conv1) + conv_steps(c, l.conv2) + conv_steps(c, l.conv3)
            + conv_steps(c, l.conv4)
    }

    /// The variables of the linear layer, then of the convolutions.
    pub open spec fn params(l: VaeDecoder) -> Seq<Var> {
        linear_params(l.fc) + conv_params(l.conv1) + conv_params(l.conv2) + conv_params(l.conv3)
            + conv_params(l.conv4)
    }

    /// The init steps of the linear layer, then of the convolutions.
    pub fn init(&self, ctx: &Context) -> (r: Vec<InitStep>)
        requires
            self.wf(*ctx),
        ensures
            r@ == VaeDecoder::steps(*ctx, *self),
    {
        let mut steps = linear_init(&self.fc, ctx);
        let mut more = conv_init(&self.conv1, ctx);
        steps.append(&mut more);
        let mut more = conv_init(&self.conv2, ctx);
        steps.append(&mut more);
        let mut more = conv_init(&self.conv3, ctx);
        steps.append(&mut more);
        let mut more = conv_init(&self.conv4, ctx);
        steps.append(&mut more);
        steps
    }

    /// The variables of the linear layer, then of the convolutions.
    pub fn parameters(&self) -> (r: Vec<Var>)
        ensures
            r@ == VaeDecoder::params(*self),
    {
        let mut p = self.fc.parameters();
        let mut more = self.conv1.parameters();
        p.append(&mut more);
        let mut more = self.conv2.parameters();
        p.append(&mut more);
        let mut more = self.conv3.parameters();
        p.append(&mut more);
        let mut more = self.conv4.parameters();
        p.append(&mut more);
        p
    }
}

/// An encoder, a decoder, and the `[1]`-shaped variable (created on the
/// first forward pass and kept in `std_scale`) that halves the
/// log-variance before it is exponentiated.
pub struct Vae {
    pub encoder: VaeEncoder,
    pub decoder: VaeDecoder,
    pub latent_dim: u32,
    pub std_scale: Option<Var>,
}

impl Vae {
    /// The encoder and the decoder are well formed in `c`.
    pub open spec fn wf(&self, c: Context) -> bool {
        self.encoder.wf(c) && self.decoder.wf(c)
    }

    /// `[b, width of the mean]`, the shape of the latent sample for input
    /// shape `s`.
    pub open spec fn latent_shape(&self, s: Seq<u32>) -> Seq<u32> {
        seq![s[0], self.encoder.fc_mu.out_features]
    }

    /// The shapes of a forward pass on `x` fit in `u32`, and the sampling
    /// step's element-wise products (which would panic otherwise) get
    /// broadcastable shapes.
    pub open spec fn accepts(&self, c: Context, x: Var) -> bool {
        c.has_shape(x.0) ==> {
            let s = c.shape_of(x.0);
            let (l1, l2, ld) = (
                self.encoder.fc_mu.out_features,
                self.encoder.fc_log_var.out_features,
                self.latent_dim,
            );
            &&& s.len() >= 1
            &&& self.encoder.fits(s)
            &&& s.len() == 4 && self.encoder.matches_input(c, s) ==> {
                &&& crate::ops::broadcast_shape::compatible(l2, ld)
                &&& crate::ops::broadcast_shape::compatible(l1, l2)
                &&& prefix_prods_fit(seq![s[0], l2])
                &&& crate::dims::strides_fit(seq![s[0], l1])
                &&& crate::dims::strides_fit(seq![s[0], l2])
                &&& crate::dims::strides_fit(seq![s[0], ld])
                &&& prefix_prods_fit(seq![s[0], l1])
                &&& self.decoder.fits(self.latent_shape(s))
            }
        }
    }

    /// An encoder to `latent_dim` and a decoder to `image_channels`
    /// channels of `image_height x image_width` images.
    pub fn new(latent_dim: u32, image_channels: u32, image_height: u32, image_width: u32) -> (r: Self)
        ensures
            r.encoder.conv1 == Conv2d::fresh(32, 3, 2, 1),
            r.encoder.conv2 == Conv2d::fresh(64, 3, 2, 1),
            r.encoder.conv3 == Conv2d::fresh(128, 3, 2, 1),
            r.encoder.conv4 == Conv2d::fresh(256, 3, 2, 1),
            r.encoder.fc_mu == fresh_linear(latent_dim),
            r.encoder.fc_log_var == fresh_linear(latent_dim),
            r.encoder.latent_dim == latent_dim,
            r.decoder.fc == fresh_linear(4096),
            r.decoder.conv1 == Conv2d::fresh(128, 3, 1, 1),
            r.decoder.conv2 == Conv2d::fresh(64, 3, 1, 1),
            r.decoder.conv3 == Conv2d::fresh(32, 3, 1, 1),
            r.decoder.conv4 == Conv2d::fresh(image_channels, 3, 1, 1),
            r.decoder.image_channels == image_channels,
            r.decoder.output_shape matches Some(v) && v@ == seq![image_channels, image_height, image_width],
            r.latent_dim == latent_dim,
            r.std_scale is None,
    {
        let shape: Vec<u32> = vec![image_channels, image_height, image_width];
        Vae {
            encoder: VaeEncoder::new(latent_dim, image_channels),
            decoder: VaeDecoder::new(latent_dim, image_channels, shape),
            latent_dim,
            std_scale: None,
        }
    }

    /// Encodes `x` to a mean and a log-variance, draws the latent
    /// `mu + exp(log_var * scale) * epsilon` with a fresh `[b, latent_dim]`
    /// variable `epsilon`, and decodes it; returns the reconstruction, the
    /// mean and the log-variance.
    #[verifier::rlimit(80)]
    pub fn forward(&mut self, ctx: &mut Context, x: &Var) -> (r: Result<(Var, Var, Var)>)
        requires
            old(ctx).ids_ok(),
            room(*old(ctx), 90),
            old(self).wf(*old(ctx)),
            old(self).accepts(*old(ctx), *x),
        ensures
            grows(*old(ctx), *final(ctx), 90),
            final(self).wf(*final(ctx)),
            final(self).latent_dim == old(self).latent_dim,
            final(self).encoder.same_layout(old(self).encoder),
            final(self).decoder.same_layout(old(self).decoder),
            r is Ok ==> (final(self).std_scale matches Some(v) && final(ctx).has_shape(v.0)
                && final(ctx).shape_of(v.0) == seq![1u32]),
            ({
                let l = *old(self);
                let c = *old(ctx);
                let s = c.shape_of(x.0);
                let zs = l.latent_shape(s);
                match r {
                    Ok((rec, mu, log_var)) => {
                        &&& c.has_shape(x.0)
                        &&& s.len() == 4
                        &&& l.encoder.matches_input(c, s)
                        &&& VaeDecoder::ok_on(l.decoder, c, zs)
                        &&& !c.has_shape(rec.0) && !c.has_shape(mu.0) && !c.has_shape(log_var.0)
                        &&& final(ctx).shape_of(mu.0) == zs
                        &&& final(ctx).shape_of(log_var.0) == seq![s[0], l.encoder.fc_log_var.out_features]
                        &&& final(ctx).has_shape(rec.0)
                        &&& final(ctx).shape_of(rec.0) == l.decoder.conv4.out_shape(l.decoder.s3(zs))
                    },
                    Err(e) => if !c.has_shape(x.0) {
                        e is EmptyShape && *final(ctx) == c
                    } else if s.len() != 4 {
                        &&& e matches VolticError::InvalidDimension { dim, ndim }
                        &&& dim == s.len()
                        &&& ndim == 4
                        &&& *final(ctx) == c
                    } else if !l.encoder.matches_input(c, s) {
                        e matches VolticError::IncompatibleShapes { op, .. } && op == "mat_mul: K mismatch"
                    } else {
                        !VaeDecoder::ok_on(l.decoder, c, zs) && VaeDecoder::error_on(l.decoder, c, zs, e)
                    },
                }
            }),
    {
        let ghost c0 = *ctx;
        let ghost l0 = *self;
        proof {
            lemma_grows_refl(c0);
        }
        let x_shape = match ctx.shape(x.0) {
            Some(s) => s,
            None => return Err(VolticError::EmptyShape),
        };
        let ghost s = x_shape@;
        let batch = x_shape[0];
        let (mu, log_var) = match self.encoder.forward(ctx, x) {
            Ok(p) => p,
            Err(e) => {
                proof {
                    l0.decoder.lemma_extends(c0, *ctx);
                }
                return Err(e);
            },
        };
        let ghost c1 = *ctx;
        let ghost (l1, l2, ld) = (
            l0.encoder.fc_mu.out_features,
            l0.encoder.fc_log_var.out_features,
            l0.latent_dim,
        );
        proof {
            l0.decoder.lemma_extends(c0, c1);
            assert(l0.encoder.flat_shape(s)[0] == batch);
        }
        let half = Var::scalar_slot(ctx);
        self.std_scale = Some(half);
        let ghost c2 = *ctx;
        proof {
            crate::layers::lemma_op_step(c1, c2, half, seq![1u32], c2.op_seq().last());
            lemma_grows_trans(c0, c1, c2, 41, 1);
            crate::var::lemma_prod_single(1);
            assert(crate::dims::strides_fit(seq![1u32])) by {
                assert forall|j: int| 1 <= j <= 1 implies #[trigger] prod(seq![1u32].subrange(j, 1)) <= u32::MAX by {
                    assert(seq![1u32].subrange(1, 1) =~= Seq::<u32>::empty());
                }
            }
            let lv = seq![batch, l2];
            assert(crate::ops::broadcast_shape::greedy_align(lv, seq![1u32]) is Some) by {
                assert(seq![1u32].drop_last() =~= Seq::<u32>::empty());
                assert(crate::ops::broadcast_shape::greedy_align(lv.drop_last(), Seq::<u32>::empty()) is Some);
            }
        }
        let std = log_var.mul(ctx, half);
        let ghost c3 = *ctx;
        proof {
            crate::layers::lemma_step(c2, c3, std, seq![batch, l2]);
            lemma_grows_trans(c0, c2, c3, 42, 1);
        }
        let std_exp = match std.exp(ctx) {
            Ok(v) => v,
            Err(e) => {
                assert(false);
                return Err(e);
            },
        };
        let ghost c4 = *ctx;
        proof {
            crate::layers::lemma_op_step(c3, c4, std_exp, seq![batch, l2], c4.op_seq().last());
            lemma_grows_trans(c0, c3, c4, 43, 1);
        }
        let eps_shape: Vec<u32> = vec![batch, self.latent_dim];
        let ghost es = eps_shape@;
        let epsilon = Var::with_shape(ctx, eps_shape);
        let ghost c5 = *ctx;
        proof {
            crate::layers::lemma_step(c4, c5, epsilon, es);
            lemma_grows_trans(c0, c4, c5, 44, 1);
            assert(es =~= seq![batch, ld]);
            assert(crate::ops::broadcast_shape::greedy_align(seq![batch, l2], seq![batch, ld]) is Some) by {
                let a = seq![batch, l2];
                let b = seq![batch, ld];
                assert(a.drop_last() =~= seq![batch]);
                assert(b.drop_last() =~= seq![batch]);
                assert(seq![batch].drop_last() =~= Seq::<u32>::empty());
                assert(crate::ops::broadcast_shape::greedy_align(Seq::<u32>::empty(), Seq::<u32>::empty()) is Some);
                assert(crate::ops::broadcast_shape::greedy_align(seq![batch], seq![batch]) is Some);
            }
            assert(crate::ops::broadcast_shape::greedy_align(seq![batch, l1], seq![batch, l2]) is Some) by {
                let a = seq![batch, l1];
                let b = seq![batch, l2];
                assert(a.drop_last() =~= seq![batch]);
                assert(b.drop_last() =~= seq![batch]);
                assert(seq![batch].drop_last() =~= Seq::<u32>::empty());
                assert(crate::ops::broadcast_shape::greedy_align(Seq::<u32>::empty(), Seq::<u32>::empty()) is Some);
                assert(crate::ops::broadcast_shape::greedy_align(seq![batch], seq![batch]) is Some);
            }
        }
        let noise = std_exp.mul(ctx, epsilon);
        let ghost c6 = *ctx;
        proof {
            crate::layers::lemma_step(c5, c6, noise, seq![batch, l2]);
            lemma_grows_trans(c0, c5, c6, 45, 1);
        }
        let z = mu.add(ctx, noise);
        let ghost c7 = *ctx;
        let ghost zs = l0.latent_shape(s);
        proof {
            crate::layers::lemma_step(c6, c7, z, seq![batch, l1]);
            lemma_grows_trans(c0, c6, c7, 46, 1);
            assert(zs =~= seq![batch, l1]);
            l0.decoder.lemma_extends(c1, c7);
            self.encoder.conv1.lemma_extends(c1, c7);
            self.encoder.conv2.lemma_extends(c1, c7);
            self.encoder.conv3.lemma_extends(c1, c7);
            self.encoder.conv4.lemma_extends(c1, c7);
            self.encoder.fc_mu.lemma_extends(c1, c7);
            self.encoder.fc_log_var.lemma_extends(c1, c7);
        }
        let reconstructed = match self.decoder.forward(ctx, &z) {
            Ok(v) => v,
            Err(e) => {
                proof {
                    lemma_grows_trans(c0, c7, *ctx, 47, 43);
                }
                return Err(e);
            },
        };
        proof {
            lemma_grows_trans(c0, c7, *ctx, 47, 43);
            self.encoder.conv1.lemma_extends(c7, *ctx);
            self.encoder.conv2.lemma_extends(c7, *ctx);
            self.encoder.conv3.lemma_extends(c7, *ctx);
            self.encoder.conv4.lemma_extends(c7, *ctx);
            self.encoder.fc_mu.lemma_extends(c7, *ctx);
            self.encoder.fc_log_var.lemma_extends(c7, *ctx);
        }
        Ok((reconstructed, mu, log_var))
    }

    /// The init steps of the encoder, then of the decoder.
    pub fn init(&self, ctx: &Context) -> (r: Vec<InitStep>)
        requires
            self.wf(*ctx),
        ensures
            r@ == VaeEncoder::steps(*ctx, self.encoder) + VaeDecoder::steps(*ctx, self.decoder),
    {
        let mut steps = self.encoder.init(ctx);
        let mut more = self.decoder.init(ctx);
        steps.append(&mut more);
        steps
    }

    /// The variables of the encoder, then of the decoder.
    pub fn parameters(&self) -> (r: Vec<Var>)
        ensures
            r@ == VaeEncoder::params(self.encoder) + VaeDecoder::params(self.decoder),
    {
        let mut p = self.encoder.parameters();
        let mut more = self.decoder.parameters();
        p.append(&mut more);
        p
    }
}

} // verus!
