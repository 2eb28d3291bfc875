//! What each operation of the graph reads, writes and launches: its input
//! and output variables, its pipelines, its training buffers and the
//! workgroup counts of its kernels.
use vstd::prelude::*;

use crate::buffer_kind::{GRAD, LHS_STAGE, PARTIAL, PARTIAL_SUM, RHS_STAGE, X_NORM};
use crate::context::Context;
use crate::dims::{prefix_prods_fit, prod, shape_product};
use crate::errors::Result;
use crate::ops::broadcast_shape::slice_to_vec;
use crate::ops::im2col::{conv_out, conv_out_ok, conv_output_size};
use crate::ops::op::Op;
use crate::var::ID;

verus! {

/// One compute-kernel launch: the pipeline it runs and its workgroup counts.
#[derive(Copy, Clone, Debug)]
pub struct Dispatch {
    pub key: &'static str,
    pub x: u32,
    pub y: u32,
    pub z: u32,
}

/// A training buffer of `len` values belonging to variable `id`.
pub type BufferNeed = (ID, &'static str, u32);

pub open spec fn launch(key: &'static str, x: int, y: int, z: int) -> Dispatch {
    Dispatch { key, x: x as u32, y: y as u32, z: z as u32 }
}

/// The number of workgroups of 256 threads that cover `n` threads.
pub open spec fn groups256(n: int) -> int {
    (n + 255) / 256
}

/// `groups256(n)` workgroups of 256 threads give every one of `n` elements
/// a thread, and one group fewer would not.
pub proof fn law_groups_cover(n: int)
    requires
        n >= 0,
    ensures
        256 * groups256(n) >= n,
        n > 0 ==> 256 * (groups256(n) - 1) < n,
        n == 0 ==> groups256(n) == 0,
{
    let q = (n + 255) / 256;
    let r = (n + 255) % 256;
    assert(n + 255 == 256 * q + r && 0 <= r < 256) by (nonlinear_arith)
        requires
            q == (n + 255) / 256,
            r == (n + 255) % 256,
            n >= 0,
    ;
}

/// `a * b` and `a * b * c`, computed left to right, fit in `u32`.
pub open spec fn fits3(a: int, b: int, c: int) -> bool {
    a * b <= u32::MAX && a * b * c <= u32::MAX
}

/// `ceil(n / 256)` without overflow.
pub fn div_ceil_256(n: u32) -> (r: u32)
    ensures
        r == groups256(n as int),
{
    let q = n / 256;
    let rem = n % 256;
    assert(groups256(n as int) == q + (if rem == 0 { 0int } else { 1int })) by (nonlinear_arith)
        requires
            n == 256 * q + rem,
            0 <= rem < 256,
    ;
    if rem == 0 {
        q
    } else {
        q + 1
    }
}

/// The variables an op reads and differentiates.
pub open spec fn op_inputs(op: Op) -> Seq<ID> {
    match op {
        Op::MatMul(p) => seq![p.lhs, p.rhs],
        Op::Mse(p) => seq![p.y_pred, p.y_true],
        Op::Tanh(p) => seq![p.input],
        Op::ReLU(p) => seq![p.input],
        Op::Sigmoid(p) => seq![p.input],
        Op::Gelu(p) => seq![p.input],
        Op::Exp(p) => seq![p.input],
        Op::Softmax(p) => seq![p.input],
        Op::Permute(p) => seq![p.input],
        Op::Reshape(p) => seq![p.input],
        Op::GroupMul(p) => seq![p.input],
        Op::GroupSum(p) => seq![p.input],
        Op::GroupMax(p) => seq![p.input],
        Op::Add(p) => seq![p.lhs, p.rhs],
        Op::Sub(p) => seq![p.lhs, p.rhs],
        Op::Mul(p) => seq![p.lhs, p.rhs],
        Op::Div(p) => seq![p.lhs, p.rhs],
        Op::Constant(_) => Seq::empty(),
        Op::Embedding(p) => seq![p.weights],
        Op::Im2Col(p) => seq![p.input],
        Op::LayerNorm(_) => Seq::empty(),
    }
}

/// The variables an op writes.
pub open spec fn op_outputs(op: Op) -> Seq<ID> {
    match op {
        Op::MatMul(p) => seq![p.output],
        Op::Mse(p) => seq![p.output],
        Op::Tanh(p) => seq![p.output],
        Op::ReLU(p) => seq![p.output],
        Op::Sigmoid(p) => seq![p.output],
        Op::Gelu(p) => seq![p.output],
        Op::Exp(p) => seq![p.output],
        Op::Softmax(p) => seq![p.output],
        Op::Permute(p) => seq![p.output],
        Op::Reshape(p) => seq![p.output],
        Op::GroupMul(p) => seq![p.output],
        Op::GroupSum(p) => seq![p.output],
        Op::GroupMax(p) => seq![p.output],
        Op::Add(p) => seq![p.output],
        Op::Sub(p) => seq![p.output],
        Op::Mul(p) => seq![p.output],
        Op::Div(p) => seq![p.output],
        Op::Constant(p) => seq![p.id],
        Op::Embedding(p) => seq![p.output],
        Op::Im2Col(p) => seq![p.output],
        Op::LayerNorm(p) => seq![p.output],
    }
}

/// The pipelines an op uses, forward and backward.
pub open spec fn op_pipeline_keys(op: Op) -> Seq<&'static str> {
    match op {
        Op::MatMul(_) => seq!["matmul", "matmul_backward_input", "matmul_backward_weights"],
        Op::Mse(_) => seq!["mse", "mse_backward"],
        Op::Tanh(_) => seq!["tanh", "tanh_backward"],
        Op::ReLU(_) => seq!["relu", "relu_backward"],
        Op::Sigmoid(_) => seq!["sigmoid", "sigmoid_backward"],
        Op::Gelu(_) => seq!["gelu", "gelu_backward"],
        Op::Exp(_) => seq!["exp", "exp_backward"],
        Op::Softmax(_) => seq!["softmax_pass1", "softmax_pass2", "softmax_backward"],
        Op::Permute(_) => seq!["permute", "permute_backward"],
        Op::Reshape(_) => Seq::empty(),
        Op::GroupMul(_) => seq!["group_mul"],
        Op::GroupSum(_) => seq!["group_sum"],
        Op::GroupMax(_) => seq!["group_max"],
        Op::Add(_) => seq!["binary_add", "binary_add_backward", "reduce_sum_pass1", "reduce_sum_pass2"],
        Op::Sub(_) => seq!["binary_sub", "binary_sub_backward", "reduce_sum_pass1", "reduce_sum_pass2"],
        Op::Mul(_) => seq!["binary_mul", "binary_mul_backward", "reduce_sum_pass1", "reduce_sum_pass2"],
        Op::Div(_) => seq!["binary_div", "binary_div_backward", "reduce_sum_pass1", "reduce_sum_pass2"],
        Op::Constant(_) => Seq::empty(),
        Op::Embedding(_) => seq!["embedding", "embedding_backward"],
        Op::Im2Col(_) => seq!["im2col", "col2im"],
        Op::LayerNorm(_) => seq!["layer_norm_pass1", "layer_norm_pass2", "layer_norm_backward"],
    }
}

/// The ops whose output shape is their (first) input's shape.
pub open spec fn keeps_input_shape(op: Op) -> bool {
    match op {
        Op::Tanh(_) | Op::ReLU(_) | Op::Sigmoid(_) | Op::Gelu(_) | Op::Exp(_) | Op::Softmax(_)
        | Op::LayerNorm(_) => true,
        _ => false,
    }
}

/// The arithmetic of `infer_shape` stays in `u32`.
pub open spec fn infer_fits(op: Op) -> bool {
    match op {
        Op::GroupMul(p) => p.group_size != 0,
        Op::GroupSum(p) => p.group_size != 0,
        Op::GroupMax(p) => p.group_size != 0,
        Op::Im2Col(p) => {
            let oh = conv_out(p.height, p.kernel_size, p.stride, p.padding);
            let ow = conv_out(p.width, p.kernel_size, p.stride, p.padding);
            &&& conv_out_ok(p.height, p.kernel_size, p.stride, p.padding)
            &&& conv_out_ok(p.width, p.kernel_size, p.stride, p.padding)
            &&& fits3(p.batch as int, oh, ow)
            &&& fits3(p.kernel_size as int, p.kernel_size as int, p.channels as int)
        },
        _ => true,
    }
}

/// The output shape an op declares, given the shapes of its inputs.
pub open spec fn inferred_shape(op: Op, input_shapes: Seq<Seq<u32>>) -> Seq<u32> {
    match op {
        Op::MatMul(p) => if p.batch == 1 {
            seq![p.m, p.n]
        } else {
            seq![p.batch, p.m, p.n]
        },
        Op::Mse(p) => seq![p.n],
        Op::Permute(p) => p.out_shape@,
        Op::Reshape(p) => p.new_shape@,
        Op::GroupMul(p) => seq![(p.n / p.group_size) as u32],
        Op::GroupSum(p) => seq![(p.n / p.group_size) as u32],
        Op::GroupMax(p) => seq![(p.n / p.group_size) as u32],
        Op::Add(p) => p.bs.out_shape@,
        Op::Sub(p) => p.bs.out_shape@,
        Op::Mul(p) => p.bs.out_shape@,
        Op::Div(p) => p.bs.out_shape@,
        Op::Constant(_) => seq![1u32],
        Op::Embedding(p) => seq![p.seq_len, p.d_model],
        Op::Im2Col(p) => {
            let oh = conv_out(p.height, p.kernel_size, p.stride, p.padding);
            let ow = conv_out(p.width, p.kernel_size, p.stride, p.padding);
            seq![
                (p.batch * oh * ow) as u32,
                (p.kernel_size * p.kernel_size * p.channels) as u32,
            ]
        },
        _ => input_shapes[0],
    }
}

/// The training buffers of an op's inputs and output.
pub open spec fn buffers_of(op: Op, c: Context) -> Seq<BufferNeed> {
    match op {
        Op::MatMul(p) => seq![
            (p.lhs, GRAD, (p.batch * p.m * p.k) as u32),
            (p.rhs, GRAD, (if p.rhs_batched == 1 { p.batch * p.k * p.n } else { p.k * p.n }) as u32),
            (p.output, GRAD, (p.batch * p.m * p.n) as u32),
        ],
        Op::Mse(p) => seq![(p.y_pred, GRAD, prod(c.shape_of(p.y_pred)) as u32)],
        Op::Tanh(p) => unary_buffers(p.input, p.output, c),
        Op::ReLU(p) => unary_buffers(p.input, p.output, c),
        Op::Sigmoid(p) => unary_buffers(p.input, p.output, c),
        Op::Gelu(p) => unary_buffers(p.input, p.output, c),
        Op::Exp(p) => unary_buffers(p.input, p.output, c),
        Op::Softmax(p) => {
            let n_partials = (p.outer * p.inner * (p.reduce + 255) / 256) as u32;
            seq![
                (p.input, GRAD, (p.outer * p.reduce * p.inner) as u32),
                (p.output, PARTIAL, n_partials),
                (p.output, PARTIAL_SUM, n_partials),
            ]
        },
        Op::Permute(p) => seq![(p.input, GRAD, prod(p.shape@) as u32), (p.output, GRAD, p.total)],
        Op::Reshape(p) => seq![(p.input, GRAD, p.n), (p.output, GRAD, p.n)],
        Op::Add(p) => binary_buffers(p.lhs, p.rhs, p.output, p.bs.total, c),
        Op::Sub(p) => binary_buffers(p.lhs, p.rhs, p.output, p.bs.total, c),
        Op::Mul(p) => binary_buffers(p.lhs, p.rhs, p.output, p.bs.total, c),
        Op::Div(p) => binary_buffers(p.lhs, p.rhs, p.output, p.bs.total, c),
        Op::Embedding(p) => seq![
            (p.weights, GRAD, prod(c.shape_of(p.weights)) as u32),
            (p.output, GRAD, (p.seq_len * p.d_model) as u32),
        ],
        Op::Im2Col(p) => seq![(p.input, GRAD, prod(c.shape_of(p.input)) as u32)],
        Op::LayerNorm(p) => {
            let input_n = prod(c.shape_of(p.input)) as u32;
            let n_partials = (p.outer * p.inner * ((p.reduce + 255) / 256)) as u32;
            seq![
                (p.input, GRAD, input_n),
                (p.gamma, GRAD, prod(c.shape_of(p.gamma)) as u32),
                (p.beta, GRAD, prod(c.shape_of(p.beta)) as u32),
                (p.output, PARTIAL, n_partials),
                (p.output, PARTIAL_SUM, n_partials),
                (p.output, X_NORM, input_n),
                (p.output, GRAD, input_n),
            ]
        },
        _ => Seq::empty(),
    }
}

pub open spec fn unary_buffers(input: ID, output: ID, c: Context) -> Seq<BufferNeed> {
    let n = prod(c.shape_of(input)) as u32;
    seq![(input, GRAD, n), (output, GRAD, n)]
}

pub open spec fn binary_buffers(lhs: ID, rhs: ID, output: ID, total: u32, c: Context) -> Seq<BufferNeed> {
    seq![
        (lhs, GRAD, prod(c.shape_of(lhs)) as u32),
        (rhs, GRAD, prod(c.shape_of(rhs)) as u32),
        (output, GRAD, total),
        (output, LHS_STAGE, total),
        (output, RHS_STAGE, total),
    ]
}

/// `id` has a shape in `c` whose element count fits in `u32`.
pub open spec fn counted(c: Context, id: ID) -> bool {
    c.has_shape(id) && prefix_prods_fit(c.shape_of(id))
}

/// The shapes `buffers_needed` reads exist and its arithmetic stays in `u32`.
pub open spec fn buffers_fit(op: Op, c: Context) -> bool {
    match op {
        Op::MatMul(p) => {
            &&& fits3(p.batch as int, p.m as int, p.k as int)
            &&& fits3(p.batch as int, p.m as int, p.n as int)
            &&& if p.rhs_batched == 1 {
                fits3(p.batch as int, p.k as int, p.n as int)
            } else {
                p.k * p.n <= u32::MAX
            }
        },
        Op::Mse(p) => counted(c, p.y_pred),
        Op::Tanh(p) => counted(c, p.input),
        Op::ReLU(p) => counted(c, p.input),
        Op::Sigmoid(p) => counted(c, p.input),
        Op::Gelu(p) => counted(c, p.input),
        Op::Exp(p) => counted(c, p.input),
        Op::Softmax(p) => {
            &&& p.reduce + 255 <= u32::MAX
            &&& fits3(p.outer as int, p.inner as int, p.reduce + 255)
            &&& fits3(p.outer as int, p.reduce as int, p.inner as int)
        },
        Op::Permute(p) => prefix_prods_fit(p.shape@),
        Op::Add(p) => counted(c, p.lhs) && counted(c, p.rhs),
        Op::Sub(p) => counted(c, p.lhs) && counted(c, p.rhs),
        Op::Mul(p) => counted(c, p.lhs) && counted(c, p.rhs),
        Op::Div(p) => counted(c, p.lhs) && counted(c, p.rhs),
        Op::Embedding(p) => counted(c, p.weights) && p.seq_len * p.d_model <= u32::MAX,
        Op::Im2Col(p) => counted(c, p.input),
        Op::LayerNorm(p) => {
            &&& counted(c, p.input)
            &&& counted(c, p.gamma)
            &&& counted(c, p.beta)
            &&& p.reduce + 255 <= u32::MAX
            &&& fits3(p.outer as int, p.inner as int, (p.reduce + 255) / 256)
        },
        _ => true,
    }
}

/// The kernels an op launches in the forward pass, in order.
pub open spec fn forward_launches(op: Op) -> Seq<Dispatch> {
    match op {
        Op::MatMul(p) => seq![launch("matmul", (p.n + 15) / 16, (p.m + 15) / 16, p.batch as int)],
        Op::Mse(p) => seq![launch("mse", groups256(p.n as int), 1, 1)],
        Op::Tanh(p) => seq![launch("tanh", groups256(p.n as int), 1, 1)],
        Op::ReLU(p) => seq![launch("relu", groups256(p.n as int), 1, 1)],
        Op::Sigmoid(p) => seq![launch("sigmoid", groups256(p.n as int), 1, 1)],
        Op::Gelu(p) => seq![launch("gelu", groups256(p.n as int), 1, 1)],
        Op::Exp(p) => seq![launch("exp", groups256(p.n as int), 1, 1)],
        Op::Softmax(p) => seq![
            launch("softmax_pass1", p.outer * p.inner * ((p.reduce + 255) / 256), 1, 1),
            launch("softmax_pass2", groups256(p.outer * p.reduce * p.inner), 1, 1),
        ],
        Op::Permute(p) => seq![launch("permute", groups256(p.total as int), 1, 1)],
        Op::GroupMul(p) => seq![launch("group_mul", groups256((p.n / p.group_size) as int), 1, 1)],
        Op::GroupSum(p) => seq![launch("group_sum", groups256((p.n / p.group_size) as int), 1, 1)],
        Op::GroupMax(p) => seq![launch("group_max", groups256((p.n / p.group_size) as int), 1, 1)],
        Op::Add(p) => seq![launch("binary_add", groups256(p.bs.total as int), 1, 1)],
        Op::Sub(p) => seq![launch("binary_sub", groups256(p.bs.total as int), 1, 1)],
        Op::Mul(p) => seq![launch("binary_mul", groups256(p.bs.total as int), 1, 1)],
        Op::Div(p) => seq![launch("binary_div", groups256(p.bs.total as int), 1, 1)],
        Op::Embedding(p) => seq![launch("embedding", groups256(p.seq_len * p.d_model), 1, 1)],
        Op::Im2Col(p) => seq![
            launch(
                "im2col",
                groups256(
                    p.batch * p.out_height * p.out_width * (p.kernel_size * p.kernel_size * p.channels),
                ),
                1,
                1,
            ),
        ],
        Op::LayerNorm(p) => seq![
            launch("layer_norm_pass1", p.outer * p.inner * ((p.reduce + 255) / 256), 1, 1),
            launch("layer_norm_pass2", groups256(p.outer * p.reduce * p.inner), 1, 1),
        ],
        _ => Seq::empty(),
    }
}

/// The kernels an op launches in the backward pass, in order (the
/// reductions of a broadcast op's gradients come after them).
pub open spec fn backward_launches(op: Op) -> Seq<Dispatch> {
    match op {
        Op::MatMul(p) => seq![
            launch("matmul_backward_input", (p.k + 15) / 16, (p.m + 15) / 16, p.batch as int),
            launch("matmul_backward_weights", (p.n + 15) / 16, (p.k + 15) / 16, p.batch as int),
        ],
        Op::Mse(p) => seq![launch("mse_backward", groups256(p.n as int), 1, 1)],
        Op::Tanh(p) => seq![launch("tanh_backward", groups256(p.n as int), 1, 1)],
        Op::ReLU(p) => seq![launch("relu_backward", groups256(p.n as int), 1, 1)],
        Op::Sigmoid(p) => seq![launch("sigmoid_backward", groups256(p.n as int), 1, 1)],
        Op::Gelu(p) => seq![launch("gelu_backward", groups256(p.n as int), 1, 1)],
        Op::Exp(p) => seq![launch("exp_backward", groups256(p.n as int), 1, 1)],
        Op::Softmax(p) => seq![launch("softmax_backward", groups256(p.outer * p.reduce * p.inner), 1, 1)],
        Op::Permute(p) => seq![launch("permute_backward", groups256(p.total as int), 1, 1)],
        Op::Add(p) => seq![launch("binary_add_backward", groups256(p.bs.total as int), 1, 1)],
        Op::Sub(p) => seq![launch("binary_sub_backward", groups256(p.bs.total as int), 1, 1)],
        Op::Mul(p) => seq![launch("binary_mul_backward", groups256(p.bs.total as int), 1, 1)],
        Op::Div(p) => seq![launch("binary_div_backward", groups256(p.bs.total as int), 1, 1)],
        Op::Embedding(p) => seq![launch("embedding_backward", groups256(p.seq_len * p.d_model), 1, 1)],
        Op::Im2Col(p) => seq![
            launch("col2im", groups256(p.batch * p.channels * p.height * p.width), 1, 1),
        ],
        Op::LayerNorm(p) => seq![
            launch("layer_norm_backward", groups256(p.outer * p.reduce * p.inner), 1, 1),
        ],
        _ => Seq::empty(),
    }
}

/// `a * b * c * d`, computed left to right, fits in `u32` at every step.
pub open spec fn fits4(a: int, b: int, c: int, d: int) -> bool {
    fits3(a, b, c) && a * b * c * d <= u32::MAX
}

/// The workgroup counts of an op are computed without overflow or division
/// by zero.
pub open spec fn launches_fit(op: Op) -> bool {
    match op {
        Op::MatMul(p) => p.n + 15 <= u32::MAX && p.m + 15 <= u32::MAX && p.k + 15 <= u32::MAX,
        Op::Softmax(p) => {
            &&& p.reduce + 255 <= u32::MAX
            &&& fits3(p.outer as int, p.inner as int, (p.reduce + 255) / 256)
            &&& fits3(p.outer as int, p.reduce as int, p.inner as int)
        },
        Op::GroupMul(p) => p.group_size != 0,
        Op::GroupSum(p) => p.group_size != 0,
        Op::GroupMax(p) => p.group_size != 0,
        Op::Embedding(p) => p.seq_len * p.d_model <= u32::MAX,
        Op::Im2Col(p) => {
            &&& fits3(p.kernel_size as int, p.kernel_size as int, p.channels as int)
            &&& fits4(
                p.batch as int,
                p.out_height as int,
                p.out_width as int,
                p.kernel_size * p.kernel_size * p.channels,
            )
            &&& fits4(p.batch as int, p.channels as int, p.height as int, p.width as int)
        },
        Op::LayerNorm(p) => {
            &&& p.reduce + 255 <= u32::MAX
            &&& fits3(p.outer as int, p.inner as int, (p.reduce + 255) / 256)
            &&& fits3(p.outer as int, p.reduce as int, p.inner as int)
        },
        _ => true,
    }
}

fn one(key: &'static str, x: u32, y: u32, z: u32) -> (r: Vec<Dispatch>)
    ensures
        r@ == seq![Dispatch { key, x, y, z }],
{
    let mut v: Vec<Dispatch> = Vec::new();
    v.push(Dispatch { key, x, y, z });
    assert(v@ =~= seq![Dispatch { key, x, y, z }]);
    v
}

fn two(a: Dispatch, b: Dispatch) -> (r: Vec<Dispatch>)
    ensures
        r@ == seq![a, b],
{
    let mut v: Vec<Dispatch> = Vec::new();
    v.push(a);
    v.push(b);
    assert(v@ =~= seq![a, b]);
    v
}

/// The shape of `id`, which must have one.
fn shape_count(c: &Context, id: ID) -> (n: u32)
    requires
        counted(*c, id),
    ensures
        n == prod(c.shape_of(id)),
{
    match c.shape(id) {
        Some(s) => shape_product(s.as_slice()),
        None => 0,
    }
}

impl Op {
    /// The variables the op reads and differentiates.
    pub fn inputs(&self) -> (r: Vec<ID>)
        ensures
            r@ == op_inputs(*self),
    {
        let mut v: Vec<ID> = Vec::new();
        match self {
            Op::MatMul(p) => {
                v.push(p.lhs);
                v.push(p.rhs);
            },
            Op::Mse(p) => {
                v.push(p.y_pred);
                v.push(p.y_true);
            },
            Op::Tanh(p) => v.push(p.input),
            Op::ReLU(p) => v.push(p.input),
            Op::Sigmoid(p) => v.push(p.input),
            Op::Gelu(p) => v.push(p.input),
            Op::Exp(p) => v.push(p.input),
            Op::Softmax(p) => v.push(p.input),
            Op::Permute(p) => v.push(p.input),
            Op::Reshape(p) => v.push(p.input),
            Op::GroupMul(p) => v.push(p.input),
            Op::GroupSum(p) => v.push(p.input),
            Op::GroupMax(p) => v.push(p.input),
            Op::Add(p) => {
                v.push(p.lhs);
                v.push(p.rhs);
            },
            Op::Sub(p) => {
                v.push(p.lhs);
                v.push(p.rhs);
            },
            Op::Mul(p) => {
                v.push(p.lhs);
                v.push(p.rhs);
            },
            Op::Div(p) => {
                v.push(p.lhs);
                v.push(p.rhs);
            },
            Op::Constant(_) => {},
            Op::Embedding(p) => v.push(p.weights),
            Op::Im2Col(p) => v.push(p.input),
            Op::LayerNorm(_) => {},
        }
        assert(v@ =~= op_inputs(*self));
        v
    }

    /// The variables the op writes.
    pub fn outputs(&self) -> (r: Vec<ID>)
        ensures
            r@ == op_outputs(*self),
    {
        let out = match self {
            Op::MatMul(p) => p.output,
            Op::Mse(p) => p.output,
            Op::Tanh(p) => p.output,
            Op::ReLU(p) => p.output,
            Op::Sigmoid(p) => p.output,
            Op::Gelu(p) => p.output,
            Op::Exp(p) => p.output,
            Op::Softmax(p) => p.output,
            Op::Permute(p) => p.output,
            Op::Reshape(p) => p.output,
            Op::GroupMul(p) => p.output,
            Op::GroupSum(p) => p.output,
            Op::GroupMax(p) => p.output,
            Op::Add(p) => p.output,
            Op::Sub(p) => p.output,
            Op::Mul(p) => p.output,
            Op::Div(p) => p.output,
            Op::Constant(p) => p.id,
            Op::Embedding(p) => p.output,
            Op::Im2Col(p) => p.output,
            Op::LayerNorm(p) => p.output,
        };
        let mut v: Vec<ID> = Vec::new();
        v.push(out);
        assert(v@ =~= op_outputs(*self));
        v
    }

    /// The pipelines the op uses, forward and backward.
    pub fn pipeline_keys(&self) -> (r: Vec<&'static str>)
        ensures
            r@ == op_pipeline_keys(*self),
    {
        let v: Vec<&'static str> = match self {
            Op::MatMul(_) => vec!["matmul", "matmul_backward_input", "matmul_backward_weights"],
            Op::Mse(_) => vec!["mse", "mse_backward"],
            Op::Tanh(_) => vec!["tanh", "tanh_backward"],
            Op::ReLU(_) => vec!["relu", "relu_backward"],
            Op::Sigmoid(_) => vec!["sigmoid", "sigmoid_backward"],
            Op::Gelu(_) => vec!["gelu", "gelu_backward"],
            Op::Exp(_) => vec!["exp", "exp_backward"],
            Op::Softmax(_) => vec!["softmax_pass1", "softmax_pass2", "softmax_backward"],
            Op::Permute(_) => vec!["permute", "permute_backward"],
            Op::Reshape(_) => Vec::new(),
            Op::GroupMul(_) => vec!["group_mul"],
            Op::GroupSum(_) => vec!["group_sum"],
            Op::GroupMax(_) => vec!["group_max"],
            Op::Add(_) => vec!["binary_add", "binary_add_backward", "reduce_sum_pass1", "reduce_sum_pass2"],
            Op::Sub(_) => vec!["binary_sub", "binary_sub_backward", "reduce_sum_pass1", "reduce_sum_pass2"],
            Op::Mul(_) => vec!["binary_mul", "binary_mul_backward", "reduce_sum_pass1", "reduce_sum_pass2"],
            Op::Div(_) => vec!["binary_div", "binary_div_backward", "reduce_sum_pass1", "reduce_sum_pass2"],
            Op::Constant(_) => Vec::new(),
            Op::Embedding(_) => vec!["embedding", "embedding_backward"],
            Op::Im2Col(_) => vec!["im2col", "col2im"],
            Op::LayerNorm(_) => vec!["layer_norm_pass1", "layer_norm_pass2", "layer_norm_backward"],
        };
        assert(v@ =~= op_pipeline_keys(*self));
        v
    }

    /// The output shape the op declares; ops that keep their input's shape
    /// read the first of `input_shapes`.
    pub fn infer_shape(&self, input_shapes: &[Vec<u32>]) -> (r: Result<Vec<u32>>)
        requires
            keeps_input_shape(*self) ==> input_shapes@.len() >= 1,
            infer_fits(*self),
        ensures
            r matches Ok(s) && s@ == inferred_shape(*self, input_shapes@.map_values(|v: Vec<u32>| v@)),
    {
        let ghost views = input_shapes@.map_values(|v: Vec<u32>| v@);
        let v: Vec<u32> = match self {
            Op::MatMul(p) => if p.batch == 1 {
                vec![p.m, p.n]
            } else {
                vec![p.batch, p.m, p.n]
            },
            Op::Mse(p) => vec![p.n],
            Op::Permute(p) => slice_to_vec(p.out_shape.as_slice()),
            Op::Reshape(p) => slice_to_vec(p.new_shape.as_slice()),
            Op::GroupMul(p) => vec![p.n / p.group_size],
            Op::GroupSum(p) => vec![p.n / p.group_size],
            Op::GroupMax(p) => vec![p.n / p.group_size],
            Op::Add(p) => slice_to_vec(p.bs.out_shape.as_slice()),
            Op::Sub(p) => slice_to_vec(p.bs.out_shape.as_slice()),
            Op::Mul(p) => slice_to_vec(p.bs.out_shape.as_slice()),
            Op::Div(p) => slice_to_vec(p.bs.out_shape.as_slice()),
            Op::Constant(_) => vec![1],
            Op::Embedding(p) => vec![p.seq_len, p.d_model],
            Op::Im2Col(p) => {
                let oh = conv_output_size(p.height, p.kernel_size, p.stride, p.padding);
                let ow = conv_output_size(p.width, p.kernel_size, p.stride, p.padding);
                vec![p.batch * oh * ow, p.kernel_size * p.kernel_size * p.channels]
            },
            _ => slice_to_vec(input_shapes[0].as_slice()),
        };
        assert(v@ =~= inferred_shape(*self, views));
        Ok(v)
    }

    /// The training buffers of the op's inputs and output: variable, kind
    /// and number of values.
    #[verifier::rlimit(30)]
    pub fn buffers_needed(&self, ctx: &Context) -> (r: Vec<BufferNeed>)
        requires
            buffers_fit(*self, *ctx),
        ensures
            r@ == buffers_of(*self, *ctx),
    {
        let v: Vec<BufferNeed> = match self {
            Op::MatMul(p) => {
                let rhs_n = if p.rhs_batched == 1 {
                    p.batch * p.k * p.n
                } else {
                    p.k * p.n
                };
                vec![(p.lhs, GRAD, p.batch * p.m * p.k), (p.rhs, GRAD, rhs_n), (p.output, GRAD, p.batch * p.m * p.n)]
            },
            Op::Mse(p) => vec![(p.y_pred, GRAD, shape_count(ctx, p.y_pred))],
            Op::Tanh(p) => {
                let n = shape_count(ctx, p.input);
                vec![(p.input, GRAD, n), (p.output, GRAD, n)]
            },
            Op::ReLU(p) => {
                let n = shape_count(ctx, p.input);
                vec![(p.input, GRAD, n), (p.output, GRAD, n)]
            },
            Op::Sigmoid(p) => {
                let n = shape_count(ctx, p.input);
                vec![(p.input, GRAD, n), (p.output, GRAD, n)]
            },
            Op::Gelu(p) => {
                let n = shape_count(ctx, p.input);
                vec![(p.input, GRAD, n), (p.output, GRAD, n)]
            },
            Op::Exp(p) => {
                let n = shape_count(ctx, p.input);
                vec![(p.input, GRAD, n), (p.output, GRAD, n)]
            },
            Op::Softmax(p) => {
                let n_partials = p.outer * p.inner * (p.reduce + 255) / 256;
                let input_n = p.outer * p.reduce * p.inner;
                vec![(p.input, GRAD, input_n), (p.output, PARTIAL, n_partials), (p.output, PARTIAL_SUM, n_partials)]
            },
            Op::Permute(p) => {
                let input_n = shape_product(p.shape.as_slice());
                vec![(p.input, GRAD, input_n), (p.output, GRAD, p.total)]
            },
            Op::Reshape(p) => vec![(p.input, GRAD, p.n), (p.output, GRAD, p.n)],
            Op::Add(p) => binary_buffer_list(ctx, p.lhs, p.rhs, p.output, p.bs.total),
            Op::Sub(p) => binary_buffer_list(ctx, p.lhs, p.rhs, p.output, p.bs.total),
            Op::Mul(p) => binary_buffer_list(ctx, p.lhs, p.rhs, p.output, p.bs.total),
            Op::Div(p) => binary_buffer_list(ctx, p.lhs, p.rhs, p.output, p.bs.total),
            Op::Embedding(p) => {
                let weights_n = shape_count(ctx, p.weights);
                vec![(p.weights, GRAD, weights_n), (p.output, GRAD, p.seq_len * p.d_model)]
            },
            Op::Im2Col(p) => vec![(p.input, GRAD, shape_count(ctx, p.input))],
            Op::LayerNorm(p) => {
                let input_n = shape_count(ctx, p.input);
                let gamma_n = shape_count(ctx, p.gamma);
                let beta_n = shape_count(ctx, p.beta);
                let n_chunks = (p.reduce + 255) / 256;
                let n_partials = p.outer * p.inner * n_chunks;
                vec![
                    (p.input, GRAD, input_n),
                    (p.gamma, GRAD, gamma_n),
                    (p.beta, GRAD, beta_n),
                    (p.output, PARTIAL, n_partials),
                    (p.output, PARTIAL_SUM, n_partials),
                    (p.output, X_NORM, input_n),
                    (p.output, GRAD, input_n),
                ]
            },
            _ => Vec::new(),
        };
        assert(v@ =~= buffers_of(*self, *ctx));
        v
    }

    /// The kernels the op launches in the forward pass, in order.
    #[verifier::rlimit(30)]
    pub fn forward_launches(&self) -> (r: Vec<Dispatch>)
        requires
            launches_fit(*self),
        ensures
            r@ == forward_launches(*self),
    {
        let v = match self {
            Op::MatMul(p) => one("matmul", (p.n + 15) / 16, (p.m + 15) / 16, p.batch),
            Op::Mse(p) => one("mse", div_ceil_256(p.n), 1, 1),
            Op::Tanh(p) => one("tanh", div_ceil_256(p.n), 1, 1),
            Op::ReLU(p) => one("relu", div_ceil_256(p.n), 1, 1),
            Op::Sigmoid(p) => one("sigmoid", div_ceil_256(p.n), 1, 1),
            Op::Gelu(p) => one("gelu", div_ceil_256(p.n), 1, 1),
            Op::Exp(p) => one("exp", div_ceil_256(p.n), 1, 1),
            Op::Softmax(p) => {
                let n_chunks = (p.reduce + 255) / 256;
                two(
                    Dispatch { key: "softmax_pass1", x: p.outer * p.inner * n_chunks, y: 1, z: 1 },
                    Dispatch {
                        key: "softmax_pass2",
                        x: div_ceil_256(p.outer * p.reduce * p.inner),
                        y: 1,
                        z: 1,
                    },
                )
            },
            Op::Permute(p) => one("permute", div_ceil_256(p.total), 1, 1),
            Op::GroupMul(p) => one("group_mul", div_ceil_256(p.n / p.group_size), 1, 1),
            Op::GroupSum(p) => one("group_sum", div_ceil_256(p.n / p.group_size), 1, 1),
            Op::GroupMax(p) => one("group_max", div_ceil_256(p.n / p.group_size), 1, 1),
            Op::Add(p) => one("binary_add", div_ceil_256(p.bs.total), 1, 1),
            Op::Sub(p) => one("binary_sub", div_ceil_256(p.bs.total), 1, 1),
            Op::Mul(p) => one("binary_mul", div_ceil_256(p.bs.total), 1, 1),
            Op::Div(p) => one("binary_div", div_ceil_256(p.bs.total), 1, 1),
            Op::Embedding(p) => one("embedding", div_ceil_256(p.seq_len * p.d_model), 1, 1),
            Op::Im2Col(p) => {
                let col_w = p.kernel_size * p.kernel_size * p.channels;
                one("im2col", div_ceil_256(p.batch * p.out_height * p.out_width * col_w), 1, 1)
            },
            Op::LayerNorm(p) => {
                let n_chunks = (p.reduce + 255) / 256;
                two(
                    Dispatch { key: "layer_norm_pass1", x: p.outer * p.inner * n_chunks, y: 1, z: 1 },
                    Dispatch {
                        key: "layer_norm_pass2",
                        x: div_ceil_256(p.outer * p.reduce * p.inner),
                        y: 1,
                        z: 1,
                    },
                )
            },
            _ => Vec::new(),
        };
        assert(v@ =~= forward_launches(*self));
        v
    }

    /// The kernels the op launches in the backward pass, in order.
    #[verifier::rlimit(30)]
    pub fn backward_launches(&self) -> (r: Vec<Dispatch>)
        requires
            launches_fit(*self),
        ensures
            r@ == backward_launches(*self),
    {
        let v = match self {
            Op::MatMul(p) => two(
                Dispatch { key: "matmul_backward_input", x: (p.k + 15) / 16, y: (p.m + 15) / 16, z: p.batch },
                Dispatch {
                    key: "matmul_backward_weights",
                    x: (p.n + 15) / 16,
                    y: (p.k + 15) / 16,
                    z: p.batch,
                },
            ),
            Op::Mse(p) => one("mse_backward", div_ceil_256(p.n), 1, 1),
            Op::Tanh(p) => one("tanh_backward", div_ceil_256(p.n), 1, 1),
            Op::ReLU(p) => one("relu_backward", div_ceil_256(p.n), 1, 1),
            Op::Sigmoid(p) => one("sigmoid_backward", div_ceil_256(p.n), 1, 1),
            Op::Gelu(p) => one("gelu_backward", div_ceil_256(p.n), 1, 1),
            Op::Exp(p) => one("exp_backward", div_ceil_256(p.n), 1, 1),
            Op::Softmax(p) => one("softmax_backward", div_ceil_256(p.outer * p.reduce * p.inner), 1, 1),
            Op::Permute(p) => one("permute_backward", div_ceil_256(p.total), 1, 1),
            Op::Add(p) => one("binary_add_backward", div_ceil_256(p.bs.total), 1, 1),
            Op::Sub(p) => one("binary_sub_backward", div_ceil_256(p.bs.total), 1, 1),
            Op::Mul(p) => one("binary_mul_backward", div_ceil_256(p.bs.total), 1, 1),
            Op::Div(p) => one("binary_div_backward", div_ceil_256(p.bs.total), 1, 1),
            Op::Embedding(p) => one("embedding_backward", div_ceil_256(p.seq_len * p.d_model), 1, 1),
            Op::Im2Col(p) => one("col2im", div_ceil_256(p.batch * p.channels * p.height * p.width), 1, 1),
            Op::LayerNorm(p) => one(
                "layer_norm_backward",
                div_ceil_256(p.outer * p.reduce * p.inner),
                1,
                1,
            ),
            _ => Vec::new(),
        };
        assert(v@ =~= backward_launches(*self));
        v
    }
}

fn binary_buffer_list(ctx: &Context, lhs: ID, rhs: ID, output: ID, total: u32) -> (r: Vec<BufferNeed>)
    requires
        counted(*ctx, lhs),
        counted(*ctx, rhs),
    ensures
        r@ == binary_buffers(lhs, rhs, output, total, *ctx),
{
    let lhs_n = shape_count(ctx, lhs);
    let rhs_n = shape_count(ctx, rhs);
    let v: Vec<BufferNeed> = vec![
        (lhs, GRAD, lhs_n),
        (rhs, GRAD, rhs_n),
        (output, GRAD, total),
        (output, LHS_STAGE, total),
        (output, RHS_STAGE, total),
    ];
    assert(v@ =~= binary_buffers(lhs, rhs, output, total, *ctx));
    v
}

/// One reduction of a broadcast operand's expanded gradient along `axis`,
/// the current shape viewed as `[outer, reduce, inner]`; partial sums go to
/// `n_partials` slots, the result has `out_size` values, and the `last`
/// reduction writes into the operand's gradient buffer.
#[derive(PartialEq, Eq, Structural, Copy, Clone, Debug)]
pub struct ReduceStep {
    pub axis: usize,
    pub outer: u32,
    pub reduce: u32,
    pub inner: u32,
    pub n_chunks: u32,
    pub n_partials: u32,
    pub out_size: u32,
    pub last: bool,
}

/// The axes whose stride is 0 (the operand was broadcast along them),
/// highest first.
pub open spec fn zero_axes_desc(strides: Seq<u32>) -> Seq<usize>
    decreases strides.len(),
{
    if strides.len() == 0 {
        Seq::empty()
    } else {
        let rest = zero_axes_desc(strides.drop_last());
        if strides.last() == 0 {
            seq![(strides.len() - 1) as usize] + rest
        } else {
            rest
        }
    }
}

/// The reductions along `axes` in order, each removing its axis from the
/// shape.
pub open spec fn reduce_steps(shape: Seq<u32>, axes: Seq<usize>) -> Seq<ReduceStep>
    decreases axes.len(),
{
    if axes.len() == 0 {
        Seq::empty()
    } else {
        let a = axes[0] as int;
        let outer = prod(shape.subrange(0, a));
        let reduce = shape[a];
        let inner = prod(shape.subrange(a + 1, shape.len() as int));
        let n_chunks = groups256(reduce as int);
        seq![
            ReduceStep {
                axis: axes[0],
                outer: outer as u32,
                reduce,
                inner: inner as u32,
                n_chunks: n_chunks as u32,
                n_partials: (outer * inner * n_chunks) as u32,
                out_size: (outer * inner) as u32,
                last: axes.len() == 1,
            },
        ] + reduce_steps(shape.remove(a), axes.drop_first())
    }
}

/// Every reduction along `axes` names an axis of the current shape and its
/// sizes fit in `u32`.
pub open spec fn reduce_fits(shape: Seq<u32>, axes: Seq<usize>) -> bool
    decreases axes.len(),
{
    if axes.len() == 0 {
        true
    } else {
        let a = axes[0] as int;
        &&& a < shape.len()
        &&& prefix_prods_fit(shape.subrange(0, a))
        &&& prefix_prods_fit(shape.subrange(a + 1, shape.len() as int))
        &&& fits3(
            prod(shape.subrange(0, a)),
            prod(shape.subrange(a + 1, shape.len() as int)),
            groups256(shape[a] as int),
        )
        &&& reduce_fits(shape.remove(a), axes.drop_first())
    }
}

/// The axes whose stride is 0, highest first.
fn zero_axes(strides: &[u32]) -> (axes: Vec<usize>)
    ensures
        axes@ == zero_axes_desc(strides@),
{
    let ghost all = zero_axes_desc(strides@);
    let mut axes: Vec<usize> = Vec::new();
    let mut d: usize = strides.len();
    assert(strides@.take(d as int) =~= strides@);
    while d > 0
        invariant
            d <= strides@.len(),
            axes@ + zero_axes_desc(strides@.take(d as int)) == all,
        decreases d,
    {
        let ghost before = strides@.take(d as int);
        d = d - 1;
        assert(before.drop_last() =~= strides@.take(d as int));
        if strides[d] == 0 {
            axes.push(d);
            assert(axes@ + zero_axes_desc(strides@.take(d as int)) =~= all);
        }
    }
    assert(strides@.take(0) =~= Seq::<u32>::empty());
    assert(axes@ =~= all);
    axes
}

/// `reduce_plan` where its sizes fit in `u32` (`reduce_fits`); `None`
/// where they do not.
pub fn reduce_plan_checked(out_shape: &[u32], strides: &[u32]) -> (r: Option<Vec<ReduceStep>>)
    ensures
        r is Some <==> reduce_fits(out_shape@, zero_axes_desc(strides@)),
        r matches Some(v) ==> v@ == reduce_steps(out_shape@, zero_axes_desc(strides@)),
{
    let ghost all = zero_axes_desc(strides@);
    let axes = zero_axes(strides);
    let mut cur: Vec<u32> = slice_to_vec(out_shape);
    let mut steps: Vec<ReduceStep> = Vec::new();
    let mut i: usize = 0;
    assert(axes@.skip(0) =~= axes@);
    while i < axes.len()
        invariant
            i <= axes@.len(),
            axes@ == all,
            all == zero_axes_desc(strides@),
            reduce_fits(out_shape@, all) == reduce_fits(cur@, axes@.skip(i as int)),
            reduce_fits(cur@, axes@.skip(i as int)) ==> steps@ + reduce_steps(cur@, axes@.skip(i as int))
                == reduce_steps(out_shape@, all),
        decreases axes.len() - i,
    {
        let ghost rest = axes@.skip(i as int);
        assert(rest[0] == axes@[i as int]);
        assert(rest.drop_first() =~= axes@.skip(i + 1));
        assert(rest.len() > 0);
        let axis = axes[i];
        let len = cur.len();
        if axis >= len {
            return None;
        }
        let ghost a = axis as int;
        if !crate::dims::range_prods_fit(cur.as_slice(), 0, axis) {
            assert(!prefix_prods_fit(cur@.subrange(0, a)));
            assert(!reduce_fits(cur@, rest));
            return None;
        }
        if !crate::dims::range_prods_fit(cur.as_slice(), axis + 1, len) {
            assert(!prefix_prods_fit(cur@.subrange(a + 1, cur@.len() as int)));
            assert(!reduce_fits(cur@, rest));
            return None;
        }
        let outer = crate::dims::range_product(cur.as_slice(), 0, axis);
        let reduce = cur[axis];
        let inner = crate::dims::range_product(cur.as_slice(), axis + 1, len);
        let n_chunks = div_ceil_256(reduce);
        if !crate::ops::checks::check_fits3(outer, inner, n_chunks as u64) {
            assert(!reduce_fits(cur@, rest));
            return None;
        }
        let ghost cur0 = cur@;
        assert(reduce_fits(cur0, rest) == reduce_fits(cur0.remove(a), rest.drop_first()));
        let step = ReduceStep {
            axis,
            outer,
            reduce,
            inner,
            n_chunks,
            n_partials: outer * inner * n_chunks,
            out_size: outer * inner,
            last: i + 1 == axes.len(),
        };
        steps.push(step);
        cur.remove(axis);
        i = i + 1;
        proof {
            if reduce_fits(cur@, axes@.skip(i as int)) {
                assert(steps@ + reduce_steps(cur@, axes@.skip(i as int)) =~= reduce_steps(out_shape@, all));
            }
        }
    }
    assert(axes@.skip(i as int) =~= Seq::<usize>::empty());
    assert(steps@ =~= reduce_steps(out_shape@, all));
    Some(steps)
}

/// The reductions that bring a broadcast operand's expanded gradient (of
/// shape `out_shape`) back to the operand's shape, given the operand's
/// strides in the output; none when it was not broadcast, in which case the
/// expanded gradient is the gradient.
pub fn reduce_plan(out_shape: &[u32], strides: &[u32]) -> (r: Vec<ReduceStep>)
    requires
        reduce_fits(out_shape@, zero_axes_desc(strides@)),
    ensures
        r@ == reduce_steps(out_shape@, zero_axes_desc(strides@)),
{
    let ghost all = zero_axes_desc(strides@);
    let axes = zero_axes(strides);
    let mut cur: Vec<u32> = slice_to_vec(out_shape);
    let mut steps: Vec<ReduceStep> = Vec::new();
    let mut i: usize = 0;
    assert(axes@.skip(0) =~= axes@);
    while i < axes.len()
        invariant
            i <= axes@.len(),
            axes@ == all,
            reduce_fits(cur@, axes@.skip(i as int)),
            steps@ + reduce_steps(cur@, axes@.skip(i as int)) == reduce_steps(out_shape@, all),
        decreases axes.len() - i,
    {
        let ghost rest = axes@.skip(i as int);
        assert(rest[0] == axes@[i as int]);
        assert(rest.drop_first() =~= axes@.skip(i + 1));
        assert(rest.len() > 0);
        let axis = axes[i];
        let len = cur.len();
        assert(axis < len);
        let outer = crate::dims::range_product(cur.as_slice(), 0, axis);
        let reduce = cur[axis];
        let inner = crate::dims::range_product(cur.as_slice(), axis + 1, len);
        let n_chunks = div_ceil_256(reduce);
        let step = ReduceStep {
            axis,
            outer,
            reduce,
            inner,
            n_chunks,
            n_partials: outer * inner * n_chunks,
            out_size: outer * inner,
            last: i + 1 == axes.len(),
        };
        steps.push(step);
        cur.remove(axis);
        i = i + 1;
        assert(steps@ + reduce_steps(cur@, axes@.skip(i as int)) =~= reduce_steps(out_shape@, all));
    }
    assert(axes@.skip(i as int) =~= Seq::<usize>::empty());
    assert(steps@ =~= reduce_steps(out_shape@, all));
    steps
}

} // verus!
