//! Which buffer each kernel of an operation binds, slot by slot.
use vstd::prelude::*;

use crate::buffer_kind::{GRAD, LHS_STAGE, PARTIAL, PARTIAL_SUM, RHS_STAGE, X_NORM};
use crate::ops::op::Op;
use crate::context::Context;
use crate::ops::plan::{backward_launches, buffers_of, forward_launches, op_outputs, BufferNeed};
use crate::var::ID;
use self::Binding::{Dims, Training, Value};

verus! {

/// A buffer bound to a kernel slot.
#[derive(Clone, Copy, Debug, PartialEq, Eq)]
pub enum Binding {
    /// The values of a variable.
    Value(ID),
    /// A training buffer of a variable, by kind (`buffer_kind`).
    Training(ID, &'static str),
    /// The uniform holding the launch's sizes.
    Dims,
}

/// The binding lists of a list of launches, as sequences.
pub open spec fn binding_views(v: Seq<Vec<Binding>>) -> Seq<Seq<Binding>> {
    v.map_values(|l: Vec<Binding>| l@)
}

/// The bindings of each forward launch of `op`, in launch order, slots
/// 0, 1, ... of each.
pub open spec fn forward_binding_lists(op: Op) -> Seq<Seq<Binding>> {
    match op {
        Op::MatMul(p) => seq![seq![Value(p.lhs), Value(p.rhs), Value(p.output), Dims]],
        Op::Mse(p) => seq![seq![Value(p.y_pred), Value(p.y_true), Value(p.output), Dims]],
        Op::Tanh(p) => seq![seq![Value(p.input), Value(p.output)]],
        Op::ReLU(p) => seq![seq![Value(p.input), Value(p.output)]],
        Op::Sigmoid(p) => seq![seq![Value(p.input), Value(p.output)]],
        Op::Gelu(p) => seq![seq![Value(p.input), Value(p.output)]],
        Op::Exp(p) => seq![seq![Value(p.input), Value(p.output)]],
        Op::Softmax(p) => seq![
            seq![Value(p.input), Training(p.output, PARTIAL), Training(p.output, PARTIAL_SUM), Dims],
            seq![Value(p.input), Training(p.output, PARTIAL), Training(p.output, PARTIAL_SUM), Value(p.output), Dims],
        ],
        Op::Permute(p) => seq![seq![Value(p.input), Value(p.output), Dims]],
        Op::GroupMul(p) => seq![seq![Value(p.input), Value(p.output), Dims]],
        Op::GroupSum(p) => seq![seq![Value(p.input), Value(p.output), Dims]],
        Op::GroupMax(p) => seq![seq![Value(p.input), Value(p.output), Dims]],
        Op::Add(p) => seq![seq![Value(p.lhs), Value(p.rhs), Value(p.output), Dims]],
        Op::Sub(p) => seq![seq![Value(p.lhs), Value(p.rhs), Value(p.output), Dims]],
        Op::Mul(p) => seq![seq![Value(p.lhs), Value(p.rhs), Value(p.output), Dims]],
        Op::Div(p) => seq![seq![Value(p.lhs), Value(p.rhs), Value(p.output), Dims]],
        Op::Embedding(p) => seq![seq![Value(p.token_ids), Value(p.weights), Value(p.output), Dims]],
        Op::Im2Col(p) => seq![seq![Value(p.input), Value(p.output), Dims]],
        Op::LayerNorm(p) => seq![
            seq![Value(p.input), Training(p.output, PARTIAL), Training(p.output, PARTIAL_SUM), Dims],
            seq![
                Value(p.input),
                Training(p.output, PARTIAL),
                Training(p.output, PARTIAL_SUM),
                Value(p.gamma),
                Value(p.beta),
                Training(p.output, X_NORM),
                Value(p.output),
                Dims,
            ],
        ],
        _ => Seq::empty(),
    }
}

/// The bindings of each backward launch of `op`, in launch order: the
/// gradient kernels read the output's gradient and write the inputs'
/// (broadcast operands through staging buffers, reduced afterwards).
pub open spec fn backward_binding_lists(op: Op) -> Seq<Seq<Binding>> {
    match op {
        Op::MatMul(p) => seq![
            seq![Training(p.output, GRAD), Value(p.rhs), Training(p.lhs, GRAD), Dims],
            seq![Training(p.output, GRAD), Value(p.lhs), Training(p.rhs, GRAD), Dims],
        ],
        Op::Mse(p) => seq![seq![Value(p.y_pred), Value(p.y_true), Training(p.y_pred, GRAD), Dims]],
        Op::Tanh(p) => seq![seq![Value(p.output), Training(p.output, GRAD), Training(p.input, GRAD)]],
        Op::ReLU(p) => seq![seq![Value(p.input), Training(p.output, GRAD), Training(p.input, GRAD)]],
        Op::Sigmoid(p) => seq![seq![Value(p.output), Training(p.output, GRAD), Training(p.input, GRAD)]],
        Op::Gelu(p) => seq![seq![Value(p.input), Training(p.output, GRAD), Training(p.input, GRAD)]],
        Op::Exp(p) => seq![seq![Value(p.output), Training(p.output, GRAD), Training(p.input, GRAD)]],
        Op::Softmax(p) => seq![seq![Value(p.output), Training(p.output, GRAD), Training(p.input, GRAD), Dims]],
        Op::Permute(p) => seq![seq![Training(p.output, GRAD), Training(p.input, GRAD), Dims]],
        Op::Add(p) => seq![
            seq![Training(p.output, GRAD), Training(p.output, LHS_STAGE), Training(p.output, RHS_STAGE), Dims],
        ],
        Op::Sub(p) => seq![
            seq![Training(p.output, GRAD), Training(p.output, LHS_STAGE), Training(p.output, RHS_STAGE), Dims],
        ],
        Op::Mul(p) => seq![
            seq![
                Training(p.output, GRAD),
                Value(p.lhs),
                Value(p.rhs),
                Training(p.output, LHS_STAGE),
                Training(p.output, RHS_STAGE),
                Dims,
            ],
        ],
        Op::Div(p) => seq![
            seq![
                Training(p.output, GRAD),
                Value(p.lhs),
                Value(p.rhs),
                Training(p.output, LHS_STAGE),
                Training(p.output, RHS_STAGE),
                Dims,
            ],
        ],
        Op::Embedding(p) => seq![seq![Value(p.token_ids), Training(p.output, GRAD), Training(p.weights, GRAD), Dims]],
        Op::Im2Col(p) => seq![seq![Training(p.output, GRAD), Training(p.input, GRAD), Dims]],
        Op::LayerNorm(p) => seq![
            seq![
                Training(p.output, GRAD),
                Training(p.output, X_NORM),
                Value(p.gamma),
                Training(p.output, PARTIAL_SUM),
                Training(p.output, PARTIAL),
                Training(p.input, GRAD),
                Training(p.gamma, GRAD),
                Training(p.beta, GRAD),
                Dims,
            ],
        ],
        _ => Seq::empty(),
    }
}

/// Every kernel an operation launches gets one list of bindings: the
/// forward and backward binding lists have as many entries as the planned
/// forward and backward launches.
pub proof fn law_one_binding_list_per_launch(op: Op)
    ensures
        forward_binding_lists(op).len() == forward_launches(op).len(),
        backward_binding_lists(op).len() == backward_launches(op).len(),
{
}

/// The kernel of `l` reads `a` and `b`, in slots 0 and 1, and writes `out`
/// in slot 2.
pub open spec fn reads_two_writes(l: Seq<Binding>, a: Binding, b: Binding, out: Binding) -> bool {
    l.len() >= 3 && l[0] == a && l[1] == b && l[2] == out
}

/// What the kernels read and write, slot by slot:
/// - the forward kernel of a binary op (matrix product, `+`, `-`, `*`,
///   `/`, squared error) reads its left operand in slot 0 and its right one
///   in slot 1, so that `-`, `/` and the error are not taken the other way
///   round, and writes its output in slot 2; an activation reads its input
///   and writes its output;
/// - the gradient of the squared error, `2 (pred - target) / n`, reads the
///   prediction in slot 0 and the target in slot 1 and writes the
///   prediction's gradient;
/// - the gradient of an activation reads, in slot 0, the value its
///   derivative is a function of: the output for tanh (`1 - y^2`), sigmoid
///   (`y (1 - y)`) and exp (`y`), the input for ReLU and GELU; then the
///   output's gradient, and writes the input's gradient;
/// - the two gradient kernels of a matrix product `C = A B` compute
///   `dA = dC B^T` and `dB = A^T dC`: each reads the output's gradient and
///   the other operand, and writes the gradient of its own operand;
/// - softmax and layer normalisation read their input in both passes and
///   write their output in the second; the gradient of softmax reads its
///   output, that of layer normalisation the scale `gamma`, and it writes
///   the gradients of the input, `gamma` and `beta` in that order;
/// - permutation, unfolding (im2col) and the group reductions read their
///   input and write their output; their gradients read the output's
///   gradient and write the input's;
/// - an embedding reads the token ids and the table and writes its output;
///   its gradient reads the token ids and the output's gradient and writes
///   the table's gradient;
/// - the gradient of a broadcast op reads the output's gradient first.
pub proof fn law_binding_roles(op: Op)
    ensures
        op matches Op::MatMul(p) ==> {
            let f = forward_binding_lists(op);
            let b = backward_binding_lists(op);
            &&& f.len() == 1 && reads_two_writes(f[0], Value(p.lhs), Value(p.rhs), Value(p.output))
            &&& b.len() == 2
            &&& reads_two_writes(b[0], Training(p.output, GRAD), Value(p.rhs), Training(p.lhs, GRAD))
            &&& reads_two_writes(b[1], Training(p.output, GRAD), Value(p.lhs), Training(p.rhs, GRAD))
        },
        op matches Op::Mse(p) ==> {
            let f = forward_binding_lists(op);
            let b = backward_binding_lists(op);
            &&& f.len() == 1 && reads_two_writes(f[0], Value(p.y_pred), Value(p.y_true), Value(p.output))
            &&& b.len() == 1 && reads_two_writes(b[0], Value(p.y_pred), Value(p.y_true), Training(p.y_pred, GRAD))
        },
        op matches Op::Add(p) ==> {
            let f = forward_binding_lists(op);
            f.len() == 1 && reads_two_writes(f[0], Value(p.lhs), Value(p.rhs), Value(p.output))
        },
        op matches Op::Sub(p) ==> {
            let f = forward_binding_lists(op);
            f.len() == 1 && reads_two_writes(f[0], Value(p.lhs), Value(p.rhs), Value(p.output))
        },
        op matches Op::Mul(p) ==> {
            let f = forward_binding_lists(op);
            let b = backward_binding_lists(op);
            &&& f.len() == 1 && reads_two_writes(f[0], Value(p.lhs), Value(p.rhs), Value(p.output))
            &&& b.len() == 1 && b[0].len() >= 3 && b[0][0] == Training(p.output, GRAD) && b[0][1] == Value(p.lhs)
                && b[0][2] == Value(p.rhs)
        },
        op matches Op::Div(p) ==> {
            let f = forward_binding_lists(op);
            let b = backward_binding_lists(op);
            &&& f.len() == 1 && reads_two_writes(f[0], Value(p.lhs), Value(p.rhs), Value(p.output))
            &&& b.len() == 1 && b[0].len() >= 3 && b[0][0] == Training(p.output, GRAD) && b[0][1] == Value(p.lhs)
                && b[0][2] == Value(p.rhs)
        },
        op matches Op::Tanh(p) ==> {
            &&& forward_binding_lists(op) == seq![seq![Value(p.input), Value(p.output)]]
            &&& backward_binding_lists(op).len() == 1
            &&& reads_two_writes(backward_binding_lists(op)[0], Value(p.output), Training(p.output, GRAD), Training(p.input, GRAD))
        },
        op matches Op::Sigmoid(p) ==> {
            &&& forward_binding_lists(op) == seq![seq![Value(p.input), Value(p.output)]]
            &&& backward_binding_lists(op).len() == 1
            &&& reads_two_writes(backward_binding_lists(op)[0], Value(p.output), Training(p.output, GRAD), Training(p.input, GRAD))
        },
        op matches Op::Exp(p) ==> {
            &&& forward_binding_lists(op) == seq![seq![Value(p.input), Value(p.output)]]
            &&& backward_binding_lists(op).len() == 1
            &&& reads_two_writes(backward_binding_lists(op)[0], Value(p.output), Training(p.output, GRAD), Training(p.input, GRAD))
        },
        op matches Op::ReLU(p) ==> {
            &&& forward_binding_lists(op) == seq![seq![Value(p.input), Value(p.output)]]
            &&& backward_binding_lists(op).len() == 1
            &&& reads_two_writes(backward_binding_lists(op)[0], Value(p.input), Training(p.output, GRAD), Training(p.input, GRAD))
        },
        op matches Op::Gelu(p) ==> {
            &&& forward_binding_lists(op) == seq![seq![Value(p.input), Value(p.output)]]
            &&& backward_binding_lists(op).len() == 1
            &&& reads_two_writes(backward_binding_lists(op)[0], Value(p.input), Training(p.output, GRAD), Training(p.input, GRAD))
        },
        op matches Op::Softmax(p) ==> {
            let f = forward_binding_lists(op);
            &&& f.len() == 2
            &&& f[0].len() >= 1 && f[0][0] == Value(p.input)
            &&& f[1].len() >= 4 && f[1][0] == Value(p.input) && f[1][3] == Value(p.output)
            &&& backward_binding_lists(op).len() == 1
            &&& reads_two_writes(backward_binding_lists(op)[0], Value(p.output), Training(p.output, GRAD), Training(p.input, GRAD))
        },
        op matches Op::Add(p) ==> {
            let b = backward_binding_lists(op);
            b.len() == 1 && b[0].len() >= 1 && b[0][0] == Training(p.output, GRAD)
        },
        op matches Op::Sub(p) ==> {
            let b = backward_binding_lists(op);
            b.len() == 1 && b[0].len() >= 1 && b[0][0] == Training(p.output, GRAD)
        },
        op matches Op::Permute(p) ==> {
            let f = forward_binding_lists(op);
            let b = backward_binding_lists(op);
            &&& f.len() == 1 && f[0].len() >= 2 && f[0][0] == Value(p.input) && f[0][1] == Value(p.output)
            &&& b.len() == 1 && b[0].len() >= 2 && b[0][0] == Training(p.output, GRAD) && b[0][1] == Training(p.input, GRAD)
        },
        op matches Op::Im2Col(p) ==> {
            let f = forward_binding_lists(op);
            let b = backward_binding_lists(op);
            &&& f.len() == 1 && f[0].len() >= 2 && f[0][0] == Value(p.input) && f[0][1] == Value(p.output)
            &&& b.len() == 1 && b[0].len() >= 2 && b[0][0] == Training(p.output, GRAD) && b[0][1] == Training(p.input, GRAD)
        },
        op matches Op::GroupMul(p) ==> {
            let f = forward_binding_lists(op);
            f.len() == 1 && f[0].len() >= 2 && f[0][0] == Value(p.input) && f[0][1] == Value(p.output)
        },
        op matches Op::GroupSum(p) ==> {
            let f = forward_binding_lists(op);
            f.len() == 1 && f[0].len() >= 2 && f[0][0] == Value(p.input) && f[0][1] == Value(p.output)
        },
        op matches Op::GroupMax(p) ==> {
            let f = forward_binding_lists(op);
            f.len() == 1 && f[0].len() >= 2 && f[0][0] == Value(p.input) && f[0][1] == Value(p.output)
        },
        op matches Op::Embedding(p) ==> {
            let f = forward_binding_lists(op);
            let b = backward_binding_lists(op);
            &&& f.len() == 1 && reads_two_writes(f[0], Value(p.token_ids), Value(p.weights), Value(p.output))
            &&& b.len() == 1 && reads_two_writes(b[0], Value(p.token_ids), Training(p.output, GRAD), Training(p.weights, GRAD))
        },
        op matches Op::LayerNorm(p) ==> {
            let f = forward_binding_lists(op);
            let b = backward_binding_lists(op);
            &&& f.len() == 2
            &&& f[0].len() >= 1 && f[0][0] == Value(p.input)
            &&& f[1].len() >= 7 && f[1][0] == Value(p.input) && f[1][3] == Value(p.gamma) && f[1][4] == Value(p.beta)
                && f[1][6] == Value(p.output)
            &&& b.len() == 1 && b[0].len() >= 8 && b[0][0] == Training(p.output, GRAD) && b[0][2] == Value(p.gamma)
                && b[0][5] == Training(p.input, GRAD) && b[0][6] == Training(p.gamma, GRAD) && b[0][7] == Training(
                p.beta,
                GRAD,
            )
        },
{
}

/// `needs` asks for buffer `kind` of `id`.
pub open spec fn requested(needs: Seq<BufferNeed>, id: ID, kind: &'static str) -> bool {
    exists|k: int| 0 <= k < needs.len() && (#[trigger] needs[k]).0 == id && needs[k].1 == kind
}

/// Every training buffer the binding lists `ls` bind is one that `op` asks
/// for, or the gradient of its output (which the op reading that output
/// asks for).
pub open spec fn bound_buffers_requested(op: Op, c: Context, ls: Seq<Seq<Binding>>) -> bool {
    forall|i: int, j: int|
        0 <= i < ls.len() && 0 <= j < ls[i].len() ==> match #[trigger] ls[i][j] {
            Binding::Training(id, kind) => requested(buffers_of(op, c), id, kind) || (kind == GRAD
                && op_outputs(op).contains(id)),
            _ => true,
        }
}

/// Every training buffer a kernel binds, forward or backward, is allocated
/// for the operation: it is among the buffers the operation requests,
/// except the gradient of its output, which comes from the operation that
/// reads the output.
pub proof fn law_bound_buffers_requested(op: Op, c: Context)
    ensures
        bound_buffers_requested(op, c, forward_binding_lists(op)),
        bound_buffers_requested(op, c, backward_binding_lists(op)),
{
    let needs = buffers_of(op, c);
    assert forall|k: int| 0 <= k < needs.len() implies requested(needs, (#[trigger] needs[k]).0, needs[k].1) by {}
    assert(op_outputs(op).len() > 0 ==> op_outputs(op).contains(op_outputs(op)[0]));
    assert(0 < needs.len() ==> requested(needs, needs[0].0, needs[0].1));
    assert(1 < needs.len() ==> requested(needs, needs[1].0, needs[1].1));
    assert(2 < needs.len() ==> requested(needs, needs[2].0, needs[2].1));
    assert(3 < needs.len() ==> requested(needs, needs[3].0, needs[3].1));
    assert(4 < needs.len() ==> requested(needs, needs[4].0, needs[4].1));
    assert(5 < needs.len() ==> requested(needs, needs[5].0, needs[5].1));
    assert(6 < needs.len() ==> requested(needs, needs[6].0, needs[6].1));
    let b = backward_binding_lists(op);
    assert forall|i: int, j: int| 0 <= i < b.len() && 0 <= j < b[i].len() implies match #[trigger] b[i][j] {
        Binding::Training(id, kind) => requested(needs, id, kind) || (kind == GRAD && op_outputs(op).contains(id)),
        _ => true,
    } by {
        match op {
            Op::LayerNorm(p) => {
                assert(needs[0] == (p.input, GRAD, needs[0].2));
                assert(needs[1] == (p.gamma, GRAD, needs[1].2));
                assert(needs[2] == (p.beta, GRAD, needs[2].2));
                assert(needs[3] == (p.output, PARTIAL, needs[3].2));
                assert(needs[4] == (p.output, PARTIAL_SUM, needs[4].2));
                assert(needs[5] == (p.output, X_NORM, needs[5].2));
                assert(needs[6] == (p.output, GRAD, needs[6].2));
            },
            _ => {},
        }
    }
}

impl Op {
    /// The bindings of each forward launch, in the order of `forward_launches`.
    pub fn forward_bindings(&self) -> (r: Vec<Vec<Binding>>)
        ensures
            binding_views(r@) == forward_binding_lists(*self),
    {
        let r: Vec<Vec<Binding>> = match self {
            Op::MatMul(p) => vec![vec![Value(p.lhs), Value(p.rhs), Value(p.output), Dims]],
            Op::Mse(p) => vec![vec![Value(p.y_pred), Value(p.y_true), Value(p.output), Dims]],
            Op::Tanh(p) => vec![vec![Value(p.input), Value(p.output)]],
            Op::ReLU(p) => vec![vec![Value(p.input), Value(p.output)]],
            Op::Sigmoid(p) => vec![vec![Value(p.input), Value(p.output)]],
            Op::Gelu(p) => vec![vec![Value(p.input), Value(p.output)]],
            Op::Exp(p) => vec![vec![Value(p.input), Value(p.output)]],
            Op::Softmax(p) => vec![
                vec![Value(p.input), Training(p.output, PARTIAL), Training(p.output, PARTIAL_SUM), Dims],
                vec![
                    Value(p.input),
                    Training(p.output, PARTIAL),
                    Training(p.output, PARTIAL_SUM),
                    Value(p.output),
                    Dims,
                ],
            ],
            Op::Permute(p) => vec![vec![Value(p.input), Value(p.output), Dims]],
            Op::GroupMul(p) => vec![vec![Value(p.input), Value(p.output), Dims]],
            Op::GroupSum(p) => vec![vec![Value(p.input), Value(p.output), Dims]],
            Op::GroupMax(p) => vec![vec![Value(p.input), Value(p.output), Dims]],
            Op::Add(p) => vec![vec![Value(p.lhs), Value(p.rhs), Value(p.output), Dims]],
            Op::Sub(p) => vec![vec![Value(p.lhs), Value(p.rhs), Value(p.output), Dims]],
            Op::Mul(p) => vec![vec![Value(p.lhs), Value(p.rhs), Value(p.output), Dims]],
            Op::Div(p) => vec![vec![Value(p.lhs), Value(p.rhs), Value(p.output), Dims]],
            Op::Embedding(p) => vec![vec![Value(p.token_ids), Value(p.weights), Value(p.output), Dims]],
            Op::Im2Col(p) => vec![vec![Value(p.input), Value(p.output), Dims]],
            Op::LayerNorm(p) => vec![
                vec![Value(p.input), Training(p.output, PARTIAL), Training(p.output, PARTIAL_SUM), Dims],
                vec![
                    Value(p.input),
                    Training(p.output, PARTIAL),
                    Training(p.output, PARTIAL_SUM),
                    Value(p.gamma),
                    Value(p.beta),
                    Training(p.output, X_NORM),
                    Value(p.output),
                    Dims,
                ],
            ],
            _ => Vec::new(),
        };
        assert(binding_views(r@) =~~= forward_binding_lists(*self));
        r
    }

    /// The bindings of each backward launch, in the order of `backward_launches`.
    pub fn backward_bindings(&self) -> (r: Vec<Vec<Binding>>)
        ensures
            binding_views(r@) == backward_binding_lists(*self),
    {
        let r: Vec<Vec<Binding>> = match self {
            Op::MatMul(p) => vec![
                vec![Training(p.output, GRAD), Value(p.rhs), Training(p.lhs, GRAD), Dims],
                vec![Training(p.output, GRAD), Value(p.lhs), Training(p.rhs, GRAD), Dims],
            ],
            Op::Mse(p) => vec![vec![Value(p.y_pred), Value(p.y_true), Training(p.y_pred, GRAD), Dims]],
            Op::Tanh(p) => vec![vec![Value(p.output), Training(p.output, GRAD), Training(p.input, GRAD)]],
            Op::ReLU(p) => vec![vec![Value(p.input), Training(p.output, GRAD), Training(p.input, GRAD)]],
            Op::Sigmoid(p) => vec![vec![Value(p.output), Training(p.output, GRAD), Training(p.input, GRAD)]],
            Op::Gelu(p) => vec![vec![Value(p.input), Training(p.output, GRAD), Training(p.input, GRAD)]],
            Op::Exp(p) => vec![vec![Value(p.output), Training(p.output, GRAD), Training(p.input, GRAD)]],
            Op::Softmax(p) => vec![vec![Value(p.output), Training(p.output, GRAD), Training(p.input, GRAD), Dims]],
            Op::Permute(p) => vec![vec![Training(p.output, GRAD), Training(p.input, GRAD), Dims]],
            Op::Add(p) => vec![
                vec![Training(p.output, GRAD), Training(p.output, LHS_STAGE), Training(p.output, RHS_STAGE), Dims],
            ],
            Op::Sub(p) => vec![
                vec![Training(p.output, GRAD), Training(p.output, LHS_STAGE), Training(p.output, RHS_STAGE), Dims],
            ],
            Op::Mul(p) => vec![
                vec![
                    Training(p.output, GRAD),
                    Value(p.lhs),
                    Value(p.rhs),
                    Training(p.output, LHS_STAGE),
                    Training(p.output, RHS_STAGE),
                    Dims,
                ],
            ],
            Op::Div(p) => vec![
                vec![
                    Training(p.output, GRAD),
                    Value(p.lhs),
                    Value(p.rhs),
                    Training(p.output, LHS_STAGE),
                    Training(p.output, RHS_STAGE),
                    Dims,
                ],
            ],
            Op::Embedding(p) => vec![
                vec![Value(p.token_ids), Training(p.output, GRAD), Training(p.weights, GRAD), Dims],
            ],
            Op::Im2Col(p) => vec![vec![Training(p.output, GRAD), Training(p.input, GRAD), Dims]],
            Op::LayerNorm(p) => vec![
                vec![
                    Training(p.output, GRAD),
                    Training(p.output, X_NORM),
                    Value(p.gamma),
                    Training(p.output, PARTIAL_SUM),
                    Training(p.output, PARTIAL),
                    Training(p.input, GRAD),
                    Training(p.gamma, GRAD),
                    Training(p.beta, GRAD),
                    Dims,
                ],
            ],
            _ => Vec::new(),
        };
        assert(binding_views(r@) =~~= backward_binding_lists(*self));
        r
    }
}

} // verus!
