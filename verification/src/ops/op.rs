//! The operations a computation graph is made of.
use vstd::prelude::*;

use crate::ops::activation::{ExpOp, GeluOp, ReLUOp, SigmoidOp, TanhOp};
use crate::ops::broadcast::{AddOp, DivOp, MulOp, SubOp};
use crate::ops::constant::ConstantOp;
use crate::ops::embedding_op::EmbeddingOp;
use crate::ops::group_ops::{GroupMaxOp, GroupMulOp, GroupSumOp};
use crate::ops::im2col::Im2ColOp;
use crate::ops::layer_norm_op::LayerNormOp;
use crate::ops::matmul::MatMulOp;
use crate::ops::mse::MseOp;
use crate::ops::permute::PermuteOp;
use crate::ops::reshape::ReshapeOp;
use crate::ops::softmax::SoftmaxOp;

verus! {

/// One node of the computation graph.
#[derive(Debug)]
pub enum Op {
    MatMul(MatMulOp),
    Mse(MseOp),
    Tanh(TanhOp),
    ReLU(ReLUOp),
    Sigmoid(SigmoidOp),
    Gelu(GeluOp),
    Exp(ExpOp),
    Softmax(SoftmaxOp),
    Permute(PermuteOp),
    Reshape(ReshapeOp),
    GroupMul(GroupMulOp),
    GroupSum(GroupSumOp),
    GroupMax(GroupMaxOp),
    Add(AddOp),
    Sub(SubOp),
    Mul(MulOp),
    Div(DivOp),
    Constant(ConstantOp),
    Embedding(EmbeddingOp),
    Im2Col(Im2ColOp),
    LayerNorm(LayerNormOp),
}

} // verus!
