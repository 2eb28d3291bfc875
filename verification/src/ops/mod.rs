pub mod activation;
pub mod bindings;
pub mod broadcast;
pub mod broadcast_shape;
pub mod checks;
pub mod constant;
pub mod coverage;
pub mod embedding_op;
pub mod group_ops;
pub mod im2col;
pub mod layer_norm_op;
pub mod matmul;
pub mod mse;
pub mod op;
pub mod permute;
pub mod plan;
pub mod reshape;
pub mod softmax;
