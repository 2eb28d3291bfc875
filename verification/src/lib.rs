pub mod attention;
pub mod buffer_kind;
pub mod checkpoint;
pub mod context;
pub mod dims;
pub mod errors;
pub mod graph;
pub mod grouped;
pub mod hybrid;
pub mod layers;
pub mod moe;
pub mod neural_db;
pub mod ops;
pub mod rag;
pub mod tokenizers;
pub mod var;

pub use attention::MultiMatrixAttention;
pub use context::Context;
pub use errors::{Result, VolticError};
pub use grouped::{ChannelWiseAttention, GroupedMatMul};
pub use hybrid::{HybridMambaTransformer, SsmLayer};
pub use moe::MoELayer;
pub use neural_db::{LearnableMemory, NeuralDatabase};
pub use layers::{
    BatchNorm, Conv2d, Downsample, Gpt, GptBlock, LayerNorm, SimpleAutoencoder, Embedding, Fill, GptConfig, InitStep, Linear, MultiHeadAttention, TransposedConv2d, Upsample, Vae, VaeDecoder, VaeEncoder,
};
pub use rag::{DocumentChunk, RagConfig, RagHelper};
pub use ops::activation::{ExpOp, GeluOp, ReLUOp, SigmoidOp, TanhOp};
pub use ops::broadcast::{AddOp, BinaryDims, DivOp, MulOp, SubOp};
pub use ops::broadcast_shape::{row_major_strides, BroadcastShape};
pub use ops::constant::ConstantOp;
pub use ops::embedding_op::EmbeddingOp;
pub use ops::group_ops::{GroupMaxOp, GroupMulOp, GroupSumOp};
pub use ops::im2col::Im2ColOp;
pub use ops::layer_norm_op::LayerNormOp;
pub use ops::matmul::MatMulOp;
pub use ops::mse::MseOp;
pub use ops::op::Op;
pub use ops::permute::PermuteOp;
pub use ops::plan::{reduce_plan, Dispatch, ReduceStep};
pub use ops::reshape::ReshapeOp;
pub use ops::softmax::SoftmaxOp;
pub use tokenizers::{BpeTokenizer, Tokenizer, TrieTokenTokenizer, WordPieceTokenizer};
pub use var::{Var, ID};
