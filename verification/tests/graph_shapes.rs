use voltic::{
    BatchNorm, Context, Conv2d, Embedding, HybridMambaTransformer, LayerNorm, LearnableMemory, NeuralDatabase,
    SimpleAutoencoder, TransposedConv2d, Var,
};

#[test]
fn conv2d_forward_test() {
    let mut c = Context::new();
    let x = Var::with_shape(&mut c, vec![1, 1, 4, 4]);
    let shape = c.shape(x.id()).unwrap();
    assert_eq!(shape, vec![1, 1, 4, 4]);
}

#[test]
fn upsample_test() {
    let mut c = Context::new();
    let x = Var::with_shape(&mut c, vec![1, 1, 2, 2]);
    let shape = c.shape(x.id()).unwrap();
    assert_eq!(shape, vec![1, 1, 2, 2]);
}

#[test]
fn downsample_test() {
    let mut c = Context::new();
    let x = Var::with_shape(&mut c, vec![1, 1, 4, 4]);
    let shape = c.shape(x.id()).unwrap();
    assert_eq!(shape, vec![1, 1, 4, 4]);
}

#[test]
fn embedding_forward_test() {
    let mut c = Context::new();
    let mut embedding = Embedding::new(10, 4);
    let tokens = Var::with_shape(&mut c, vec![3]);
    let embedded = embedding.forward(&mut c, &tokens).unwrap();
    let embed_shape = c.shape(embedded.id()).unwrap();
    assert_eq!(embed_shape, vec![3, 4]);
}

#[test]
fn vae_forward_test() {
    let mut c = Context::new();
    let x = Var::with_shape(&mut c, vec![1, 1, 32, 32]);
    let shape = c.shape(x.id()).unwrap();
    assert_eq!(shape, vec![1, 1, 32, 32]);
}

#[test]
fn downsample_actual_test() {
    let mut c = Context::new();
    let x = Var::with_shape(&mut c, vec![1, 1, 4, 4]);
    let shape = c.shape(x.id()).unwrap();
    assert_eq!(shape, vec![1, 1, 4, 4]);
}

#[test]
fn transposed_conv2d_test() {
    let mut c = Context::new();
    let x = Var::with_shape(&mut c, vec![1, 4, 4, 4]);
    let deconv = TransposedConv2d::new(8, 3).stride(2).padding(1);
    assert!(deconv.init(&c).unwrap().is_empty());
    let shape = c.shape(x.id()).unwrap();
    assert_eq!(shape, vec![1, 4, 4, 4]);
}

#[test]
fn conv2d_different_configs_test() {
    let mut c = Context::new();
    let x = Var::with_shape(&mut c, vec![1, 1, 8, 8]);
    let mut conv = Conv2d::new(1, 3).stride(2).padding(0);
    let output = conv.forward(&mut c, &x).unwrap();
    let shape = c.shape(output.id()).unwrap();
    assert_eq!(shape, vec![1, 1, 3, 3], "Shape should be [1,1,3,3] but got {:?}", shape);
}

#[test]
fn conv2d_batch_size_test() {
    let mut c = Context::new();
    let x = Var::with_shape(&mut c, vec![4, 3, 8, 8]);
    let mut conv = Conv2d::new(3, 3).stride(1).padding(1);
    let output = conv.forward(&mut c, &x).unwrap();
    let shape = c.shape(output.id()).unwrap();
    assert_eq!(shape[0], 4, "Batch size should be 4");
    assert_eq!(shape[1], 3, "Output channels should be 3");
}

#[test]
fn simple_autoencoder_forward_test() {
    let mut c = Context::new();
    let mut autoencoder = SimpleAutoencoder::new(8, 3);
    assert!(autoencoder.init(&c).is_empty());
    let x = Var::with_shape(&mut c, vec![2, 3, 16, 16]);
    let output = autoencoder.forward(&mut c, &x).unwrap();
    let output_shape = c.shape(output.id()).unwrap();
    assert_eq!(output_shape, vec![2, 3, 16, 16], "Output shape should match input");
}

#[test]
fn batchnorm_training_mode_test() {
    let mut c = Context::new();
    let x = Var::with_shape(&mut c, vec![2, 4, 4, 4]);
    let mut bn = BatchNorm::new(4);
    assert!(bn.init().is_empty());
    let output = bn.forward(&mut c, &x).unwrap();
    let output_shape = c.shape(output.id()).unwrap();
    assert_eq!(output_shape, vec![2, 4, 4, 4]);
}

#[test]
fn layer_norm_forward_test() {
    let mut c = Context::new();
    let x = Var::with_shape(&mut c, vec![2, 4]);
    let mut layernorm = LayerNorm::new(4);
    assert!(layernorm.init().is_empty());
    let normalized = layernorm.forward(&mut c, &x).unwrap();
    let shape = c.shape(normalized.id()).unwrap();
    assert_eq!(shape, vec![2, 4]);
}

#[test]
fn moe_forward_test() {
    let mut c = Context::new();
    let x = Var::with_shape(&mut c, vec![2, 4, 8]);
    let shape = c.shape(x.id()).unwrap();
    assert_eq!(shape, vec![2, 4, 8]);
}

#[test]
fn neural_database_test() {
    let mut c = Context::new();
    let db = NeuralDatabase::new(&mut c, 10, 8, 16).unwrap();
    assert_eq!(db.init(&c).len(), 1);
    let query = Var::with_shape(&mut c, vec![2, 8]);
    let shape = c.shape(query.id()).unwrap();
    assert_eq!(shape, vec![2, 8]);
}

#[test]
fn learnable_memory_test() {
    let mut c = Context::new();
    let mem = LearnableMemory::new(&mut c, 8, 32, 16);
    assert_eq!(mem.init(&c).len(), 1);
    let query = Var::with_shape(&mut c, vec![4, 16]);
    let shape = c.shape(query.id()).unwrap();
    assert_eq!(shape, vec![4, 16]);
}

#[test]
fn hybrid_mamba_transformer_test() {
    let mut c = Context::new();
    let hybrid = HybridMambaTransformer::new(32, 4, 16).unwrap();
    assert!(hybrid.init(&c).is_empty());
    let x = Var::with_shape(&mut c, vec![2, 8, 32]);
    let shape = c.shape(x.id()).unwrap();
    assert_eq!(shape, vec![2, 8, 32]);
}

#[test]
fn batch_norm_test() {
    let mut c = Context::new();
    let x = Var::with_shape(&mut c, vec![2, 4, 4, 4]);
    let bn = BatchNorm::new(4);
    assert!(bn.init().is_empty());
    let shape = c.shape(x.id()).unwrap();
    assert_eq!(shape, vec![2, 4, 4, 4]);
}
