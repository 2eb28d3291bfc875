use voltic::{
    ChannelWiseAttention, Context, Fill, GroupedMatMul, InitStep, LearnableMemory, MoELayer,
    MultiHeadAttention, MultiMatrixAttention, Op, RagConfig, SimpleAutoencoder, SsmLayer, Vae, VaeDecoder,
    VaeEncoder, Var, VolticError,
};

#[test]
fn ssm_step_keeps_the_model_width() {
    let mut c = Context::new();
    let x = Var::with_shape(&mut c, vec![2, 5, 8]);
    let mut ssm = SsmLayer::new(8, 4);
    let y = ssm.forward_step(&mut c, &x).unwrap();
    assert_eq!(y.shape(&c), vec![2, 5, 8]);
    assert_eq!(c.operations().len(), 11);
    assert!(matches!(c.operations()[6], Op::Sigmoid(_)));
    assert!(matches!(c.operations()[8], Op::Mul(_)));
    assert_eq!(ssm.parameters().len(), 8);
    let steps = ssm.init(&c);
    assert_eq!(steps.len(), 8);
    assert_eq!(steps[0].fill, Fill::Xavier { fan_in: 8, n: 32 });
    assert_eq!(steps[6].fill, Fill::Xavier { fan_in: 4, n: 32 });
}

#[test]
fn ssm_step_errors() {
    let mut c = Context::new();
    let mut ssm = SsmLayer::new(8, 4);
    let unshaped = Var::new(&mut c);
    assert!(matches!(ssm.forward_step(&mut c, &unshaped), Err(VolticError::EmptyShape)));
    let v = Var::with_shape(&mut c, vec![8]);
    assert!(matches!(ssm.forward_step(&mut c, &v), Err(VolticError::InvalidDimension { dim: 1, ndim: 2 })));
}

#[test]
fn moe_runs_every_expert_on_unit_width_tokens() {
    let mut c = Context::new();
    let mut moe = MoELayer::new(3, 6, 2);
    assert_eq!(moe.experts.len(), 3);
    let x = Var::with_shape(&mut c, vec![2, 4, 1]);
    let y = moe.forward(&mut c, &x).unwrap();
    assert_eq!(y.shape(&c), vec![8, 1]);
    // reshape, gate (2), softmax, three experts (2 each)
    assert_eq!(c.operations().len(), 10);
    assert_eq!(moe.parameters().len(), 8);
    assert_eq!(moe.init(&c).len(), 8);
}

#[test]
fn moe_flattening_counts_the_last_axis_twice() {
    let mut c = Context::new();
    let mut moe = MoELayer::new(2, 4, 1);
    let x = Var::with_shape(&mut c, vec![2, 3]);
    match moe.forward(&mut c, &x) {
        Err(VolticError::IncompatibleShapes { lhs, rhs, op }) => {
            assert_eq!(lhs, vec![2, 3]);
            assert_eq!(rhs, vec![6, 3]);
            assert_eq!(op, "reshape: element count mismatch");
        },
        _ => panic!("expected a reshape error"),
    }
}

#[test]
fn grouped_matmul_projects_each_group() {
    let mut c = Context::new();
    let mut g = GroupedMatMul::new(8, 6, 2).unwrap();
    assert_eq!(g.group_weights.len(), 2);
    assert_eq!(g.group_weights[0].out_features, 3);
    let x = Var::with_shape(&mut c, vec![4, 8]);
    let y = g.forward(&mut c, &x).unwrap();
    assert_eq!(c.shape(y.id()), None);
    assert_eq!(c.operations().len(), 6);
    assert_eq!(g.parameters().len(), 4);
    let v = Var::with_shape(&mut c, vec![8]);
    assert!(matches!(g.forward(&mut c, &v), Err(VolticError::InvalidDimension { dim: 1, ndim: 2 })));
}

#[test]
fn channel_attention_keeps_the_image_shape() {
    let mut c = Context::new();
    let x = Var::with_shape(&mut c, vec![1, 4, 2, 2]);
    let mut a = ChannelWiseAttention::new(8, 2);
    let y = a.forward(&mut c, &x).unwrap();
    assert_eq!(y.shape(&c), vec![1, 4, 2, 2]);
    assert_eq!(a.parameters().len(), 6);
    assert_eq!(a.init(&c).len(), 6);
}

#[test]
fn channel_attention_needs_matching_projection_width() {
    let mut c = Context::new();
    let x = Var::with_shape(&mut c, vec![1, 4, 2, 2]);
    let mut a = ChannelWiseAttention::new(5, 2);
    match a.forward(&mut c, &x) {
        Err(VolticError::IncompatibleShapes { lhs, rhs, op }) => {
            assert_eq!(lhs, vec![2, 5]);
            assert_eq!(rhs, vec![2, 2, 4]);
            assert_eq!(op, "reshape: element count mismatch");
        },
        _ => panic!("expected a reshape error"),
    }
    let flat = Var::with_shape(&mut c, vec![4, 4]);
    assert!(matches!(a.forward(&mut c, &flat), Err(VolticError::InvalidDimension { dim: 2, ndim: 4 })));
}

#[test]
fn autoencoder_round_trip_shape() {
    let mut c = Context::new();
    let x = Var::with_shape(&mut c, vec![1, 3, 8, 8]);
    let mut ae = SimpleAutoencoder::new(8, 3);
    let z = ae.encode(&mut c, &x).unwrap();
    assert_eq!(z.shape(&c), vec![1, 8, 8, 8]);
    let y = ae.forward(&mut c, &x).unwrap();
    assert_eq!(y.shape(&c), vec![1, 3, 8, 8]);
    assert_eq!(ae.parameters().len(), 8);
    let steps = ae.init(&c);
    assert_eq!(steps[0].fill, Fill::Xavier { fan_in: 27, n: 864 });
    assert_eq!(steps[1].fill, Fill::Zeros { n: 32 });
}

#[test]
fn learnable_memory_with_unit_width() {
    let mut c = Context::new();
    let mut m = LearnableMemory::new(&mut c, 4, 1, 7);
    assert_eq!(m.memory.shape(&c), vec![4, 1]);
    let q = Var::with_shape(&mut c, vec![1]);
    let y = m.forward(&mut c, &q).unwrap();
    assert_eq!(y.shape(&c), vec![1, 1]);
    let steps = m.init(&c);
    assert_eq!(steps[0], InitStep { var: m.memory, fill: Fill::Sine { n: 4 } });
    assert_eq!(m.parameters()[0], m.memory);
}

#[test]
fn learnable_memory_query_view_must_keep_the_count() {
    let mut c = Context::new();
    let mut m = LearnableMemory::new(&mut c, 3, 4, 4);
    let q = Var::with_shape(&mut c, vec![2, 4]);
    match m.forward(&mut c, &q) {
        Err(VolticError::IncompatibleShapes { lhs, rhs, op }) => {
            assert_eq!(lhs, vec![2, 4]);
            assert_eq!(rhs, vec![8, 1, 4]);
            assert_eq!(op, "reshape: element count mismatch");
        },
        _ => panic!("expected a reshape error"),
    }
}

#[test]
fn attention_heads_must_divide_the_width() {
    match MultiHeadAttention::new(6, 4) {
        Err(VolticError::Internal(msg)) => {
            assert_eq!(msg, "d_model (6) must be divisible by num_heads (4)");
        },
        _ => panic!("expected an error"),
    }
    let a = MultiHeadAttention::new(8, 2).unwrap();
    assert_eq!(a.d_k, 4);
}

#[test]
fn multi_head_attention_output_shape() {
    let mut c = Context::new();
    let x = Var::with_shape(&mut c, vec![2, 3, 8]);
    let mask = Var::with_shape(&mut c, vec![3, 3]);
    let mut a = MultiHeadAttention::new(8, 2).unwrap();
    let y = a.forward(&mut c, &x, &mask).unwrap();
    assert_eq!(y.shape(&c), vec![2, 3, 8]);
    let scale = a.scale_slot.unwrap();
    assert_eq!(scale.shape(&c), vec![1]);
    assert_eq!(a.parameters().len(), 8);
    let bad = Var::with_shape(&mut c, vec![3, 8]);
    assert!(matches!(a.forward(&mut c, &bad, &mask), Err(VolticError::InvalidDimension { dim: 2, ndim: 3 })));
}

#[test]
fn multi_matrix_attention_output_shape() {
    let mut c = Context::new();
    let x = Var::with_shape(&mut c, vec![1, 3, 8]);
    let mut a = MultiMatrixAttention::new(8, 2, 2).unwrap();
    assert_eq!(a.d_k, 4);
    let y = a.forward(&mut c, &x, None).unwrap();
    assert_eq!(y.shape(&c), vec![1, 3, 8]);
    assert_eq!(a.parameters().len(), 12);
    assert_eq!(a.init(&c).len(), 12);
    let mask = Var::with_shape(&mut c, vec![3, 3]);
    let y2 = a.forward(&mut c, &x, Some(&mask)).unwrap();
    assert_eq!(y2.shape(&c), vec![1, 3, 8]);
}

#[test]
fn vae_encoder_halves_four_times() {
    let mut c = Context::new();
    let x = Var::with_shape(&mut c, vec![1, 3, 32, 32]);
    let mut e = VaeEncoder::new(16, 3);
    let (mu, log_var) = e.forward(&mut c, &x).unwrap();
    assert_eq!(mu.shape(&c), vec![1, 16]);
    assert_eq!(log_var.shape(&c), vec![1, 16]);
    assert_eq!(e.parameters().len(), 12);
}

#[test]
fn vae_decoder_upsampling_needs_an_empty_batch() {
    let mut c = Context::new();
    let mut d = VaeDecoder::new(16, 3, vec![3, 32, 32]);
    let z = Var::with_shape(&mut c, vec![1, 16]);
    match d.forward(&mut c, &z) {
        Err(VolticError::IncompatibleShapes { lhs, rhs, op }) => {
            assert_eq!(lhs, vec![1, 128, 4, 1, 4, 1]);
            assert_eq!(rhs, vec![1, 128, 8, 8]);
            assert_eq!(op, "reshape: element count mismatch");
        },
        _ => panic!("expected a reshape error"),
    }
    let empty = Var::with_shape(&mut c, vec![0, 16]);
    let y = d.forward(&mut c, &empty).unwrap();
    assert_eq!(y.shape(&c), vec![0, 3, 32, 32]);
}

#[test]
fn vae_forward_on_an_empty_batch() {
    let mut c = Context::new();
    let mut v = Vae::new(16, 3, 32, 32);
    let x = Var::with_shape(&mut c, vec![0, 3, 32, 32]);
    let (rec, mu, log_var) = v.forward(&mut c, &x).unwrap();
    assert_eq!(rec.shape(&c), vec![0, 3, 32, 32]);
    assert_eq!(mu.shape(&c), vec![0, 16]);
    assert_eq!(log_var.shape(&c), vec![0, 16]);
    assert_eq!(v.std_scale.unwrap().shape(&c), vec![1]);
    assert_eq!(v.parameters().len(), 22);
    let unshaped = Var::new(&mut c);
    assert!(matches!(v.forward(&mut c, &unshaped), Err(VolticError::EmptyShape)));
}

#[test]
fn rag_config_fields() {
    let cfg = RagConfig { embedding_dim: 64, top_k: 3 };
    assert_eq!(cfg.embedding_dim, 64);
    assert_eq!(cfg.top_k, 3);
}
