use voltic::{
    BatchNorm, BpeTokenizer, Context, Fill, Gpt, GptBlock, GptConfig, HybridMambaTransformer, LayerNorm,
    NeuralDatabase, Op, RagHelper, Tokenizer, Var, VolticError,
};

fn config(num_heads: u32, num_layers: u32) -> GptConfig {
    GptConfig { vocab_size: 10, seq_len: 4, d_model: 8, num_heads, num_layers, ff_dim: None }
}

#[test]
fn gpt_block_keeps_the_input_shape() {
    let mut c = Context::new();
    let x = Var::with_shape(&mut c, vec![2, 3, 8]);
    let mask = Var::with_shape(&mut c, vec![3, 3]);
    let mut block = GptBlock::new(8, 2).unwrap();
    assert_eq!(block.ff1.out_features, 32);
    let y = block.forward(&mut c, &x, &mask).unwrap();
    assert_eq!(y.shape(&c), vec![2, 3, 8]);
    assert!(matches!(c.operations().last(), Some(Op::Add(_))));
    assert!(matches!(c.operations()[0], Op::LayerNorm(_)));
    assert_eq!(block.parameters().len(), 16);
    let steps = block.init();
    assert_eq!(steps.len(), 4);
    assert_eq!(steps[0].fill, Fill::Ones { n: 8 });
    assert_eq!(steps[1].fill, Fill::Zeros { n: 8 });
    assert!(block.attn.scale_slot.is_some());
}

#[test]
fn gpt_block_errors() {
    match GptBlock::new(6, 4) {
        Err(VolticError::Internal(msg)) => assert_eq!(msg, "d_model (6) must be divisible by num_heads (4)"),
        _ => panic!("expected the heads error"),
    }
    let mut c = Context::new();
    let mask = Var::with_shape(&mut c, vec![3, 3]);
    let mut block = GptBlock::new(8, 2).unwrap();
    let wide = Var::with_shape(&mut c, vec![2, 3, 5]);
    match block.forward(&mut c, &wide, &mask) {
        Err(VolticError::IncompatibleShapes { lhs, rhs, op }) => {
            assert_eq!(lhs, vec![2, 3, 5]);
            assert_eq!(rhs, vec![8]);
            assert_eq!(op, "layer_norm");
        },
        _ => panic!("expected a layer norm error"),
    }
    let flat = Var::with_shape(&mut c, vec![3, 8]);
    assert!(matches!(
        block.forward(&mut c, &flat, &mask),
        Err(VolticError::InvalidDimension { dim: 2, ndim: 3 })
    ));
    let unshaped = Var::new(&mut c);
    assert!(matches!(block.forward(&mut c, &unshaped, &mask), Err(VolticError::EmptyShape)));
}

#[test]
fn gpt_forward_gives_next_token_probabilities() {
    let mut c = Context::new();
    let mut gpt = Gpt::new(config(2, 2)).unwrap();
    assert_eq!(gpt.blocks.len(), 2);
    let tokens = Var::with_shape(&mut c, vec![2, 4]);
    let probs = gpt.forward(&mut c, &tokens).unwrap();
    assert_eq!(probs.shape(&c), vec![2, 4, 10]);
    assert!(matches!(c.operations().last(), Some(Op::Softmax(_))));
    assert_eq!(gpt.mask.unwrap().shape(&c), vec![4, 4]);
    assert_eq!(gpt.pos_ids.unwrap().shape(&c), vec![8]);
    assert_eq!(gpt.parameters().len(), 38);
    let steps = gpt.init(&c);
    assert_eq!(steps.len(), 12);
    assert_eq!(steps[10].fill, Fill::Positions { n: 8, period: 4 });
    assert_eq!(steps[11].fill, Fill::CausalMask { size: 4 });
    assert_eq!(steps[11].var, gpt.mask.unwrap());
}

#[test]
fn gpt_errors() {
    match Gpt::new(config(3, 1)) {
        Err(VolticError::Internal(msg)) => assert_eq!(msg, "d_model (8) must be divisible by num_heads (3)"),
        _ => panic!("expected the heads error"),
    }
    assert!(Gpt::new(config(3, 0)).is_ok());
    let mut c = Context::new();
    let mut gpt = Gpt::new(config(2, 1)).unwrap();
    let long = Var::with_shape(&mut c, vec![1, 5]);
    match gpt.forward(&mut c, &long) {
        Err(VolticError::Internal(msg)) => assert_eq!(msg, "sequence length 5 exceeds max seq_len 4"),
        _ => panic!("expected the sequence length error"),
    }
    let flat = Var::with_shape(&mut c, vec![8]);
    assert!(matches!(gpt.forward(&mut c, &flat), Err(VolticError::InvalidDimension { dim: 1, ndim: 2 })));
}

#[test]
fn hybrid_block_normalises_the_wide_feed_forward_output() {
    let mut c = Context::new();
    let mut h = HybridMambaTransformer::new(8, 2, 4).unwrap();
    let x = Var::with_shape(&mut c, vec![1, 3, 8]);
    match h.forward(&mut c, &x, None) {
        Err(VolticError::IncompatibleShapes { lhs, rhs, op }) => {
            assert_eq!(lhs, vec![1, 3, 32]);
            assert_eq!(rhs, vec![8]);
            assert_eq!(op, "layer_norm");
        },
        _ => panic!("expected the feed-forward norm error"),
    }
    assert_eq!(h.causal_mask.unwrap().shape(&c), vec![3, 3]);
    let narrow = Var::with_shape(&mut c, vec![1, 3, 5]);
    match h.forward(&mut c, &narrow, None) {
        Err(VolticError::IncompatibleShapes { lhs, rhs, op }) => {
            assert_eq!(lhs, vec![1, 3, 5]);
            assert_eq!(rhs, vec![8]);
            assert_eq!(op, "layer_norm");
        },
        _ => panic!("expected the input norm error"),
    }
    let steps = h.init(&c);
    assert_eq!(steps.last().unwrap().fill, Fill::CausalMask { size: 3 });
}

#[test]
fn neural_database_reads_every_entry() {
    let mut c = Context::new();
    let mut db = NeuralDatabase::new(&mut c, 4, 4, 3).unwrap();
    assert_eq!(db.value_memory.shape(&c), vec![4, 3]);
    let q = Var::with_shape(&mut c, vec![4, 4]);
    let out = db.forward(&mut c, &q, 2).unwrap();
    assert_eq!(out.shape(&c), vec![4, 3]);
    assert_eq!(db.keys_slot.unwrap().shape(&c), vec![4, 4]);
    assert_eq!(db.scale_slot.unwrap().shape(&c), vec![1]);
    assert_eq!(db.parameters().len(), 3);
    let steps = db.init(&c);
    assert_eq!(steps[0].fill, Fill::Wave { n: 12 });
    assert_eq!(steps.len(), 3);
}

#[test]
fn neural_database_errors() {
    let mut c = Context::new();
    let mut db = NeuralDatabase::new(&mut c, 4, 4, 3).unwrap();
    let odd = Var::with_shape(&mut c, vec![5]);
    match db.forward(&mut c, &odd, 1) {
        Err(VolticError::IncompatibleShapes { lhs, rhs, op }) => {
            assert_eq!(lhs, vec![5]);
            assert_eq!(rhs, vec![1, 4]);
            assert_eq!(op, "reshape: element count mismatch");
        },
        _ => panic!("expected a reshape error"),
    }
    let two = Var::with_shape(&mut c, vec![2, 4]);
    match db.differentiable_lookup(&mut c, &two) {
        Err(VolticError::IncompatibleShapes { lhs, rhs, op }) => {
            assert_eq!(lhs, vec![2, 2]);
            assert_eq!(rhs, vec![4, 3]);
            assert_eq!(op, "mat_mul: K mismatch");
        },
        _ => panic!("expected a value read error"),
    }
    let mut narrow = NeuralDatabase::new(&mut c, 4, 3, 3).unwrap();
    let q = Var::with_shape(&mut c, vec![2, 3]);
    match narrow.forward(&mut c, &q, 1) {
        Err(VolticError::IncompatibleShapes { lhs, rhs, op }) => {
            assert_eq!(lhs, vec![2, 3]);
            assert_eq!(rhs, vec![4, 2]);
            assert_eq!(op, "mat_mul: K mismatch");
        },
        _ => panic!("expected a key score error"),
    }
}

#[test]
fn rag_documents_are_padded_or_cut_token_ids() {
    let mut rag = RagHelper::new(100, 4, 2);
    rag.add_document("hello", &[5, 6]);
    rag.add_document("long", &[1, 2, 3, 4, 5]);
    assert_eq!(rag.document_chunks.len(), 2);
    assert_eq!(rag.document_chunks[0].text, "hello");
    assert_eq!(rag.document_chunks[0].embedding, vec![5, 6, 0, 0]);
    assert_eq!(rag.document_chunks[1].embedding, vec![1, 2, 3, 4]);
    assert_eq!(rag.embed_tokens(&[9]), vec![9, 0, 0, 0]);
    let mut c = Context::new();
    let q = Var::with_shape(&mut c, vec![3]);
    let e = rag.forward(&mut c, q).unwrap();
    assert_eq!(e.shape(&c), vec![3, 4]);
    assert_eq!(rag.parameters().len(), 1);
}

#[test]
fn bpe_files_give_ids_by_line() {
    let t = BpeTokenizer::from_contents("a\nb\r\n\nab\na\n", "a b\nbad\nx y z\nc d");
    assert_eq!(t.vocab.len(), 5);
    assert!(t.vocab[0].is_empty());
    assert_eq!(t.vocab[1], vec!['b']);
    assert!(t.vocab[2].is_empty());
    assert_eq!(t.vocab[4], vec!['a']);
    assert_eq!(t.vocab_size(), 3);
    assert_eq!(t.merges, vec![(vec!['a'], vec!['b']), (vec!['c'], vec!['d'])]);
    assert_eq!(t.decode(&[4, 1, 0, 7]), "ab");
}

#[test]
fn optimizer_targets_are_trainable_inputs_once() {
    let mut c = Context::new();
    let x = Var::with_shape(&mut c, vec![2, 3]);
    let w = Var::with_shape(&mut c, vec![3, 4]);
    let y = x.mat_mul(&mut c, w).unwrap();
    let v = Var::with_shape(&mut c, vec![4, 1]);
    let _z = y.mat_mul(&mut c, v).unwrap();
    let _again = x.mat_mul(&mut c, w).unwrap();
    let targets = c.optimizer_targets(&[w.id(), y.id(), x.id()]);
    assert_eq!(targets, vec![(x.id(), 6), (w.id(), 12), (y.id(), 8)]);
    assert!(c.optimizer_targets(&[]).is_empty());
}

#[test]
fn layer_norm_normalises_the_last_axis() {
    let mut c = Context::new();
    let x = Var::with_shape(&mut c, vec![2, 4]);
    let mut ln = LayerNorm::new(4);
    let y = ln.forward(&mut c, &x).unwrap();
    assert_eq!(y.shape(&c), vec![2, 4]);
    match &c.operations()[0] {
        Op::LayerNorm(p) => {
            assert_eq!((p.outer, p.reduce, p.inner), (2, 4, 1));
        },
        _ => panic!("expected a layer norm"),
    }
    assert_eq!(ln.parameters().len(), 2);
    let bad = Var::with_shape(&mut c, vec![2, 5]);
    assert!(matches!(ln.forward(&mut c, &bad), Err(VolticError::IncompatibleShapes { op: "layer_norm", .. })));
}

#[test]
fn batch_norm_keeps_the_shape() {
    let mut c = Context::new();
    let x = Var::with_shape(&mut c, vec![2, 3, 4, 4]);
    let mut bn = BatchNorm::new(3);
    let y = bn.forward(&mut c, &x).unwrap();
    assert_eq!(y.shape(&c), vec![2, 3, 4, 4]);
    assert_eq!(bn.parameters().len(), 4);
    let steps = bn.init();
    assert_eq!(steps.len(), 4);
    assert_eq!(steps[3].fill, Fill::Ones { n: 3 });
    let flat = Var::with_shape(&mut c, vec![2, 3]);
    assert!(matches!(bn.forward(&mut c, &flat), Err(VolticError::InvalidDimension { dim: 2, ndim: 4 })));
}
