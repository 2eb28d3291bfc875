use voltic::{Context, Conv2d, Downsample, Embedding, Fill, GptConfig, InitStep, Linear, Op, TransposedConv2d, Upsample, Var, VolticError};

#[test]
fn linear_creates_weights_and_bias() {
    let mut c = Context::new();
    let x = Var::with_shape(&mut c, vec![2, 5, 3]);
    let mut l = Linear::new(4);
    let y = l.forward(&mut c, &x).unwrap();
    assert_eq!(y.shape(&c), vec![2, 5, 4]);
    let w = l.weights.unwrap();
    let b = l.bias.unwrap();
    assert_eq!(w.shape(&c), vec![3, 4]);
    assert_eq!(b.shape(&c), vec![4]);
    assert_eq!(l.parameters(), vec![w, b]);
    assert_eq!(c.operations().len(), 2);
    assert!(matches!(c.operations()[0], Op::MatMul(_)));
    assert!(matches!(c.operations()[1], Op::Add(_)));
    // the second call reuses the weights
    let y2 = l.forward(&mut c, &x).unwrap();
    assert_eq!(y2.shape(&c), vec![2, 5, 4]);
    assert_eq!(l.weights, Some(w));
    let steps = l.init(&c).unwrap();
    assert_eq!(
        steps,
        vec![InitStep { var: w, fill: Fill::Xavier { fan_in: 3, n: 12 } }, InitStep { var: b, fill: Fill::Zeros { n: 4 } }]
    );
}

#[test]
fn linear_without_bias() {
    let mut c = Context::new();
    let x = Var::with_shape(&mut c, vec![2, 3]);
    let mut l = Linear::new(7).bias(false);
    let y = l.forward(&mut c, &x).unwrap();
    assert_eq!(y.shape(&c), vec![2, 7]);
    assert!(l.bias.is_none());
    assert_eq!(l.parameters().len(), 1);
    assert_eq!(c.operations().len(), 1);
}

#[test]
fn linear_errors() {
    let mut c = Context::new();
    let mut l = Linear::new(4);
    let unshaped = Var::new(&mut c);
    assert!(matches!(l.forward(&mut c, &unshaped), Err(VolticError::EmptyShape)));
    let v = Var::with_shape(&mut c, vec![3]);
    assert!(matches!(l.forward(&mut c, &v), Err(VolticError::InvalidDimension { dim: 1, ndim: 2 })));
    // the weights now expect 3 inputs
    let other = Var::with_shape(&mut c, vec![2, 5]);
    assert!(matches!(
        l.forward(&mut c, &other),
        Err(VolticError::IncompatibleShapes { op: "mat_mul: K mismatch", .. })
    ));
}

#[test]
fn embedding_output_shape() {
    let mut c = Context::new();
    let ids = Var::with_shape(&mut c, vec![7]);
    let mut e = Embedding::new(100, 16);
    let out = e.forward(&mut c, &ids).unwrap();
    assert_eq!(out.shape(&c), vec![7, 16]);
    assert_eq!(e.weights.unwrap().shape(&c), vec![100, 16]);
    assert_eq!(e.parameters().len(), 1);
    match &c.operations()[0] {
        Op::Embedding(p) => assert_eq!((p.seq_len, p.d_model), (7, 16)),
        _ => panic!("expected embedding"),
    }
    let bad = Var::with_shape(&mut c, vec![2, 7]);
    assert!(matches!(e.forward(&mut c, &bad), Err(VolticError::InvalidDimension { dim: 2, ndim: 1 })));
}

#[test]
fn conv2d_output_shape() {
    let mut c = Context::new();
    let x = Var::with_shape(&mut c, vec![2, 1, 4, 4]);
    let mut conv = Conv2d::new(1, 2).stride(1).padding(1);
    let out = conv.forward(&mut c, &x).unwrap();
    // (4 + 2 - 2) / 1 + 1 = 5
    assert_eq!(out.shape(&c), vec![2, 1, 5, 5]);
    let w = conv.weights.unwrap();
    assert_eq!(w.shape(&c), vec![1, 4]);
    assert_eq!(conv.parameters().len(), 2);
    assert!(matches!(c.operations()[0], Op::Im2Col(_)));
    assert_eq!(c.operations().len(), 5);
    let steps = conv.init(&c).unwrap();
    assert_eq!(steps[0], InitStep { var: w, fill: Fill::Xavier { fan_in: 4, n: 4 } });
    assert_eq!(steps[1].fill, Fill::Zeros { n: 1 });
}

#[test]
fn conv2d_stride_two() {
    let mut c = Context::new();
    let x = Var::with_shape(&mut c, vec![1, 3, 8, 8]);
    let mut conv = Conv2d::new(4, 3).stride(2).padding(1);
    let out = conv.forward(&mut c, &x).unwrap();
    // (8 + 2 - 3) / 2 + 1 = 4
    assert_eq!(out.shape(&c), vec![1, 4, 4, 4]);
    let v = Var::with_shape(&mut c, vec![1, 3, 8]);
    assert!(matches!(conv.forward(&mut c, &v), Err(VolticError::InvalidDimension { dim: 3, ndim: 4 })));
    let no_bias = Conv2d::new(2, 3).no_bias();
    assert!(no_bias.bias.is_none());
}

#[test]
fn transposed_conv2d_output_shape() {
    let mut c = Context::new();
    let x = Var::with_shape(&mut c, vec![1, 2, 4, 4]);
    let mut t = TransposedConv2d::new(3, 2).stride(2).padding(0).output_padding(1);
    let out = t.forward(&mut c, &x).unwrap();
    // (4 - 1) * 2 - 0 + 2 = 8
    assert_eq!(out.shape(&c), vec![1, 3, 8, 8]);
    assert_eq!(t.weights.unwrap().shape(&c), vec![2, 12]);
    assert!(c.operations().is_empty());
    let steps = t.init(&c).unwrap();
    assert_eq!(steps[0].fill, Fill::Xavier { fan_in: 2, n: 24 });
}

#[test]
fn upsample_by_one_and_two() {
    let mut c = Context::new();
    let x = Var::with_shape(&mut c, vec![1, 1, 2, 2]);
    let same = Upsample::new(1).forward(&mut c, &x).unwrap();
    assert_eq!(same.shape(&c), vec![1, 1, 2, 2]);
    // a real scale changes the element count, which a reshape cannot do
    assert!(matches!(
        Upsample::new(2).forward(&mut c, &x),
        Err(VolticError::IncompatibleShapes { op: "reshape: element count mismatch", .. })
    ));
}

#[test]
fn downsample_by_one_and_two() {
    let mut c = Context::new();
    let x = Var::with_shape(&mut c, vec![1, 1, 4, 4]);
    let same = Downsample::new(1).forward(&mut c, &x).unwrap();
    assert_eq!(same.shape(&c), vec![1, 1, 4, 4]);
    assert!(Downsample::new(2).forward(&mut c, &x).is_err());
}

#[test]
fn gpt_config_ff_dim() {
    let mut cfg = GptConfig { vocab_size: 10, seq_len: 4, d_model: 8, num_heads: 2, num_layers: 1, ff_dim: None };
    assert_eq!(cfg.ff_dim(), 32);
    cfg.ff_dim = Some(20);
    assert_eq!(cfg.ff_dim(), 20);
}

#[test]
fn conv2d_parameters_survive_a_second_forward() {
    let mut c = Context::new();
    let x = Var::with_shape(&mut c, vec![2, 3, 5, 5]);
    let mut conv = Conv2d::new(4, 3).padding(1);
    assert!(conv.parameters().is_empty());
    conv.forward(&mut c, &x).unwrap();
    let params = conv.parameters();
    assert_eq!(params.len(), 2);
    assert_eq!(c.shape(params[0].id()), Some(vec![4, 27]));
    assert_eq!(c.shape(params[1].id()), Some(vec![4]));
    conv.forward(&mut c, &x).unwrap();
    assert_eq!(conv.parameters(), params);
}
