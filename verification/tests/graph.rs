use voltic::{Context, Op, Var, VolticError, ID};

fn ctx() -> Context {
    Context::new()
}

#[test]
fn ids_are_handed_out_in_order() {
    let mut c = ctx();
    assert_eq!(ID::next(&mut c), ID(0));
    assert_eq!(ID::next(&mut c), ID(1));
    let v = Var::new(&mut c);
    assert_eq!(v.id(), ID(2));
    assert_eq!(v.next().id(), ID(3));
    assert_eq!(v.prev().id(), ID(1));
    assert!(c.shape(v.id()).is_none());
}

#[test]
fn with_shape_records_the_shape() {
    let mut c = ctx();
    let v = Var::with_shape(&mut c, vec![2, 3]);
    assert_eq!(v.shape(&c), vec![2, 3]);
    assert_eq!(c.shape_total(v.id()), Some(6));
    assert_eq!(c.shapes_count(), 1);
    assert!(c.operations().is_empty());
}

#[test]
fn activations_keep_the_shape() {
    let mut c = ctx();
    let x = Var::with_shape(&mut c, vec![2, 5]);
    let y = x.tanh(&mut c).unwrap();
    let z = y.relu(&mut c).unwrap().sigmoid(&mut c).unwrap().gelu(&mut c).unwrap().exp(&mut c).unwrap();
    assert_eq!(z.shape(&c), vec![2, 5]);
    assert_eq!(c.operations().len(), 5);
    match &c.operations()[0] {
        Op::Tanh(p) => {
            assert_eq!(p.input, x.id());
            assert_eq!(p.output, y.id());
            assert_eq!(p.n, 10);
        },
        _ => panic!("expected tanh"),
    }
}

#[test]
fn unary_op_on_unshaped_variable_fails() {
    let mut c = ctx();
    let x = Var::new(&mut c);
    assert!(matches!(x.tanh(&mut c), Err(VolticError::EmptyShape)));
    assert!(c.operations().is_empty());
}

#[test]
fn mat_mul_shapes() {
    let mut c = ctx();
    let a = Var::with_shape(&mut c, vec![2, 3, 4]);
    let b = Var::with_shape(&mut c, vec![4, 5]);
    let out = a.mat_mul(&mut c, b).unwrap();
    assert_eq!(out.shape(&c), vec![2, 3, 5]);
    match &c.operations()[0] {
        Op::MatMul(p) => {
            assert_eq!((p.batch, p.m, p.k, p.n, p.rhs_batched), (2, 3, 4, 5, 0));
        },
        _ => panic!("expected mat_mul"),
    }
}

#[test]
fn mat_mul_errors() {
    let mut c = ctx();
    let a = Var::with_shape(&mut c, vec![2, 3]);
    let b = Var::with_shape(&mut c, vec![4, 5]);
    assert!(matches!(
        a.mat_mul(&mut c, b),
        Err(VolticError::IncompatibleShapes { op: "mat_mul: K mismatch", .. })
    ));
    let v = Var::with_shape(&mut c, vec![3]);
    assert!(matches!(a.mat_mul(&mut c, v), Err(VolticError::InvalidDimension { dim: 1, ndim: 2 })));
    let l = Var::with_shape(&mut c, vec![2, 2, 3]);
    let r = Var::with_shape(&mut c, vec![3, 3, 4]);
    assert!(matches!(
        l.mat_mul(&mut c, r),
        Err(VolticError::IncompatibleShapes { op: "mat_mul: batch dims mismatch", .. })
    ));
}

#[test]
fn reshape_and_flatten() {
    let mut c = ctx();
    let x = Var::with_shape(&mut c, vec![2, 3, 4]);
    let y = x.reshape(&mut c, vec![6, 4]).unwrap();
    assert_eq!(y.shape(&c), vec![6, 4]);
    let f = x.flatten(&mut c).unwrap();
    assert_eq!(f.shape(&c), vec![24]);
    assert!(matches!(
        x.reshape(&mut c, vec![5, 5]),
        Err(VolticError::IncompatibleShapes { op: "reshape: element count mismatch", .. })
    ));
}

#[test]
fn permute_and_transpose() {
    let mut c = ctx();
    let x = Var::with_shape(&mut c, vec![2, 3, 4]);
    let p = x.permute(&mut c, &[2, 0, 1]).unwrap();
    assert_eq!(p.shape(&c), vec![4, 2, 3]);
    let t = x.transpose(&mut c, 0, 2).unwrap();
    assert_eq!(t.shape(&c), vec![4, 3, 2]);
    assert!(x.permute(&mut c, &[0, 0, 1]).is_err());
    assert!(matches!(x.permute(&mut c, &[0, 1]), Err(VolticError::InvalidDimension { dim: 2, ndim: 3 })));
    assert!(x.transpose(&mut c, 0, 3).is_err());
}

#[test]
fn softmax_layout() {
    let mut c = ctx();
    let x = Var::with_shape(&mut c, vec![2, 3, 4]);
    let s = x.softmax(&mut c, 1).unwrap();
    assert_eq!(s.shape(&c), vec![2, 3, 4]);
    match &c.operations()[0] {
        Op::Softmax(p) => assert_eq!((p.outer, p.reduce, p.inner), (2, 3, 4)),
        _ => panic!("expected softmax"),
    }
    assert!(matches!(x.softmax(&mut c, 3), Err(VolticError::InvalidDimension { dim: 3, ndim: 3 })));
}

#[test]
fn group_ops() {
    let mut c = ctx();
    let x = Var::with_shape(&mut c, vec![6]);
    assert_eq!(x.group_mul(&mut c, 3).unwrap().shape(&c), vec![2]);
    assert_eq!(x.group_add(&mut c, 2).unwrap().shape(&c), vec![3]);
    assert_eq!(x.group_max(&mut c, 6).unwrap().shape(&c), vec![1]);
    assert!(x.group_add(&mut c, 4).is_err());
}

#[test]
fn binary_ops_broadcast() {
    let mut c = ctx();
    let a = Var::with_shape(&mut c, vec![4, 8]);
    let b = Var::with_shape(&mut c, vec![8]);
    let s = a.add(&mut c, b);
    assert_eq!(s.shape(&c), vec![4, 8]);
    let m = b.mul_safe(&mut c, a).unwrap();
    assert_eq!(m.shape(&c), vec![4, 8]);
    let bad = Var::with_shape(&mut c, vec![3]);
    assert!(matches!(a.sub_safe(&mut c, bad), Err(VolticError::IncompatibleShapes { op: "sub", .. })));
}

#[test]
fn bias_ops() {
    let mut c = ctx();
    let a = Var::with_shape(&mut c, vec![2, 3]);
    let b = Var::with_shape(&mut c, vec![3]);
    let out = a.bias_add(&mut c, b);
    assert_eq!(out.shape(&c), vec![2, 3]);
    match c.operations().last().unwrap() {
        Op::Add(p) => assert_eq!(p.bs.rhs_strides, vec![0, 1]),
        _ => panic!("expected add"),
    }
    let out = a.add_bc(&mut c, &b, &[0]);
    assert_eq!(out.shape(&c), vec![2, 3]);
}

#[test]
fn mse_flattens() {
    let mut c = ctx();
    let a = Var::with_shape(&mut c, vec![2, 3]);
    let b = Var::with_shape(&mut c, vec![2, 3]);
    assert_eq!(a.mse(&mut c, b).unwrap().shape(&c), vec![6]);
    let d = Var::with_shape(&mut c, vec![3, 2]);
    assert!(matches!(a.mse(&mut c, d), Err(VolticError::IncompatibleShapes { op: "mse", .. })));
}

#[test]
fn argmax_picks_first_largest() {
    let mut c = ctx();
    let x = Var::with_shape(&mut c, vec![2, 3]);
    // rows [1, 5, 5] and [7, 2, 0]
    let keys = [1, 5, 5, 7, 2, 0];
    assert_eq!(x.argmax(&c, 1, &keys).unwrap(), vec![1, 0]);
    // columns
    assert_eq!(x.argmax(&c, 0, &keys).unwrap(), vec![1, 0, 0]);
    assert!(x.argmax(&c, 2, &keys).is_err());
}

#[test]
fn causal_mask_pattern() {
    let mut c = ctx();
    let m = Var::with_shape(&mut c, vec![3, 3]);
    let mask = m.load_causal_mask(&c).unwrap();
    assert_eq!(mask, vec![vec![true, false, false], vec![true, true, false], vec![true, true, true]]);
    let r = Var::with_shape(&mut c, vec![2, 3]);
    assert!(matches!(
        r.load_causal_mask(&c),
        Err(VolticError::IncompatibleShapes { op: "load_causal_mask: expected square 2D tensor", .. })
    ));
}

#[test]
fn scalar_slot_is_a_constant() {
    let mut c = ctx();
    let s = Var::scalar_slot(&mut c);
    assert_eq!(s.shape(&c), vec![1]);
    assert!(matches!(c.operations()[0], Op::Constant(_)));
}

#[test]
fn clear_and_reset() {
    let mut c = ctx();
    let x = Var::with_shape(&mut c, vec![2]);
    x.tanh(&mut c).unwrap();
    c.clear();
    assert!(c.operations().is_empty());
    assert_eq!(c.shapes_count(), 2);
    c.reset();
    assert_eq!(c.shapes_count(), 0);
    let old = c.insert_shape(x.id(), vec![4]);
    assert!(old.is_none());
    assert_eq!(c.insert_shape(x.id(), vec![5]), Some(vec![4]));
}

#[test]
fn collect_persistent_follows_inputs() {
    let mut c = ctx();
    let w = Var::with_shape(&mut c, vec![3, 2]);
    let x = Var::with_shape(&mut c, vec![4, 3]);
    let unused = Var::with_shape(&mut c, vec![2]);
    let y = x.mat_mul(&mut c, w).unwrap();
    let z = y.tanh(&mut c).unwrap();
    let trainable = [w.id(), unused.id(), z.id()];
    let found = c.collect_persistent(&[z], Some(&trainable));
    // z is visited first, then y, then its inputs (w is popped before x)
    assert_eq!(found, vec![z, w]);
    assert!(c.collect_persistent(&[z], None).is_empty());
    let only_start = c.collect_persistent(&[unused], Some(&trainable));
    assert_eq!(only_start, vec![unused]);
}

#[test]
fn argmax_fits_needs_a_key_per_element() {
    let mut c = Context::new();
    let x = Var::with_shape(&mut c, vec![2, 3]);
    assert!(x.argmax_fits(&c, 1, 6));
    assert!(!x.argmax_fits(&c, 1, 5));
    // an axis out of range is answered by argmax itself, with its error
    assert!(x.argmax_fits(&c, 2, 0));
    let huge = Var::with_shape(&mut c, vec![4_000_000_000, 4_000_000_000, 4_000_000_000, 2]);
    assert!(!huge.argmax_fits(&c, 3, usize::MAX));
}
