use voltic::buffer_kind::{GRAD, LHS_STAGE, PARTIAL, PARTIAL_SUM, RHS_STAGE};
use voltic::dims::prods_fit;
use voltic::ops::bindings::Binding::{Dims, Training, Value};
use voltic::ops::plan::reduce_plan_checked;
use voltic::{reduce_plan, BpeTokenizer, BroadcastShape, Context, GroupSumOp, MatMulOp, Op, Tokenizer, Var, ID};

#[test]
fn matmul_binds_operands_output_and_sizes() {
    let mut c = Context::new();
    let a = Var::with_shape(&mut c, vec![4, 3]);
    let b = Var::with_shape(&mut c, vec![3, 5]);
    let out = a.mat_mul(&mut c, b).unwrap();
    let op = &c.operations()[0];
    assert_eq!(op.forward_bindings(), vec![vec![Value(a.id()), Value(b.id()), Value(out.id()), Dims]]);
    assert_eq!(
        op.backward_bindings(),
        vec![
            vec![Training(out.id(), GRAD), Value(b.id()), Training(a.id(), GRAD), Dims],
            vec![Training(out.id(), GRAD), Value(a.id()), Training(b.id(), GRAD), Dims],
        ]
    );
    assert_eq!(op.forward_bindings().len(), op.forward_launches().len());
    assert_eq!(op.backward_bindings().len(), op.backward_launches().len());
}

#[test]
fn relu_and_softmax_bindings() {
    let mut c = Context::new();
    let x = Var::with_shape(&mut c, vec![2, 3]);
    let r = x.relu(&mut c).unwrap();
    let s = r.softmax(&mut c, 1).unwrap();
    let ops = c.operations();
    assert_eq!(ops[0].forward_bindings(), vec![vec![Value(x.id()), Value(r.id())]]);
    // relu differentiates through its input
    assert_eq!(ops[0].backward_bindings(), vec![vec![Value(x.id()), Training(r.id(), GRAD), Training(x.id(), GRAD)]]);
    assert_eq!(
        ops[1].forward_bindings(),
        vec![
            vec![Value(r.id()), Training(s.id(), PARTIAL), Training(s.id(), PARTIAL_SUM), Dims],
            vec![Value(r.id()), Training(s.id(), PARTIAL), Training(s.id(), PARTIAL_SUM), Value(s.id()), Dims],
        ]
    );
    for op in ops {
        assert_eq!(op.forward_bindings().len(), op.forward_launches().len());
        assert_eq!(op.backward_bindings().len(), op.backward_launches().len());
    }
}

#[test]
fn broadcast_add_stages_gradients() {
    let mut c = Context::new();
    let a = Var::with_shape(&mut c, vec![2, 3]);
    let b = Var::with_shape(&mut c, vec![3]);
    let out = a.add(&mut c, b);
    let op = &c.operations()[0];
    assert_eq!(
        op.backward_bindings(),
        vec![vec![Training(out.id(), GRAD), Training(out.id(), LHS_STAGE), Training(out.id(), RHS_STAGE), Dims]]
    );
}

#[test]
fn reshape_binds_nothing() {
    let mut c = Context::new();
    let x = Var::with_shape(&mut c, vec![2, 3]);
    x.reshape(&mut c, vec![6]).unwrap();
    let op = &c.operations()[0];
    assert!(op.forward_bindings().is_empty());
    assert!(op.backward_bindings().is_empty());
}

#[test]
fn launch_checks() {
    let mut c = Context::new();
    let a = Var::with_shape(&mut c, vec![4, 3]);
    let b = Var::with_shape(&mut c, vec![3, 5]);
    a.mat_mul(&mut c, b).unwrap();
    assert!(c.operations()[0].launches_ok());
    assert!(c.operations()[0].buffers_ok(&c));
    let wide = Op::MatMul(MatMulOp { lhs: ID(0), rhs: ID(1), output: ID(2), batch: 1, m: 1, k: 1, n: u32::MAX, rhs_batched: 0 });
    assert!(!wide.launches_ok());
    let no_groups = Op::GroupSum(GroupSumOp { input: ID(0), output: ID(1), n: 8, group_size: 0 });
    assert!(!no_groups.launches_ok());
}

#[test]
fn countable_shapes() {
    let mut c = Context::new();
    let small = Var::with_shape(&mut c, vec![2, 3]);
    let huge = Var::with_shape(&mut c, vec![65536, 65536]);
    assert!(c.has_countable_shape(small.id()));
    assert!(!c.has_countable_shape(huge.id()));
    assert!(!c.has_countable_shape(ID(99)));
    assert!(prods_fit(&[65535, 65537]));
    assert!(!prods_fit(&[65536, 65536]));
    assert!(prods_fit(&[]));
}

#[test]
fn checked_reduce_plan() {
    let bs = BroadcastShape::infer(&[3, 5, 2, 1], &[5, 2]).unwrap();
    assert_eq!(
        reduce_plan_checked(&bs.out_shape, &bs.rhs_strides),
        Some(reduce_plan(&bs.out_shape, &bs.rhs_strides))
    );
    assert_eq!(reduce_plan_checked(&[65536, 256, 65536], &[1, 0, 1]), None);
    assert_eq!(reduce_plan_checked(&[2, 3], &[3, 1]), Some(vec![]));
}

#[test]
fn bpe_train_checked_refuses_unbounded_targets() {
    assert!(BpeTokenizer::train_checked("ab", 300).is_none());
    let t = BpeTokenizer::train_checked("a b", 300).unwrap();
    assert_eq!(t.vocab_size(), 256);
    let t = BpeTokenizer::train_checked("ab ab", 257).unwrap();
    assert_eq!(t.vocab_size(), 257);
    assert_eq!(t.merges, vec![(vec!['a'], vec!['b'])]);
}
