use voltic::ops::plan::div_ceil_256;
use voltic::{reduce_plan, BroadcastShape, Context, Op, ReduceStep, Var};

#[test]
fn workgroup_counts_round_up() {
    assert_eq!(div_ceil_256(0), 0);
    assert_eq!(div_ceil_256(1), 1);
    assert_eq!(div_ceil_256(256), 1);
    assert_eq!(div_ceil_256(257), 2);
    assert_eq!(div_ceil_256(u32::MAX), 16777216);
}

#[test]
fn matmul_plan() {
    let mut c = Context::new();
    let a = Var::with_shape(&mut c, vec![3, 33, 20]);
    let b = Var::with_shape(&mut c, vec![20, 17]);
    a.mat_mul(&mut c, b).unwrap();
    let op = &c.operations()[0];
    assert_eq!(op.inputs(), vec![a.id(), b.id()]);
    assert_eq!(op.pipeline_keys(), vec!["matmul", "matmul_backward_input", "matmul_backward_weights"]);
    let f = op.forward_launches();
    assert_eq!(f.len(), 1);
    assert_eq!((f[0].key, f[0].x, f[0].y, f[0].z), ("matmul", 2, 3, 3));
    let bw = op.backward_launches();
    assert_eq!((bw[0].key, bw[0].x, bw[0].y, bw[0].z), ("matmul_backward_input", 2, 3, 3));
    assert_eq!((bw[1].key, bw[1].x, bw[1].y, bw[1].z), ("matmul_backward_weights", 2, 2, 3));
    let bufs = op.buffers_needed(&c);
    assert_eq!(bufs, vec![(a.id(), "grad", 3 * 33 * 20), (b.id(), "grad", 20 * 17), (bufs[2].0, "grad", 3 * 33 * 17)]);
    assert_eq!(op.infer_shape(&[]).unwrap(), vec![3, 33, 17]);
}

#[test]
fn softmax_plan() {
    let mut c = Context::new();
    let x = Var::with_shape(&mut c, vec![2, 300, 3]);
    x.softmax(&mut c, 1).unwrap();
    let op = &c.operations()[0];
    let f = op.forward_launches();
    // two chunks of 256 along the reduced axis for each of the 2 * 3 rows
    assert_eq!((f[0].key, f[0].x), ("softmax_pass1", 12));
    assert_eq!((f[1].key, f[1].x), ("softmax_pass2", 8));
    let bufs = op.buffers_needed(&c);
    assert_eq!(bufs[0].2, 1800);
    assert_eq!(bufs[1], (op.outputs()[0], "partial", 2 * 3 * 555 / 256));
    assert_eq!(op.infer_shape(&[vec![2, 300, 3]]).unwrap(), vec![2, 300, 3]);
}

#[test]
fn reshape_and_constant_launch_nothing() {
    let mut c = Context::new();
    let x = Var::with_shape(&mut c, vec![4]);
    x.reshape(&mut c, vec![2, 2]).unwrap();
    Var::scalar_slot(&mut c);
    for op in c.operations() {
        assert!(op.forward_launches().is_empty());
        assert!(op.backward_launches().is_empty());
    }
    assert!(c.operations()[0].pipeline_keys().is_empty());
    assert_eq!(c.operations()[1].infer_shape(&[]).unwrap(), vec![1]);
    assert!(c.operations()[1].inputs().is_empty());
}

#[test]
fn binary_backward_reduces_broadcast_axes() {
    let bs = BroadcastShape::infer(&[3, 5, 2, 1], &[5, 2]).unwrap();
    // the lhs was not broadcast: its gradient needs no reduction
    assert!(reduce_plan(&bs.out_shape, &bs.lhs_strides).is_empty());
    // the rhs was broadcast along axes 0 and 2 (stride 0): reduce axis 2, then axis 0
    let steps = reduce_plan(&bs.out_shape, &bs.rhs_strides);
    assert_eq!(
        steps,
        vec![
            ReduceStep { axis: 2, outer: 15, reduce: 2, inner: 1, n_chunks: 1, n_partials: 15, out_size: 15, last: false },
            ReduceStep { axis: 0, outer: 1, reduce: 3, inner: 5, n_chunks: 1, n_partials: 5, out_size: 5, last: true },
        ]
    );
}

#[test]
fn binary_plan() {
    let mut c = Context::new();
    let a = Var::with_shape(&mut c, vec![4, 8]);
    let b = Var::with_shape(&mut c, vec![8]);
    let s = a.add(&mut c, b);
    let op = &c.operations()[0];
    assert!(matches!(op, Op::Add(_)));
    assert_eq!(op.outputs(), vec![s.id()]);
    assert_eq!(op.pipeline_keys(), vec!["binary_add", "binary_add_backward", "reduce_sum_pass1", "reduce_sum_pass2"]);
    let bufs = op.buffers_needed(&c);
    assert_eq!(bufs.len(), 5);
    assert_eq!(bufs[1], (b.id(), "grad", 8));
    assert_eq!(bufs[4], (s.id(), "rhs_stage", 32));
    assert_eq!(op.backward_launches()[0].key, "binary_add_backward");
}
