use voltic::BroadcastShape;

#[test]
fn exact_match() {
    let bs = BroadcastShape::infer(&[3, 4], &[3, 4]).unwrap();
    assert_eq!(bs.out_shape, vec![3, 4]);
    assert_eq!(bs.lhs_strides, vec![4, 1]);
    assert_eq!(bs.rhs_strides, vec![4, 1]);
}

#[test]
fn trailing_broadcast() {
    // [3,5,2,1] + [5,2]: the rightmost match puts the rhs at axes 1 and 3
    let bs = BroadcastShape::infer(&[3, 5, 2, 1], &[5, 2]).unwrap();
    assert_eq!(bs.out_shape, vec![3, 5, 2, 1]);
    assert_eq!(bs.lhs_strides, vec![10, 2, 1, 1]);
    assert_eq!(bs.rhs_strides, vec![0, 2, 0, 1]);
}

#[test]
fn scalar_broadcast() {
    let bs = BroadcastShape::infer(&[4, 8], &[1]).unwrap();
    assert_eq!(bs.out_shape, vec![4, 8]);
    assert_eq!(bs.lhs_strides, vec![8, 1]);
    assert_eq!(bs.rhs_strides, vec![0, 1]);
}

#[test]
fn rightmost_ambiguous() {
    let bs = BroadcastShape::infer(&[2, 2], &[2]).unwrap();
    assert_eq!(bs.out_shape, vec![2, 2]);
    assert_eq!(bs.lhs_strides, vec![2, 1]);
    assert_eq!(bs.rhs_strides, vec![0, 1]);
}

#[test]
fn explicit_dims() {
    let bs = BroadcastShape::with_dims(&[3, 5, 2, 1], &[5, 2], &[0, 3]).unwrap();
    assert_eq!(bs.out_shape, vec![3, 5, 2, 1]);
    assert_eq!(bs.lhs_strides, vec![10, 2, 1, 1]);
    assert_eq!(bs.rhs_strides, vec![0, 2, 1, 0]);
}

#[test]
fn incompatible_shapes() {
    assert!(BroadcastShape::infer(&[3, 4], &[5]).is_err());
}

#[test]
fn infer_swaps_to_longer_operand() {
    // the longer shape is the output even when it is on the right
    let bs = BroadcastShape::infer(&[4], &[2, 4]).unwrap();
    assert_eq!(bs.out_shape, vec![2, 4]);
    assert_eq!(bs.rank, 2);
    assert_eq!(bs.total, 8);
}

#[test]
fn with_dims_rejects_mismatch() {
    assert!(BroadcastShape::with_dims(&[3, 4], &[5], &[0]).is_err());
}

#[test]
fn row_major_strides_of_shape() {
    assert_eq!(voltic::row_major_strides(&[2, 3, 4]), vec![12, 4, 1]);
    assert_eq!(voltic::row_major_strides(&[]), Vec::<u32>::new());
}

#[test]
fn binary_dims_pack_lanes() {
    let bs = BroadcastShape::infer(&[3, 5, 2, 1], &[5, 2]).unwrap();
    let d = voltic::BinaryDims::from_broadcast(&bs);
    assert_eq!(d.rank, 4);
    assert_eq!(d.total, 30);
    assert_eq!(d.out_shape, [[3, 5, 2, 1], [0, 0, 0, 0]]);
    assert_eq!(d.lhs_strides, [[10, 2, 1, 1], [0, 0, 0, 0]]);
    assert_eq!(d.rhs_strides, [[0, 2, 0, 1], [0, 0, 0, 0]]);
}
