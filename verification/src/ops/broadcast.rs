//! Broadcast binary ops (add, sub, mul, div) and their GPU uniform layout.
use vstd::prelude::*;

use crate::ops::broadcast_shape::BroadcastShape;
use crate::var::ID;

verus! {

/// The uniform block a broadcast binary kernel reads: up to 8 axes, each
/// vector packed as two rows of four.
#[derive(Debug, Clone, Copy)]
pub struct BinaryDims {
    pub rank: u32,
    pub total: u32,
    pub _pad0: u32,
    pub _pad1: u32,
    pub out_shape: [[u32; 4]; 2],
    pub lhs_strides: [[u32; 4]; 2],
    pub rhs_strides: [[u32; 4]; 2],
}

/// Entry `i` of the first `count` values of `v`, 0 past them.
pub open spec fn lane_value(v: Seq<u32>, count: int, i: int) -> u32 {
    if i < count { v[i] } else { 0 }
}

/// `a` holds the first `count` values of `v` in row-major order, then zeros.
pub open spec fn packs(a: [[u32; 4]; 2], v: Seq<u32>, count: int) -> bool {
    forall|j: int, k: int|
        0 <= j < 2 && 0 <= k < 4 ==> #[trigger] a[j][k] == lane_value(v, count, 4 * j + k)
}

fn lane(v: &Vec<u32>, count: usize, i: usize) -> (r: u32)
    requires
        count <= v@.len(),
    ensures
        r == lane_value(v@, count as int, i as int),
{
    if i < count {
        v[i]
    } else {
        0
    }
}

fn pack8(v: &Vec<u32>, count: usize) -> (a: [[u32; 4]; 2])
    requires
        count <= v@.len(),
    ensures
        packs(a, v@, count as int),
{
    let a = [
        [lane(v, count, 0), lane(v, count, 1), lane(v, count, 2), lane(v, count, 3)],
        [lane(v, count, 4), lane(v, count, 5), lane(v, count, 6), lane(v, count, 7)],
    ];
    assert forall|j: int, k: int| 0 <= j < 2 && 0 <= k < 4 implies #[trigger] a[j][k]
        == lane_value(v@, count as int, 4 * j + k) by {
        if j == 0 {
            if k == 0 {
            } else if k == 1 {
            } else if k == 2 {
            } else {
            }
        } else {
            if k == 0 {
            } else if k == 1 {
            } else if k == 2 {
            } else {
            }
        }
    }
    a
}

impl BinaryDims {
    /// Packs a broadcast description into the kernel's uniform layout;
    /// axes past the eighth are dropped.
    pub fn from_broadcast(bs: &BroadcastShape) -> (r: Self)
        requires
            bs.out_shape@.len() >= bs.rank || bs.out_shape@.len() >= 8,
            bs.lhs_strides@.len() >= bs.rank || bs.lhs_strides@.len() >= 8,
            bs.rhs_strides@.len() >= bs.rank || bs.rhs_strides@.len() >= 8,
        ensures
            r.rank == bs.rank as u32,
            r.total == bs.total,
            r._pad0 == 0,
            r._pad1 == 0,
            packs(r.out_shape, bs.out_shape@, if bs.rank < 8 { bs.rank as int } else { 8 }),
            packs(r.lhs_strides, bs.lhs_strides@, if bs.rank < 8 { bs.rank as int } else { 8 }),
            packs(r.rhs_strides, bs.rhs_strides@, if bs.rank < 8 { bs.rank as int } else { 8 }),
    {
        let count = if bs.rank < 8 {
            bs.rank
        } else {
            8
        };
        BinaryDims {
            rank: bs.rank as u32,
            total: bs.total,
            _pad0: 0,
            _pad1: 0,
            out_shape: pack8(&bs.out_shape, count),
            lhs_strides: pack8(&bs.lhs_strides, count),
            rhs_strides: pack8(&bs.rhs_strides, count),
        }
    }
}

/// `lhs + rhs` with broadcasting described by `bs`.
#[derive(Debug)]
pub struct AddOp {
    pub lhs: ID,
    pub rhs: ID,
    pub output: ID,
    pub bs: BroadcastShape,
}

/// `lhs - rhs` with broadcasting described by `bs`.
#[derive(Debug)]
pub struct SubOp {
    pub lhs: ID,
    pub rhs: ID,
    pub output: ID,
    pub bs: BroadcastShape,
}

/// `lhs * rhs` with broadcasting described by `bs`.
#[derive(Debug)]
pub struct MulOp {
    pub lhs: ID,
    pub rhs: ID,
    pub output: ID,
    pub bs: BroadcastShape,
}

/// `lhs / rhs` with broadcasting described by `bs`.
#[derive(Debug)]
pub struct DivOp {
    pub lhs: ID,
    pub rhs: ID,
    pub output: ID,
    pub bs: BroadcastShape,
}

impl AddOp {
    pub fn new(lhs: ID, rhs: ID, output: ID, bs: BroadcastShape) -> (r: Self)
        ensures
            r == (AddOp { lhs, rhs, output, bs }),
    {
        AddOp { lhs, rhs, output, bs }
    }
}

impl SubOp {
    pub fn new(lhs: ID, rhs: ID, output: ID, bs: BroadcastShape) -> (r: Self)
        ensures
            r == (SubOp { lhs, rhs, output, bs }),
    {
        SubOp { lhs, rhs, output, bs }
    }
}

impl MulOp {
    pub fn new(lhs: ID, rhs: ID, output: ID, bs: BroadcastShape) -> (r: Self)
        ensures
            r == (MulOp { lhs, rhs, output, bs }),
    {
        MulOp { lhs, rhs, output, bs }
    }
}

impl DivOp {
    pub fn new(lhs: ID, rhs: ID, output: ID, bs: BroadcastShape) -> (r: Self)
        ensures
            r == (DivOp { lhs, rhs, output, bs }),
    {
        DivOp { lhs, rhs, output, bs }
    }
}

} // verus!
