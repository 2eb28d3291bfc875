//! The library's error type.
use vstd::prelude::*;

verus! {

/// Errors raised while building or running a computation graph.
#[derive(Debug)]
pub enum VolticError {
    // Shape / Dimension errors
    ShapeMismatch { expected: Vec<u32>, got: Vec<u32> },
    IncompatibleShapes { lhs: Vec<u32>, rhs: Vec<u32>, op: &'static str },
    InvalidDimension { dim: usize, ndim: usize },
    EmptyShape,
    // Matrix errors
    MatrixNotSquare { rows: u32, cols: u32 },
    MatrixMultiplyMismatch { lhs: (u32, u32), rhs: (u32, u32) },
    // Index / Bounds errors
    IndexOutOfBounds { index: Vec<u32>, shape: Vec<u32> },
    // GPU errors
    GpuNotAvailable,
    GpuBufferError(String),
    ShaderCompileError(String),
    // General
    NotImplemented(&'static str),
    Internal(String),
}

impl Clone for VolticError {
    fn clone(&self) -> (r: Self) {
        match self {
            VolticError::ShapeMismatch { expected, got } => VolticError::ShapeMismatch {
                expected: expected.clone(),
                got: got.clone(),
            },
            VolticError::IncompatibleShapes { lhs, rhs, op } => VolticError::IncompatibleShapes {
                lhs: lhs.clone(),
                rhs: rhs.clone(),
                op: *op,
            },
            VolticError::InvalidDimension { dim, ndim } => VolticError::InvalidDimension {
                dim: *dim,
                ndim: *ndim,
            },
            VolticError::EmptyShape => VolticError::EmptyShape,
            VolticError::MatrixNotSquare { rows, cols } => VolticError::MatrixNotSquare {
                rows: *rows,
                cols: *cols,
            },
            VolticError::MatrixMultiplyMismatch { lhs, rhs } => VolticError::MatrixMultiplyMismatch {
                lhs: (lhs.0, lhs.1),
                rhs: (rhs.0, rhs.1),
            },
            VolticError::IndexOutOfBounds { index, shape } => VolticError::IndexOutOfBounds {
                index: index.clone(),
                shape: shape.clone(),
            },
            VolticError::GpuNotAvailable => VolticError::GpuNotAvailable,
            VolticError::GpuBufferError(m) => VolticError::GpuBufferError(m.clone()),
            VolticError::ShaderCompileError(m) => VolticError::ShaderCompileError(m.clone()),
            VolticError::NotImplemented(f) => VolticError::NotImplemented(*f),
            VolticError::Internal(m) => VolticError::Internal(m.clone()),
        }
    }
}

/// Result type used throughout the library.
pub type Result<T> = core::result::Result<T, VolticError>;

/// The decimal digits of `n`.
pub open spec fn decimal(n: nat) -> Seq<char>
    decreases n,
{
    if n < 10 {
        seq![((n + 48) as u32) as char]
    } else {
        decimal(n / 10).push((((n % 10) + 48) as u32) as char)
    }
}

/// The decimal digits of `n`.
pub fn decimal_chars(n: u64) -> (r: Vec<char>)
    ensures
        r@ == decimal(n as nat),
    decreases n,
{
    let d = (n % 10) as u8;
    let c = (d + 48) as char;
    assert(c == (((n % 10) + 48) as u32) as char);
    if n < 10 {
        assert(n % 10 == n);
        vec![c]
    } else {
        let mut v = decimal_chars(n / 10);
        v.push(c);
        v
    }
}

/// `a`, the decimal digits of `x`, `b`, the decimal digits of `y`, then `c`.
pub(crate) fn two_numbers_message(a: &str, x: u64, b: &str, y: u64, c: &str) -> (r: String)
    ensures
        r@ == a@ + decimal(x as nat) + b@ + decimal(y as nat) + c@,
{
    let mut v = crate::tokenizers::chars_of(a);
    let mut dx = decimal_chars(x);
    v.append(&mut dx);
    let mut vb = crate::tokenizers::chars_of(b);
    v.append(&mut vb);
    let mut dy = decimal_chars(y);
    v.append(&mut dy);
    let mut vc = crate::tokenizers::chars_of(c);
    v.append(&mut vc);
    crate::tokenizers::string_of(v.as_slice())
}
} // verus!
