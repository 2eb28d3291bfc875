//! Unfolding of convolution windows into the rows of a matrix.
use vstd::prelude::*;

use crate::var::ID;

verus! {

/// Rearranges the `kernel_size x kernel_size` windows of a
/// `[batch, channels, height, width]` input into rows.
#[derive(Debug)]
pub struct Im2ColOp {
    pub input: ID,
    pub output: ID,
    pub batch: u32,
    pub channels: u32,
    pub height: u32,
    pub width: u32,
    pub kernel_size: u32,
    pub stride: u32,
    pub padding: u32,
    pub out_height: u32,
    pub out_width: u32,
}

/// Spatial output size of a convolution:
/// `(size + 2 * padding - kernel_size) / stride + 1`.
pub open spec fn conv_out(size: u32, kernel_size: u32, stride: u32, padding: u32) -> int {
    (size + 2 * padding - kernel_size) / (stride as int) + 1
}

/// `conv_out` is computed without overflow, underflow or division by zero.
pub open spec fn conv_out_ok(size: u32, kernel_size: u32, stride: u32, padding: u32) -> bool {
    &&& size + 2 * padding <= u32::MAX
    &&& size + 2 * padding >= kernel_size
    &&& stride > 0
    &&& conv_out(size, kernel_size, stride, padding) <= u32::MAX
}

/// `(size + 2 * padding - kernel_size) / stride + 1` in `u32` arithmetic.
pub fn conv_output_size(size: u32, kernel_size: u32, stride: u32, padding: u32) -> (r: u32)
    requires
        conv_out_ok(size, kernel_size, stride, padding),
    ensures
        r == conv_out(size, kernel_size, stride, padding),
{
    let span = size + 2 * padding - kernel_size;
    assert(span / stride <= span) by (nonlinear_arith)
        requires
            stride > 0,
    ;
    span / stride + 1
}

impl Im2ColOp {
    pub fn new(
        input: ID,
        output: ID,
        batch: u32,
        channels: u32,
        height: u32,
        width: u32,
        kernel_size: u32,
        stride: u32,
        padding: u32,
    ) -> (r: Self)
        requires
            conv_out_ok(height, kernel_size, stride, padding),
            conv_out_ok(width, kernel_size, stride, padding),
        ensures
            r == (Im2ColOp {
                input,
                output,
                batch,
                channels,
                height,
                width,
                kernel_size,
                stride,
                padding,
                out_height: conv_out(height, kernel_size, stride, padding) as u32,
                out_width: conv_out(width, kernel_size, stride, padding) as u32,
            }),
    {
        let out_height = conv_output_size(height, kernel_size, stride, padding);
        let out_width = conv_output_size(width, kernel_size, stride, padding);
        Im2ColOp {
            input,
            output,
            batch,
            channels,
            height,
            width,
            kernel_size,
            stride,
            padding,
            out_height,
            out_width,
        }
    }
}

} // verus!
