use vstd::prelude::*;
use crate::error::{FractalError, JuliaFault};

verus! {

/// Largest accepted width or height.
pub const MAX_DIMENSION: u32 = 4096;
/// Largest accepted iteration bound.
pub const MAX_ITERATIONS: u32 = 10000;
/// Largest accepted recursion depth.
pub const MAX_RECURSION_DEPTH: u32 = 12;
/// Bit pattern of the double 1e10, the largest accepted zoom.
pub const ZOOM_LIMIT_BITS: u64 = 0x4202_A05F_2000_0000;
/// Bit pattern of the double 2.0, the largest accepted |Julia component|.
pub const JULIA_LIMIT_BITS: u64 = 0x4000_0000_0000_0000;
/// The sign bit of a double.
pub const SIGN_BIT: u64 = 0x8000_0000_0000_0000;

/// Width and height are both in 1..=4096.
pub open spec fn dimensions_ok(width: u32, height: u32) -> bool {
    1 <= width <= MAX_DIMENSION && 1 <= height <= MAX_DIMENSION
}

/// Iteration bound in 1..=10000.
pub open spec fn iterations_ok(max_iterations: u32) -> bool {
    1 <= max_iterations <= MAX_ITERATIONS
}

/// Recursion depth in 1..=12.
pub open spec fn depth_ok(depth: u32) -> bool {
    1 <= depth <= MAX_RECURSION_DEPTH
}

/// The double with bit pattern `bits` lies in (0, 1e10].
/// Non-negative doubles order as their bit patterns do, so this is the
/// range (+0.0, 1e10] of patterns; it excludes negatives, zeros, infinities
/// and NaNs.
pub open spec fn zoom_ok(bits: u64) -> bool {
    0 < bits <= ZOOM_LIMIT_BITS
}

/// The bit pattern of |x| for the double x with pattern `bits`.
pub open spec fn magnitude_bits(bits: u64) -> int {
    if bits >= SIGN_BIT { bits - SIGN_BIT } else { bits as int }
}

/// The double with bit pattern `bits` lies in [-2, 2] (NaN does not).
pub open spec fn julia_component_ok(bits: u64) -> bool {
    magnitude_bits(bits) <= JULIA_LIMIT_BITS
}

/// Checks that both dimensions lie in 1..=4096.
pub fn validate_dimensions(width: u32, height: u32) -> (r: Result<(), FractalError>)
    ensures
        r == if dimensions_ok(width, height) {
            Ok::<(), FractalError>(())
        } else {
            Err(FractalError::InvalidDimensions)
        },
{
    if width == 0 || height == 0 || width > MAX_DIMENSION || height > MAX_DIMENSION {
        return Err(FractalError::InvalidDimensions);
    }
    Ok(())
}

/// Checks that the zoom (given as the bit pattern of a double) lies in (0, 1e10].
pub fn validate_zoom(zoom_bits: u64) -> (r: Result<(), FractalError>)
    ensures
        r == if zoom_ok(zoom_bits) {
            Ok::<(), FractalError>(())
        } else {
            Err(FractalError::InvalidZoom)
        },
{
    if zoom_bits == 0 || zoom_bits > ZOOM_LIMIT_BITS {
        return Err(FractalError::InvalidZoom);
    }
    Ok(())
}

/// Checks that the iteration bound lies in 1..=10000.
pub fn validate_iterations(max_iterations: u32) -> (r: Result<(), FractalError>)
    ensures
        r == if iterations_ok(max_iterations) {
            Ok::<(), FractalError>(())
        } else {
            Err(FractalError::InvalidIterationBound)
        },
{
    if max_iterations == 0 || max_iterations > MAX_ITERATIONS {
        return Err(FractalError::InvalidIterationBound);
    }
    Ok(())
}

/// Checks that both components of a Julia constant (bit patterns of doubles)
/// lie in [-2, 2].
pub fn validate_julia_params(c_real_bits: u64, c_imag_bits: u64) -> (r: Result<(), FractalError>)
    ensures
        r == if julia_component_ok(c_real_bits) && julia_component_ok(c_imag_bits) {
            Ok::<(), FractalError>(())
        } else {
            Err(FractalError::InvalidJuliaConstant(JuliaFault::OutOfRange))
        },
{
    let re = if c_real_bits >= SIGN_BIT { c_real_bits - SIGN_BIT } else { c_real_bits };
    let im = if c_imag_bits >= SIGN_BIT { c_imag_bits - SIGN_BIT } else { c_imag_bits };
    if re > JULIA_LIMIT_BITS || im > JULIA_LIMIT_BITS {
        return Err(FractalError::InvalidJuliaConstant(JuliaFault::OutOfRange));
    }
    Ok(())
}

/// Checks that a recursion depth lies in 1..=12.
pub fn validate_recursion_depth(depth: u32) -> (r: Result<(), FractalError>)
    ensures
        r == if depth_ok(depth) {
            Ok::<(), FractalError>(())
        } else {
            Err(FractalError::InvalidRecursionDepth)
        },
{
    if depth == 0 || depth > MAX_RECURSION_DEPTH {
        return Err(FractalError::InvalidRecursionDepth);
    }
    Ok(())
}

} // verus!
