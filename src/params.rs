use vstd::prelude::*;
use crate::colors::{scheme_named, ColorScheme};
use crate::error::{FractalError, JuliaFault};
use crate::text::lower_of;
use crate::validation::{
    depth_ok, dimensions_ok, iterations_ok, julia_component_ok, validate_dimensions,
    validate_iterations, validate_julia_params, validate_recursion_depth, validate_zoom, zoom_ok,
};

verus! {

/// Bit pattern of the double 1.0.
pub const ONE_BITS: u64 = 0x3FF0_0000_0000_0000;

/// A render request. Real-valued fields hold the IEEE-754 bit pattern of a
/// double (`f64::to_bits`).
pub struct FractalParams {
    pub width: u32,
    pub height: u32,
    pub zoom_bits: u64,
    pub center_x_bits: u64,
    pub center_y_bits: u64,
    pub max_iterations: u32,
    pub color_scheme: Option<String>,
    pub julia_c_real_bits: Option<u64>,
    pub julia_c_imag_bits: Option<u64>,
    pub recursion_depth: Option<u32>,
}

impl Default for FractalParams {
    /// 800 x 600, zoom 1, centred on 0, 100 iterations, no scheme, no Julia
    /// constant, no depth.
    fn default() -> (r: FractalParams)
        ensures
            r.width == 800,
            r.height == 600,
            r.zoom_bits == ONE_BITS,
            r.center_x_bits == 0,
            r.center_y_bits == 0,
            r.max_iterations == 100,
            r.color_scheme is None,
            r.julia_c_real_bits is None,
            r.julia_c_imag_bits is None,
            r.recursion_depth is None,
    {
        FractalParams {
            width: 800,
            height: 600,
            zoom_bits: ONE_BITS,
            center_x_bits: 0,
            center_y_bits: 0,
            max_iterations: 100,
            color_scheme: None,
            julia_c_real_bits: None,
            julia_c_imag_bits: None,
            recursion_depth: None,
        }
    }
}

/// The scheme a request names; none named selects `Default`.
pub open spec fn params_scheme(p: &FractalParams) -> ColorScheme {
    match p.color_scheme {
        Some(s) => scheme_named(lower_of(s@)),
        None => ColorScheme::Default,
    }
}

/// The first failed check shared by every variant: dimensions, then zoom,
/// then the iteration bound.
pub open spec fn baseline_error(p: &FractalParams) -> Option<FractalError> {
    if !dimensions_ok(p.width, p.height) {
        Some(FractalError::InvalidDimensions)
    } else if !zoom_ok(p.zoom_bits) {
        Some(FractalError::InvalidZoom)
    } else if !iterations_ok(p.max_iterations) {
        Some(FractalError::InvalidIterationBound)
    } else {
        None
    }
}

/// The Julia check: both components present, then both in [-2, 2].
pub open spec fn julia_error(p: &FractalParams) -> Option<FractalError> {
    match (p.julia_c_real_bits, p.julia_c_imag_bits) {
        (Some(re), Some(im)) => if julia_component_ok(re) && julia_component_ok(im) {
            None
        } else {
            Some(FractalError::InvalidJuliaConstant(JuliaFault::OutOfRange))
        },
        _ => Some(FractalError::InvalidJuliaConstant(JuliaFault::Missing)),
    }
}

/// The geometric check: a depth, when given, lies in 1..=12.
pub open spec fn depth_error(p: &FractalParams) -> Option<FractalError> {
    match p.recursion_depth {
        Some(d) => if depth_ok(d) {
            None
        } else {
            Some(FractalError::InvalidRecursionDepth)
        },
        None => None,
    }
}

/// Runs the checks shared by every variant, in order; the first failure wins.
pub fn validate_baseline(p: &FractalParams) -> (r: Result<(), FractalError>)
    ensures
        r == match baseline_error(p) {
            Some(e) => Err::<(), FractalError>(e),
            None => Ok(()),
        },
{
    validate_dimensions(p.width, p.height)?;
    validate_zoom(p.zoom_bits)?;
    validate_iterations(p.max_iterations)?;
    Ok(())
}

/// The Julia-specific check.
pub fn validate_julia_constant(p: &FractalParams) -> (r: Result<(), FractalError>)
    ensures
        r == match julia_error(p) {
            Some(e) => Err::<(), FractalError>(e),
            None => Ok(()),
        },
{
    match (p.julia_c_real_bits, p.julia_c_imag_bits) {
        (Some(re), Some(im)) => validate_julia_params(re, im),
        _ => Err(FractalError::InvalidJuliaConstant(JuliaFault::Missing)),
    }
}

/// The check of the Koch and Sierpinski variants.
pub fn validate_depth(p: &FractalParams) -> (r: Result<(), FractalError>)
    ensures
        r == match depth_error(p) {
            Some(e) => Err::<(), FractalError>(e),
            None => Ok(()),
        },
{
    match p.recursion_depth {
        Some(d) => validate_recursion_depth(d),
        None => Ok(()),
    }
}

/// The colour scheme a request selects.
pub fn scheme_of(p: &FractalParams) -> (r: ColorScheme)
    ensures
        r == params_scheme(p),
{
    match &p.color_scheme {
        Some(s) => ColorScheme::from_str(s.as_str()),
        None => ColorScheme::Default,
    }
}

} // verus!
