use vstd::prelude::*;

verus! {

/// Why a Julia constant was refused.
#[derive(Clone, Copy, Debug, PartialEq, Eq, Structural)]
pub enum JuliaFault {
    /// `julia_c_real` or `julia_c_imag` was not supplied.
    Missing,
    /// A component lies outside [-2, 2] (or is not a number).
    OutOfRange,
}

/// Every way a render request can be refused; each is a caller-input problem
/// detected before any pixel is computed.
#[derive(Clone, Copy, Debug, PartialEq, Eq, Structural)]
pub enum FractalError {
    InvalidDimensions,
    InvalidZoom,
    InvalidIterationBound,
    InvalidJuliaConstant(JuliaFault),
    InvalidRecursionDepth,
    UnknownFractalType,
}

/// The descriptive text of each error.
pub open spec fn error_text(e: FractalError) -> Seq<char> {
    match e {
        FractalError::InvalidDimensions =>
            "Invalid dimensions. Width and height must be between 1 and 4096."@,
        FractalError::InvalidZoom => "Invalid zoom. Must be between 0 and 1e10."@,
        FractalError::InvalidIterationBound =>
            "Invalid max_iterations. Must be between 1 and 10000."@,
        FractalError::InvalidJuliaConstant(JuliaFault::Missing) =>
            "julia_c_real and julia_c_imag parameters are required for Julia set"@,
        FractalError::InvalidJuliaConstant(JuliaFault::OutOfRange) =>
            "Invalid Julia parameters. c_real and c_imag must be between -2 and 2."@,
        FractalError::InvalidRecursionDepth =>
            "Invalid recursion_depth. Must be between 1 and 12."@,
        FractalError::UnknownFractalType =>
            "Unknown fractal type. Supported types: mandelbrot, julia, sierpinski, koch"@,
    }
}

impl FractalError {
    /// The descriptive text shown to the caller.
    pub fn message(&self) -> (r: &'static str)
        ensures
            r@ == error_text(*self),
    {
        match self {
            FractalError::InvalidDimensions =>
                "Invalid dimensions. Width and height must be between 1 and 4096.",
            FractalError::InvalidZoom => "Invalid zoom. Must be between 0 and 1e10.",
            FractalError::InvalidIterationBound =>
                "Invalid max_iterations. Must be between 1 and 10000.",
            FractalError::InvalidJuliaConstant(JuliaFault::Missing) =>
                "julia_c_real and julia_c_imag parameters are required for Julia set",
            FractalError::InvalidJuliaConstant(JuliaFault::OutOfRange) =>
                "Invalid Julia parameters. c_real and c_imag must be between -2 and 2.",
            FractalError::InvalidRecursionDepth =>
                "Invalid recursion_depth. Must be between 1 and 12.",
            FractalError::UnknownFractalType =>
                "Unknown fractal type. Supported types: mandelbrot, julia, sierpinski, koch",
        }
    }
}

} // verus!
