use vstd::prelude::*;
use crate::buffer::PixelBuffer;
use crate::error::FractalError;
use crate::escape::{escape_inputs_fit, escape_render, JuliaSet, MandelbrotSet};
use crate::fractal::FractalKind;
use crate::koch::{koch_render, KochSnowflake};
use crate::params::FractalParams;
use crate::sierpinski::{sierpinski_render, SierpinskiTriangle};

verus! {

/// What generating `kind` on `p` returns.
pub open spec fn renders(
    r: Result<PixelBuffer, FractalError>,
    kind: FractalKind,
    p: &FractalParams,
    wave: Seq<[u8; 2]>,
    counts: Seq<u32>,
) -> bool {
    match kind {
        FractalKind::Mandelbrot => escape_render(r, kind, p, wave, counts),
        FractalKind::Julia => escape_render(r, kind, p, wave, counts),
        FractalKind::Koch => koch_render(r, p),
        FractalKind::Sierpinski => sierpinski_render(r, p),
    }
}

/// Whatever a variant needs beside the request: escape counts and the
/// default scheme's wave for the escape-time variants, nothing for the
/// geometric ones.
pub open spec fn inputs_fit(
    kind: FractalKind,
    p: &FractalParams,
    wave: Seq<[u8; 2]>,
    counts: Seq<u32>,
) -> bool {
    (kind == FractalKind::Mandelbrot || kind == FractalKind::Julia) ==> escape_inputs_fit(
        kind,
        p,
        wave,
        counts,
    )
}

impl FractalKind {
    /// Runs the variant's generator, which validates the request first.
    /// `wave` and `counts` are read by the escape-time variants only.
    pub fn generate(&self, p: &FractalParams, wave: &Vec<[u8; 2]>, counts: &Vec<u32>) -> (r: Result<
        PixelBuffer,
        FractalError,
    >)
        requires
            inputs_fit(*self, p, wave@, counts@),
        ensures
            renders(r, *self, p, wave@, counts@),
    {
        match self {
            FractalKind::Mandelbrot => MandelbrotSet.generate(p, wave, counts),
            FractalKind::Julia => JuliaSet.generate(p, wave, counts),
            FractalKind::Koch => KochSnowflake.generate(p),
            FractalKind::Sierpinski => SierpinskiTriangle.generate(p),
        }
    }
}

} // verus!
