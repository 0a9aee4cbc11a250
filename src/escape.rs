use vstd::prelude::*;
use crate::buffer::{lemma_area, PixelBuffer};
use crate::colors::{is_rgb, iterations_to_color, scheme_rgb, wave_covers, ColorScheme};
use crate::error::FractalError;
use crate::fractal::{is_verdict, params_error, FractalKind};
use crate::params::{params_scheme, scheme_of, FractalParams};
use crate::validation::dimensions_ok;

verus! {

/// Every count is at most the bound and there is one per pixel.
pub open spec fn counts_fit(counts: Seq<u32>, width: u32, height: u32, max_iterations: u32) -> bool {
    &&& counts.len() == width * height
    &&& forall|k: int| 0 <= k < counts.len() ==> #[trigger] counts[k] <= max_iterations
}

/// `b` is the `width` x `height` image whose pixel k has the colour of `counts[k]`.
pub open spec fn shades_counts(
    b: PixelBuffer,
    width: u32,
    height: u32,
    max_iterations: u32,
    scheme: ColorScheme,
    wave: Seq<[u8; 2]>,
    counts: Seq<u32>,
) -> bool {
    &&& b.wf()
    &&& b.spec_width() == width
    &&& b.spec_height() == height
    &&& b.cells().len() == counts.len()
    &&& forall|k: int|
        0 <= k < counts.len() ==> is_rgb(
            #[trigger] b.cells()[k],
            scheme_rgb(counts[k] as int, max_iterations as int, scheme, wave),
        )
}

/// Colours per-pixel escape counts (row-major, one per pixel) into an image.
/// Each pixel depends on its own count alone.
pub fn shade_counts(
    width: u32,
    height: u32,
    max_iterations: u32,
    scheme: &ColorScheme,
    wave: &Vec<[u8; 2]>,
    counts: &Vec<u32>,
) -> (r: PixelBuffer)
    requires
        dimensions_ok(width, height),
        counts_fit(counts@, width, height, max_iterations),
        wave_covers(*scheme, max_iterations as int, wave@),
    ensures
        shades_counts(r, width, height, max_iterations, *scheme, wave@, counts@),
{
    proof {
        lemma_area(width as int, height as int);
    }
    let n = counts.len();
    let mut pixels: Vec<[u8; 3]> = Vec::new();
    let mut k: usize = 0;
    while k < n
        invariant
            n == counts@.len(),
            counts_fit(counts@, width, height, max_iterations),
            wave_covers(*scheme, max_iterations as int, wave@),
            k <= n,
            pixels@.len() == k,
            forall|j: int|
                0 <= j < k ==> is_rgb(
                    #[trigger] pixels@[j],
                    scheme_rgb(counts@[j] as int, max_iterations as int, *scheme, wave@),
                ),
        decreases n - k,
    {
        let c = iterations_to_color(counts[k], max_iterations, scheme, wave);
        pixels.push(c);
        k = k + 1;
    }
    PixelBuffer::from_cells(width, height, pixels)
}

/// What an escape-time render returns: the verdict of validation, and on
/// success the shaded counts under the request's scheme.
pub open spec fn escape_render(
    r: Result<PixelBuffer, FractalError>,
    kind: FractalKind,
    p: &FractalParams,
    wave: Seq<[u8; 2]>,
    counts: Seq<u32>,
) -> bool {
    match params_error(kind, p) {
        Some(e) => r == Err::<PixelBuffer, FractalError>(e),
        None => r is Ok && shades_counts(
            r->Ok_0,
            p.width,
            p.height,
            p.max_iterations,
            params_scheme(p),
            wave,
            counts,
        ),
    }
}

/// Inputs that an escape-time render needs beside the request once the
/// request is valid: one count per pixel and wave entries below the bound.
pub open spec fn escape_inputs_fit(
    kind: FractalKind,
    p: &FractalParams,
    wave: Seq<[u8; 2]>,
    counts: Seq<u32>,
) -> bool {
    params_error(kind, p) is None ==> {
        &&& counts_fit(counts, p.width, p.height, p.max_iterations)
        &&& wave_covers(params_scheme(p), p.max_iterations as int, wave)
    }
}

fn render_escape_time(
    kind: FractalKind,
    p: &FractalParams,
    wave: &Vec<[u8; 2]>,
    counts: &Vec<u32>,
) -> (r: Result<PixelBuffer, FractalError>)
    requires
        escape_inputs_fit(kind, p, wave@, counts@),
    ensures
        escape_render(r, kind, p, wave@, counts@),
{
    let v = kind.validate_params(p);
    assert(is_verdict(v, kind, p));
    match v {
        Err(e) => Err(e),
        Ok(()) => {
            let scheme = scheme_of(p);
            Ok(shade_counts(p.width, p.height, p.max_iterations, &scheme, wave, counts))
        },
    }
}

/// The Mandelbrot set: z0 = 0, c = the pixel's point, z <- z^2 + c.
pub struct MandelbrotSet;

/// The Julia set: z0 = the pixel's point, c = the request's constant, z <- z^2 + c.
pub struct JuliaSet;

impl MandelbrotSet {
    pub fn name(&self) -> (r: &'static str)
        ensures
            r@ == "mandelbrot"@,
    {
        "mandelbrot"
    }

    /// Validates the request (shared checks only).
    pub fn validate_params(&self, p: &FractalParams) -> (r: Result<(), FractalError>)
        ensures
            is_verdict(r, FractalKind::Mandelbrot, p),
    {
        FractalKind::Mandelbrot.validate_params(p)
    }

    /// Validates the request, then colours the per-pixel escape counts
    /// (row-major; `counts[k]` is the number of completed steps of pixel k,
    /// at most `max_iterations`). `wave` holds the default scheme's green
    /// and blue for each count below the bound.
    pub fn generate(&self, p: &FractalParams, wave: &Vec<[u8; 2]>, counts: &Vec<u32>) -> (r: Result<
        PixelBuffer,
        FractalError,
    >)
        requires
            escape_inputs_fit(FractalKind::Mandelbrot, p, wave@, counts@),
        ensures
            escape_render(r, FractalKind::Mandelbrot, p, wave@, counts@),
    {
        render_escape_time(FractalKind::Mandelbrot, p, wave, counts)
    }
}

impl JuliaSet {
    pub fn name(&self) -> (r: &'static str)
        ensures
            r@ == "julia"@,
    {
        "julia"
    }

    /// Validates the request: shared checks, then the Julia constant.
    pub fn validate_params(&self, p: &FractalParams) -> (r: Result<(), FractalError>)
        ensures
            is_verdict(r, FractalKind::Julia, p),
    {
        FractalKind::Julia.validate_params(p)
    }

    /// Validates the request, then colours the per-pixel escape counts, as
    /// `MandelbrotSet::generate` does.
    pub fn generate(&self, p: &FractalParams, wave: &Vec<[u8; 2]>, counts: &Vec<u32>) -> (r: Result<
        PixelBuffer,
        FractalError,
    >)
        requires
            escape_inputs_fit(FractalKind::Julia, p, wave@, counts@),
        ensures
            escape_render(r, FractalKind::Julia, p, wave@, counts@),
    {
        render_escape_time(FractalKind::Julia, p, wave, counts)
    }
}

} // verus!
