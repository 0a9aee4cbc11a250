use vstd::prelude::*;
use crate::buffer::PixelBuffer;
use crate::colors::{hue_fraction, hue_sector, rainbow_rgb, ramp, scheme_rgb, wave_covers, ColorScheme};
use crate::error::{FractalError, JuliaFault};
use crate::dispatch::renders;
use crate::escape::escape_render;
use crate::fractal::{params_error, FractalKind};
use crate::params::{baseline_error, FractalParams};
use crate::raster::on_canvas;
use crate::sierpinski::{painted_by, Triangle};
use crate::geometry::Segment;
use crate::koch::stroked;

verus! {

/// Bit pattern of the double 3.0.
pub const THREE_BITS: u64 = 0x4008_0000_0000_0000;

/// Every variant renders a valid request at exactly width x height.
pub proof fn law_dimensions(
    r: Result<PixelBuffer, FractalError>,
    kind: FractalKind,
    p: &FractalParams,
    wave: Seq<[u8; 2]>,
    counts: Seq<u32>,
)
    requires
        renders(r, kind, p, wave, counts),
        params_error(kind, p) is None,
    ensures
        r is Ok,
        r->Ok_0.spec_width() == p.width,
        r->Ok_0.spec_height() == p.height,
        r->Ok_0.cells().len() == p.width * p.height,
{
}

/// Two escape-time renders of the same request and counts hold the same
/// pixels: each pixel depends only on its own count.
pub proof fn law_escape_deterministic(
    r1: Result<PixelBuffer, FractalError>,
    r2: Result<PixelBuffer, FractalError>,
    kind: FractalKind,
    p: &FractalParams,
    wave: Seq<[u8; 2]>,
    counts: Seq<u32>,
)
    requires
        escape_render(r1, kind, p, wave, counts),
        escape_render(r2, kind, p, wave, counts),
    ensures
        r1 is Ok <==> r2 is Ok,
        r1 is Err ==> r1 == r2,
        r1 is Ok ==> r1->Ok_0.cells() == r2->Ok_0.cells(),
{
    if r1 is Ok {
        let c1 = r1->Ok_0.cells();
        let c2 = r2->Ok_0.cells();
        assert forall|k: int| 0 <= k < c1.len() implies c1[k] == c2[k] by {
            assert(c1[k] =~= c2[k]);
        }
        assert(c1 =~= c2);
    }
}

/// Two Sierpinski canvases painted from the same triangles in the same
/// colour agree on every pixel.
pub proof fn law_sierpinski_deterministic(
    b1: PixelBuffer,
    b2: PixelBuffer,
    width: u32,
    height: u32,
    ts: Seq<Triangle>,
    color: [u8; 3],
)
    requires
        painted_by(b1, width, height, ts, color),
        painted_by(b2, width, height, ts, color),
    ensures
        b1.cells() == b2.cells(),
{
    assert forall|x: int, y: int| on_canvas(b1, x, y) implies #[trigger] b1.at(x, y) == b2.at(x, y) by {
        assert(b1.at(x, y) == b2.at(x, y));
    }
    lemma_same_pixels(b1, b2);
}

/// Two Koch canvases stroked from the same segments in the same colour
/// agree on every pixel.
pub proof fn law_koch_deterministic(
    b1: PixelBuffer,
    b2: PixelBuffer,
    width: u32,
    height: u32,
    segs: Seq<Segment>,
    color: [u8; 3],
)
    requires
        stroked(b1, width, height, segs, color),
        stroked(b2, width, height, segs, color),
    ensures
        b1.cells() == b2.cells(),
{
    assert forall|x: int, y: int| on_canvas(b1, x, y) implies #[trigger] b1.at(x, y) == b2.at(x, y) by {
        assert(b1.at(x, y) == b2.at(x, y));
    }
    lemma_same_pixels(b1, b2);
}

/// Buffers of one size that agree on every pixel hold the same cells.
pub proof fn lemma_same_pixels(b1: PixelBuffer, b2: PixelBuffer)
    requires
        b1.wf(),
        b2.wf(),
        b1.spec_width() == b2.spec_width(),
        b1.spec_height() == b2.spec_height(),
        forall|x: int, y: int| on_canvas(b1, x, y) ==> #[trigger] b1.at(x, y) == b2.at(x, y),
    ensures
        b1.cells() == b2.cells(),
{
    assert forall|k: int| 0 <= k < b1.cells().len() implies b1.cells()[k] == b2.cells()[k] by {
        let w = b1.spec_width() as int;
        let h = b1.spec_height() as int;
        let x = k % w;
        let y = k / w;
        assert(0 <= x < w && 0 <= y && y * w + x == k) by (nonlinear_arith)
            requires w > 0, 0 <= k, x == k % w, y == k / w;
        assert(y < h) by (nonlinear_arith)
            requires y * w + x == k, k < w * h, 0 <= x, w > 0;
        assert(on_canvas(b1, x, y));
        assert(b1.at(x, y) == b2.at(x, y));
    }
    assert(b1.cells() =~= b2.cells());
}

/// A count that reached the bound is black under every scheme; under the
/// rainbow scheme, and under the default scheme where the wave's green is
/// non-zero, black means the count reached the bound.
pub proof fn law_inside_sentinel(i: int, m: int, scheme: ColorScheme, wave: Seq<[u8; 2]>)
    requires
        0 <= i <= m,
        1 <= m,
        wave_covers(scheme, m, wave),
    ensures
        i == m ==> scheme_rgb(i, m, scheme, wave) == (0int, 0int, 0int),
        scheme == ColorScheme::Rainbow && scheme_rgb(i, m, scheme, wave) == (0int, 0int, 0int)
            ==> i == m,
        scheme == ColorScheme::Default && i < m && wave[i][0] > 0 ==> scheme_rgb(i, m, scheme, wave)
            != (0int, 0int, 0int),
{
}

/// Leaving out either Julia component is refused as a missing constant.
pub proof fn law_julia_constant_missing(p: &FractalParams)
    requires
        baseline_error(p) is None,
        p.julia_c_real_bits is None || p.julia_c_imag_bits is None,
    ensures
        params_error(FractalKind::Julia, p) == Some(
            FractalError::InvalidJuliaConstant(JuliaFault::Missing),
        ),
{
}

/// A real component of 3.0 is refused as out of range, whatever the
/// imaginary component.
pub proof fn law_julia_real_three(p: &FractalParams)
    requires
        baseline_error(p) is None,
        p.julia_c_real_bits == Some(THREE_BITS),
        p.julia_c_imag_bits is Some,
    ensures
        params_error(FractalKind::Julia, p) == Some(
            FractalError::InvalidJuliaConstant(JuliaFault::OutOfRange),
        ),
{
}

/// The rainbow starts at red and reaches yellow at t = 1/6.
pub proof fn law_rainbow_landmarks(i: int, m: int)
    requires
        1 <= m,
        0 <= i < m,
    ensures
        i == 0 ==> rainbow_rgb(i, m) == (255int, 0int, 0int),
        6 * i == m ==> rainbow_rgb(i, m) == (255int, 255int, 0int),
{
    if i == 0 {
        assert(hue_sector(0, m) == 0);
        assert(ramp(255, 0, m) == 0);
    }
    if 6 * i == m {
        assert(hue_sector(i, m) == 1) by (nonlinear_arith)
            requires 6 * i == m, m >= 1;
        assert(hue_fraction(i, m) == 0);
        assert(ramp(255, m, m) == 255) by (nonlinear_arith)
            requires m >= 1;
    }
}

} // verus!

verus! {

pub open spec fn clamp_unit(v: int, m: int) -> int {
    if v < 0 { 0 } else if v > m { m } else { v }
}

pub open spec fn abs(v: int) -> int {
    if v < 0 { -v } else { v }
}

/// The rainbow channels as m times a level in [0, 1], each a continuous
/// function of h = 6 i with slope at most 1.
pub open spec fn rainbow_levels(h: int, m: int) -> (int, int, int) {
    (
        clamp_unit(abs(h - 3 * m) - m, m),
        clamp_unit(2 * m - abs(h - 2 * m), m),
        clamp_unit(2 * m - abs(h - 4 * m), m),
    )
}

proof fn lemma_rainbow_as_levels(i: int, m: int)
    requires
        1 <= m,
        0 <= i < m,
    ensures
        ({
            let l = rainbow_levels(6 * i, m);
            rainbow_rgb(i, m) == (ramp(255, l.0, m), ramp(255, l.1, m), ramp(255, l.2, m))
        }),
{
    let s = hue_sector(i, m);
    let f = hue_fraction(i, m);
    assert(0 <= s <= 5 && 0 <= f < m) by {
        assert(0 <= (6 * i) / m <= 5) by (nonlinear_arith)
            requires 0 <= i < m;
        assert(0 <= 6 * i - ((6 * i) / m) * m < m) by (nonlinear_arith)
            requires 0 <= i < m;
    }
    assert(ramp(255, m, m) == 255) by (nonlinear_arith)
        requires m >= 1;
    assert(ramp(255, 0, m) == 0);
    assert(6 * i == s * m + f);
    if s == 0 {
        assert(6 * i == f);
    } else if s == 1 {
        assert(6 * i == m + f);
    } else if s == 2 {
        assert(6 * i == 2 * m + f);
    } else if s == 3 {
        assert(6 * i == 3 * m + f);
    } else if s == 4 {
        assert(6 * i == 4 * m + f);
    } else {
        assert(6 * i == 5 * m + f);
    }
}

proof fn lemma_ramp_step(a: int, b: int, m: int)
    requires
        1 <= m,
        0 <= a <= m,
        0 <= b <= m,
        abs(a - b) <= 6,
    ensures
        abs(ramp(255, a, m) - ramp(255, b, m)) <= 1530int / m + 1,
{
    let (lo, hi) = if a <= b { (a, b) } else { (b, a) };
    let x = 255 * lo;
    let y = 255 * hi;
    assert(0 <= y - x <= 1530);
    let qx = x / m;
    let qy = y / m;
    assert(qx <= qy) by (nonlinear_arith)
        requires x <= y, m >= 1, qx == x / m, qy == y / m;
    assert(qy - qx <= (y - x) / m + 1) by (nonlinear_arith)
        requires 0 <= x <= y, m >= 1, qx == x / m, qy == y / m;
    assert((y - x) / m <= 1530int / m) by (nonlinear_arith)
        requires 0 <= y - x <= 1530, m >= 1;
}

/// The rainbow has no jumps, across sector boundaries too: from one count
/// to the next each channel moves by at most 6 * 255 / m, plus one for
/// rounding to 8 bits.
pub proof fn law_rainbow_continuous(i: int, m: int)
    requires
        1 <= m,
        0 <= i,
        i + 1 < m,
    ensures
        abs(rainbow_rgb(i + 1, m).0 - rainbow_rgb(i, m).0) <= 1530int / m + 1,
        abs(rainbow_rgb(i + 1, m).1 - rainbow_rgb(i, m).1) <= 1530int / m + 1,
        abs(rainbow_rgb(i + 1, m).2 - rainbow_rgb(i, m).2) <= 1530int / m + 1,
{
    lemma_rainbow_as_levels(i, m);
    lemma_rainbow_as_levels(i + 1, m);
    let l0 = rainbow_levels(6 * i, m);
    let l1 = rainbow_levels(6 * i + 6, m);
    assert(6 * (i + 1) == 6 * i + 6);
    lemma_ramp_step(l1.0, l0.0, m);
    lemma_ramp_step(l1.1, l0.1, m);
    lemma_ramp_step(l1.2, l0.2, m);
}

} // verus!

verus! {

/// Generating the same request twice, with the same escape counts, gives
/// the same verdict and, on success, the same pixels, for every variant.
pub proof fn law_deterministic(
    r1: Result<PixelBuffer, FractalError>,
    r2: Result<PixelBuffer, FractalError>,
    kind: FractalKind,
    p: &FractalParams,
    wave: Seq<[u8; 2]>,
    counts: Seq<u32>,
)
    requires
        renders(r1, kind, p, wave, counts),
        renders(r2, kind, p, wave, counts),
    ensures
        r1 is Ok <==> r2 is Ok,
        r1 is Err ==> r1 == r2,
        r1 is Ok ==> r1->Ok_0.cells() == r2->Ok_0.cells(),
{
    match kind {
        FractalKind::Mandelbrot => law_escape_deterministic(r1, r2, kind, p, wave, counts),
        FractalKind::Julia => law_escape_deterministic(r1, r2, kind, p, wave, counts),
        FractalKind::Koch => {
            if r1 is Ok {
                let (a, b, c) = crate::koch::koch_seed(p.width as int, p.height as int);
                law_koch_deterministic(
                    r1->Ok_0,
                    r2->Ok_0,
                    p.width,
                    p.height,
                    crate::koch::snowflake_segments(a, b, c, crate::koch::koch_depth(p)),
                    crate::koch::KOCH_STROKE,
                );
            }
        },
        FractalKind::Sierpinski => {
            if r1 is Ok {
                let (a, b, c) = crate::sierpinski::sierpinski_seed(p.width as int, p.height as int);
                law_sierpinski_deterministic(
                    r1->Ok_0,
                    r2->Ok_0,
                    p.width,
                    p.height,
                    crate::sierpinski::sierpinski_leaves(a, b, c, crate::sierpinski::sierpinski_depth(p)),
                    [0u8, 0u8, 0u8],
                );
            }
        },
    }
}

} // verus!
