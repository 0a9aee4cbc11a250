use vstd::prelude::*;
use crate::buffer::PixelBuffer;
use crate::error::FractalError;
use crate::fractal::{is_verdict, params_error, FractalKind};
use crate::geometry::{
    apex_point, lemma_apex_within, lemma_pow4_mono, lemma_tdiv_bounds, lemma_third_within,
    pixel_of, pow4, tdiv, third_point, to_pixel, within, Point, Segment, FIXED_ONE, SIN60,
};
use crate::params::FractalParams;
use crate::raster::{draw_line, line_pixels, on_canvas};
use crate::validation::{dimensions_ok, MAX_RECURSION_DEPTH};

verus! {

/// Depth used when a request names none.
pub const KOCH_DEFAULT_DEPTH: u32 = 4;
/// Padding, in pixels, between the seed triangle and the canvas edge.
pub const KOCH_PADDING: i64 = 40;
/// Colour of every stroke.
pub const KOCH_STROKE: [u8; 3] = [0, 100, 200];
/// Colour of the background.
pub const WHITE: [u8; 3] = [255, 255, 255];

/// How far from the origin the end points of a curve of remaining depth d
/// may lie: each level of subdivision may move points at most four times
/// further out.
#[verifier::opaque]
pub open spec fn koch_room(d: nat) -> int {
    0x10_0000_0000 * pow4((12 - d) as nat) as int
}

/// The segments of the Koch curve of depth d from `s` to `e`.
#[verifier::opaque]
pub open spec fn koch_segments(s: Point, e: Point, d: nat) -> Seq<Segment>
    decreases d,
{
    if d == 0 {
        seq![Segment { start: s, end: e }]
    } else {
        let p1 = third_point(s, e, 1);
        let p2 = third_point(s, e, 2);
        let peak = apex_point(p1, p2);
        koch_segments(s, p1, (d - 1) as nat) + koch_segments(p1, peak, (d - 1) as nat)
            + koch_segments(peak, p2, (d - 1) as nat) + koch_segments(p2, e, (d - 1) as nat)
    }
}

/// The segments of the snowflake of depth d on the triangle a, b, c.
pub open spec fn snowflake_segments(a: Point, b: Point, c: Point, d: nat) -> Seq<Segment> {
    koch_segments(a, b, d) + koch_segments(b, c, d) + koch_segments(c, a, d)
}

/// A Koch curve of depth d has 4^d segments.
pub proof fn lemma_koch_count(s: Point, e: Point, d: nat)
    ensures
        koch_segments(s, e, d).len() == pow4(d),
    decreases d,
{
    reveal(koch_segments);
    if d > 0 {
        let p1 = third_point(s, e, 1);
        let p2 = third_point(s, e, 2);
        let peak = apex_point(p1, p2);
        lemma_koch_count(s, p1, (d - 1) as nat);
        lemma_koch_count(p1, peak, (d - 1) as nat);
        lemma_koch_count(peak, p2, (d - 1) as nat);
        lemma_koch_count(p2, e, (d - 1) as nat);
    }
}

/// A Koch snowflake of depth d is made of exactly 3 * 4^d segments.
pub proof fn lemma_snowflake_count(a: Point, b: Point, c: Point, d: nat)
    ensures
        snowflake_segments(a, b, c, d).len() == 3 * pow4(d),
{
    lemma_koch_count(a, b, d);
    lemma_koch_count(b, c, d);
    lemma_koch_count(c, a, d);
}

/// Each segment starts where the one before it ends.
pub open spec fn chained(segs: Seq<Segment>) -> bool {
    forall|k: int| 0 < k < segs.len() ==> (#[trigger] segs[k]).start == segs[k - 1].end
}

proof fn lemma_chain_concat(a: Seq<Segment>, b: Seq<Segment>)
    requires
        a.len() > 0,
        b.len() > 0,
        chained(a),
        chained(b),
        a.last().end == b[0].start,
    ensures
        chained(a + b),
        (a + b)[0] == a[0],
        (a + b).last() == b.last(),
{
    let ab = a + b;
    assert forall|k: int| 0 < k < ab.len() implies (#[trigger] ab[k]).start == ab[k - 1].end by {
        if k > a.len() {
            assert(ab[k] == b[k - a.len()]);
            assert(ab[k - 1] == b[k - 1 - a.len()]);
        } else if k == a.len() {
            assert(ab[k] == b[0]);
            assert(ab[k - 1] == a[k - 1]);
        } else {
            assert(ab[k] == a[k]);
            assert(ab[k - 1] == a[k - 1]);
        }
    }
}

proof fn lemma_koch_unfold(s: Point, e: Point, d: nat)
    requires
        d > 0,
    ensures
        ({
            let p1 = third_point(s, e, 1);
            let p2 = third_point(s, e, 2);
            let peak = apex_point(p1, p2);
            let dd = (d - 1) as nat;
            koch_segments(s, e, d) == koch_segments(s, p1, dd) + koch_segments(p1, peak, dd)
                + koch_segments(peak, p2, dd) + koch_segments(p2, e, dd)
        }),
{
    reveal(koch_segments);
}

/// The curve is one connected path from `s` to `e`: it starts at `s`, ends
/// at `e`, and each segment starts where the one before it ends.
pub proof fn lemma_koch_connected(s: Point, e: Point, d: nat)
    ensures
        koch_segments(s, e, d).len() > 0,
        koch_segments(s, e, d)[0].start == s,
        koch_segments(s, e, d).last().end == e,
        chained(koch_segments(s, e, d)),
    decreases d,
{
    if d > 0 {
        let p1 = third_point(s, e, 1);
        let p2 = third_point(s, e, 2);
        let peak = apex_point(p1, p2);
        let dd = (d - 1) as nat;
        lemma_koch_connected(s, p1, dd);
        lemma_koch_connected(p1, peak, dd);
        lemma_koch_connected(peak, p2, dd);
        lemma_koch_connected(p2, e, dd);
        let a = koch_segments(s, p1, dd);
        let b = koch_segments(p1, peak, dd);
        let c = koch_segments(peak, p2, dd);
        let f = koch_segments(p2, e, dd);
        lemma_koch_unfold(s, e, d);
        lemma_chain_concat(a, b);
        lemma_chain_concat(a + b, c);
        lemma_chain_concat(a + b + c, f);
    } else {
        reveal(koch_segments);
        assert(koch_segments(s, e, d) == seq![Segment { start: s, end: e }]);
    }
}

proof fn lemma_room_step(depth: nat)
    requires
        1 <= depth <= 12,
    ensures
        koch_room((depth - 1) as nat) == 4 * koch_room(depth),
        0 < koch_room(depth) <= 0x0400_0000_0000_0000,
{
    reveal(koch_room);
    lemma_pow4_mono((12 - depth) as nat, 11);
    assert(pow4(11) == 4194304) by {
        reveal_with_fuel(pow4, 12);
    }
    let p = pow4((12 - depth) as nat) as int;
    assert(0 < 0x10_0000_0000 * p <= 0x0400_0000_0000_0000) by (nonlinear_arith)
        requires 1 <= p <= 4194304;
    assert(pow4((13 - depth) as nat) == 4 * pow4((12 - depth) as nat));
}

fn third(s: Point, e: Point, k: i64) -> (r: Point)
    requires
        k == 1 || k == 2,
        within(s, 0x1000_0000_0000_0000),
        within(e, 0x1000_0000_0000_0000),
    ensures
        r == third_point(s, e, k as int),
{
    proof {
        lemma_third_within(s, e, k as int, 0x1000_0000_0000_0000);
    }
    Point { x: s.x + (k * (e.x - s.x)) / 3, y: s.y + (k * (e.y - s.y)) / 3 }
}

fn apex(p1: Point, p2: Point) -> (r: Point)
    requires
        within(p1, 0x1000_0000_0000_0000),
        within(p2, 0x1000_0000_0000_0000),
    ensures
        r == apex_point(p1, p2),
{
    proof {
        lemma_apex_within(p1, p2, 0x1000_0000_0000_0000);
        lemma_tdiv_bounds(p2.x - p1.x, 2);
        lemma_tdiv_bounds(p2.y - p1.y, 2);
    }
    let ux = p2.x - p1.x;
    let uy = p2.y - p1.y;
    let turn_x = ((uy as i128 * SIN60 as i128) / FIXED_ONE as i128) as i64;
    let turn_y = ((ux as i128 * SIN60 as i128) / FIXED_ONE as i128) as i64;
    Point { x: p1.x + ux / 2 - turn_x, y: p1.y + turn_y + uy / 2 }
}

/// Appends the segments of the Koch curve of depth `depth` from `start` to
/// `end` to `lines`.
pub fn koch_curve(start: Point, end: Point, depth: u32, lines: &mut Vec<Segment>)
    requires
        depth <= MAX_RECURSION_DEPTH,
        within(start, koch_room(depth as nat)),
        within(end, koch_room(depth as nat)),
    ensures
        final(lines)@ == old(lines)@ + koch_segments(start, end, depth as nat),
    decreases depth,
{
    if depth == 0 {
        lines.push(Segment { start, end });
        proof {
            reveal(koch_segments);
        }
        assert(seq![Segment { start, end }] =~= koch_segments(start, end, 0));
    } else {
        let ghost b = koch_room(depth as nat);
        proof {
            lemma_room_step(depth as nat);
        }
        let p1 = third(start, end, 1);
        let p2 = third(start, end, 2);
        proof {
            lemma_third_within(start, end, 1, b);
            lemma_third_within(start, end, 2, b);
        }
        let peak = apex(p1, p2);
        proof {
            lemma_apex_within(p1, p2, b);
        }
        let ghost before = lines@;
        koch_curve(start, p1, depth - 1, lines);
        koch_curve(p1, peak, depth - 1, lines);
        koch_curve(peak, p2, depth - 1, lines);
        koch_curve(p2, end, depth - 1, lines);
        proof {
            lemma_koch_unfold(start, end, depth as nat);
        }
        assert(lines@ =~= before + koch_segments(start, end, depth as nat));
    }
}

} // verus!

verus! {

/// The three corners of the snowflake's seed triangle on a width x height
/// canvas: an equilateral triangle of side min(width, height) - 80 pixels,
/// centred, apex up.
pub open spec fn koch_seed(width: int, height: int) -> (Point, Point, Point) {
    let one = FIXED_ONE as int;
    let side = (if width < height { width } else { height }) - 2 * KOCH_PADDING;
    let sz = side * one;
    let cx = (width * one) / 2;
    let cy = (height * one) / 2;
    let ho = tdiv(sz * SIN60, one);
    (
        Point { x: cx as i64, y: (cy - tdiv(3 * ho, 5)) as i64 },
        Point { x: (cx - tdiv(sz, 2)) as i64, y: (cy + tdiv(2 * ho, 5)) as i64 },
        Point { x: (cx + tdiv(sz, 2)) as i64, y: (cy + tdiv(2 * ho, 5)) as i64 },
    )
}

/// The depth a Koch request asks for.
pub open spec fn koch_depth(p: &FractalParams) -> nat {
    match p.recursion_depth {
        Some(d) => d as nat,
        None => KOCH_DEFAULT_DEPTH as nat,
    }
}

/// Both end pixels of `s` that lie on the canvas of `b` have colour `c`.
pub open spec fn ends_painted(b: PixelBuffer, s: Segment, c: [u8; 3]) -> bool {
    &&& on_canvas(b, pixel_of(s.start.x as int), pixel_of(s.start.y as int)) ==> b.at(
        pixel_of(s.start.x as int),
        pixel_of(s.start.y as int),
    ) == c
    &&& on_canvas(b, pixel_of(s.end.x as int), pixel_of(s.end.y as int)) ==> b.at(
        pixel_of(s.end.x as int),
        pixel_of(s.end.y as int),
    ) == c
}

/// The Bresenham pixels of segment `s`, its ends rounded toward zero.
pub open spec fn segment_pixels(s: Segment) -> Seq<(int, int)> {
    line_pixels(
        pixel_of(s.start.x as int),
        pixel_of(s.start.y as int),
        pixel_of(s.end.x as int),
        pixel_of(s.end.y as int),
    )
}

/// Some segment among the first n of `segs` passes through pixel (x, y).
pub open spec fn any_stroke(segs: Seq<Segment>, n: int, x: int, y: int) -> bool {
    exists|k: int| 0 <= k < n && segment_pixels(#[trigger] segs[k]).contains((x, y))
}

/// `b` is a width x height white canvas on which `segs` were stroked with
/// `c`: a pixel is `c` exactly when some segment's line passes through
/// it, else white; every segment's end pixels are `c`.
pub open spec fn stroked(b: PixelBuffer, width: u32, height: u32, segs: Seq<Segment>, c: [u8; 3]) -> bool {
    &&& b.wf()
    &&& b.spec_width() == width
    &&& b.spec_height() == height
    &&& forall|k: int| 0 <= k < b.cells().len() ==> #[trigger] b.cells()[k] == WHITE || b.cells()[k] == c
    &&& forall|k: int| 0 <= k < segs.len() ==> ends_painted(b, #[trigger] segs[k], c)
    &&& forall|x: int, y: int|
        on_canvas(b, x, y) ==> #[trigger] b.at(x, y) == if any_stroke(segs, segs.len() as int, x, y) {
            c
        } else {
            WHITE
        }
}

/// Paints every segment of `segs` onto a white canvas, each end rounded
/// toward zero to its pixel.
pub fn stroke_segments(width: u32, height: u32, segs: &Vec<Segment>, color: [u8; 3]) -> (r: PixelBuffer)
    requires
        dimensions_ok(width, height),
    ensures
        stroked(r, width, height, segs@, color),
{
    let mut b = PixelBuffer::filled(width, height, WHITE);
    proof {
        assert forall|x: int, y: int| on_canvas(b, x, y) implies #[trigger] b.at(x, y) == WHITE by {
            crate::buffer::lemma_cell_index(x, y, width as int, height as int);
        }
        assert(segs@.subrange(0, 0) =~= Seq::<Segment>::empty());
    }
    let n = segs.len();
    let mut k: usize = 0;
    while k < n
        invariant
            n == segs@.len(),
            k <= n,
            stroked(b, width, height, segs@.subrange(0, k as int), color),
        decreases n - k,
    {
        let s = segs[k];
        let ghost before = b;
        draw_line(&mut b, to_pixel(s.start.x), to_pixel(s.start.y), to_pixel(s.end.x), to_pixel(s.end.y), color);
        proof {
            let done = segs@.subrange(0, k as int);
            let next = segs@.subrange(0, k + 1);
            assert forall|j: int| 0 <= j < next.len() implies ends_painted(b, #[trigger] next[j], color) by {
                if j < k {
                    assert(next[j] == done[j]);
                    assert(ends_painted(before, done[j], color));
                    let t = next[j];
                    let w = width as int;
                    let h = height as int;
                    if on_canvas(b, pixel_of(t.start.x as int), pixel_of(t.start.y as int)) {
                        crate::buffer::lemma_cell_index(pixel_of(t.start.x as int), pixel_of(t.start.y as int), w, h);
                    }
                    if on_canvas(b, pixel_of(t.end.x as int), pixel_of(t.end.y as int)) {
                        crate::buffer::lemma_cell_index(pixel_of(t.end.x as int), pixel_of(t.end.y as int), w, h);
                    }
                } else {
                    assert(next[j] == s);
                }
            }
            assert forall|x: int, y: int| on_canvas(b, x, y) implies #[trigger] b.at(x, y) == if any_stroke(
                next,
                next.len() as int,
                x,
                y,
            ) {
                color
            } else {
                WHITE
            } by {
                assert(before.at(x, y) == if any_stroke(done, done.len() as int, x, y) { color } else { WHITE });
                if segment_pixels(s).contains((x, y)) {
                    assert(segment_pixels(next[k as int]).contains((x, y)));
                } else if any_stroke(done, done.len() as int, x, y) {
                    let q = choose|q: int| 0 <= q < done.len() && segment_pixels(#[trigger] done[q]).contains((x, y));
                    assert(next[q] == done[q]);
                } else {
                    assert forall|q: int| 0 <= q < next.len() implies !segment_pixels(#[trigger] next[q]).contains((x, y)) by {
                        if q < k {
                            assert(next[q] == done[q]);
                        } else {
                            assert(next[q] == s);
                        }
                    }
                }
            }
        }
        k = k + 1;
    }
    assert(segs@.subrange(0, n as int) =~= segs@);
    b
}

/// What a Koch render returns: the verdict of validation, and on success
/// the snowflake of the requested depth stroked on a white canvas.
pub open spec fn koch_render(r: Result<PixelBuffer, FractalError>, p: &FractalParams) -> bool {
    match params_error(FractalKind::Koch, p) {
        Some(e) => r == Err::<PixelBuffer, FractalError>(e),
        None => r is Ok && ({
            let (a, b, c) = koch_seed(p.width as int, p.height as int);
            stroked(r->Ok_0, p.width, p.height, snowflake_segments(a, b, c, koch_depth(p)), KOCH_STROKE)
        }),
    }
}

/// The Koch snowflake: the three edges of an equilateral seed triangle,
/// each replaced by a Koch curve, stroked on a white canvas.
pub struct KochSnowflake;

impl KochSnowflake {
    pub fn name(&self) -> (r: &'static str)
        ensures
            r@ == "koch"@,
    {
        "koch"
    }

    /// Validates the request: shared checks, then the recursion depth.
    pub fn validate_params(&self, p: &FractalParams) -> (r: Result<(), FractalError>)
        ensures
            is_verdict(r, FractalKind::Koch, p),
    {
        FractalKind::Koch.validate_params(p)
    }

    /// The segments of the snowflake of depth `depth` on a width x height
    /// canvas, before rasterizing.
    pub fn segments(&self, width: u32, height: u32, depth: u32) -> (r: Vec<Segment>)
        requires
            dimensions_ok(width, height),
            depth <= MAX_RECURSION_DEPTH,
        ensures
            ({
                let (a, b, c) = koch_seed(width as int, height as int);
                r@ == snowflake_segments(a, b, c, depth as nat)
            }),
            r@.len() == 3 * pow4(depth as nat),
    {
        let (a, b, c) = seed(width, height);
        proof {
            lemma_room_top(depth as nat);
            lemma_snowflake_count(a, b, c, depth as nat);
        }
        let mut lines: Vec<Segment> = Vec::new();
        koch_curve(a, b, depth, &mut lines);
        koch_curve(b, c, depth, &mut lines);
        koch_curve(c, a, depth, &mut lines);
        assert(lines@ =~= snowflake_segments(a, b, c, depth as nat));
        lines
    }

    /// Validates the request, then strokes the snowflake of the requested
    /// depth (4 when none is given) on a white canvas.
    pub fn generate(&self, p: &FractalParams) -> (r: Result<PixelBuffer, FractalError>)
        ensures
            koch_render(r, p),
    {
        let v = FractalKind::Koch.validate_params(p);
        match v {
            Err(e) => Err(e),
            Ok(()) => {
                let depth = match p.recursion_depth {
                    Some(d) => d,
                    None => KOCH_DEFAULT_DEPTH,
                };
                let segs = self.segments(p.width, p.height, depth);
                Ok(stroke_segments(p.width, p.height, &segs, KOCH_STROKE))
            },
        }
    }
}

/// Seed corners lie well inside the room of any depth up to 12.
proof fn lemma_room_top(d: nat)
    requires
        d <= 12,
    ensures
        koch_room(d) >= 0x10_0000_0000,
{
    reveal(koch_room);
    lemma_pow4_mono(0, (12 - d) as nat);
    let p = pow4((12 - d) as nat) as int;
    assert(0x10_0000_0000 * p >= 0x10_0000_0000) by (nonlinear_arith)
        requires p >= 1;
}

fn seed(width: u32, height: u32) -> (r: (Point, Point, Point))
    requires
        dimensions_ok(width, height),
    ensures
        r == koch_seed(width as int, height as int),
        within(r.0, 0x2000_0000),
        within(r.1, 0x2000_0000),
        within(r.2, 0x2000_0000),
{
    let w = width as i64;
    let h = height as i64;
    let side = (if w < h { w } else { h }) - 2 * KOCH_PADDING;
    let sz = side * FIXED_ONE;
    let cx = (w * FIXED_ONE) / 2;
    let cy = (h * FIXED_ONE) / 2;
    proof {
        lemma_tdiv_bounds(sz * SIN60, FIXED_ONE as int);
        assert(-0x1000_0000 * 0xdddd <= sz * SIN60 <= 0x1000_0000 * 0xdddd) by (nonlinear_arith)
            requires -0x1000_0000 <= sz <= 0x1000_0000;
        assert(-0x1000_0000 <= tdiv(sz * SIN60, 65536) <= 0x1000_0000) by {
            if sz >= 0 {
                assert((sz * 56756) / 65536 <= sz) by (nonlinear_arith)
                    requires sz >= 0;
            } else {
                assert((-(sz * 56756)) / 65536 <= -sz) by (nonlinear_arith)
                    requires sz < 0;
            }
        }
    }
    let ho = (sz * SIN60) / FIXED_ONE;
    proof {
        lemma_tdiv_bounds(3 * ho, 5);
        lemma_tdiv_bounds(2 * ho, 5);
        lemma_tdiv_bounds(sz as int, 2);
    }
    (
        Point { x: cx, y: cy - (3 * ho) / 5 },
        Point { x: cx - sz / 2, y: cy + (2 * ho) / 5 },
        Point { x: cx + sz / 2, y: cy + (2 * ho) / 5 },
    )
}

} // verus!
