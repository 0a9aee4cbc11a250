use vstd::prelude::*;
use crate::buffer::{lemma_cell_distinct, lemma_cell_index, PixelBuffer};
use crate::colors::iterations_to_color;
use crate::error::FractalError;
use crate::fractal::{is_verdict, params_error, FractalKind};
use crate::geometry::{lemma_tdiv_bounds, pixel_of, pow3, tdiv, to_pixel, within, Point, FIXED_ONE};
use crate::koch::WHITE;
use crate::params::{scheme_of, FractalParams};
use crate::raster::on_canvas;
use crate::validation::{dimensions_ok, MAX_RECURSION_DEPTH};

verus! {

/// Depth used when a request names none.
pub const SIERPINSKI_DEFAULT_DEPTH: u32 = 6;
/// Padding, in pixels, between the outer triangle and the canvas edge.
pub const SIERPINSKI_PADDING: i64 = 20;
/// Every vertex the Sierpinski generator handles lies within this bound.
pub const SIERPINSKI_REACH: i64 = 0x2000_0000;

/// A triangle by its three corners.
#[derive(Clone, Copy, Debug, PartialEq, Eq, Structural)]
pub struct Triangle {
    pub a: Point,
    pub b: Point,
    pub c: Point,
}

/// The midpoint of p and q, each coordinate rounded toward zero.
pub open spec fn mid(p: Point, q: Point) -> Point {
    Point { x: tdiv(p.x + q.x, 2) as i64, y: tdiv(p.y + q.y, 2) as i64 }
}

/// The filled triangles of the Sierpinski triangle of depth d on a, b, c:
/// the three corner triangles cut off by the edge midpoints, recursively,
/// leaving out each central one.
#[verifier::opaque]
pub open spec fn sierpinski_leaves(a: Point, b: Point, c: Point, d: nat) -> Seq<Triangle>
    decreases d,
{
    if d == 0 {
        seq![Triangle { a, b, c }]
    } else {
        let m1 = mid(a, b);
        let m2 = mid(b, c);
        let m3 = mid(c, a);
        let dd = (d - 1) as nat;
        sierpinski_leaves(a, m1, m3, dd) + sierpinski_leaves(m1, b, m2, dd)
            + sierpinski_leaves(m3, m2, c, dd)
    }
}

/// A Sierpinski triangle of depth d is made of exactly 3^d filled triangles.
pub proof fn lemma_sierpinski_count(a: Point, b: Point, c: Point, d: nat)
    ensures
        sierpinski_leaves(a, b, c, d).len() == pow3(d),
    decreases d,
{
    reveal(sierpinski_leaves);
    if d > 0 {
        let m1 = mid(a, b);
        let m2 = mid(b, c);
        let m3 = mid(c, a);
        let dd = (d - 1) as nat;
        lemma_sierpinski_count(a, m1, m3, dd);
        lemma_sierpinski_count(m1, b, m2, dd);
        lemma_sierpinski_count(m3, m2, c, dd);
    }
}

proof fn lemma_mid_within(p: Point, q: Point, bound: int)
    requires
        within(p, bound),
        within(q, bound),
    ensures
        within(mid(p, q), bound),
{
    lemma_tdiv_bounds(p.x + q.x, 2);
    lemma_tdiv_bounds(p.y + q.y, 2);
}

fn midpoint(p: Point, q: Point) -> (r: Point)
    requires
        within(p, SIERPINSKI_REACH as int),
        within(q, SIERPINSKI_REACH as int),
    ensures
        r == mid(p, q),
        within(r, SIERPINSKI_REACH as int),
{
    proof {
        lemma_mid_within(p, q, SIERPINSKI_REACH as int);
    }
    Point { x: (p.x + q.x) / 2, y: (p.y + q.y) / 2 }
}

/// Appends the filled triangles of the Sierpinski triangle of depth `depth`
/// on a, b, c to `out`.
pub fn sierpinski_triangles(a: Point, b: Point, c: Point, depth: u32, out: &mut Vec<Triangle>)
    requires
        depth <= MAX_RECURSION_DEPTH,
        within(a, SIERPINSKI_REACH as int),
        within(b, SIERPINSKI_REACH as int),
        within(c, SIERPINSKI_REACH as int),
    ensures
        final(out)@ == old(out)@ + sierpinski_leaves(a, b, c, depth as nat),
    decreases depth,
{
    proof {
        reveal(sierpinski_leaves);
    }
    if depth == 0 {
        out.push(Triangle { a, b, c });
        assert(seq![Triangle { a, b, c }] =~= sierpinski_leaves(a, b, c, 0));
    } else {
        let m1 = midpoint(a, b);
        let m2 = midpoint(b, c);
        let m3 = midpoint(c, a);
        let ghost before = out@;
        sierpinski_triangles(a, m1, m3, depth - 1, out);
        sierpinski_triangles(m1, b, m2, depth - 1, out);
        sierpinski_triangles(m3, m2, c, depth - 1, out);
        assert(out@ =~= before + sierpinski_leaves(a, b, c, depth as nat));
    }
}

/// Twice the signed area of p, q, r: which side of the line q -> r p lies on.
pub open spec fn edge_sign(p: (int, int), q: Point, r: Point) -> int {
    (p.0 - r.x) * (q.y - r.y) - (q.x - r.x) * (p.1 - r.y)
}

/// Point p lies inside or on the triangle: its three edge signs are not of
/// mixed sign.
pub open spec fn inside(p: (int, int), t: Triangle) -> bool {
    let d1 = edge_sign(p, t.a, t.b);
    let d2 = edge_sign(p, t.b, t.c);
    let d3 = edge_sign(p, t.c, t.a);
    !((d1 < 0 || d2 < 0 || d3 < 0) && (d1 > 0 || d2 > 0 || d3 > 0))
}

pub open spec fn min3(a: int, b: int, c: int) -> int {
    if a <= b && a <= c { a } else if b <= c { b } else { c }
}

pub open spec fn max3(a: int, b: int, c: int) -> int {
    if a >= b && a >= c { a } else if b >= c { b } else { c }
}

/// Pixel (x, y) is filled for triangle t: it lies in the triangle's
/// bounding box (ends rounded toward zero to pixels) and its corner point
/// passes the sign test.
pub open spec fn covers(t: Triangle, x: int, y: int) -> bool {
    &&& pixel_of(min3(t.a.x as int, t.b.x as int, t.c.x as int)) <= x
    &&& x <= pixel_of(max3(t.a.x as int, t.b.x as int, t.c.x as int))
    &&& pixel_of(min3(t.a.y as int, t.b.y as int, t.c.y as int)) <= y
    &&& y <= pixel_of(max3(t.a.y as int, t.b.y as int, t.c.y as int))
    &&& inside((x * FIXED_ONE, y * FIXED_ONE), t)
}

fn sign_of(px: i64, py: i64, q: Point, r: Point) -> (s: i128)
    requires
        -SIERPINSKI_REACH <= px <= SIERPINSKI_REACH,
        -SIERPINSKI_REACH <= py <= SIERPINSKI_REACH,
        within(q, SIERPINSKI_REACH as int),
        within(r, SIERPINSKI_REACH as int),
    ensures
        s == edge_sign((px as int, py as int), q, r),
{
    let a = (px - r.x) as i128;
    let b = (q.y - r.y) as i128;
    let c = (q.x - r.x) as i128;
    let d = (py - r.y) as i128;
    proof {
        assert(-0x4000_0000 * 0x4000_0000 <= a * b <= 0x4000_0000 * 0x4000_0000) by (nonlinear_arith)
            requires -0x4000_0000 <= a <= 0x4000_0000, -0x4000_0000 <= b <= 0x4000_0000;
        assert(-0x4000_0000 * 0x4000_0000 <= c * d <= 0x4000_0000 * 0x4000_0000) by (nonlinear_arith)
            requires -0x4000_0000 <= c <= 0x4000_0000, -0x4000_0000 <= d <= 0x4000_0000;
    }
    a * b - c * d
}

/// `after` is `before` with the pixels that `t` covers set to `color`.
pub open spec fn filled_with(before: PixelBuffer, after: PixelBuffer, t: Triangle, color: [u8; 3]) -> bool {
    &&& after.wf()
    &&& after.spec_width() == before.spec_width()
    &&& after.spec_height() == before.spec_height()
    &&& forall|x: int, y: int|
        on_canvas(before, x, y) ==> #[trigger] after.at(x, y) == if covers(t, x, y) {
            color
        } else {
            before.at(x, y)
        }
}

/// Fills the pixels of the canvas that the triangle covers with `color`;
/// every other pixel keeps its colour.
pub fn fill_triangle(b: &mut PixelBuffer, t: Triangle, color: [u8; 3])
    requires
        old(b).wf(),
        within(t.a, SIERPINSKI_REACH as int),
        within(t.b, SIERPINSKI_REACH as int),
        within(t.c, SIERPINSKI_REACH as int),
    ensures
        filled_with(*old(b), *final(b), t, color),
{
    let lo_x = to_pixel(min_of(t.a.x, t.b.x, t.c.x));
    let hi_x = to_pixel(max_of(t.a.x, t.b.x, t.c.x));
    let lo_y = to_pixel(min_of(t.a.y, t.b.y, t.c.y));
    let hi_y = to_pixel(max_of(t.a.y, t.b.y, t.c.y));
    let w = b.width() as i64;
    let h = b.height() as i64;
    let x_start = if lo_x > 0 { lo_x } else { 0 };
    let x_end = if hi_x < w - 1 { hi_x } else { w - 1 };
    let y_start = if lo_y > 0 { lo_y } else { 0 };
    let y_end = if hi_y < h - 1 { hi_y } else { h - 1 };
    let ghost start = *b;
    let mut y = y_start;
    while y <= y_end
        invariant
            start == *old(b),
            b.wf(),
            b.spec_width() == start.spec_width(),
            b.spec_height() == start.spec_height(),
            w == start.spec_width(),
            h == start.spec_height(),
            1 <= w <= 4096,
            1 <= h <= 4096,
            within(t.a, SIERPINSKI_REACH as int),
            within(t.b, SIERPINSKI_REACH as int),
            within(t.c, SIERPINSKI_REACH as int),
            lo_x == pixel_of(min3(t.a.x as int, t.b.x as int, t.c.x as int)),
            hi_x == pixel_of(max3(t.a.x as int, t.b.x as int, t.c.x as int)),
            lo_y == pixel_of(min3(t.a.y as int, t.b.y as int, t.c.y as int)),
            hi_y == pixel_of(max3(t.a.y as int, t.b.y as int, t.c.y as int)),
            x_start == if lo_x > 0 { lo_x } else { 0 },
            x_end == if hi_x < w - 1 { hi_x as int } else { w - 1 },
            y_start == if lo_y > 0 { lo_y } else { 0 },
            y_end == if hi_y < h - 1 { hi_y as int } else { h - 1 },
            y_start <= y <= (if y_end + 1 > y_start { y_end + 1 } else { y_start as int }),
            forall|px: int, py: int|
                on_canvas(start, px, py) ==> #[trigger] b.at(px, py) == if py < y && covers(t, px, py) {
                    color
                } else {
                    start.at(px, py)
                },
        decreases y_end + 1 - y,
    {
        let mut x = x_start;
        while x <= x_end
            invariant
                start == *old(b),
                b.wf(),
                b.spec_width() == start.spec_width(),
                b.spec_height() == start.spec_height(),
                w == start.spec_width(),
                h == start.spec_height(),
                1 <= w <= 4096,
                1 <= h <= 4096,
                within(t.a, SIERPINSKI_REACH as int),
                within(t.b, SIERPINSKI_REACH as int),
                within(t.c, SIERPINSKI_REACH as int),
                lo_x == pixel_of(min3(t.a.x as int, t.b.x as int, t.c.x as int)),
                hi_x == pixel_of(max3(t.a.x as int, t.b.x as int, t.c.x as int)),
                lo_y == pixel_of(min3(t.a.y as int, t.b.y as int, t.c.y as int)),
                hi_y == pixel_of(max3(t.a.y as int, t.b.y as int, t.c.y as int)),
                x_start == if lo_x > 0 { lo_x } else { 0 },
                x_end == if hi_x < w - 1 { hi_x as int } else { w - 1 },
                y_start == if lo_y > 0 { lo_y } else { 0 },
                y_end == if hi_y < h - 1 { hi_y as int } else { h - 1 },
                y_start <= y <= y_end,
                x_start <= x <= (if x_end + 1 > x_start { x_end + 1 } else { x_start as int }),
                forall|px: int, py: int|
                    on_canvas(start, px, py) ==> #[trigger] b.at(px, py) == if (py < y || (py == y
                        && px < x)) && covers(t, px, py) {
                        color
                    } else {
                        start.at(px, py)
                    },
            decreases x_end + 1 - x,
        {
            let s1 = sign_of(x * FIXED_ONE, y * FIXED_ONE, t.a, t.b);
            let s2 = sign_of(x * FIXED_ONE, y * FIXED_ONE, t.b, t.c);
            let s3 = sign_of(x * FIXED_ONE, y * FIXED_ONE, t.c, t.a);
            let has_neg = s1 < 0 || s2 < 0 || s3 < 0;
            let has_pos = s1 > 0 || s2 > 0 || s3 > 0;
            let ghost before = *b;
            if !(has_neg && has_pos) {
                b.put_pixel(x as u32, y as u32, color);
            }
            proof {
                assert(covers(t, x as int, y as int) == !(has_neg && has_pos));
                assert forall|px: int, py: int| on_canvas(start, px, py) implies #[trigger] b.at(px, py)
                    == if (py < y || (py == y && px < x + 1)) && covers(t, px, py) {
                    color
                } else {
                    start.at(px, py)
                } by {
                    lemma_cell_index(px, py, w as int, h as int);
                    lemma_cell_index(x as int, y as int, w as int, h as int);
                    if px != x || py != y {
                        if before.index_of(px, py) == before.index_of(x as int, y as int) {
                            lemma_cell_distinct(px, py, x as int, y as int, w as int);
                        }
                        assert(b.at(px, py) == before.at(px, py));
                    }
                }
            }
            x = x + 1;
        }
        proof {
            assert forall|px: int, py: int| on_canvas(start, px, py) implies #[trigger] b.at(px, py)
                == if py < y + 1 && covers(t, px, py) {
                color
            } else {
                start.at(px, py)
            } by {
                if py == y && px >= x {
                    assert(!covers(t, px, py));
                }
            }
        }
        y = y + 1;
    }
    proof {
        assert forall|px: int, py: int| on_canvas(start, px, py) implies #[trigger] b.at(px, py)
            == if covers(t, px, py) {
            color
        } else {
            start.at(px, py)
        } by {
            if py >= y {
                assert(!covers(t, px, py));
            }
        }
    }
}

fn min_of(a: i64, b: i64, c: i64) -> (r: i64)
    ensures
        r == min3(a as int, b as int, c as int),
{
    if a <= b && a <= c { a } else if b <= c { b } else { c }
}

fn max_of(a: i64, b: i64, c: i64) -> (r: i64)
    ensures
        r == max3(a as int, b as int, c as int),
{
    if a >= b && a >= c { a } else if b >= c { b } else { c }
}

} // verus!

verus! {

/// The corners of the outer triangle on a width x height canvas: apex at
/// the top centre, base along the bottom, 20 pixels in from the edges, base
/// min(width, height) - 40 pixels wide.
pub open spec fn sierpinski_seed(width: int, height: int) -> (Point, Point, Point) {
    let one = FIXED_ONE as int;
    let side = (if width < height { width } else { height }) - 2 * SIERPINSKI_PADDING;
    let cx = (width * one) / 2;
    let half = tdiv(side * one, 2);
    let base = (height - SIERPINSKI_PADDING) * one;
    (
        Point { x: cx as i64, y: (SIERPINSKI_PADDING * one) as i64 },
        Point { x: (cx - half) as i64, y: base as i64 },
        Point { x: (cx + half) as i64, y: base as i64 },
    )
}

/// The depth a Sierpinski request asks for.
pub open spec fn sierpinski_depth(p: &FractalParams) -> nat {
    match p.recursion_depth {
        Some(d) => d as nat,
        None => SIERPINSKI_DEFAULT_DEPTH as nat,
    }
}

/// Some triangle among the first n of `ts` covers pixel (x, y).
pub open spec fn any_covers(ts: Seq<Triangle>, n: int, x: int, y: int) -> bool {
    exists|k: int| 0 <= k < n && covers(#[trigger] ts[k], x, y)
}

/// `b` is a width x height white canvas with every pixel that a triangle
/// of `ts` covers set to `color`.
pub open spec fn painted_by(b: PixelBuffer, width: u32, height: u32, ts: Seq<Triangle>, color: [u8; 3]) -> bool {
    &&& b.wf()
    &&& b.spec_width() == width
    &&& b.spec_height() == height
    &&& forall|x: int, y: int|
        on_canvas(b, x, y) ==> #[trigger] b.at(x, y) == if any_covers(ts, ts.len() as int, x, y) {
            color
        } else {
            WHITE
        }
}

/// Fills every triangle of `ts` with `color` on a white canvas.
pub fn fill_triangles(width: u32, height: u32, ts: &Vec<Triangle>, color: [u8; 3]) -> (r: PixelBuffer)
    requires
        dimensions_ok(width, height),
        forall|k: int|
            0 <= k < ts@.len() ==> within((#[trigger] ts@[k]).a, SIERPINSKI_REACH as int) && within(
                ts@[k].b,
                SIERPINSKI_REACH as int,
            ) && within(ts@[k].c, SIERPINSKI_REACH as int),
    ensures
        painted_by(r, width, height, ts@, color),
{
    let mut b = PixelBuffer::filled(width, height, WHITE);
    proof {
        assert forall|x: int, y: int| on_canvas(b, x, y) implies #[trigger] b.at(x, y) == if any_covers(
            ts@,
            0,
            x,
            y,
        ) {
            color
        } else {
            WHITE
        } by {
            lemma_cell_index(x, y, width as int, height as int);
        }
    }
    let n = ts.len();
    let mut k: usize = 0;
    while k < n
        invariant
            n == ts@.len(),
            k <= n,
            forall|j: int|
                0 <= j < ts@.len() ==> within((#[trigger] ts@[j]).a, SIERPINSKI_REACH as int) && within(
                    ts@[j].b,
                    SIERPINSKI_REACH as int,
                ) && within(ts@[j].c, SIERPINSKI_REACH as int),
            b.wf(),
            b.spec_width() == width,
            b.spec_height() == height,
            forall|x: int, y: int|
                on_canvas(b, x, y) ==> #[trigger] b.at(x, y) == if any_covers(ts@, k as int, x, y) {
                    color
                } else {
                    WHITE
                },
        decreases n - k,
    {
        let ghost before = b;
        let t = ts[k];
        fill_triangle(&mut b, t, color);
        proof {
            assert forall|x: int, y: int| on_canvas(b, x, y) implies #[trigger] b.at(x, y) == if any_covers(
                ts@,
                k + 1,
                x,
                y,
            ) {
                color
            } else {
                WHITE
            } by {
                assert(before.at(x, y) == if any_covers(ts@, k as int, x, y) { color } else { WHITE });
                if covers(t, x, y) {
                    assert(covers(ts@[k as int], x, y));
                } else if any_covers(ts@, k as int, x, y) {
                    let j = choose|j: int| 0 <= j < k && covers(#[trigger] ts@[j], x, y);
                    assert(0 <= j < k + 1 && covers(ts@[j], x, y));
                } else {
                    assert forall|j: int| 0 <= j < k + 1 implies !covers(#[trigger] ts@[j], x, y) by {
                        if j == k {
                            assert(ts@[j] == t);
                        }
                    }
                }
            }
        }
        k = k + 1;
    }
    b
}

/// Every filled triangle of a Sierpinski triangle on corners bounded by the
/// generator's reach has its corners within that reach.
proof fn lemma_leaves_within(a: Point, b: Point, c: Point, d: nat)
    requires
        within(a, SIERPINSKI_REACH as int),
        within(b, SIERPINSKI_REACH as int),
        within(c, SIERPINSKI_REACH as int),
    ensures
        forall|k: int|
            0 <= k < sierpinski_leaves(a, b, c, d).len() ==> within(
                (#[trigger] sierpinski_leaves(a, b, c, d)[k]).a,
                SIERPINSKI_REACH as int,
            ) && within(sierpinski_leaves(a, b, c, d)[k].b, SIERPINSKI_REACH as int) && within(
                sierpinski_leaves(a, b, c, d)[k].c,
                SIERPINSKI_REACH as int,
            ),
    decreases d,
{
    reveal(sierpinski_leaves);
    if d > 0 {
        let m1 = mid(a, b);
        let m2 = mid(b, c);
        let m3 = mid(c, a);
        let dd = (d - 1) as nat;
        lemma_mid_within(a, b, SIERPINSKI_REACH as int);
        lemma_mid_within(b, c, SIERPINSKI_REACH as int);
        lemma_mid_within(c, a, SIERPINSKI_REACH as int);
        lemma_leaves_within(a, m1, m3, dd);
        lemma_leaves_within(m1, b, m2, dd);
        lemma_leaves_within(m3, m2, c, dd);
        let l1 = sierpinski_leaves(a, m1, m3, dd);
        let l2 = sierpinski_leaves(m1, b, m2, dd);
        let l3 = sierpinski_leaves(m3, m2, c, dd);
        let all = l1 + l2 + l3;
        assert forall|k: int| 0 <= k < all.len() implies within((#[trigger] all[k]).a, SIERPINSKI_REACH as int)
            && within(all[k].b, SIERPINSKI_REACH as int) && within(all[k].c, SIERPINSKI_REACH as int) by {
            if k < l1.len() {
                assert(all[k] == l1[k]);
            } else if k < l1.len() + l2.len() {
                assert(all[k] == l2[k - l1.len()]);
            } else {
                assert(all[k] == l3[k - l1.len() - l2.len()]);
            }
        }
    }
}

fn seed(width: u32, height: u32) -> (r: (Point, Point, Point))
    requires
        dimensions_ok(width, height),
    ensures
        r == sierpinski_seed(width as int, height as int),
        within(r.0, SIERPINSKI_REACH as int),
        within(r.1, SIERPINSKI_REACH as int),
        within(r.2, SIERPINSKI_REACH as int),
{
    let w = width as i64;
    let h = height as i64;
    let side = (if w < h { w } else { h }) - 2 * SIERPINSKI_PADDING;
    let cx = (w * FIXED_ONE) / 2;
    proof {
        lemma_tdiv_bounds(side * FIXED_ONE, 2);
    }
    let half = (side * FIXED_ONE) / 2;
    let base = (h - SIERPINSKI_PADDING) * FIXED_ONE;
    (
        Point { x: cx, y: SIERPINSKI_PADDING * FIXED_ONE },
        Point { x: cx - half, y: base },
        Point { x: cx + half, y: base },
    )
}

/// What a Sierpinski render returns: the verdict of validation, and on
/// success the triangles of the requested depth filled in black on a white
/// canvas.
pub open spec fn sierpinski_render(r: Result<PixelBuffer, FractalError>, p: &FractalParams) -> bool {
    match params_error(FractalKind::Sierpinski, p) {
        Some(e) => r == Err::<PixelBuffer, FractalError>(e),
        None => r is Ok && ({
            let (a, b, c) = sierpinski_seed(p.width as int, p.height as int);
            painted_by(
                r->Ok_0,
                p.width,
                p.height,
                sierpinski_leaves(a, b, c, sierpinski_depth(p)),
                [0u8, 0u8, 0u8],
            )
        }),
    }
}

/// The Sierpinski triangle: an outer triangle recursively split at its edge
/// midpoints into three corner triangles (the central one left out), with
/// the triangles of the last level filled on a white canvas.
pub struct SierpinskiTriangle;

impl SierpinskiTriangle {
    pub fn name(&self) -> (r: &'static str)
        ensures
            r@ == "sierpinski"@,
    {
        "sierpinski"
    }

    /// Validates the request: shared checks, then the recursion depth.
    pub fn validate_params(&self, p: &FractalParams) -> (r: Result<(), FractalError>)
        ensures
            is_verdict(r, FractalKind::Sierpinski, p),
    {
        FractalKind::Sierpinski.validate_params(p)
    }

    /// The filled triangles of the Sierpinski triangle of depth `depth` on a
    /// width x height canvas, before rasterizing.
    pub fn triangles(&self, width: u32, height: u32, depth: u32) -> (r: Vec<Triangle>)
        requires
            dimensions_ok(width, height),
            depth <= MAX_RECURSION_DEPTH,
        ensures
            ({
                let (a, b, c) = sierpinski_seed(width as int, height as int);
                r@ == sierpinski_leaves(a, b, c, depth as nat)
            }),
            r@.len() == pow3(depth as nat),
    {
        let (a, b, c) = seed(width, height);
        proof {
            lemma_sierpinski_count(a, b, c, depth as nat);
        }
        let mut out: Vec<Triangle> = Vec::new();
        sierpinski_triangles(a, b, c, depth, &mut out);
        assert(out@ =~= sierpinski_leaves(a, b, c, depth as nat));
        out
    }

    /// Validates the request, then fills the triangles of the requested
    /// depth (6 when none is given) on a white canvas, in the colour the
    /// request's scheme gives a count equal to its bound: black.
    pub fn generate(&self, p: &FractalParams) -> (r: Result<PixelBuffer, FractalError>)
        ensures
            sierpinski_render(r, p),
    {
        let v = FractalKind::Sierpinski.validate_params(p);
        match v {
            Err(e) => Err(e),
            Ok(()) => {
                let depth = match p.recursion_depth {
                    Some(d) => d,
                    None => SIERPINSKI_DEFAULT_DEPTH,
                };
                let scheme = scheme_of(p);
                let no_wave: Vec<[u8; 2]> = Vec::new();
                let color = iterations_to_color(depth, depth, &scheme, &no_wave);
                let ts = self.triangles(p.width, p.height, depth);
                proof {
                    let (a, b, c) = sierpinski_seed(p.width as int, p.height as int);
                    lemma_leaves_within(a, b, c, depth as nat);
                    assert(color =~= [0u8, 0u8, 0u8]);
                }
                Ok(fill_triangles(p.width, p.height, &ts, color))
            },
        }
    }
}

} // verus!
