use vstd::prelude::*;

verus! {

/// One pixel in fixed point: coordinates count 1/65536ths of a pixel.
pub const FIXED_ONE: i64 = 65536;
/// sin 60 degrees (sqrt(3) / 2) in fixed point, rounded.
pub const SIN60: i64 = 56756;

/// A point of the canvas plane in fixed point (x right, y down).
#[derive(Clone, Copy, Debug, PartialEq, Eq, Structural)]
pub struct Point {
    pub x: i64,
    pub y: i64,
}

/// Integer division rounding toward zero, as Rust's `/` does.
pub open spec fn tdiv(a: int, d: int) -> int {
    if a >= 0 {
        a / d
    } else {
        -((-a) / d)
    }
}

/// Both coordinates of `p` lie in [-b, b].
pub open spec fn within(p: Point, b: int) -> bool {
    -b <= p.x <= b && -b <= p.y <= b
}

/// The pixel column or row holding a fixed-point coordinate, truncated
/// toward zero.
pub open spec fn pixel_of(c: int) -> int {
    tdiv(c, FIXED_ONE as int)
}

/// Dividing by a positive `d` never moves a value away from zero.
pub proof fn lemma_tdiv_bounds(a: int, d: int)
    requires
        d > 0,
    ensures
        a >= 0 ==> 0 <= tdiv(a, d) <= a,
        a < 0 ==> a <= tdiv(a, d) <= 0,
        d >= 2 && a >= 0 ==> 2 * tdiv(a, d) <= a,
        d >= 2 && a < 0 ==> a <= 2 * tdiv(a, d),
{
    if a >= 0 {
        assert(0 <= a / d <= a) by (nonlinear_arith)
            requires a >= 0, d > 0;
        if d >= 2 {
            assert(2 * (a / d) <= a) by (nonlinear_arith)
                requires a >= 0, d >= 2;
        }
    } else {
        assert(0 <= (-a) / d <= -a) by (nonlinear_arith)
            requires -a > 0, d > 0;
        if d >= 2 {
            assert(2 * ((-a) / d) <= -a) by (nonlinear_arith)
                requires -a > 0, d >= 2;
        }
    }
}

/// The pixel of a fixed-point coordinate.
pub fn to_pixel(c: i64) -> (r: i64)
    ensures
        r == pixel_of(c as int),
        -0x8000_0000_0000 <= r <= 0x8000_0000_0000,
{
    proof {
        lemma_tdiv_bounds(c as int, FIXED_ONE as int);
        assert(c / 65536 <= 0x8000_0000_0000);
    }
    c / FIXED_ONE
}

} // verus!

verus! {

/// A drawable line from `start` to `end`.
#[derive(Clone, Copy, Debug, PartialEq, Eq, Structural)]
pub struct Segment {
    pub start: Point,
    pub end: Point,
}

/// 4^n.
pub open spec fn pow4(n: nat) -> nat
    decreases n,
{
    if n == 0 {
        1
    } else {
        4 * pow4((n - 1) as nat)
    }
}

/// 3^n.
pub open spec fn pow3(n: nat) -> nat
    decreases n,
{
    if n == 0 {
        1
    } else {
        3 * pow3((n - 1) as nat)
    }
}

pub proof fn lemma_pow4_mono(a: nat, b: nat)
    requires
        a <= b,
    ensures
        1 <= pow4(a) <= pow4(b),
    decreases b,
{
    if b > a {
        lemma_pow4_mono(a, (b - 1) as nat);
    } else if a > 0 {
        lemma_pow4_mono((a - 1) as nat, (a - 1) as nat);
    }
}

/// The point truncating (start + (end - start) * k / 3), k = 1 or 2.
pub open spec fn third_point(s: Point, e: Point, k: int) -> Point {
    Point {
        x: (s.x + tdiv(k * (e.x - s.x), 3)) as i64,
        y: (s.y + tdiv(k * (e.y - s.y), 3)) as i64,
    }
}

/// The apex of the equilateral bump on p1 -> p2: p1 plus (p2 - p1) turned
/// by 60 degrees (toward +y from +x).
pub open spec fn apex_point(p1: Point, p2: Point) -> Point {
    let ux = p2.x - p1.x;
    let uy = p2.y - p1.y;
    Point {
        x: (p1.x + tdiv(ux, 2) - tdiv(uy * SIN60, FIXED_ONE as int)) as i64,
        y: (p1.y + tdiv(ux * SIN60, FIXED_ONE as int) + tdiv(uy, 2)) as i64,
    }
}

/// A point between two points bounded by b is bounded by b.
pub proof fn lemma_third_within(s: Point, e: Point, k: int, b: int)
    requires
        within(s, b),
        within(e, b),
        k == 1 || k == 2,
    ensures
        within(third_point(s, e, k), b),
{
    lemma_tdiv_third(e.x - s.x, k);
    lemma_tdiv_third(e.y - s.y, k);
}

proof fn lemma_tdiv_third(a: int, k: int)
    requires
        k == 1 || k == 2,
    ensures
        a >= 0 ==> 0 <= tdiv(k * a, 3) <= a,
        a < 0 ==> a <= tdiv(k * a, 3) <= 0,
{
    if a >= 0 {
        assert(0 <= (k * a) / 3 <= a) by (nonlinear_arith)
            requires a >= 0, k == 1 || k == 2;
    } else {
        assert(0 <= (-(k * a)) / 3 <= -a) by (nonlinear_arith)
            requires a < 0, k == 1 || k == 2;
    }
}

proof fn lemma_turn_bound(u: int)
    ensures
        -(if u >= 0 { u } else { -u }) <= tdiv(u * SIN60, FIXED_ONE as int) <= (if u >= 0 { u } else { -u }),
{
    if u >= 0 {
        assert(0 <= (u * 56756) / 65536 <= u) by (nonlinear_arith)
            requires u >= 0;
    } else {
        assert(0 <= (-(u * 56756)) / 65536 <= -u) by (nonlinear_arith)
            requires u < 0;
    }
}

/// The apex of a bump between points bounded by b is bounded by 4b.
pub proof fn lemma_apex_within(p1: Point, p2: Point, b: int)
    requires
        within(p1, b),
        within(p2, b),
    ensures
        within(apex_point(p1, p2), 4 * b),
{
    let ux = p2.x - p1.x;
    let uy = p2.y - p1.y;
    lemma_tdiv_bounds(ux, 2);
    lemma_tdiv_bounds(uy, 2);
    lemma_turn_bound(ux);
    lemma_turn_bound(uy);
}

} // verus!
