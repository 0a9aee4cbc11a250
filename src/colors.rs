use vstd::prelude::*;
use crate::text::{lower_of, lowercase, same_text};

verus! {

/// A named mapping from iteration (or depth) counts to colours.
#[derive(Clone, Copy, Debug, PartialEq, Eq, Structural)]
pub enum ColorScheme {
    Default,
    Fire,
    Ice,
    Rainbow,
    Grayscale,
}

/// The scheme a lower-case name selects; unknown names select `Default`.
pub open spec fn scheme_named(t: Seq<char>) -> ColorScheme {
    if t == "fire"@ {
        ColorScheme::Fire
    } else if t == "ice"@ {
        ColorScheme::Ice
    } else if t == "rainbow"@ {
        ColorScheme::Rainbow
    } else if t == "grayscale"@ {
        ColorScheme::Grayscale
    } else {
        ColorScheme::Default
    }
}

impl ColorScheme {
    /// Selects a scheme by name, ignoring case; an unknown name gives `Default`.
    pub fn from_str(s: &str) -> (r: ColorScheme)
        ensures
            r == scheme_named(lower_of(s@)),
    {
        let lower = lowercase(s);
        let t = lower.as_str();
        if same_text(t, "fire") {
            ColorScheme::Fire
        } else if same_text(t, "ice") {
            ColorScheme::Ice
        } else if same_text(t, "rainbow") {
            ColorScheme::Rainbow
        } else if same_text(t, "grayscale") {
            ColorScheme::Grayscale
        } else {
            ColorScheme::Default
        }
    }
}

/// floor(scale * i / m): a channel of `scale * t` with t = i / m, truncated.
pub open spec fn ramp(scale: int, i: int, m: int) -> int {
    (scale * i) / m
}

/// The sector (0..=5) of the rainbow hue 6t, t = i / m.
pub open spec fn hue_sector(i: int, m: int) -> int {
    (6 * i) / m
}

/// m times the fractional part of the rainbow hue 6t, t = i / m.
pub open spec fn hue_fraction(i: int, m: int) -> int {
    6 * i - hue_sector(i, m) * m
}

/// The rainbow colour for t = i / m < 1, as (r, g, b).
pub open spec fn rainbow_rgb(i: int, m: int) -> (int, int, int) {
    let f = ramp(255, hue_fraction(i, m), m);
    let q = ramp(255, m - hue_fraction(i, m), m);
    let s = hue_sector(i, m);
    if s == 0 {
        (255, f, 0)
    } else if s == 1 {
        (q, 255, 0)
    } else if s == 2 {
        (0, 255, f)
    } else if s == 3 {
        (0, q, 255)
    } else if s == 4 {
        (f, 0, 255)
    } else {
        (255, 0, q)
    }
}

/// The colour, as (r, g, b), of count `i` out of bound `m` under `scheme`.
/// `wave[i]` holds the default scheme's green and blue for count `i`:
/// 127 sin(2t) + 128 and 127 sin(3t) + 128, truncated.
pub open spec fn scheme_rgb(i: int, m: int, scheme: ColorScheme, wave: Seq<[u8; 2]>) -> (
    int,
    int,
    int,
) {
    if i == m {
        (0, 0, 0)
    } else {
        match scheme {
            ColorScheme::Default => (ramp(255, i, m), wave[i][0] as int, wave[i][1] as int),
            ColorScheme::Fire => (ramp(255, i, m), ramp(200, i, m), ramp(50, i, m)),
            ColorScheme::Ice => (ramp(100, i, m), ramp(200, i, m), ramp(255, i, m)),
            ColorScheme::Rainbow => rainbow_rgb(i, m),
            ColorScheme::Grayscale => (ramp(255, i, m), ramp(255, i, m), ramp(255, i, m)),
        }
    }
}

/// `c` holds the colour (r, g, b).
pub open spec fn is_rgb(c: [u8; 3], rgb: (int, int, int)) -> bool {
    c@.len() == 3 && c@[0] == rgb.0 && c@[1] == rgb.1 && c@[2] == rgb.2
}

/// The colour scheme's table needs a wave entry for every count below the bound.
pub open spec fn wave_covers(scheme: ColorScheme, m: int, wave: Seq<[u8; 2]>) -> bool {
    scheme == ColorScheme::Default ==> wave.len() >= m
}

proof fn lemma_ramp_bounds(scale: int, i: int, m: int)
    requires
        0 <= scale <= 255,
        0 <= i <= m,
        m > 0,
    ensures
        0 <= ramp(scale, i, m) < 256,
        ramp(scale, i, m) <= scale,
{
    assert(0 <= scale * i <= scale * m) by (nonlinear_arith)
        requires 0 <= scale <= 255, 0 <= i <= m;
    assert((scale * i) / m <= scale) by (nonlinear_arith)
        requires 0 <= scale * i <= scale * m, m > 0;
    assert(0 <= (scale * i) / m) by (nonlinear_arith)
        requires 0 <= scale * i, m > 0;
}

proof fn lemma_hue_bounds(i: int, m: int)
    requires
        0 <= i < m,
    ensures
        0 <= hue_sector(i, m) <= 5,
        0 <= hue_fraction(i, m) < m,
{
    assert(0 <= (6 * i) / m <= 5) by (nonlinear_arith)
        requires 0 <= i < m;
    assert(0 <= 6 * i - ((6 * i) / m) * m < m) by (nonlinear_arith)
        requires 0 <= i < m;
}

fn channel(scale: u64, i: u32, m: u32) -> (r: u8)
    requires
        scale <= 255,
        i <= m,
        m > 0,
    ensures
        r == ramp(scale as int, i as int, m as int),
{
    proof {
        lemma_ramp_bounds(scale as int, i as int, m as int);
        assert(scale * i <= 255 * 0xffff_ffff) by (nonlinear_arith)
            requires scale <= 255, i <= 0xffff_ffff;
    }
    ((scale * i as u64) / m as u64) as u8
}

/// Maps an iteration (or depth) count to a colour: black when the count
/// reached the bound, else the scheme's colour for t = iterations / max_iterations.
pub fn iterations_to_color(
    iterations: u32,
    max_iterations: u32,
    scheme: &ColorScheme,
    wave: &Vec<[u8; 2]>,
) -> (r: [u8; 3])
    requires
        iterations <= max_iterations,
        iterations < max_iterations ==> wave_covers(*scheme, max_iterations as int, wave@),
    ensures
        is_rgb(r, scheme_rgb(iterations as int, max_iterations as int, *scheme, wave@)),
{
    if iterations == max_iterations {
        return [0, 0, 0];
    }
    let i = iterations;
    let m = max_iterations;
    match scheme {
        ColorScheme::Default => {
            let w = wave[i as usize];
            [channel(255, i, m), w[0], w[1]]
        },
        ColorScheme::Fire => [channel(255, i, m), channel(200, i, m), channel(50, i, m)],
        ColorScheme::Ice => [channel(100, i, m), channel(200, i, m), channel(255, i, m)],
        ColorScheme::Rainbow => {
            proof {
                lemma_hue_bounds(i as int, m as int);
                assert(6 * i <= 6 * 0xffff_ffffu64);
            }
            let sector = (6 * i as u64) / m as u64;
            proof {
                assert(sector * m <= 6 * i) by (nonlinear_arith)
                    requires sector == (6 * i) / (m as int), m > 0, i >= 0;
            }
            let frac = (6 * i as u64 - sector * m as u64) as u32;
            let f = channel(255, frac, m);
            let q = channel(255, m - frac, m);
            if sector == 0 {
                [255, f, 0]
            } else if sector == 1 {
                [q, 255, 0]
            } else if sector == 2 {
                [0, 255, f]
            } else if sector == 3 {
                [0, q, 255]
            } else if sector == 4 {
                [f, 0, 255]
            } else {
                [255, 0, q]
            }
        },
        ColorScheme::Grayscale => {
            let g = channel(255, i, m);
            [g, g, g]
        },
    }
}

} // verus!
