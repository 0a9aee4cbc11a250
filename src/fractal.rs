use vstd::prelude::*;
use crate::error::FractalError;
use crate::params::{
    baseline_error, depth_error, julia_error, validate_baseline, validate_depth,
    validate_julia_constant, FractalParams,
};
use crate::text::{lower_of, lowercase, same_text};

verus! {

/// The supported fractal variants.
#[derive(Clone, Copy, Debug, PartialEq, Eq, Structural)]
pub enum FractalKind {
    Mandelbrot,
    Julia,
    Sierpinski,
    Koch,
}

/// The variant a lower-case tag names, if any.
pub open spec fn kind_named(t: Seq<char>) -> Option<FractalKind> {
    if t == "mandelbrot"@ {
        Some(FractalKind::Mandelbrot)
    } else if t == "julia"@ {
        Some(FractalKind::Julia)
    } else if t == "sierpinski"@ {
        Some(FractalKind::Sierpinski)
    } else if t == "koch"@ {
        Some(FractalKind::Koch)
    } else {
        None
    }
}

/// The first failed check for `kind`: the shared checks, then the variant's own.
pub open spec fn params_error(kind: FractalKind, p: &FractalParams) -> Option<FractalError> {
    match baseline_error(p) {
        Some(e) => Some(e),
        None => match kind {
            FractalKind::Mandelbrot => None,
            FractalKind::Julia => julia_error(p),
            FractalKind::Sierpinski => depth_error(p),
            FractalKind::Koch => depth_error(p),
        },
    }
}

/// `r` is the verdict of the checks for `kind` on `p`.
pub open spec fn is_verdict(r: Result<(), FractalError>, kind: FractalKind, p: &FractalParams) -> bool {
    r == match params_error(kind, p) {
        Some(e) => Err::<(), FractalError>(e),
        None => Ok(()),
    }
}

impl FractalKind {
    /// Selects a variant by tag, ignoring case.
    pub fn from_tag(tag: &str) -> (r: Result<FractalKind, FractalError>)
        ensures
            r == match kind_named(lower_of(tag@)) {
                Some(k) => Ok::<FractalKind, FractalError>(k),
                None => Err(FractalError::UnknownFractalType),
            },
    {
        let lower = lowercase(tag);
        let t = lower.as_str();
        if same_text(t, "mandelbrot") {
            Ok(FractalKind::Mandelbrot)
        } else if same_text(t, "julia") {
            Ok(FractalKind::Julia)
        } else if same_text(t, "sierpinski") {
            Ok(FractalKind::Sierpinski)
        } else if same_text(t, "koch") {
            Ok(FractalKind::Koch)
        } else {
            Err(FractalError::UnknownFractalType)
        }
    }

    /// The variant's tag.
    pub fn name(&self) -> (r: &'static str)
        ensures
            kind_named(r@) == Some(*self),
    {
        let r = match self {
            FractalKind::Mandelbrot => "mandelbrot",
            FractalKind::Julia => "julia",
            FractalKind::Sierpinski => "sierpinski",
            FractalKind::Koch => "koch",
        };
        proof {
            reveal_strlit("mandelbrot");
            reveal_strlit("julia");
            reveal_strlit("sierpinski");
            reveal_strlit("koch");
            assert("mandelbrot"@.len() == 10 && "sierpinski"@.len() == 10);
            assert("julia"@.len() == 5 && "koch"@.len() == 4);
            assert("sierpinski"@[0] != "mandelbrot"@[0]);
        }
        r
    }

    /// Validates a request for this variant: the shared checks first, then
    /// the variant's own; the first failure is returned.
    pub fn validate_params(&self, p: &FractalParams) -> (r: Result<(), FractalError>)
        ensures
            is_verdict(r, *self, p),
    {
        validate_baseline(p)?;
        match self {
            FractalKind::Mandelbrot => Ok(()),
            FractalKind::Julia => validate_julia_constant(p),
            FractalKind::Sierpinski => validate_depth(p),
            FractalKind::Koch => validate_depth(p),
        }
    }
}

} // verus!
