//! A gradient engine over fixed-point arithmetic: colors placed along a
//! one-dimensional domain, blended in a chosen working color space by a
//! piecewise-linear, Catmull-Rom or basis-spline strategy, with a
//! posterizing transform and a validating builder on top.

use vstd::prelude::*;

pub mod color;
pub mod basis;
pub mod builder;
pub mod css;
pub mod catmull_rom;
pub mod fx;
pub mod gradient;
pub mod laws;
pub mod sharp;
pub mod linear;
pub mod stops;

verus! {

pub use crate::builder::{CustomGradient, CustomGradientError};
pub use crate::color::{BlendMode, Color};
pub use crate::gradient::{Gradient, Interpolation};
pub use crate::fx::{FXMAX, ONE};

/// True of a parameter value that lies inside the closed interval `[lo, hi]`.
pub open spec fn in_closed(t: int, lo: int, hi: int) -> bool {
    lo <= t && t <= hi
}

/// Clamps a parameter to the closed interval `[lo, hi]`.
pub fn clamp_i64(t: i64, lo: i64, hi: i64) -> (r: i64)
    requires
        lo <= hi,
    ensures
        in_closed(r as int, lo as int, hi as int),
        in_closed(t as int, lo as int, hi as int) ==> r == t,
        t < lo ==> r == lo,
        t > hi ==> r == hi,
{
    if t < lo {
        lo
    } else if t > hi {
        hi
    } else {
        t
    }
}

} // verus!
