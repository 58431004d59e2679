//! The domain-bound gradient: one interpolation strategy behind a closed
//! dispatch, the cached domain bounds, resampling and the sharp
//! transform.

use vstd::prelude::*;

use crate::basis::BasisGradient;
use crate::catmull_rom::CatmullRomGradient;
use crate::color::Color;
use crate::linear::LinearGradient;
use crate::sharp::{spec_sharp_grid, spec_sharp_pos, spec_sharp_w, SharpGradient};
use crate::stops::{lin_at, linspace, pos_ok};

verus! {

/// Which strategy the builder constructs.
#[derive(Debug, Clone, Copy, PartialEq, Eq, Structural)]
pub enum Interpolation {
    Linear,
    CatmullRom,
    Basis,
}

/// The closed set of interpolation strategies sharing one evaluation
/// capability.
#[derive(Debug, Clone)]
pub enum GradientBase {
    Linear(LinearGradient),
    CatmullRom(CatmullRomGradient),
    Basis(BasisGradient),
    Sharp(SharpGradient),
}

impl GradientBase {
    /// The wrapped strategy is internally consistent.
    pub open spec fn wf(self) -> bool {
        match self {
            GradientBase::Linear(g) => g.wf(),
            GradientBase::CatmullRom(g) => g.wf(),
            GradientBase::Basis(g) => g.wf(),
            GradientBase::Sharp(g) => g.wf(),
        }
    }

    /// The strategy's own domain bounds.
    pub open spec fn spec_dmin(self) -> i64 {
        match self {
            GradientBase::Linear(g) => g.dmin,
            GradientBase::CatmullRom(g) => g.dmin,
            GradientBase::Basis(g) => g.dmin,
            GradientBase::Sharp(g) => g.dmin,
        }
    }

    pub open spec fn spec_dmax(self) -> i64 {
        match self {
            GradientBase::Linear(g) => g.dmax,
            GradientBase::CatmullRom(g) => g.dmax,
            GradientBase::Basis(g) => g.dmax,
            GradientBase::Sharp(g) => g.dmax,
        }
    }

    /// What evaluation returns, strategy by strategy.
    pub open spec fn at_spec(self, t: int) -> Color {
        match self {
            GradientBase::Linear(g) => g.at_spec(t),
            GradientBase::CatmullRom(g) => g.at_spec(t),
            GradientBase::Basis(g) => g.at_spec(t),
            GradientBase::Sharp(g) => g.at_spec(t),
        }
    }

    /// The exact first and last stop colors.
    pub open spec fn spec_first(self) -> Color {
        match self {
            GradientBase::Linear(g) => g.first_color,
            GradientBase::CatmullRom(g) => g.first_color,
            GradientBase::Basis(g) => g.first_color,
            GradientBase::Sharp(g) => g.first_color,
        }
    }

    pub open spec fn spec_last(self) -> Color {
        match self {
            GradientBase::Linear(g) => g.last_color,
            GradientBase::CatmullRom(g) => g.last_color,
            GradientBase::Basis(g) => g.last_color,
            GradientBase::Sharp(g) => g.last_color,
        }
    }
}

/// A gradient: one immutable strategy plus its cached domain.
#[derive(Debug, Clone)]
pub struct Gradient {
    pub gradient: GradientBase,
    pub dmin: i64,
    pub dmax: i64,
}

impl Gradient {
    /// The cached domain agrees with the strategy and is ordered.
    pub open spec fn wf(self) -> bool {
        &&& self.gradient.wf()
        &&& self.dmin == self.gradient.spec_dmin()
        &&& self.dmax == self.gradient.spec_dmax()
        &&& self.dmin <= self.dmax
        &&& pos_ok(self.dmin as int)
        &&& pos_ok(self.dmax as int)
    }

    /// What evaluation returns.
    pub open spec fn at_spec(self, t: int) -> Color {
        self.gradient.at_spec(t)
    }

    /// Evaluate the gradient at parameter `t`; total, and clamped to the
    /// endpoint colors outside the domain.
    pub fn at(&self, t: i64) -> (c: Color)
        requires
            self.wf(),
        ensures
            c == self.at_spec(t as int),
            c.wf(),
            t <= self.dmin ==> c == self.gradient.spec_first(),
            t >= self.dmax && t > self.dmin ==> c == self.gradient.spec_last(),
    {
        match &self.gradient {
            GradientBase::Linear(g) => g.at(t),
            GradientBase::CatmullRom(g) => g.at(t),
            GradientBase::Basis(g) => g.at(t),
            GradientBase::Sharp(g) => g.at(t),
        }
    }

    /// The domain bounds `(min, max)`.
    pub fn domain(&self) -> (d: (i64, i64))
        ensures
            d == (self.dmin, self.dmax),
    {
        (self.dmin, self.dmax)
    }

    /// The colors sampled at `n` evenly spaced domain points.
    pub open spec fn spec_samples(self, n: int) -> Seq<Color> {
        Seq::new(
            n as nat,
            |i: int|
                if n == 1 {
                    self.at_spec(self.dmin as int)
                } else {
                    self.at_spec(lin_at(self.dmin as int, self.dmax as int, n, i))
                },
        )
    }

    /// Sample the gradient at `n` evenly spaced domain points.
    pub fn colors(&self, n: usize) -> (out: Vec<Color>)
        requires
            self.wf(),
        ensures
            out@.len() == n,
            forall|i: int| 0 <= i < n ==> (#[trigger] out@[i]) == self.spec_samples(n as int)[i],
            forall|i: int| 0 <= i < n ==> (#[trigger] out@[i]).wf(),
    {
        let ps = linspace(self.dmin, self.dmax, n);
        let mut out: Vec<Color> = Vec::new();
        let mut i: usize = 0;
        while i < n
            invariant
                self.wf(),
                ps@.len() == n,
                n == 1 ==> ps@[0] == self.dmin,
                n >= 2 ==> forall|k: int|
                    0 <= k < n ==> (#[trigger] ps@[k]) as int == lin_at(
                        self.dmin as int,
                        self.dmax as int,
                        n as int,
                        k,
                    ),
                i <= n,
                out@.len() == i,
                forall|k: int| 0 <= k < i ==> (#[trigger] out@[k]) == self.spec_samples(n as int)[k],
                forall|k: int| 0 <= k < i ==> (#[trigger] out@[k]).wf(),
            decreases n - i,
        {
            let c = self.at(ps[i]);
            out.push(c);
            i = i + 1;
        }
        out
    }

    /// Resample the gradient at `segment` evenly spaced points and wrap
    /// them in a posterized gradient with smoothing width `smoothness`.
    pub fn sharp(&self, segment: u32, smoothness: i64) -> (r: Gradient)
        requires
            self.wf(),
            1 <= segment < 0x4000_0000,
        ensures
            r.wf(),
            r.dmin == self.dmin,
            r.dmax == self.dmax,
            r.gradient is Sharp,
            r.gradient->Sharp_0.stops@.len() == 2 * segment,
            forall|j: int|
                0 <= j < 2 * segment ==> (#[trigger] r.gradient->Sharp_0.stops@[j]).1
                    == self.spec_samples(segment as int)[j / 2],
            forall|j: int|
                0 <= j < 2 * segment ==> (#[trigger] r.gradient->Sharp_0.stops@[j]).0 as int
                    == spec_sharp_pos(
                    spec_sharp_grid(self.dmin as int, self.dmax as int, segment as int),
                    spec_sharp_w(
                        self.dmin as int,
                        self.dmax as int,
                        segment as int,
                        smoothness as int,
                    ),
                    j,
                ),
    {
        let cs = self.colors(segment as usize);
        let sg = SharpGradient::new(&cs, (self.dmin, self.dmax), smoothness);
        Gradient { gradient: GradientBase::Sharp(sg), dmin: self.dmin, dmax: self.dmax }
    }
}

} // verus!
