//! Piecewise-linear interpolation between consecutive stops in the chosen
//! working space.

use vstd::prelude::*;

use crate::color::{
    back_convert, chan_ok, convert_colors, quad_is, quad_ok, spec_back, spec_convert, BlendMode,
    Color, Quad,
};
use crate::fx::{div_tr, lemma_mul_le, lemma_tdiv_exact, lemma_tdiv_monotone, tdiv};
use crate::stops::{
    all_pos_ok, find_seg, lemma_find_seg_skip, lemma_nondecreasing_pair, nondecreasing, pos_ok,
};
use vstd::arithmetic::div_mod::lemma_div_of0;

verus! {

/// One channel interpolated across the segment `[p0, p1]` at parameter `t`.
pub open spec fn seg_lerp(v1: int, v2: int, t: int, p0: int, p1: int) -> int {
    v1 + tdiv((v2 - v1) * (t - p0), p1 - p0)
}

/// Interpolate one working channel over a segment; the result lies between
/// the endpoint values.
pub fn seg_lerp_chan(v1: i64, v2: i64, t: i64, p0: i64, p1: i64) -> (r: i64)
    requires
        chan_ok(v1 as int),
        chan_ok(v2 as int),
        pos_ok(p0 as int),
        pos_ok(p1 as int),
        p0 <= t <= p1,
        p0 < p1,
    ensures
        r == seg_lerp(v1 as int, v2 as int, t as int, p0 as int, p1 as int),
        v1 <= v2 ==> v1 <= r <= v2,
        v2 <= v1 ==> v2 <= r <= v1,
        chan_ok(r as int),
{
    let d = (v2 as i128) - (v1 as i128);
    let u = (t as i128) - (p0 as i128);
    let den = (p1 as i128) - (p0 as i128);
    proof {
        lemma_mul_le(d as int, u as int, 20_000_000_000_000int, 20_000_000_000_000int);
        lemma_div_of0(den as int);
        if d >= 0 {
            assert(0 <= (d as int) * (u as int) <= (d as int) * (den as int)) by (nonlinear_arith)
                requires
                    0 <= u <= den,
                    d >= 0,
            ;
            lemma_tdiv_monotone(0, (d as int) * (u as int), den as int);
            lemma_tdiv_monotone((d as int) * (u as int), (d as int) * (den as int), den as int);
            lemma_tdiv_exact(d as int, den as int);
            assert((d as int) * (den as int) == (den as int) * (d as int)) by (nonlinear_arith);
        } else {
            assert((d as int) * (den as int) <= (d as int) * (u as int) <= 0) by (nonlinear_arith)
                requires
                    0 <= u <= den,
                    d < 0,
            ;
            lemma_tdiv_monotone((d as int) * (u as int), 0, den as int);
            lemma_tdiv_monotone((d as int) * (den as int), (d as int) * (u as int), den as int);
            lemma_tdiv_exact(d as int, den as int);
            assert((d as int) * (den as int) == (den as int) * (d as int)) by (nonlinear_arith);
        }
    }
    let q = div_tr(d * u, den);
    ((v1 as i128) + q) as i64
}

/// The piecewise-linear strategy: converted stop channels, their
/// positions, the cached domain, and the exact endpoint colors.
#[derive(Debug, Clone)]
pub struct LinearGradient {
    pub values: Vec<Quad>,
    pub positions: Vec<i64>,
    pub dmin: i64,
    pub dmax: i64,
    pub mode: BlendMode,
    pub first_color: Color,
    pub last_color: Color,
}

impl LinearGradient {
    /// Structural invariant tying the tables together.
    pub open spec fn wf(self) -> bool {
        &&& self.positions@.len() >= 2
        &&& self.values@.len() == self.positions@.len()
        &&& nondecreasing(self.positions@)
        &&& all_pos_ok(self.positions@)
        &&& forall|i: int| 0 <= i < self.values@.len() ==> quad_ok(#[trigger] self.values@[i])
        &&& self.dmin == self.positions@[0]
        &&& self.dmax == self.positions@[self.positions@.len() - 1]
        &&& self.first_color.wf()
        &&& self.last_color.wf()
    }

    /// Precompute the working-space channels of the stops.
    pub fn new(colors: Vec<Color>, positions: Vec<i64>, mode: BlendMode) -> (g: LinearGradient)
        requires
            colors@.len() == positions@.len(),
            colors@.len() >= 2,
            forall|i: int| 0 <= i < colors@.len() ==> (#[trigger] colors@[i]).wf(),
            nondecreasing(positions@),
            all_pos_ok(positions@),
        ensures
            g.wf(),
            g.positions == positions,
            g.mode == mode,
            g.first_color == colors@[0],
            g.last_color == colors@[colors@.len() - 1],
            forall|i: int|
                0 <= i < colors@.len() ==> quad_is(
                    #[trigger] g.values@[i],
                    spec_convert(colors@[i], mode),
                ),
    {
        let values = convert_colors(&colors, mode);
        let dmin = positions[0];
        let dmax = positions[positions.len() - 1];
        let first_color = colors[0];
        let last_color = colors[colors.len() - 1];
        LinearGradient { values, positions, dmin, dmax, mode, first_color, last_color }
    }

    /// What evaluation returns: endpoint colors outside the domain, the
    /// channel-wise linear blend of the containing segment inside it, and
    /// the defensive black fallback if no segment matches.
    pub open spec fn at_spec(self, t: int) -> Color {
        if t <= self.dmin {
            self.first_color
        } else if t >= self.dmax {
            self.last_color
        } else {
            let i = find_seg(self.positions@, t, 0);
            if i >= 0 {
                let p0 = self.positions@[i] as int;
                let p1 = self.positions@[i + 1] as int;
                let v1 = self.values@[i];
                let v2 = self.values@[i + 1];
                spec_back(
                    self.mode,
                    (
                        seg_lerp(v1.c0 as int, v2.c0 as int, t, p0, p1),
                        seg_lerp(v1.c1 as int, v2.c1 as int, t, p0, p1),
                        seg_lerp(v1.c2 as int, v2.c2 as int, t, p0, p1),
                        seg_lerp(v1.c3 as int, v2.c3 as int, t, p0, p1),
                    ),
                )
            } else {
                Color { r: 0, g: 0, b: 0, a: 1_000_000 }
            }
        }
    }

    /// Evaluate the gradient at parameter `t`.
    pub fn at(&self, t: i64) -> (c: Color)
        requires
            self.wf(),
        ensures
            c == self.at_spec(t as int),
            c.wf(),
    {
        if t <= self.dmin {
            return self.first_color;
        }
        if t >= self.dmax {
            return self.last_color;
        }
        let n = self.positions.len();
        let mut i: usize = 0;
        while i < n - 1
            invariant
                self.wf(),
                n == self.positions@.len(),
                self.dmin < t < self.dmax,
                i <= n - 1,
                forall|j: int|
                    0 <= j < i ==> !((#[trigger] self.positions@[j]) <= t && t
                        <= self.positions@[j + 1]),
            decreases n - i,
        {
            let p0 = self.positions[i];
            let p1 = self.positions[i + 1];
            if p0 <= t && t <= p1 {
                proof {
                    lemma_find_seg_skip(self.positions@, t as int, i as int);
                    if p0 == p1 {
                        if i > 0 {
                            lemma_nondecreasing_pair(self.positions@, i - 1 as int, i as int);
                            assert(false);
                        } else {
                            assert(false);
                        }
                    }
                }
                let v1 = self.values[i];
                let v2 = self.values[i + 1];
                let w = Quad {
                    c0: seg_lerp_chan(v1.c0, v2.c0, t, p0, p1),
                    c1: seg_lerp_chan(v1.c1, v2.c1, t, p0, p1),
                    c2: seg_lerp_chan(v1.c2, v2.c2, t, p0, p1),
                    c3: seg_lerp_chan(v1.c3, v2.c3, t, p0, p1),
                };
                return back_convert(self.mode, w);
            }
            i = i + 1;
        }
        proof {
            lemma_find_seg_skip(self.positions@, t as int, n - 1 as int);
        }
        Color { r: 0, g: 0, b: 0, a: 1_000_000 }
    }
}

} // verus!
