//! Uniform cubic basis-spline interpolation.
//!
//! Each working channel blends four neighboring stop values with the
//! classic four-term basis polynomial; the first and last real segments
//! borrow virtual neighbors by linear reflection.  Unlike the other
//! strategies this curve does not pass through the interior stops —
//! expected smoothing, not a defect.

use vstd::prelude::*;

use crate::color::{
    back_convert, chan_ok, convert_colors, quad_is, quad_ok, spec_back, spec_convert, BlendMode,
    Color, Quad,
};
use crate::fx::{div_tr, lemma_mul_le, lemma_tdiv_le2, sat_fx, tdiv};
use crate::stops::{
    all_pos_ok, find_seg, lemma_find_seg_skip, lemma_nondecreasing_pair, nondecreasing, pos_ok,
};
use crate::catmull_rom::local_param;

verus! {

/// The four-term uniform cubic basis blend at local parameter `tt`,
/// reduced to one exact integer polynomial and a single truncating
/// division by `6 * ONE^3`.
pub open spec fn spec_basis(tt: int, v0: int, v1: int, v2: int, v3: int) -> int {
    let s = 1_000_000 - tt;
    let t2 = tt * tt;
    let t3 = t2 * tt;
    let c0 = s * s * s;
    let c1 = 4_000_000_000_000_000_000 - 6_000_000 * t2 + 3 * t3;
    let c2 = 1_000_000_000_000_000_000 + 3_000_000_000_000 * tt + 3_000_000 * t2 - 3 * t3;
    let c3 = t3;
    tdiv(c0 * v0 + c1 * v1 + c2 * v2 + c3 * v3, 6_000_000_000_000_000_000)
}

/// Evaluate the basis blend of one channel.
pub fn basis_chan(tt: i64, v0: i64, v1: i64, v2: i64, v3: i64) -> (r: i128)
    requires
        0 <= tt <= 1_000_000,
        -30_000_000_000_000 <= v0 <= 30_000_000_000_000,
        -30_000_000_000_000 <= v1 <= 30_000_000_000_000,
        -30_000_000_000_000 <= v2 <= 30_000_000_000_000,
        -30_000_000_000_000 <= v3 <= 30_000_000_000_000,
    ensures
        r == spec_basis(tt as int, v0 as int, v1 as int, v2 as int, v3 as int),
        -250_000_000_000_000 <= r <= 250_000_000_000_000,
{
    let t = tt as i128;
    let s = 1_000_000 - t;
    proof {
        lemma_mul_le(s as int, s as int, 1_000_000int, 1_000_000int);
        lemma_mul_le((s * s) as int, s as int, 1_000_000_000_000int, 1_000_000int);
        lemma_mul_le(t as int, t as int, 1_000_000int, 1_000_000int);
        lemma_mul_le((t * t) as int, t as int, 1_000_000_000_000int, 1_000_000int);
    }
    let c0 = s * s * s;
    let t2 = t * t;
    let t3 = t2 * t;
    proof {
        lemma_mul_le(t2 as int, t as int, 1_000_000_000_000int, 1_000_000int);
    }
    let c1 = 4_000_000_000_000_000_000 - 6_000_000 * t2 + 3 * t3;
    let c2 = 1_000_000_000_000_000_000 + 3_000_000_000_000 * t + 3_000_000 * t2 - 3 * t3;
    let c3 = t3;
    proof {
        lemma_mul_le(c0 as int, v0 as int, 1_000_000_000_000_000_000int, 30_000_000_000_000int);
        lemma_mul_le(c1 as int, v1 as int, 7_000_000_000_000_000_000int, 30_000_000_000_000int);
        lemma_mul_le(c2 as int, v2 as int, 10_000_000_000_000_000_000int, 30_000_000_000_000int);
        lemma_mul_le(c3 as int, v3 as int, 1_000_000_000_000_000_000int, 30_000_000_000_000int);
        lemma_tdiv_le2(
            (c0 as int) * (v0 as int) + (c1 as int) * (v1 as int) + (c2 as int) * (v2 as int) + (
            c3 as int) * (v3 as int),
            6_000_000_000_000_000_000int,
            250_000_000_000_000int,
        );
    }
    div_tr(c0 * v0 as i128 + c1 * (v1 as i128) + c2 * (v2 as i128) + c3 * (v3 as i128),
        6_000_000_000_000_000_000)
}

/// Channel `k` of a working-space sample.
pub open spec fn chanv(q: Quad, k: int) -> int {
    if k == 0 {
        q.c0 as int
    } else if k == 1 {
        q.c1 as int
    } else if k == 2 {
        q.c2 as int
    } else {
        q.c3 as int
    }
}

/// The basis blend of channel `k` over segment `i`, with virtual
/// neighbors reflected at the two ends.
pub open spec fn spec_basis_chan(vals: Seq<Quad>, i: int, k: int, tt: int) -> int {
    let v1 = chanv(vals[i], k);
    let v2 = chanv(vals[i + 1], k);
    let v0 = if i > 0 {
        chanv(vals[i - 1], k)
    } else {
        2 * v1 - v2
    };
    let v3 = if i < vals.len() - 2 {
        chanv(vals[i + 2], k)
    } else {
        2 * v2 - v1
    };
    spec_basis(tt, v0, v1, v2, v3)
}

/// The uniform basis-spline strategy: converted stop channels, their
/// positions, the cached domain, and the exact endpoint colors.
#[derive(Debug, Clone)]
pub struct BasisGradient {
    pub values: Vec<Quad>,
    pub positions: Vec<i64>,
    pub dmin: i64,
    pub dmax: i64,
    pub mode: BlendMode,
    pub first_color: Color,
    pub last_color: Color,
}

impl BasisGradient {
    /// Structural invariant tying the tables together.
    pub open spec fn wf(self) -> bool {
        &&& self.positions@.len() >= 2
        &&& self.values@.len() == self.positions@.len()
        &&& nondecreasing(self.positions@)
        &&& all_pos_ok(self.positions@)
        &&& (forall|i: int| 0 <= i < self.values@.len() ==> quad_ok(#[trigger] self.values@[i]))
        &&& self.dmin == self.positions@[0]
        &&& self.dmax == self.positions@[self.positions@.len() - 1]
        &&& self.first_color.wf()
        &&& self.last_color.wf()
    }

    /// Precompute the working-space channels of the stops.
    pub fn new(colors: Vec<Color>, positions: Vec<i64>, mode: BlendMode) -> (g: BasisGradient)
        requires
            colors@.len() == positions@.len(),
            colors@.len() >= 2,
            forall|i: int| 0 <= i < colors@.len() ==> (#[trigger] colors@[i]).wf(),
            nondecreasing(positions@),
            all_pos_ok(positions@),
        ensures
            g.wf(),
            g.positions == positions,
            g.mode == mode,
            g.first_color == colors@[0],
            g.last_color == colors@[colors@.len() - 1],
            forall|i: int|
                0 <= i < colors@.len() ==> quad_is(
                    #[trigger] g.values@[i],
                    spec_convert(colors@[i], mode),
                ),
    {
        let values = convert_colors(&colors, mode);
        let dmin = positions[0];
        let dmax = positions[positions.len() - 1];
        let first_color = colors[0];
        let last_color = colors[colors.len() - 1];
        BasisGradient { values, positions, dmin, dmax, mode, first_color, last_color }
    }

    /// What evaluation returns: endpoint colors outside the domain, the
    /// four-term basis blend of the containing segment inside it, and
    /// the defensive black fallback if no segment matches.
    pub open spec fn at_spec(self, t: int) -> Color {
        if t <= self.dmin {
            self.first_color
        } else if t >= self.dmax {
            self.last_color
        } else {
            let i = find_seg(self.positions@, t, 0);
            if i >= 0 {
                let p0 = self.positions@[i] as int;
                let p1 = self.positions@[i + 1] as int;
                let tt = tdiv((t - p0) * 1_000_000, p1 - p0);
                spec_back(
                    self.mode,
                    (
                        spec_basis_chan(self.values@, i, 0, tt),
                        spec_basis_chan(self.values@, i, 1, tt),
                        spec_basis_chan(self.values@, i, 2, tt),
                        spec_basis_chan(self.values@, i, 3, tt),
                    ),
                )
            } else {
                Color { r: 0, g: 0, b: 0, a: 1_000_000 }
            }
        }
    }

    /// Evaluate the gradient at parameter `t`.
    pub fn at(&self, t: i64) -> (c: Color)
        requires
            self.wf(),
        ensures
            c == self.at_spec(t as int),
            c.wf(),
    {
        if t <= self.dmin {
            return self.first_color;
        }
        if t >= self.dmax {
            return self.last_color;
        }
        let n = self.positions.len();
        let mut i: usize = 0;
        while i < n - 1
            invariant
                self.wf(),
                n == self.positions@.len(),
                self.dmin < t < self.dmax,
                i <= n - 1,
                forall|j: int|
                    0 <= j < i ==> !((#[trigger] self.positions@[j]) <= t && t
                        <= self.positions@[j + 1]),
            decreases n - i,
        {
            let p0 = self.positions[i];
            let p1 = self.positions[i + 1];
            if p0 <= t && t <= p1 {
                proof {
                    lemma_find_seg_skip(self.positions@, t as int, i as int);
                    if p0 == p1 {
                        if i > 0 {
                            lemma_nondecreasing_pair(self.positions@, i - 1 as int, i as int);
                            assert(false);
                        } else {
                            assert(false);
                        }
                    }
                }
                let tt = local_param(t, p0, p1);
                let w = Quad {
                    c0: sat_fx(self.basis_at(i, 0, tt)),
                    c1: sat_fx(self.basis_at(i, 1, tt)),
                    c2: sat_fx(self.basis_at(i, 2, tt)),
                    c3: sat_fx(self.basis_at(i, 3, tt)),
                };
                return back_convert(self.mode, w);
            }
            i = i + 1;
        }
        proof {
            lemma_find_seg_skip(self.positions@, t as int, n - 1 as int);
        }
        Color { r: 0, g: 0, b: 0, a: 1_000_000 }
    }

    /// The basis blend of one channel over segment `i`.
    fn basis_at(&self, i: usize, k: usize, tt: i64) -> (r: i128)
        requires
            self.wf(),
            i < self.values@.len() - 1,
            k < 4,
            0 <= tt <= 1_000_000,
        ensures
            r == spec_basis_chan(self.values@, i as int, k as int, tt as int),
    {
        let nv = self.values.len();
        let q1 = self.values[i];
        let q2 = self.values[i + 1];
        let v1 = if k == 0 {
            q1.c0
        } else if k == 1 {
            q1.c1
        } else if k == 2 {
            q1.c2
        } else {
            q1.c3
        };
        let v2 = if k == 0 {
            q2.c0
        } else if k == 1 {
            q2.c1
        } else if k == 2 {
            q2.c2
        } else {
            q2.c3
        };
        let v0 = if i > 0 {
            let q0 = self.values[i - 1];
            if k == 0 {
                q0.c0
            } else if k == 1 {
                q0.c1
            } else if k == 2 {
                q0.c2
            } else {
                q0.c3
            }
        } else {
            2 * v1 - v2
        };
        let v3 = if i < nv - 2 {
            let q3 = self.values[i + 2];
            if k == 0 {
                q3.c0
            } else if k == 1 {
                q3.c1
            } else if k == 2 {
                q3.c2
            } else {
                q3.c3
            }
        } else {
            2 * v2 - v1
        };
        basis_chan(tt, v0, v1, v2, v3)
    }
}

} // verus!
