//! The posterized gradient: flat color bands with optional thin linear
//! transition ramps between them.
//!
//! Each base color occupies one band of the domain; every interior band
//! boundary is nudged inward by a quarter of the smoothed band width, so
//! a zero smoothness gives a pure step function and a positive one a thin
//! RGB ramp between adjacent bands.

use vstd::prelude::*;

use crate::clamp_i64;
use crate::color::{chan_ok, spec_lerp, Color};
use crate::fx::{
    div_tr, lemma_div_superadd, lemma_tdiv_exact, lemma_tdiv_le2, lemma_tdiv_monotone, tdiv,
};
use crate::stops::{lemma_nondecreasing_pair, lin_at, linspace, nondecreasing, pos_ok};
use crate::catmull_rom::local_param;

verus! {

/// The positions of the stops, viewed on their own.
pub open spec fn stop_pos_seq(s: Seq<(i64, Color)>) -> Seq<i64> {
    Seq::new(s.len(), |j: int| s[j].0)
}

/// The first index at or after `i` whose value is at least `t`, or the
/// length when every value is smaller.
pub open spec fn first_ge(s: Seq<i64>, t: int, i: int) -> int
    decreases s.len() - i,
{
    if i < 0 || i >= s.len() {
        s.len() as int
    } else if s[i] >= t {
        i
    } else {
        first_ge(s, t, i + 1)
    }
}

/// The unique characterization of `first_ge`: everything before it is
/// smaller, and it is in range only when its value reaches `t`.
pub proof fn lemma_first_ge_char(s: Seq<i64>, t: int, r: int)
    requires
        0 <= r <= s.len(),
        forall|j: int| 0 <= j < r ==> (#[trigger] s[j]) < t,
        r < s.len() ==> s[r] >= t,
    ensures
        first_ge(s, t, 0) == r,
{
    lemma_first_ge_skip(s, t, r);
}

proof fn lemma_first_ge_skip(s: Seq<i64>, t: int, i: int)
    requires
        0 <= i <= s.len(),
        forall|j: int| 0 <= j < i ==> (#[trigger] s[j]) < t,
    ensures
        first_ge(s, t, 0) == first_ge(s, t, i),
    decreases i,
{
    if i > 0 {
        lemma_first_ge_skip(s, t, i - 1);
    }
}

/// One stop position of the discretized gradient: even indices open a
/// band, odd indices close it, and the interior boundaries are nudged
/// inward by `w`.
pub open spec fn spec_sharp_pos(p: Seq<i64>, w: int, j: int) -> int {
    let b = j / 2;
    if j % 2 == 0 {
        if j == 0 {
            p[0] as int
        } else {
            p[b] + w
        }
    } else {
        if b == p.len() - 2 {
            p[b + 1] as int
        } else {
            p[b + 1] - w
        }
    }
}

/// The discretized strategy: doubled color stops over nudged band
/// boundaries.
#[derive(Debug, Clone)]
pub struct SharpGradient {
    pub stops: Vec<(i64, Color)>,
    pub dmin: i64,
    pub dmax: i64,
    pub first_color: Color,
    pub last_color: Color,
}

impl SharpGradient {
    /// Structural invariant tying the tables together.
    pub open spec fn wf(self) -> bool {
        &&& self.stops@.len() >= 2
        &&& self.stops@.len() % 2 == 0
        &&& nondecreasing(stop_pos_seq(self.stops@))
        &&& (forall|i: int| 0 <= i < self.stops@.len() ==> pos_ok((#[trigger] self.stops@[i]).0 as int))
        &&& (forall|i: int| 0 <= i < self.stops@.len() ==> (#[trigger] self.stops@[i]).1.wf())
        &&& self.dmin == self.stops@[0].0
        &&& self.dmax == self.stops@[self.stops@.len() - 1].0
        &&& self.first_color == self.stops@[0].1
        &&& self.last_color == self.stops@[self.stops@.len() - 1].1
    }

    /// Build the discretized gradient: each of the `n` base colors is
    /// doubled into one flat band, and a smoothness `t` in `[0, ONE]`
    /// nudges each interior boundary inward by
    /// `clamp(t) * (dmax - dmin) / n / 4`.
    #[verifier::rlimit(100)]
    pub fn new(colors_in: &Vec<Color>, domain: (i64, i64), t: i64) -> (g: SharpGradient)
        requires
            1 <= colors_in@.len() < 0x4000_0000,
            forall|i: int| 0 <= i < colors_in@.len() ==> (#[trigger] colors_in@[i]).wf(),
            pos_ok(domain.0 as int),
            pos_ok(domain.1 as int),
            domain.0 <= domain.1,
        ensures
            g.wf(),
            g.dmin == domain.0,
            g.dmax == domain.1,
            g.stops@.len() == 2 * colors_in@.len(),
            forall|j: int|
                0 <= j < g.stops@.len() ==> (#[trigger] g.stops@[j]).1 == colors_in@[j / 2],
            forall|j: int|
                0 <= j < g.stops@.len() ==> (#[trigger] g.stops@[j]).0 as int == spec_sharp_pos(
                    spec_sharp_grid(domain.0 as int, domain.1 as int, colors_in@.len() as int),
                    spec_sharp_w(domain.0 as int, domain.1 as int, colors_in@.len() as int, t as int),
                    j,
                ),
    {
        let n = colors_in.len();
        let span = (domain.1 as i128) - (domain.0 as i128);
        let c = clamp_i64(t, 0, 1_000_000);
        proof {
            assert((c as int) * (span as int) <= (span as int) * 1_000_000) by (nonlinear_arith)
                requires
                    0 <= c <= 1_000_000,
                    span >= 0,
            ;
            assert((c as int) * (span as int) >= 0) by (nonlinear_arith)
                requires
                    c >= 0,
                    span >= 0,
            ;
        }
        let a = div_tr((c as i128) * span, 1_000_000);
        proof {
            assert((span as int) * 1_000_000 == 1_000_000 * (span as int)) by (nonlinear_arith);
            lemma_tdiv_le2((c as int) * (span as int), 1_000_000, span as int);
            lemma_tdiv_monotone(0, (c as int) * (span as int), 1_000_000);
            vstd::arithmetic::div_mod::lemma_div_of0(1_000_000int);
        }
        let w64 = div_tr(a, 4 * (n as i128));
        let w = w64 as i64;
        let p = linspace(domain.0, domain.1, n + 1);
        let ghost gp = p@;
        let ghost gw = w as int;
        proof {
            // `2 * w` never exceeds a band of the even grid, so the nudged
            // boundaries keep their order.
            lemma_tdiv_monotone(a as int, span as int, 4 * (n as int));
            let q = tdiv(span as int, 4 * (n as int));
            vstd::arithmetic::div_mod::lemma_fundamental_div_mod(span as int, 4 * (n as int));
            assert(span as int >= (4 * q) * (n as int)) by (nonlinear_arith)
                requires
                    span as int == (4 * (n as int)) * q + (span as int) % (4 * (n as int)),
                    (span as int) % (4 * (n as int)) >= 0,
            ;
            lemma_tdiv_monotone((4 * q) * (n as int), span as int, n as int);
            lemma_tdiv_exact(4 * q, n as int);
            assert(2 * gw <= tdiv(span as int, n as int));
            assert forall|k: int| 0 <= k < n implies 2 * gw <= p@[k + 1] - (#[trigger] p@[k]) by {
                lemma_div_superadd((span as int) * k, span as int, n as int);
                assert((span as int) * (k + 1) == (span as int) * k + span as int)
                    by (nonlinear_arith);
                assert((span as int) * k >= 0) by (nonlinear_arith)
                    requires
                        span >= 0,
                        k >= 0,
                ;
            }
            assert(gp =~= spec_sharp_grid(domain.0 as int, domain.1 as int, n as int));
            assert(gw == spec_sharp_w(domain.0 as int, domain.1 as int, n as int, t as int));
        }
        let mut stops: Vec<(i64, Color)> = Vec::new();
        let mut i: usize = 0;
        while i < n
            invariant
                n == colors_in@.len(),
                n >= 1,
                forall|k: int| 0 <= k < colors_in@.len() ==> (#[trigger] colors_in@[k]).wf(),
                gp == p@,
                gw == w as int,
                p@.len() == n + 1,
                nondecreasing(p@),
                forall|k: int| 0 <= k < p@.len() ==> domain.0 <= (#[trigger] p@[k]) <= domain.1,
                pos_ok(domain.0 as int),
                pos_ok(domain.1 as int),
                domain.0 <= domain.1,
                0 <= w,
                forall|k: int| 0 <= k < n ==> 2 * gw <= p@[k + 1] - (#[trigger] p@[k]),
                i <= n,
                stops@.len() == 2 * i,
                forall|j: int| 0 <= j < stops@.len() ==> (#[trigger] stops@[j]).1 == colors_in@[j
                    / 2],
                forall|j: int|
                    0 <= j < stops@.len() ==> (#[trigger] stops@[j]).0 as int == spec_sharp_pos(
                        p@,
                        gw,
                        j,
                    ),
                forall|j: int|
                    0 <= j < stops@.len() ==> domain.0 <= (#[trigger] stops@[j]).0 <= domain.1,
            decreases n - i,
        {
            let c = colors_in[i];
            let lo = if i == 0 {
                p[0]
            } else {
                proof {
                    assert(2 * gw <= p@[i as int + 1] - p@[i as int]);
                }
                p[i] + w
            };
            let hi = if i == n - 1 {
                p[n]
            } else {
                proof {
                    assert(2 * gw <= p@[i as int + 1] - p@[i as int]);
                }
                p[i + 1] - w
            };
            stops.push((lo, c));
            stops.push((hi, c));
            i = i + 1;
        }
        proof {
            lemma_sharp_sorted(stops@, p@, gw, n as int);
        }
        let first_color = colors_in[0];
        let last_color = colors_in[n - 1];
        SharpGradient {
            stops,
            dmin: domain.0,
            dmax: domain.1,
            first_color,
            last_color,
        }
    }

    /// What evaluation returns: endpoint colors outside the domain, the
    /// flat band color at an even lower stop, and the thin RGB ramp at an
    /// odd one.
    pub open spec fn at_spec(self, t: int) -> Color {
        if t <= self.dmin {
            self.first_color
        } else if t >= self.dmax {
            self.last_color
        } else {
            let lo0 = first_ge(stop_pos_seq(self.stops@), t, 0);
            let lo = if lo0 == 0 {
                1
            } else {
                lo0
            };
            let i = lo - 1;
            if i % 2 == 0 {
                self.stops@[i].1
            } else {
                let p0 = self.stops@[i].0 as int;
                let p1 = self.stops@[lo].0 as int;
                let u = tdiv((t - p0) * 1_000_000, p1 - p0);
                Color {
                    r: spec_lerp(self.stops@[i].1.r as int, self.stops@[lo].1.r as int, u) as i64,
                    g: spec_lerp(self.stops@[i].1.g as int, self.stops@[lo].1.g as int, u) as i64,
                    b: spec_lerp(self.stops@[i].1.b as int, self.stops@[lo].1.b as int, u) as i64,
                    a: spec_lerp(self.stops@[i].1.a as int, self.stops@[lo].1.a as int, u) as i64,
                }
            }
        }
    }

    /// Evaluate the gradient at parameter `t`, locating the first stop
    /// position at or above `t` by bisection.
    pub fn at(&self, t: i64) -> (c: Color)
        requires
            self.wf(),
        ensures
            c == self.at_spec(t as int),
            c.wf(),
    {
        if t <= self.dmin {
            return self.first_color;
        }
        if t >= self.dmax {
            return self.last_color;
        }
        let ghost ps = stop_pos_seq(self.stops@);
        let n = self.stops.len();
        let mut low: usize = 0;
        let mut high: usize = n;
        while low < high
            invariant
                self.wf(),
                self.dmin < t < self.dmax,
                n == self.stops@.len(),
                ps == stop_pos_seq(self.stops@),
                low <= high <= n,
                forall|j: int| 0 <= j < low ==> (#[trigger] ps[j]) < t,
                high < n ==> ps[high as int] >= t,
                forall|j: int| high <= j < n ==> (#[trigger] ps[j]) >= t,
            decreases high - low,
        {
            let mid = low + (high - low) / 2;
            if self.stops[mid].0 < t {
                proof {
                    assert forall|j: int| 0 <= j < mid + 1 implies (#[trigger] ps[j]) < t by {
                        lemma_nondecreasing_pair(ps, j, mid as int);
                    }
                }
                low = mid + 1;
            } else {
                proof {
                    assert forall|j: int| mid <= j < n implies (#[trigger] ps[j]) >= t by {
                        lemma_nondecreasing_pair(ps, mid as int, j);
                    }
                }
                high = mid;
            }
        }
        proof {
            lemma_first_ge_char(ps, t as int, low as int);
            assert(ps[0] == self.stops@[0].0);
            assert(ps[0] < t);
            assert(low >= 1);
            assert(low < n) by {
                assert(ps[n - 1] >= t);
            }
        }
        let low = if low == 0 {
            1
        } else {
            low
        };
        let i = low - 1;
        let (pos_0, col_0) = self.stops[i];
        let (pos_1, col_1) = self.stops[low];
        if i % 2 == 0 {
            return col_0;
        }
        proof {
            assert(ps[i as int] < t);
            assert(ps[low as int] >= t);
        }
        let u = local_param(t, pos_0, pos_1);
        col_0.interpolate_rgb(&col_1, u)
    }
}

/// The even grid of `n + 1` band boundaries, as `linspace` builds it.
pub open spec fn spec_sharp_grid(dmin: int, dmax: int, n: int) -> Seq<i64> {
    Seq::new((n + 1) as nat, |i: int| lin_at(dmin, dmax, n + 1, i) as i64)
}

/// The inward nudge width: `clamp(t) * (dmax - dmin) / ONE / (4 * n)`.
pub open spec fn spec_sharp_w(dmin: int, dmax: int, n: int, t: int) -> int {
    let c = if t < 0 {
        0
    } else if t > 1_000_000 {
        1_000_000
    } else {
        t
    };
    tdiv(tdiv(c * (dmax - dmin), 1_000_000), 4 * n)
}

proof fn lemma_sharp_sorted(stops: Seq<(i64, Color)>, p: Seq<i64>, w: int, n: int)
    requires
        n >= 1,
        p.len() == n + 1,
        stops.len() == 2 * n,
        w >= 0,
        forall|k: int| 0 <= k < n ==> 2 * w <= p[k + 1] - (#[trigger] p[k]),
        forall|j: int|
            0 <= j < stops.len() ==> (#[trigger] stops[j]).0 as int == spec_sharp_pos(p, w, j),
    ensures
        nondecreasing(stop_pos_seq(stops)),
{
    let ps = stop_pos_seq(stops);
    assert forall|j: int| 0 <= j < ps.len() - 1 implies #[trigger] ps[j] <= ps[j + 1] by {
        let b = j / 2;
        vstd::arithmetic::div_mod::lemma_fundamental_div_mod(j, 2);
        assert(0 <= b < n);
        assert(2 * w <= p[b + 1] - p[b]);
        if j % 2 == 0 {
            vstd::arithmetic::div_mod::lemma_fundamental_div_mod_converse(j + 1, 2, b, 1);
            assert((j + 1) / 2 == b && (j + 1) % 2 == 1);
        } else {
            vstd::arithmetic::div_mod::lemma_fundamental_div_mod_converse(j + 1, 2, b + 1, 0);
            assert((j + 1) / 2 == b + 1 && (j + 1) % 2 == 0);
            if b + 1 < n {
                assert(2 * w <= p[b + 2] - p[b + 1]);
            }
        }
    }
}

} // verus!
