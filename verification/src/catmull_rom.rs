//! Centripetal Catmull-Rom spline interpolation.
//!
//! Each working channel is interpolated independently.  Two virtual
//! boundary values extend the stops by linear reflection, knot spacing
//! follows the centripetal rule (square root of the channel difference),
//! and each segment is reduced once, at construction, to a plain cubic
//! `a*t^3 + b*t^2 + c*t + d`.  A tangent whose centripetal formula is
//! indeterminate (a zero-over-zero in the real-number reading) is taken
//! as zero.

use vstd::prelude::*;

use crate::color::{
    back_convert, chan_ok, convert_colors, quad_is, quad_ok, spec_back, spec_convert, BlendMode,
    Color, Quad,
};
use crate::fx::{
    div_tr, isqrt, lemma_mul_le, lemma_tdiv_exact, lemma_tdiv_le, lemma_tdiv_le2,
    lemma_tdiv_monotone, sat, sat_fx, sqrt_floor, tdiv,
};
use crate::stops::{
    all_pos_ok, find_seg, lemma_find_seg_skip, lemma_nondecreasing_pair, nondecreasing, pos_ok,
};
use vstd::math::abs;

verus! {

/// Coefficient magnitude bound kept by construction.
pub const COEF_MAX: i128 = 10_000_000_000_000_000_000_000_000;

/// The four coefficients of one cubic segment of one channel.
#[derive(Debug, Clone, Copy, PartialEq, Eq, Structural)]
pub struct Cubic {
    pub a: i128,
    pub b: i128,
    pub c: i128,
    pub d: i128,
}

/// All four coefficients are bounded.
pub open spec fn cubic_ok(c: Cubic) -> bool {
    &&& -COEF_MAX <= c.a <= COEF_MAX
    &&& -COEF_MAX <= c.b <= COEF_MAX
    &&& -COEF_MAX <= c.c <= COEF_MAX
    &&& -COEF_MAX <= c.d <= COEF_MAX
}

/// The stop values of one channel extended by the two virtual boundary
/// values `2*v[0] - v[1]` and `2*v[n-1] - v[n-2]`.
pub open spec fn ext_vals(v: Seq<i64>) -> Seq<int> {
    Seq::new(
        (v.len() + 2) as nat,
        |i: int|
            if i == 0 {
                2 * (v[0] as int) - (v[1] as int)
            } else if i == v.len() + 1 {
                2 * (v[v.len() - 1] as int) - (v[v.len() - 2] as int)
            } else {
                v[i - 1] as int
            },
    )
}

/// A centripetal knot step: the integer square root of the scaled
/// channel difference.
pub open spec fn spec_cm_t(d: int) -> int {
    sqrt_floor((abs(d) as int) * 1_000_000)
}

/// The left tangent of a segment, zero when its centripetal formula is
/// indeterminate.
pub open spec fn spec_cm_m1(v0: int, v1: int, v2: int, t1: int, t2: int) -> int {
    if t1 == 0 || t2 == t1 {
        0
    } else {
        (v2 - v1) + tdiv((t2 - t1) * (t2 * (v1 - v0) - t1 * (v2 - v0)), t1 * t2)
    }
}

/// The right tangent of a segment, zero when its centripetal formula is
/// indeterminate.
pub open spec fn spec_cm_m2(v1: int, v2: int, v3: int, t1: int, t2: int, t3: int) -> int {
    if t2 == t1 || t3 == t2 {
        0
    } else {
        (v2 - v1) + tdiv(
            (t2 - t1) * ((t3 - t1) * (v3 - v2) - (t3 - t2) * (v3 - v1)),
            (t3 - t2) * (t3 - t1),
        )
    }
}

/// The Hermite-to-cubic coefficients of segment `i` over the extended
/// values `w`.
pub open spec fn spec_catmull_coef(w: Seq<int>, i: int) -> (int, int, int, int) {
    let v0 = w[i];
    let v1 = w[i + 1];
    let v2 = w[i + 2];
    let v3 = w[i + 3];
    let t1 = spec_cm_t(v0 - v1);
    let t2 = t1 + spec_cm_t(v1 - v2);
    let t3 = t2 + spec_cm_t(v2 - v3);
    let m1 = spec_cm_m1(v0, v1, v2, t1, t2);
    let m2 = spec_cm_m2(v1, v2, v3, t1, t2, t3);
    (2 * v1 - 2 * v2 + m1 + m2, -3 * v1 + 3 * v2 - 2 * m1 - m2, m1, v1)
}

/// Whether a cubic holds the given coefficients.
pub open spec fn cubic_is(c: Cubic, t: (int, int, int, int)) -> bool {
    c.a == t.0 && c.b == t.1 && c.c == t.2 && c.d == t.3
}

/// One centripetal knot step, executable form.
fn cm_t(d: i128) -> (r: i128)
    requires
        -60_000_000_000_000 <= d <= 60_000_000_000_000,
    ensures
        r == spec_cm_t(d as int),
        0 <= r <= 8_000_000_000,
{
    let m = if d >= 0 {
        d as u128
    } else {
        (-d) as u128
    };
    let r = isqrt(m * 1_000_000);
    proof {
        assert(r <= 8_000_000_000u128) by (nonlinear_arith)
            requires
                (r as int) * (r as int) <= (m as int) * 1_000_000,
                m <= 60_000_000_000_000u128,
        ;
    }
    r as i128
}

/// One tangent: the common exact-rational form
/// `(v2 - v1) + num / den`, truncating once.
fn cm_tangent(num: i128, den: i128, diff: i128, k: i128) -> (r: i128)
    requires
        den >= 1,
        k >= 0,
        -60_000_000_000_000 <= diff <= 60_000_000_000_000,
        -(k * den) <= num <= k * den,
        k <= 2_000_000_000_000_000_000_000_000,
        -200_000_000_000_000_000_000_000_000_000_000_000 <= num
            <= 200_000_000_000_000_000_000_000_000_000_000_000,
    ensures
        r == diff + tdiv(num as int, den as int),
        -3_000_000_000_000_000_000_000_000 <= r <= 3_000_000_000_000_000_000_000_000,
{
    proof {
        lemma_tdiv_le2(num as int, den as int, k as int);
    }
    diff + div_tr(num, den)
}

/// Per-segment cubic coefficients of one channel, derived from the
/// centripetal Catmull-Rom tangents of the extended stop values.
#[verifier::rlimit(100)]
pub fn to_catmull_segments(values: &Vec<i64>) -> (segs: Vec<Cubic>)
    requires
        values@.len() >= 2,
        forall|i: int| 0 <= i < values@.len() ==> chan_ok((#[trigger] values@[i]) as int),
    ensures
        segs@.len() == values@.len() - 1,
        forall|i: int|
            0 <= i < segs@.len() ==> cubic_is(
                #[trigger] segs@[i],
                spec_catmull_coef(ext_vals(values@), i),
            ) && cubic_ok(segs@[i]),
{
    let n = values.len();
    let mut vals: Vec<i64> = Vec::new();
    vals.push(2 * values[0] - values[1]);
    let mut j: usize = 0;
    while j < n
        invariant
            n == values@.len(),
            n >= 2,
            forall|i: int| 0 <= i < values@.len() ==> chan_ok((#[trigger] values@[i]) as int),
            j <= n,
            vals@.len() == j + 1,
            forall|i: int| 0 <= i <= j ==> (#[trigger] vals@[i]) as int == ext_vals(values@)[i],
            forall|i: int|
                0 <= i <= j ==> -30_000_000_000_000 <= (#[trigger] vals@[i]) <= 30_000_000_000_000,
        decreases n - j,
    {
        vals.push(values[j]);
        j = j + 1;
    }
    vals.push(2 * values[n - 1] - values[n - 2]);
    proof {
        assert(forall|i: int|
            0 <= i < vals@.len() ==> (#[trigger] vals@[i]) as int == ext_vals(values@)[i]);
    }
    let mut segs: Vec<Cubic> = Vec::new();
    let mut i: usize = 1;
    while i < n
        invariant
            vals@.len() == n + 2,
            n >= 2,
            1 <= i <= n,
            segs@.len() == i - 1,
            forall|q: int| 0 <= q < vals@.len() ==> (#[trigger] vals@[q]) as int == ext_vals(
                values@,
            )[q],
            forall|q: int|
                0 <= q < vals@.len() ==> -30_000_000_000_000 <= (#[trigger] vals@[q])
                    <= 30_000_000_000_000,
            forall|q: int|
                0 <= q < segs@.len() ==> cubic_is(
                    #[trigger] segs@[q],
                    spec_catmull_coef(ext_vals(values@), q),
                ) && cubic_ok(segs@[q]),
        decreases n - i,
    {
        let v0 = vals[i - 1] as i128;
        let v1 = vals[i] as i128;
        let v2 = vals[i + 1] as i128;
        let v3 = vals[i + 2] as i128;
        let t1 = cm_t(v0 - v1);
        let t2 = t1 + cm_t(v1 - v2);
        let t3 = t2 + cm_t(v2 - v3);
        let m1: i128 = if t1 == 0 || t2 == t1 {
            0
        } else {
            let va = v1 - v0;
            let vb = v2 - v0;
            let aa = if va >= 0 {
                va
            } else {
                -va
            };
            let bb = if vb >= 0 {
                vb
            } else {
                -vb
            };
            proof {
                lemma_mul_le(t2 as int, va as int, 16_000_000_000int, 120_000_000_000_000int);
                lemma_mul_le(t1 as int, vb as int, 16_000_000_000int, 120_000_000_000_000int);
            }
            let inner = t2 * va - t1 * vb;
            proof {
                lemma_mul_le(
                    (t2 - t1) as int,
                    inner as int,
                    16_000_000_000int,
                    4_000_000_000_000_000_000_000_000int,
                );
                lemma_mul_le(t1 as int, t2 as int, 16_000_000_000int, 16_000_000_000int);
                assert(t1 * t2 >= 1) by (nonlinear_arith)
                    requires
                        t1 >= 1,
                        t2 > t1,
                ;
                assert(-(t2 * (aa + bb)) <= inner <= t2 * (aa + bb)) by (nonlinear_arith)
                    requires
                        inner == t2 * va - t1 * vb,
                        -aa <= va <= aa,
                        -bb <= vb <= bb,
                        1 <= t1 < t2,
                        0 <= aa,
                        0 <= bb,
                ;
                assert(-(((t2 - t1) * (aa + bb)) * (t1 * t2)) <= (t2 - t1) * inner <= ((t2 - t1) * (
                aa + bb)) * (t1 * t2)) by (nonlinear_arith)
                    requires
                        -(t2 * (aa + bb)) <= inner <= t2 * (aa + bb),
                        1 <= t1 < t2,
                        0 <= aa,
                        0 <= bb,
                ;
                lemma_mul_le(
                    (t2 - t1) as int,
                    (aa + bb) as int,
                    16_000_000_000int,
                    120_000_000_000_000int,
                );
            }
            cm_tangent(
                (t2 - t1) * inner,
                t1 * t2,
                v2 - v1,
                (t2 - t1) * (aa + bb),
            )
        };
        let m2: i128 = if t2 == t1 || t3 == t2 {
            0
        } else {
            let va = v3 - v2;
            let vb = v3 - v1;
            let aa = if va >= 0 {
                va
            } else {
                -va
            };
            let bb = if vb >= 0 {
                vb
            } else {
                -vb
            };
            proof {
                lemma_mul_le(
                    (t3 - t1) as int,
                    va as int,
                    32_000_000_000int,
                    120_000_000_000_000int,
                );
                lemma_mul_le(
                    (t3 - t2) as int,
                    vb as int,
                    16_000_000_000int,
                    120_000_000_000_000int,
                );
            }
            let inner = (t3 - t1) * va - (t3 - t2) * vb;
            proof {
                lemma_mul_le(
                    (t2 - t1) as int,
                    inner as int,
                    16_000_000_000int,
                    8_000_000_000_000_000_000_000_000int,
                );
                lemma_mul_le(
                    (t3 - t2) as int,
                    (t3 - t1) as int,
                    16_000_000_000int,
                    32_000_000_000int,
                );
                assert((t3 - t2) * (t3 - t1) >= 1) by (nonlinear_arith)
                    requires
                        t3 > t2,
                        t3 - t1 >= t3 - t2,
                        t2 >= t1,
                ;
                assert(-((t3 - t1) * (aa + bb)) <= inner <= (t3 - t1) * (aa + bb))
                    by (nonlinear_arith)
                    requires
                        inner == (t3 - t1) * va - (t3 - t2) * vb,
                        -aa <= va <= aa,
                        -bb <= vb <= bb,
                        0 < t3 - t2 <= t3 - t1,
                        0 <= aa,
                        0 <= bb,
                ;
                assert(-(((t2 - t1) * (aa + bb)) * ((t3 - t2) * (t3 - t1))) <= (t2 - t1) * inner <= (
                (t2 - t1) * (aa + bb)) * ((t3 - t2) * (t3 - t1))) by (nonlinear_arith)
                    requires
                        -((t3 - t1) * (aa + bb)) <= inner <= (t3 - t1) * (aa + bb),
                        0 < t3 - t2 <= t3 - t1,
                        0 <= t2 - t1 <= t3 - t1,
                        0 <= aa,
                        0 <= bb,
                        1 <= t3 - t2,
                ;
                lemma_mul_le(
                    (t2 - t1) as int,
                    (aa + bb) as int,
                    16_000_000_000int,
                    120_000_000_000_000int,
                );
            }
            cm_tangent(
                (t2 - t1) * inner,
                (t3 - t2) * (t3 - t1),
                v2 - v1,
                (t2 - t1) * (aa + bb),
            )
        };
        let cu = Cubic {
            a: 2 * v1 - 2 * v2 + m1 + m2,
            b: 3 * v2 - 3 * v1 - 2 * m1 - m2,
            c: m1,
            d: v1,
        };
        segs.push(cu);
        i = i + 1;
    }
    segs
}

/// A cubic evaluated by Horner steps, each product truncated back to the
/// fixed-point scale.
pub open spec fn spec_horner4(a: int, b: int, c: int, d: int, tt: int) -> int {
    tdiv((tdiv((tdiv(a * tt, 1_000_000) + b) * tt, 1_000_000) + c) * tt, 1_000_000) + d
}

/// The same evaluation over a stored segment.
pub open spec fn spec_horner(cu: Cubic, tt: int) -> int {
    spec_horner4(cu.a as int, cu.b as int, cu.c as int, cu.d as int, tt)
}

/// Evaluate one cubic at a local parameter `tt` in `[0, ONE]`.
pub fn horner_eval(cu: &Cubic, tt: i64) -> (r: i128)
    requires
        cubic_ok(*cu),
        0 <= tt <= 1_000_000,
    ensures
        r == spec_horner(*cu, tt as int),
        -41_000_000_000_000_000_000_000_000 <= r <= 41_000_000_000_000_000_000_000_000,
{
    proof {
        lemma_mul_le(cu.a as int, tt as int, COEF_MAX as int, 1_000_000int);
    }
    let h1 = div_tr(cu.a * (tt as i128), 1_000_000);
    proof {
        lemma_tdiv_le2((cu.a as int) * (tt as int), 1_000_000, COEF_MAX as int);
        lemma_mul_le((h1 + cu.b) as int, tt as int, 2 * COEF_MAX as int, 1_000_000int);
    }
    let h2 = div_tr((h1 + cu.b) * (tt as i128), 1_000_000);
    proof {
        lemma_tdiv_le2(((h1 + cu.b) as int) * (tt as int), 1_000_000, 2 * COEF_MAX as int);
        lemma_mul_le((h2 + cu.c) as int, tt as int, 3 * COEF_MAX as int, 1_000_000int);
    }
    let h3 = div_tr((h2 + cu.c) * (tt as i128), 1_000_000);
    proof {
        lemma_tdiv_le2(((h2 + cu.c) as int) * (tt as int), 1_000_000, 3 * COEF_MAX as int);
    }
    h3 + cu.d
}

/// Channel `k` of a color converted into the working space.
pub open spec fn conv_chan(colors: Seq<Color>, mode: BlendMode, k: int, i: int) -> int {
    let w = spec_convert(colors[i], mode);
    if k == 0 {
        w.0
    } else if k == 1 {
        w.1
    } else if k == 2 {
        w.2
    } else {
        w.3
    }
}

/// Channel `k` of every color converted into the working space.
pub open spec fn conv_chan_seq(colors: Seq<Color>, mode: BlendMode, k: int) -> Seq<i64> {
    Seq::new(colors.len(), |i: int| conv_chan(colors, mode, k, i) as i64)
}

/// The centripetal Catmull-Rom strategy: per-channel cubic segments,
/// the stop positions, the cached domain, and the exact endpoint colors.
#[derive(Debug, Clone)]
pub struct CatmullRomGradient {
    pub seg0: Vec<Cubic>,
    pub seg1: Vec<Cubic>,
    pub seg2: Vec<Cubic>,
    pub seg3: Vec<Cubic>,
    pub positions: Vec<i64>,
    pub dmin: i64,
    pub dmax: i64,
    pub mode: BlendMode,
    pub first_color: Color,
    pub last_color: Color,
}

impl CatmullRomGradient {
    /// Structural invariant tying the tables together.
    pub open spec fn wf(self) -> bool {
        &&& self.positions@.len() >= 2
        &&& self.seg0@.len() == self.positions@.len() - 1
        &&& self.seg1@.len() == self.positions@.len() - 1
        &&& self.seg2@.len() == self.positions@.len() - 1
        &&& self.seg3@.len() == self.positions@.len() - 1
        &&& nondecreasing(self.positions@)
        &&& all_pos_ok(self.positions@)
        &&& (forall|i: int| 0 <= i < self.seg0@.len() ==> cubic_ok(#[trigger] self.seg0@[i]))
        &&& (forall|i: int| 0 <= i < self.seg1@.len() ==> cubic_ok(#[trigger] self.seg1@[i]))
        &&& (forall|i: int| 0 <= i < self.seg2@.len() ==> cubic_ok(#[trigger] self.seg2@[i]))
        &&& (forall|i: int| 0 <= i < self.seg3@.len() ==> cubic_ok(#[trigger] self.seg3@[i]))
        &&& self.dmin == self.positions@[0]
        &&& self.dmax == self.positions@[self.positions@.len() - 1]
        &&& self.first_color.wf()
        &&& self.last_color.wf()
    }

    /// Precompute the per-channel cubic coefficients of every segment.
    pub fn new(colors: Vec<Color>, positions: Vec<i64>, mode: BlendMode) -> (g: CatmullRomGradient)
        requires
            colors@.len() == positions@.len(),
            colors@.len() >= 2,
            forall|i: int| 0 <= i < colors@.len() ==> (#[trigger] colors@[i]).wf(),
            nondecreasing(positions@),
            all_pos_ok(positions@),
        ensures
            g.wf(),
            g.positions == positions,
            g.mode == mode,
            g.first_color == colors@[0],
            g.last_color == colors@[colors@.len() - 1],
            forall|i: int|
                0 <= i < g.seg0@.len() ==> cubic_is(
                    #[trigger] g.seg0@[i],
                    spec_catmull_coef(ext_vals(conv_chan_seq(colors@, mode, 0)), i),
                ),
            forall|i: int|
                0 <= i < g.seg1@.len() ==> cubic_is(
                    #[trigger] g.seg1@[i],
                    spec_catmull_coef(ext_vals(conv_chan_seq(colors@, mode, 1)), i),
                ),
            forall|i: int|
                0 <= i < g.seg2@.len() ==> cubic_is(
                    #[trigger] g.seg2@[i],
                    spec_catmull_coef(ext_vals(conv_chan_seq(colors@, mode, 2)), i),
                ),
            forall|i: int|
                0 <= i < g.seg3@.len() ==> cubic_is(
                    #[trigger] g.seg3@[i],
                    spec_catmull_coef(ext_vals(conv_chan_seq(colors@, mode, 3)), i),
                ),
    {
        let values = convert_colors(&colors, mode);
        let n = colors.len();
        let mut ch0: Vec<i64> = Vec::new();
        let mut ch1: Vec<i64> = Vec::new();
        let mut ch2: Vec<i64> = Vec::new();
        let mut ch3: Vec<i64> = Vec::new();
        let mut i: usize = 0;
        while i < n
            invariant
                n == colors@.len(),
                values@.len() == n,
                forall|k: int|
                    0 <= k < n ==> quad_is(#[trigger] values@[k], spec_convert(colors@[k], mode))
                        && quad_ok(values@[k]),
                i <= n,
                ch0@.len() == i,
                ch1@.len() == i,
                ch2@.len() == i,
                ch3@.len() == i,
                forall|k: int| 0 <= k < i ==> (#[trigger] ch0@[k]) == values@[k].c0,
                forall|k: int| 0 <= k < i ==> (#[trigger] ch1@[k]) == values@[k].c1,
                forall|k: int| 0 <= k < i ==> (#[trigger] ch2@[k]) == values@[k].c2,
                forall|k: int| 0 <= k < i ==> (#[trigger] ch3@[k]) == values@[k].c3,
            decreases n - i,
        {
            let q = values[i];
            ch0.push(q.c0);
            ch1.push(q.c1);
            ch2.push(q.c2);
            ch3.push(q.c3);
            i = i + 1;
        }
        proof {
            assert(ch0@ =~= conv_chan_seq(colors@, mode, 0));
            assert(ch1@ =~= conv_chan_seq(colors@, mode, 1));
            assert(ch2@ =~= conv_chan_seq(colors@, mode, 2));
            assert(ch3@ =~= conv_chan_seq(colors@, mode, 3));
        }
        let seg0 = to_catmull_segments(&ch0);
        let seg1 = to_catmull_segments(&ch1);
        let seg2 = to_catmull_segments(&ch2);
        let seg3 = to_catmull_segments(&ch3);
        let dmin = positions[0];
        let dmax = positions[positions.len() - 1];
        let first_color = colors[0];
        let last_color = colors[n - 1];
        CatmullRomGradient {
            seg0,
            seg1,
            seg2,
            seg3,
            positions,
            dmin,
            dmax,
            mode,
            first_color,
            last_color,
        }
    }

    /// What evaluation returns: endpoint colors outside the domain, the
    /// per-channel cubic of the containing segment inside it, and the
    /// defensive black fallback if no segment matches.
    pub open spec fn at_spec(self, t: int) -> Color {
        if t <= self.dmin {
            self.first_color
        } else if t >= self.dmax {
            self.last_color
        } else {
            let i = find_seg(self.positions@, t, 0);
            if i >= 0 {
                let p0 = self.positions@[i] as int;
                let p1 = self.positions@[i + 1] as int;
                let tt = tdiv((t - p0) * 1_000_000, p1 - p0);
                spec_back(
                    self.mode,
                    (
                        spec_horner(self.seg0@[i], tt),
                        spec_horner(self.seg1@[i], tt),
                        spec_horner(self.seg2@[i], tt),
                        spec_horner(self.seg3@[i], tt),
                    ),
                )
            } else {
                Color { r: 0, g: 0, b: 0, a: 1_000_000 }
            }
        }
    }

    /// Evaluate the gradient at parameter `t`.
    pub fn at(&self, t: i64) -> (c: Color)
        requires
            self.wf(),
        ensures
            c == self.at_spec(t as int),
            c.wf(),
    {
        if t <= self.dmin {
            return self.first_color;
        }
        if t >= self.dmax {
            return self.last_color;
        }
        let n = self.positions.len();
        let mut i: usize = 0;
        while i < n - 1
            invariant
                self.wf(),
                n == self.positions@.len(),
                self.dmin < t < self.dmax,
                i <= n - 1,
                forall|j: int|
                    0 <= j < i ==> !((#[trigger] self.positions@[j]) <= t && t
                        <= self.positions@[j + 1]),
            decreases n - i,
        {
            let p0 = self.positions[i];
            let p1 = self.positions[i + 1];
            if p0 <= t && t <= p1 {
                proof {
                    lemma_find_seg_skip(self.positions@, t as int, i as int);
                    if p0 == p1 {
                        if i > 0 {
                            lemma_nondecreasing_pair(self.positions@, i - 1 as int, i as int);
                            assert(false);
                        } else {
                            assert(false);
                        }
                    }
                }
                let tt = local_param(t, p0, p1);
                let w = Quad {
                    c0: sat_fx(horner_eval(&self.seg0[i], tt)),
                    c1: sat_fx(horner_eval(&self.seg1[i], tt)),
                    c2: sat_fx(horner_eval(&self.seg2[i], tt)),
                    c3: sat_fx(horner_eval(&self.seg3[i], tt)),
                };
                return back_convert(self.mode, w);
            }
            i = i + 1;
        }
        proof {
            lemma_find_seg_skip(self.positions@, t as int, n - 1 as int);
        }
        Color { r: 0, g: 0, b: 0, a: 1_000_000 }
    }
}

/// The local segment parameter `(t - p0) / (p1 - p0)`, scaled by `ONE`.
pub fn local_param(t: i64, p0: i64, p1: i64) -> (tt: i64)
    requires
        pos_ok(p0 as int),
        pos_ok(p1 as int),
        p0 <= t <= p1,
        p0 < p1,
    ensures
        tt == tdiv(((t - p0) as int) * 1_000_000, (p1 - p0) as int),
        0 <= tt <= 1_000_000,
{
    let u = (t as i128) - (p0 as i128);
    let den = (p1 as i128) - (p0 as i128);
    proof {
        vstd::arithmetic::div_mod::lemma_div_of0(den as int);
        lemma_tdiv_monotone(0, (u as int) * 1_000_000, den as int);
        lemma_tdiv_monotone((u as int) * 1_000_000, (den as int) * 1_000_000, den as int);
        lemma_tdiv_exact(1_000_000int, den as int);
        assert((den as int) * 1_000_000 == 1_000_000int * (den as int)) by (nonlinear_arith);
        assert((u as int) * 1_000_000 <= (den as int) * 1_000_000);
    }
    div_tr(u * 1_000_000, den) as i64
}

} // verus!
