//! The library's laws: what holds of every gradient, proved once here.

use vstd::prelude::*;

use crate::basis::spec_basis;
use crate::builder::{norm_colors, resolved_mode, spec_build, CustomGradient, CustomGradientError};
use crate::catmull_rom::{ext_vals, spec_catmull_coef, spec_horner4};
use crate::color::{
    chan_ok, lemma_lerp_between, quad_is, spec_convert, spec_lerp, BlendMode, Color,
};
use crate::fx::{
    lemma_sqrt_floor_unique, lemma_tdiv_exact, lemma_tdiv_monotone, lemma_tdiv_scale, sqrt_floor,
    tdiv,
};
use crate::gradient::Gradient;
use crate::linear::{seg_lerp, LinearGradient};
use crate::sharp::{lemma_first_ge_char, spec_sharp_w, stop_pos_seq, SharpGradient};
use crate::stops::lemma_nondecreasing_pair;
use vstd::arithmetic::div_mod::lemma_div_of0;

verus! {

/// Evaluation at the domain ends returns the first and last stop colors
/// exactly; when the domain is a single point, the first color wins.
pub proof fn lemma_endpoints(g: Gradient)
    requires
        g.wf(),
    ensures
        g.at_spec(g.dmin as int) == g.gradient.spec_first(),
        g.dmin < g.dmax ==> g.at_spec(g.dmax as int) == g.gradient.spec_last(),
{
}

/// Outside the domain, evaluation clamps to the respective endpoint
/// color: the spline is never extrapolated.
pub proof fn lemma_clamped_extrapolation(g: Gradient, t: int)
    requires
        g.wf(),
    ensures
        t <= g.dmin ==> g.at_spec(t) == g.gradient.spec_first(),
        t >= g.dmax && t > g.dmin ==> g.at_spec(t) == g.gradient.spec_last(),
{
}

/// A linear RGB-mode gradient whose two stops hold one and the same
/// color evaluates to that color everywhere.
pub proof fn lemma_single_color_constant(g: LinearGradient, c: Color, t: int)
    requires
        g.wf(),
        g.mode == BlendMode::Rgb,
        g.positions@.len() == 2,
        g.first_color == c,
        g.last_color == c,
        c.wf(),
        forall|i: int|
            0 <= i < g.values@.len() ==> quad_is(#[trigger] g.values@[i], spec_convert(c, BlendMode::Rgb)),
    ensures
        g.at_spec(t) == c,
{
    if g.dmin < t < g.dmax {
        let s = g.positions@;
        assert(s[0] <= t && t <= s[1]);
        assert(crate::stops::find_seg(s, t, 0) == 0);
        let p0 = s[0] as int;
        let p1 = s[1] as int;
        lemma_div_of0(p1 - p0);
        assert(seg_lerp(c.r as int, c.r as int, t, p0, p1) == c.r as int);
        assert(seg_lerp(c.g as int, c.g as int, t, p0, p1) == c.g as int);
        assert(seg_lerp(c.b as int, c.b as int, t, p0, p1) == c.b as int);
        assert(seg_lerp(c.a as int, c.a as int, t, p0, p1) == c.a as int);
    }
}

/// The HSV blend mode cannot ride a spline: building with HSV and a
/// non-linear interpolation yields exactly the gradient an explicit RGB
/// build yields.
pub proof fn lemma_hsv_spline_downgrade(
    b1: CustomGradient,
    b2: CustomGradient,
    r1: Result<Gradient, CustomGradientError>,
    r2: Result<Gradient, CustomGradientError>,
    t: int,
)
    requires
        spec_build(b1, r1),
        spec_build(b2, r2),
        b1.mode == BlendMode::Hsv,
        b2.mode == BlendMode::Rgb,
        !(b1.interpolation is Linear),
        b2.interpolation == b1.interpolation,
        b1.colors@ == b2.colors@,
        b1.pos@ == b2.pos@,
        b1.invalid_html_colors@.len() == 0,
        b2.invalid_html_colors@.len() == 0,
    ensures
        r1 is Ok <==> r2 is Ok,
        r1 is Ok ==> r1->Ok_0.at_spec(t) == r2->Ok_0.at_spec(t),
        r1 is Ok ==> r1->Ok_0.dmin == r2->Ok_0.dmin && r1->Ok_0.dmax == r2->Ok_0.dmax,
{
    assert(resolved_mode(b1.mode, b1.interpolation) == BlendMode::Rgb);
    assert(resolved_mode(b2.mode, b2.interpolation) == BlendMode::Rgb);
    if r1 is Ok {
        let g1 = r1->Ok_0;
        let g2 = r2->Ok_0;
        let cs = norm_colors(b1.colors@);
        if b1.interpolation is CatmullRom {
            let s1 = g1.gradient->CatmullRom_0;
            let s2 = g2.gradient->CatmullRom_0;
            assert(s1.positions@ == s2.positions@);
            assert forall|k: int| 0 <= k < s1.seg0@.len() implies #[trigger] s1.seg0@[k]
                == s2.seg0@[k] by {
                assert(crate::catmull_rom::cubic_is(
                    s1.seg0@[k],
                    spec_catmull_coef(
                        ext_vals(crate::catmull_rom::conv_chan_seq(cs, BlendMode::Rgb, 0)),
                        k,
                    ),
                ));
            }
            assert forall|k: int| 0 <= k < s1.seg1@.len() implies #[trigger] s1.seg1@[k]
                == s2.seg1@[k] by {
                assert(crate::catmull_rom::cubic_is(
                    s1.seg0@[k],
                    spec_catmull_coef(
                        ext_vals(crate::catmull_rom::conv_chan_seq(cs, BlendMode::Rgb, 0)),
                        k,
                    ),
                ));
                assert(crate::catmull_rom::cubic_is(
                    s2.seg0@[k],
                    spec_catmull_coef(
                        ext_vals(crate::catmull_rom::conv_chan_seq(cs, BlendMode::Rgb, 0)),
                        k,
                    ),
                ));
            }
            assert forall|k: int| 0 <= k < s1.seg2@.len() implies #[trigger] s1.seg2@[k]
                == s2.seg2@[k] by {
                assert(crate::catmull_rom::cubic_is(
                    s1.seg0@[k],
                    spec_catmull_coef(
                        ext_vals(crate::catmull_rom::conv_chan_seq(cs, BlendMode::Rgb, 0)),
                        k,
                    ),
                ));
                assert(crate::catmull_rom::cubic_is(
                    s2.seg0@[k],
                    spec_catmull_coef(
                        ext_vals(crate::catmull_rom::conv_chan_seq(cs, BlendMode::Rgb, 0)),
                        k,
                    ),
                ));
            }
            assert forall|k: int| 0 <= k < s1.seg3@.len() implies #[trigger] s1.seg3@[k]
                == s2.seg3@[k] by {
                assert(crate::catmull_rom::cubic_is(
                    s1.seg0@[k],
                    spec_catmull_coef(
                        ext_vals(crate::catmull_rom::conv_chan_seq(cs, BlendMode::Rgb, 0)),
                        k,
                    ),
                ));
                assert(crate::catmull_rom::cubic_is(
                    s2.seg0@[k],
                    spec_catmull_coef(
                        ext_vals(crate::catmull_rom::conv_chan_seq(cs, BlendMode::Rgb, 0)),
                        k,
                    ),
                ));
            }
            assert(s1.seg0@ =~= s2.seg0@);
            assert(s1.seg1@ =~= s2.seg1@);
            assert(s1.seg2@ =~= s2.seg2@);
            assert(s1.seg3@ =~= s2.seg3@);
            assert(s1.at_spec(t) == s2.at_spec(t));
        } else {
            let s1 = g1.gradient->Basis_0;
            let s2 = g2.gradient->Basis_0;
            assert(s1.positions@ == s2.positions@);
            assert(s1.values@ =~= s2.values@);
            assert(s1.at_spec(t) == s2.at_spec(t));
        }
    }
}

/// A non-positive smoothness gives a zero transition width.
pub proof fn lemma_sharp_zero_width(dmin: int, dmax: int, n: int, t: int)
    requires
        n >= 1,
        dmax >= dmin,
        t <= 0,
    ensures
        spec_sharp_w(dmin, dmax, n, t) == 0,
{
    lemma_div_of0(1_000_000int);
    lemma_div_of0(4 * n);
}

/// Inside a flat band — strictly above the band's lower stop, at or
/// below its upper stop — evaluation returns the band's color exactly.
pub proof fn lemma_sharp_flat_band(g: SharpGradient, b: int, t: int)
    requires
        g.wf(),
        0 <= 2 * b + 1 < g.stops@.len(),
        (g.stops@[2 * b].0 as int) < t,
        t <= g.stops@[2 * b + 1].0 as int,
        (g.dmin as int) < t < (g.dmax as int),
    ensures
        g.at_spec(t) == g.stops@[2 * b].1,
{
    let ps = stop_pos_seq(g.stops@);
    assert forall|j: int| 0 <= j < 2 * b + 1 implies (#[trigger] ps[j]) < t by {
        lemma_nondecreasing_pair(ps, j, 2 * b);
    }
    assert(ps[2 * b + 1] >= t);
    lemma_first_ge_char(ps, t, 2 * b + 1);
    let i = 2 * b;
    vstd::arithmetic::div_mod::lemma_fundamental_div_mod_converse(i, 2, b, 0);
    assert(i % 2 == 0);
}

/// A two-stop centripetal Catmull-Rom segment degenerates to the exact
/// linear blend of its stops, so its value always lies between them.
pub proof fn lemma_catmull_two_stop(vals: Seq<i64>, tt: int)
    requires
        vals.len() == 2,
        chan_ok(vals[0] as int),
        chan_ok(vals[1] as int),
        0 <= tt <= 1_000_000,
    ensures
        ({
            let cu = spec_catmull_coef(ext_vals(vals), 0);
            let r = spec_horner4(cu.0, cu.1, cu.2, cu.3, tt);
            &&& r == spec_lerp(vals[0] as int, vals[1] as int, tt)
            &&& vals[0] <= vals[1] ==> vals[0] <= r <= vals[1]
            &&& vals[1] <= vals[0] ==> vals[1] <= r <= vals[0]
        }),
{
    let a = vals[0] as int;
    let b = vals[1] as int;
    let w = ext_vals(vals);
    assert(w[0] == 2 * a - b && w[1] == a && w[2] == b && w[3] == 2 * b - a);
    let d = b - a;
    lemma_div_of0(1_000_000int);
    if a == b {
        lemma_sqrt_floor_unique(0, 0);
        let cu = spec_catmull_coef(w, 0);
        assert(cu.0 == 0 && cu.1 == 0 && cu.2 == 0 && cu.3 == a);
        assert(spec_horner4(0, 0, 0, a, tt) == a) by {
            assert(tdiv(0 * tt, 1_000_000) == 0) by {
                assert(0 * tt == 0) by (nonlinear_arith);
            }
        }
        assert(spec_lerp(a, b, tt) == a) by {
            assert((b - a) * tt == 0) by (nonlinear_arith)
                requires
                    a == b,
            ;
        }
        lemma_lerp_between(a, b, tt);
    } else {
        let m = vstd::math::abs(a - b) as int;
        crate::fx::lemma_sqrt_floor_exists(m * 1_000_000);
        let t1 = sqrt_floor(m * 1_000_000);
        assert(vstd::math::abs(w[0] - w[1]) == m && vstd::math::abs(w[1] - w[2]) == m
            && vstd::math::abs(w[2] - w[3]) == m);
        assert(t1 >= 1) by (nonlinear_arith)
            requires
                t1 >= 0,
                (t1 + 1) * (t1 + 1) > m * 1_000_000,
                m >= 1,
        ;
        let t2 = t1 + t1;
        let t3 = t2 + t1;
        // Both tangent numerators vanish identically for equally spaced
        // knots, so each tangent is exactly the stop difference.
        assert((t2 - t1) * (t2 * (w[1] - w[0]) - t1 * (w[2] - w[0])) == 0) by (nonlinear_arith)
            requires
                t2 == 2 * t1,
                w[0] == 2 * a - b,
                w[1] == a,
                w[2] == b,
        ;
        assert((t2 - t1) * ((t3 - t1) * (w[3] - w[2]) - (t3 - t2) * (w[3] - w[1]))
            == 0) by (nonlinear_arith)
            requires
                t2 == 2 * t1,
                t3 == 3 * t1,
                w[3] == 2 * b - a,
                w[2] == b,
                w[1] == a,
        ;
        lemma_tdiv_monotone(0, 0, 1);
        assert(tdiv(0, t1 * t2) == 0) by {
            assert(t1 * t2 >= 1) by (nonlinear_arith)
                requires
                    t1 >= 1,
                    t2 == 2 * t1,
            ;
            lemma_div_of0(t1 * t2);
        }
        assert(tdiv(0, (t3 - t2) * (t3 - t1)) == 0) by {
            assert((t3 - t2) * (t3 - t1) >= 1) by (nonlinear_arith)
                requires
                    t1 >= 1,
                    t2 == 2 * t1,
                    t3 == 3 * t1,
            ;
            lemma_div_of0((t3 - t2) * (t3 - t1));
        }
        let cu = spec_catmull_coef(w, 0);
        assert(cu.2 == d && cu.3 == a && cu.0 == 0 && cu.1 == 0);
        assert(spec_horner4(0, 0, d, a, tt) == tdiv(d * tt, 1_000_000) + a) by {
            assert(0 * tt == 0) by (nonlinear_arith);
            assert((tdiv(0 * tt, 1_000_000) + 0) * tt == 0) by (nonlinear_arith)
                requires
                    tdiv(0 * tt, 1_000_000) == 0,
            ;
            assert((tdiv((tdiv(0 * tt, 1_000_000) + 0) * tt, 1_000_000) + d) * tt == d * tt)
                by (nonlinear_arith)
                requires
                    tdiv((tdiv(0 * tt, 1_000_000) + 0) * tt, 1_000_000) == 0,
            ;
        }
        lemma_lerp_between(a, b, tt);
    }
}

/// A two-stop uniform basis segment — virtual neighbors reflected on
/// both sides — degenerates to the exact linear blend of its stops, so
/// its value always lies between them.
pub proof fn lemma_basis_two_stop(v1: int, v2: int, tt: int)
    requires
        chan_ok(v1),
        chan_ok(v2),
        0 <= tt <= 1_000_000,
    ensures
        spec_basis(tt, 2 * v1 - v2, v1, v2, 2 * v2 - v1) == tdiv(
            (1_000_000 - tt) * v1 + tt * v2,
            1_000_000,
        ),
        v1 <= v2 ==> v1 <= spec_basis(tt, 2 * v1 - v2, v1, v2, 2 * v2 - v1) <= v2,
        v2 <= v1 ==> v2 <= spec_basis(tt, 2 * v1 - v2, v1, v2, 2 * v2 - v1) <= v1,
{
    let u = 1_000_000int;
    let s = u - tt;
    let t2 = tt * tt;
    let t3 = t2 * tt;
    let c0 = s * s * s;
    let c1 = 4_000_000_000_000_000_000 - 6_000_000 * t2 + 3 * t3;
    let c2 = 1_000_000_000_000_000_000 + 3_000_000_000_000 * tt + 3_000_000 * t2 - 3 * t3;
    let c3 = t3;
    let x = s * v1 + tt * v2;
    assert(c0 * (2 * v1 - v2) + c1 * v1 + c2 * v2 + c3 * (2 * v2 - v1) == 6_000_000_000_000 * x)
        by (nonlinear_arith)
        requires
            s == u - tt,
            u == 1_000_000,
            t2 == tt * tt,
            t3 == t2 * tt,
            c0 == s * s * s,
            c1 == 4_000_000_000_000_000_000 - 6_000_000 * t2 + 3 * t3,
            c2 == 1_000_000_000_000_000_000 + 3_000_000_000_000 * tt + 3_000_000 * t2 - 3 * t3,
            c3 == t3,
            x == s * v1 + tt * v2,
    ;
    lemma_tdiv_scale(x, 1_000_000, 6_000_000_000_000);
    assert(6_000_000_000_000 * 1_000_000int == 6_000_000_000_000_000_000int);
    // The exact blend lies between the endpoints, and truncation by the
    // scale preserves that.
    if v1 <= v2 {
        assert(v1 * u <= x <= v2 * u) by (nonlinear_arith)
            requires
                x == (u - tt) * v1 + tt * v2,
                0 <= tt <= u,
                v1 <= v2,
        ;
        lemma_tdiv_monotone(v1 * u, x, u);
        lemma_tdiv_monotone(x, v2 * u, u);
        lemma_tdiv_exact(v1, u);
        lemma_tdiv_exact(v2, u);
    } else {
        assert(v2 * u <= x <= v1 * u) by (nonlinear_arith)
            requires
                x == (u - tt) * v1 + tt * v2,
                0 <= tt <= u,
                v2 <= v1,
        ;
        lemma_tdiv_monotone(v2 * u, x, u);
        lemma_tdiv_monotone(x, v1 * u, u);
        lemma_tdiv_exact(v1, u);
        lemma_tdiv_exact(v2, u);
    }
}

} // verus!
