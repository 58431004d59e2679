//! RGBA colors and the conversions between the working color spaces.
//!
//! A `Color` stores four fixed-point channels (see `fx`) holding
//! gamma-encoded sRGB values plus alpha.  The conversions to and from
//! linear RGB, Oklab and HSV realize the blend-mode semantics: every
//! interpolation strategy converts its stops once at construction and
//! converts the interpolated channels back at evaluation.

use vstd::prelude::*;

use crate::fx::{
    cbrt_floor, div_tr, emod, icbrt, iroot5, isqrt, lemma_mul_le, lemma_tdiv_le2, root5_floor, sat,
    sat_fx, sqrt_floor, tdiv, FXMAX, ONE,
};

verus! {

/// A channel value inside the representable fixed-point range.
pub open spec fn chan_ok(v: int) -> bool {
    -FXMAX <= v <= FXMAX
}

/// An RGBA color; the `r`, `g`, `b` channels are gamma-encoded sRGB and
/// `a` is alpha, all scaled by `ONE`.
#[derive(Debug, Clone, Copy, PartialEq, Eq, Structural)]
pub struct Color {
    pub r: i64,
    pub g: i64,
    pub b: i64,
    pub a: i64,
}

impl Color {
    /// All four channels lie in the representable range.
    pub open spec fn wf(self) -> bool {
        chan_ok(self.r as int) && chan_ok(self.g as int) && chan_ok(self.b as int) && chan_ok(
            self.a as int,
        )
    }

    /// Build a color from four already scaled channel values.
    pub fn new(r: i64, g: i64, b: i64, a: i64) -> (c: Color)
        requires
            chan_ok(r as int),
            chan_ok(g as int),
            chan_ok(b as int),
            chan_ok(a as int),
        ensures
            c == (Color { r, g, b, a }),
            c.wf(),
    {
        Color { r, g, b, a }
    }
}

/// One gamma-encoded channel mapped to linear RGB:
/// `x / 12.92` below the sRGB knee, `((x + 0.055) / 1.055)^2.4` above it.
/// The exponent is realized exactly as `y^2 * (y^(1/5))^2` over the fifth
/// root, every division truncating.
pub open spec fn spec_srgb_to_linear(x: int) -> int {
    if x <= 40_450 {
        tdiv(x * 1_000_000, 12_920_000)
    } else {
        let y = tdiv((x + 55_000) * 1_000_000, 1_055_000);
        let f = root5_floor(y * 1_000_000_000_000_000_000_000_000);
        let z1 = tdiv(y * y, 1_000_000);
        let z2 = tdiv(f * f, 1_000_000);
        sat(tdiv(z1 * z2, 1_000_000))
    }
}

/// One linear channel mapped back to gamma-encoded sRGB:
/// `12.92 * x` below the knee, `1.055 * x^(1/2.4) - 0.055` above it.
/// The exponent `5/12` is realized exactly as `x^(1/2) / x^(1/12)` over
/// the integer square and cube roots.
pub open spec fn spec_linear_to_srgb(x: int) -> int {
    if x <= 3_131 {
        sat(tdiv(x * 12_920_000, 1_000_000))
    } else {
        let a = sqrt_floor(x * 1_000_000);
        let b = sqrt_floor(a * 1_000_000);
        let d = cbrt_floor(b * 1_000_000_000_000);
        let p = tdiv(a * 1_000_000, d);
        sat(tdiv(p * 1_055_000, 1_000_000) - 55_000)
    }
}

/// Gamma-decode one sRGB channel.
pub fn srgb_to_linear(x: i64) -> (r: i64)
    requires
        chan_ok(x as int),
    ensures
        r == spec_srgb_to_linear(x as int),
        chan_ok(r as int),
{
    if x <= 40_450 {
        let q = div_tr((x as i128) * 1_000_000, 12_920_000);
        proof {
            lemma_tdiv_le2((x as i128) * 1_000_000 as int, 12_920_000, FXMAX as int);
        }
        q as i64
    } else {
        let y = div_tr(((x as i128) + 55_000) * 1_000_000, 1_055_000);
        proof {
            lemma_tdiv_le2(((x as int) + 55_000) * 1_000_000, 1_055_000, (FXMAX as int) + 55_000);
        }
        let f = iroot5(((y as u128) * 1_000_000_000_000_000_000_000_000)) as i128;
        proof {
            lemma_mul_le(y as int, y as int, FXMAX as int + 55_000, FXMAX as int + 55_000);
        }
        let z1 = div_tr(y * y, 1_000_000);
        proof {
            lemma_tdiv_le2(
                (y as int) * (y as int),
                1_000_000,
                0x10_0000_0000_0000_0000_0000int,
            );
            lemma_mul_le(f as int, f as int, 0x400_0000int, 0x400_0000int);
        }
        let z2 = div_tr(f * f, 1_000_000);
        proof {
            lemma_tdiv_le2((f as int) * (f as int), 1_000_000, 0x10_0000_0000int);
            lemma_mul_le(
                z1 as int,
                z2 as int,
                0x10_0000_0000_0000_0000_0000int,
                0x10_0000_0000int,
            );
        }
        sat_fx(div_tr(z1 * z2, 1_000_000))
    }
}

/// Gamma-encode one linear channel.
pub fn linear_to_srgb(x: i64) -> (r: i64)
    requires
        chan_ok(x as int),
    ensures
        r == spec_linear_to_srgb(x as int),
        chan_ok(r as int),
{
    if x <= 3_131 {
        sat_fx(div_tr((x as i128) * 12_920_000, 1_000_000))
    } else {
        let a = isqrt((x as u128) * 1_000_000);
        let b = isqrt((a as u128) * 1_000_000);
        let d = icbrt((b as u128) * 1_000_000_000_000);
        proof {
            // `x >= 3132` forces every stage to stay positive, so the final
            // division is by a positive cube root.
            assert(a >= 1) by (nonlinear_arith)
                requires
                    (x as int) * 1_000_000 < ((a as int) + 1) * ((a as int) + 1),
                    x >= 3_132,
                    a >= 0,
            ;
            assert(b >= 1) by (nonlinear_arith)
                requires
                    (a as int) * 1_000_000 < ((b as int) + 1) * ((b as int) + 1),
                    a >= 1,
                    b >= 0,
            ;
            assert(d >= 1) by (nonlinear_arith)
                requires
                    (b as int) * 1_000_000_000_000 < ((d as int) + 1) * ((d as int) + 1) * ((
                    d as int) + 1),
                    b >= 1,
                    d >= 0,
            ;
            // `a <= sqrt(FXMAX * ONE)`, comfortably below `2^64`.
            assert((a as int) * (a as int) <= (FXMAX as int) * 1_000_000);
            assert(a <= 0x1_0000_0000_0000u128) by (nonlinear_arith)
                requires
                    (a as int) * (a as int) <= (FXMAX as int) * 1_000_000,
                    FXMAX == 10_000_000_000_000i64,
            ;
        }
        let p = div_tr((a as i128) * 1_000_000, d as i128);
        proof {
            lemma_mul_le(p as int, 1_055_000int, 0x1_0000_0000_0000_0000_0000int, 1_055_000int);
        }
        sat_fx(div_tr((p as i128) * 1_055_000, 1_000_000) - 55_000)
    }
}

/// A signed cube root keeping the fixed-point scale:
/// `cbrt(v / ONE) * ONE`, realized as `cbrt_floor(v * ONE^2)` on the
/// magnitude.
pub open spec fn spec_cbrt_fx(v: int) -> int {
    if v >= 0 {
        cbrt_floor(v * 1_000_000_000_000)
    } else {
        -cbrt_floor((-v) * 1_000_000_000_000)
    }
}

/// A signed cube keeping the fixed-point scale.
pub open spec fn spec_cube_fx(v: int) -> int {
    tdiv(tdiv(v * v, 1_000_000) * v, 1_000_000)
}

fn cbrt_fx(v: i128) -> (r: i128)
    requires
        -100_000_000_000_000 <= v <= 100_000_000_000_000,
    ensures
        r == spec_cbrt_fx(v as int),
        -465_000_000 <= r <= 465_000_000,
{
    if v >= 0 {
        let w = icbrt((v as u128) * 1_000_000_000_000);
        proof {
            assert(w <= 465_000_000) by (nonlinear_arith)
                requires
                    (w as int) * (w as int) * (w as int) <= (v as int) * 1_000_000_000_000,
                    v <= 100_000_000_000_000,
            ;
        }
        w as i128
    } else {
        let w = icbrt(((-v) as u128) * 1_000_000_000_000);
        proof {
            assert(w <= 465_000_000) by (nonlinear_arith)
                requires
                    (w as int) * (w as int) * (w as int) <= ((-v) as int) * 1_000_000_000_000,
                    -v <= 100_000_000_000_000,
            ;
        }
        -(w as i128)
    }
}

fn cube_fx(v: i128) -> (r: i128)
    requires
        -25_000_000_000_000 <= v <= 25_000_000_000_000,
    ensures
        r == spec_cube_fx(v as int),
        -18_000_000_000_000_000_000_000_000_000 <= r <= 18_000_000_000_000_000_000_000_000_000,
{
    proof {
        lemma_mul_le(v as int, v as int, 25_000_000_000_000, 25_000_000_000_000);
    }
    let q1 = div_tr(v * v, 1_000_000);
    proof {
        lemma_tdiv_le2((v as int) * (v as int), 1_000_000, 700_000_000_000_000_000_000int);
        lemma_mul_le(q1 as int, v as int, 700_000_000_000_000_000_000int, 25_000_000_000_000);
        lemma_tdiv_le2(
            (q1 as int) * (v as int),
            1_000_000,
            18_000_000_000_000_000_000_000_000_000int,
        );
    }
    div_tr(q1 * v, 1_000_000)
}

/// The color expressed as linear RGB plus alpha.
pub open spec fn spec_to_linear_rgba(c: Color) -> (int, int, int, int) {
    (
        spec_srgb_to_linear(c.r as int),
        spec_srgb_to_linear(c.g as int),
        spec_srgb_to_linear(c.b as int),
        c.a as int,
    )
}

/// A color built from linear RGB channels plus alpha.
pub open spec fn spec_from_linear_rgba(r: int, g: int, b: int, a: int) -> Color {
    Color {
        r: spec_linear_to_srgb_i64(r),
        g: spec_linear_to_srgb_i64(g),
        b: spec_linear_to_srgb_i64(b),
        a: a as i64,
    }
}

/// `spec_linear_to_srgb` lands in the representable range, so it can be
/// stated directly as an `i64` channel.
pub open spec fn spec_linear_to_srgb_i64(x: int) -> i64 {
    spec_linear_to_srgb(x) as i64
}

/// The color expressed in Oklab: gamma decode, one matrix into the LMS
/// cone space, a cube root per coordinate, and a second matrix.
pub open spec fn spec_to_oklaba(c: Color) -> (int, int, int, int) {
    let lr = spec_srgb_to_linear(c.r as int);
    let lg = spec_srgb_to_linear(c.g as int);
    let lb = spec_srgb_to_linear(c.b as int);
    let l1 = tdiv(412_221 * lr + 536_333 * lg + 51_446 * lb, 1_000_000);
    let m1 = tdiv(211_903 * lr + 680_700 * lg + 107_397 * lb, 1_000_000);
    let s1 = tdiv(88_302 * lr + 281_719 * lg + 629_979 * lb, 1_000_000);
    let l2 = spec_cbrt_fx(l1);
    let m2 = spec_cbrt_fx(m1);
    let s2 = spec_cbrt_fx(s1);
    (
        sat(tdiv(210_454 * l2 + 793_618 * m2 - 4_072 * s2, 1_000_000)),
        sat(tdiv(1_977_998 * l2 - 2_428_592 * m2 + 450_594 * s2, 1_000_000)),
        sat(tdiv(25_904 * l2 + 782_772 * m2 - 808_676 * s2, 1_000_000)),
        c.a as int,
    )
}

/// A color built from Oklab coordinates: the inverse matrix, a cube per
/// coordinate, the matrix back to linear RGB, and gamma encode.
pub open spec fn spec_from_oklaba(l: int, a: int, b: int, alpha: int) -> Color {
    let l2 = tdiv(l * 1_000_000 + 396_338 * a + 215_804 * b, 1_000_000);
    let m2 = tdiv(l * 1_000_000 - 105_561 * a - 63_854 * b, 1_000_000);
    let s2 = tdiv(l * 1_000_000 - 89_484 * a - 1_291_486 * b, 1_000_000);
    let l3 = spec_cube_fx(l2);
    let m3 = spec_cube_fx(m2);
    let s3 = spec_cube_fx(s2);
    let rl = sat(tdiv(4_076_742 * l3 - 3_307_712 * m3 + 230_970 * s3, 1_000_000));
    let gl = sat(tdiv(-1_268_438 * l3 + 2_609_757 * m3 - 341_319 * s3, 1_000_000));
    let bl = sat(tdiv(-4_196 * l3 - 703_419 * m3 + 1_707_615 * s3, 1_000_000));
    Color {
        r: spec_linear_to_srgb_i64(rl),
        g: spec_linear_to_srgb_i64(gl),
        b: spec_linear_to_srgb_i64(bl),
        a: alpha as i64,
    }
}

/// The color expressed as HSV plus alpha, hue in degrees scaled by `ONE`.
pub open spec fn spec_to_hsva(c: Color) -> (int, int, int, int) {
    let mx = vstd::math::max(vstd::math::max(c.r as int, c.g as int), c.b as int);
    let mn = vstd::math::min(vstd::math::min(c.r as int, c.g as int), c.b as int);
    let d = mx - mn;
    if d == 0 {
        (0, 0, mx, c.a as int)
    } else {
        let s = if mx > 0 {
            sat(tdiv(d * 1_000_000, mx))
        } else {
            0
        };
        let dr = tdiv((mx - c.r) * 1_000_000, d);
        let dg = tdiv((mx - c.g) * 1_000_000, d);
        let db = tdiv((mx - c.b) * 1_000_000, d);
        let h0 = if c.r as int == mx {
            db - dg
        } else if c.g as int == mx {
            2_000_000 + dr - db
        } else {
            4_000_000 + dg - dr
        };
        ((h0 * 60) % 360_000_000, s, mx, c.a as int)
    }
}

/// A color built from HSV plus alpha: the hue is normalized into
/// `[0, 360)` degrees, saturation and value are clamped into `[0, 1]`,
/// then the standard six-sector formula applies.
pub open spec fn spec_from_hsva(h: int, s: int, v: int, alpha: int) -> Color {
    let hn = h % 360_000_000;
    let sc = if s < 0 {
        0
    } else if s > 1_000_000 {
        1_000_000
    } else {
        s
    };
    let vc = if v < 0 {
        0
    } else if v > 1_000_000 {
        1_000_000
    } else {
        v
    };
    let sector = hn / 60_000_000;
    let f = tdiv((hn - sector * 60_000_000) * 1_000_000, 60_000_000);
    let p = tdiv(vc * (1_000_000 - sc), 1_000_000);
    let q = tdiv(vc * (1_000_000 - tdiv(sc * f, 1_000_000)), 1_000_000);
    let t = tdiv(vc * (1_000_000 - tdiv(sc * (1_000_000 - f), 1_000_000)), 1_000_000);
    let rgb: (int, int, int) = if sector == 0 {
        (vc, t, p)
    } else if sector == 1 {
        (q, vc, p)
    } else if sector == 2 {
        (p, vc, t)
    } else if sector == 3 {
        (p, q, vc)
    } else if sector == 4 {
        (t, p, vc)
    } else {
        (vc, p, q)
    };
    Color { r: rgb.0 as i64, g: rgb.1 as i64, b: rgb.2 as i64, a: alpha as i64 }
}

impl Color {
    /// The color as linear RGB channels plus alpha.
    pub fn to_linear_rgba(&self) -> (r: (i64, i64, i64, i64))
        requires
            self.wf(),
        ensures
            (r.0 as int, r.1 as int, r.2 as int, r.3 as int) == spec_to_linear_rgba(*self),
            chan_ok(r.0 as int) && chan_ok(r.1 as int) && chan_ok(r.2 as int) && chan_ok(
                r.3 as int,
            ),
    {
        (srgb_to_linear(self.r), srgb_to_linear(self.g), srgb_to_linear(self.b), self.a)
    }

    /// Build a color from linear RGB channels plus alpha.
    pub fn from_linear_rgba(r: i64, g: i64, b: i64, a: i64) -> (c: Color)
        requires
            chan_ok(r as int),
            chan_ok(g as int),
            chan_ok(b as int),
            chan_ok(a as int),
        ensures
            c == spec_from_linear_rgba(r as int, g as int, b as int, a as int),
            c.wf(),
    {
        Color { r: linear_to_srgb(r), g: linear_to_srgb(g), b: linear_to_srgb(b), a }
    }

    /// The color as Oklab coordinates plus alpha.
    pub fn to_oklaba(&self) -> (r: (i64, i64, i64, i64))
        requires
            self.wf(),
        ensures
            (r.0 as int, r.1 as int, r.2 as int, r.3 as int) == spec_to_oklaba(*self),
            chan_ok(r.0 as int) && chan_ok(r.1 as int) && chan_ok(r.2 as int) && chan_ok(
                r.3 as int,
            ),
    {
        let lr = srgb_to_linear(self.r) as i128;
        let lg = srgb_to_linear(self.g) as i128;
        let lb = srgb_to_linear(self.b) as i128;
        let l1 = div_tr(412_221 * lr + 536_333 * lg + 51_446 * lb, 1_000_000);
        let m1 = div_tr(211_903 * lr + 680_700 * lg + 107_397 * lb, 1_000_000);
        let s1 = div_tr(88_302 * lr + 281_719 * lg + 629_979 * lb, 1_000_000);
        proof {
            lemma_tdiv_le2(412_221 * lr + 536_333 * lg + 51_446 * (lb as int), 1_000_000, FXMAX as int);
            lemma_tdiv_le2(211_903 * lr + 680_700 * lg + 107_397 * (lb as int), 1_000_000, FXMAX as int);
            lemma_tdiv_le2(88_302 * lr + 281_719 * lg + 629_979 * (lb as int), 1_000_000, FXMAX as int);
        }
        let l2 = cbrt_fx(l1);
        let m2 = cbrt_fx(m1);
        let s2 = cbrt_fx(s1);
        let ll = sat_fx(div_tr(210_454 * l2 + 793_618 * m2 - 4_072 * s2, 1_000_000));
        let aa = sat_fx(div_tr(1_977_998 * l2 - 2_428_592 * m2 + 450_594 * s2, 1_000_000));
        let bb = sat_fx(div_tr(25_904 * l2 + 782_772 * m2 - 808_676 * s2, 1_000_000));
        (ll, aa, bb, self.a)
    }

    /// Build a color from Oklab coordinates plus alpha.
    pub fn from_oklaba(l: i64, a: i64, b: i64, alpha: i64) -> (c: Color)
        requires
            chan_ok(l as int),
            chan_ok(a as int),
            chan_ok(b as int),
            chan_ok(alpha as int),
        ensures
            c == spec_from_oklaba(l as int, a as int, b as int, alpha as int),
            c.wf(),
    {
        let l2 = div_tr((l as i128) * 1_000_000 + 396_338 * (a as i128) + 215_804 * (b as i128), 1_000_000);
        let m2 = div_tr((l as i128) * 1_000_000 - 105_561 * (a as i128) - 63_854 * (b as i128), 1_000_000);
        let s2 = div_tr((l as i128) * 1_000_000 - 89_484 * (a as i128) - 1_291_486 * (b as i128), 1_000_000);
        proof {
            lemma_tdiv_le2(
                (l as int) * 1_000_000 + 396_338 * (a as int) + 215_804 * (b as int),
                1_000_000,
                25_000_000_000_000int,
            );
            lemma_tdiv_le2(
                (l as int) * 1_000_000 - 105_561 * (a as int) - 63_854 * (b as int),
                1_000_000,
                25_000_000_000_000int,
            );
            lemma_tdiv_le2(
                (l as int) * 1_000_000 - 89_484 * (a as int) - 1_291_486 * (b as int),
                1_000_000,
                25_000_000_000_000int,
            );
        }
        let l3 = cube_fx(l2);
        let m3 = cube_fx(m2);
        let s3 = cube_fx(s2);
        let rl = sat_fx(div_tr(4_076_742 * l3 - 3_307_712 * m3 + 230_970 * s3, 1_000_000));
        let gl = sat_fx(div_tr(2_609_757 * m3 - 1_268_438 * l3 - 341_319 * s3, 1_000_000));
        let bl = sat_fx(div_tr(1_707_615 * s3 - 4_196 * l3 - 703_419 * m3, 1_000_000));
        Color { r: linear_to_srgb(rl), g: linear_to_srgb(gl), b: linear_to_srgb(bl), a: alpha }
    }

    /// The color as HSV plus alpha.
    pub fn to_hsva(&self) -> (r: (i64, i64, i64, i64))
        requires
            self.wf(),
        ensures
            (r.0 as int, r.1 as int, r.2 as int, r.3 as int) == spec_to_hsva(*self),
            chan_ok(r.0 as int) && chan_ok(r.1 as int) && chan_ok(r.2 as int) && chan_ok(
                r.3 as int,
            ),
    {
        let mx = if self.r >= self.g && self.r >= self.b {
            self.r
        } else if self.g >= self.b {
            self.g
        } else {
            self.b
        };
        let mn = if self.r <= self.g && self.r <= self.b {
            self.r
        } else if self.g <= self.b {
            self.g
        } else {
            self.b
        };
        let d = mx - mn;
        if d == 0 {
            (0, 0, mx, self.a)
        } else {
            let s = if mx > 0 {
                sat_fx(div_tr((d as i128) * 1_000_000, mx as i128))
            } else {
                0
            };
            let dr = div_tr(((mx - self.r) as i128) * 1_000_000, d as i128);
            let dg = div_tr(((mx - self.g) as i128) * 1_000_000, d as i128);
            let db = div_tr(((mx - self.b) as i128) * 1_000_000, d as i128);
            let h0 = if self.r == mx {
                db - dg
            } else if self.g == mx {
                2_000_000 + dr - db
            } else {
                4_000_000 + dg - dr
            };
            let h = emod(h0 * 60, 360_000_000);
            (h as i64, s, mx, self.a)
        }
    }

    /// Build a color from HSV plus alpha.
    pub fn from_hsva(h: i64, s: i64, v: i64, alpha: i64) -> (c: Color)
        requires
            chan_ok(h as int),
            chan_ok(s as int),
            chan_ok(v as int),
            chan_ok(alpha as int),
        ensures
            c == spec_from_hsva(h as int, s as int, v as int, alpha as int),
            c.wf(),
    {
        let hn = emod(h as i128, 360_000_000);
        let sc: i128 = if s < 0 {
            0
        } else if s > 1_000_000 {
            1_000_000
        } else {
            s as i128
        };
        let vc: i128 = if v < 0 {
            0
        } else if v > 1_000_000 {
            1_000_000
        } else {
            v as i128
        };
        let sector = ((hn as u128) / 60_000_000) as i128;
        proof {
            vstd::arithmetic::div_mod::lemma_remainder_lower(hn as int, 60_000_000int);
            vstd::arithmetic::div_mod::lemma_remainder_upper(hn as int, 60_000_000int);
            vstd::arithmetic::div_mod::lemma_div_pos_is_pos(hn as int, 60_000_000int);
        }
        let f = div_tr((hn - sector * 60_000_000) * 1_000_000, 60_000_000);
        proof {
            lemma_tdiv_le2(((hn as int) - (sector as int) * 60_000_000) * 1_000_000, 60_000_000, 1_000_000int);
            lemma_mul_le(vc as int, 1_000_000 - sc as int, 1_000_000, 1_000_000);
            lemma_mul_le(sc as int, f as int, 1_000_000, 1_000_000);
        }
        let p = div_tr(vc * (1_000_000 - sc), 1_000_000);
        let sf = div_tr(sc * f, 1_000_000);
        proof {
            lemma_tdiv_le2((vc as int) * (1_000_000 - sc as int), 1_000_000, 1_000_000int);
            lemma_tdiv_le2((sc as int) * (f as int), 1_000_000, 1_000_000int);
            lemma_mul_le(vc as int, 1_000_000 - sf as int, 1_000_000, 2_000_000);
            lemma_mul_le(sc as int, 1_000_000 - f as int, 1_000_000, 2_000_000);
        }
        let q = div_tr(vc * (1_000_000 - sf), 1_000_000);
        let sf2 = div_tr(sc * (1_000_000 - f), 1_000_000);
        proof {
            lemma_tdiv_le2((vc as int) * (1_000_000 - sf as int), 1_000_000, 2_000_000int);
            lemma_tdiv_le2((sc as int) * (1_000_000 - f as int), 1_000_000, 2_000_000int);
            lemma_mul_le(vc as int, 1_000_000 - sf2 as int, 1_000_000, 3_000_000);
        }
        let t = div_tr(vc * (1_000_000 - sf2), 1_000_000);
        proof {
            lemma_tdiv_le2((vc as int) * (1_000_000 - sf2 as int), 1_000_000, 3_000_000int);
        }
        let rgb: (i64, i64, i64) = if sector == 0 {
            (vc as i64, t as i64, p as i64)
        } else if sector == 1 {
            (q as i64, vc as i64, p as i64)
        } else if sector == 2 {
            (p as i64, vc as i64, t as i64)
        } else if sector == 3 {
            (p as i64, q as i64, vc as i64)
        } else if sector == 4 {
            (t as i64, p as i64, vc as i64)
        } else {
            (vc as i64, p as i64, q as i64)
        };
        Color { r: rgb.0, g: rgb.1, b: rgb.2, a: alpha }
    }
}

/// One channel quantized to 8 bits, rounding half up and saturating.
pub open spec fn spec_to_rgba8_chan(v: int) -> int {
    let r = tdiv(v * 255 + 500_000, 1_000_000);
    if r < 0 {
        0
    } else if r > 255 {
        255
    } else {
        r
    }
}

/// Linear interpolation of one channel, `t` scaled by `ONE`.
pub open spec fn spec_lerp(v1: int, v2: int, t: int) -> int {
    v1 + tdiv((v2 - v1) * t, 1_000_000)
}

/// The interpolated channel lies between its endpoints.
pub proof fn lemma_lerp_between(v1: int, v2: int, t: int)
    requires
        0 <= t <= 1_000_000,
    ensures
        v1 <= v2 ==> v1 <= spec_lerp(v1, v2, t) <= v2,
        v2 <= v1 ==> v2 <= spec_lerp(v1, v2, t) <= v1,
{
    let d = v2 - v1;
    vstd::arithmetic::div_mod::lemma_div_of0(1_000_000int);
    if d >= 0 {
        assert(0 <= d * t <= d * 1_000_000) by (nonlinear_arith)
            requires
                0 <= t <= 1_000_000,
                d >= 0,
        ;
        crate::fx::lemma_tdiv_monotone(0, d * t, 1_000_000);
        crate::fx::lemma_tdiv_monotone(d * t, d * 1_000_000, 1_000_000);
        crate::fx::lemma_tdiv_exact(d, 1_000_000);
    } else {
        assert(d * 1_000_000 <= d * t <= 0) by (nonlinear_arith)
            requires
                0 <= t <= 1_000_000,
                d < 0,
        ;
        crate::fx::lemma_tdiv_monotone(d * t, 0, 1_000_000);
        crate::fx::lemma_tdiv_monotone(d * 1_000_000, d * t, 1_000_000);
        crate::fx::lemma_tdiv_exact(d, 1_000_000);
    }
}

/// Interpolate one channel; the result always lies between the endpoints.
pub fn lerp_chan(v1: i64, v2: i64, t: i64) -> (r: i64)
    requires
        chan_ok(v1 as int),
        chan_ok(v2 as int),
        0 <= t <= 1_000_000,
    ensures
        r == spec_lerp(v1 as int, v2 as int, t as int),
        v1 <= v2 ==> v1 <= r <= v2,
        v2 <= v1 ==> v2 <= r <= v1,
        chan_ok(r as int),
{
    let d = (v2 as i128) - (v1 as i128);
    proof {
        lemma_mul_le(d as int, t as int, 20_000_000_000_000int, 1_000_000int);
        if d >= 0 {
            assert(0 <= (d as int) * (t as int) <= (d as int) * 1_000_000) by (nonlinear_arith)
                requires
                    0 <= t <= 1_000_000,
                    d >= 0,
            ;
            crate::fx::lemma_tdiv_monotone(0, (d as int) * (t as int), 1_000_000);
            crate::fx::lemma_tdiv_monotone(
                (d as int) * (t as int),
                (d as int) * 1_000_000,
                1_000_000,
            );
            crate::fx::lemma_tdiv_exact(d as int, 1_000_000);
            vstd::arithmetic::div_mod::lemma_div_of0(1_000_000int);
        } else {
            assert((d as int) * 1_000_000 <= (d as int) * (t as int) <= 0) by (nonlinear_arith)
                requires
                    0 <= t <= 1_000_000,
                    d < 0,
            ;
            crate::fx::lemma_tdiv_monotone((d as int) * (t as int), 0, 1_000_000);
            crate::fx::lemma_tdiv_monotone(
                (d as int) * 1_000_000,
                (d as int) * (t as int),
                1_000_000,
            );
            crate::fx::lemma_tdiv_exact(d as int, 1_000_000);
            vstd::arithmetic::div_mod::lemma_div_of0(1_000_000int);
        }
    }
    let q = div_tr(d * (t as i128), 1_000_000);
    ((v1 as i128) + q) as i64
}

impl Color {
    /// The color quantized to four 8-bit channels, rounding half up and
    /// saturating into `[0, 255]`.
    pub fn to_rgba8(&self) -> (r: (u8, u8, u8, u8))
        requires
            self.wf(),
        ensures
            r.0 == spec_to_rgba8_chan(self.r as int),
            r.1 == spec_to_rgba8_chan(self.g as int),
            r.2 == spec_to_rgba8_chan(self.b as int),
            r.3 == spec_to_rgba8_chan(self.a as int),
    {
        (rgba8_chan(self.r), rgba8_chan(self.g), rgba8_chan(self.b), rgba8_chan(self.a))
    }

    /// Build a color from four 8-bit channels.
    pub fn from_rgba8(r: u8, g: u8, b: u8, a: u8) -> (c: Color)
        ensures
            c.r == tdiv(r as int * 1_000_000, 255),
            c.g == tdiv(g as int * 1_000_000, 255),
            c.b == tdiv(b as int * 1_000_000, 255),
            c.a == tdiv(a as int * 1_000_000, 255),
            c.wf(),
    {
        proof {
            lemma_tdiv_le2((r as int) * 1_000_000, 255, 1_000_000int);
            lemma_tdiv_le2((g as int) * 1_000_000, 255, 1_000_000int);
            lemma_tdiv_le2((b as int) * 1_000_000, 255, 1_000_000int);
            lemma_tdiv_le2((a as int) * 1_000_000, 255, 1_000_000int);
        }
        Color {
            r: div_tr((r as i128) * 1_000_000, 255) as i64,
            g: div_tr((g as i128) * 1_000_000, 255) as i64,
            b: div_tr((b as i128) * 1_000_000, 255) as i64,
            a: div_tr((a as i128) * 1_000_000, 255) as i64,
        }
    }

    /// Blend toward `other` in plain RGB space, channel by channel.
    pub fn interpolate_rgb(&self, other: &Color, t: i64) -> (c: Color)
        requires
            self.wf(),
            other.wf(),
            0 <= t <= 1_000_000,
        ensures
            c.r == spec_lerp(self.r as int, other.r as int, t as int),
            c.g == spec_lerp(self.g as int, other.g as int, t as int),
            c.b == spec_lerp(self.b as int, other.b as int, t as int),
            c.a == spec_lerp(self.a as int, other.a as int, t as int),
            c.wf(),
    {
        Color {
            r: lerp_chan(self.r, other.r, t),
            g: lerp_chan(self.g, other.g, t),
            b: lerp_chan(self.b, other.b, t),
            a: lerp_chan(self.a, other.a, t),
        }
    }
}

fn rgba8_chan(v: i64) -> (r: u8)
    requires
        chan_ok(v as int),
    ensures
        r == spec_to_rgba8_chan(v as int),
{
    let q = div_tr((v as i128) * 255 + 500_000, 1_000_000);
    if q < 0 {
        0
    } else if q > 255 {
        255
    } else {
        q as u8
    }
}

/// The channel space in which interpolation arithmetic is performed.
#[derive(Debug, Clone, Copy, PartialEq, Eq, Structural)]
pub enum BlendMode {
    Rgb,
    LinearRgb,
    Oklab,
    Hsv,
}

/// Four working-space channel values of one stop.
#[derive(Debug, Clone, Copy, PartialEq, Eq, Structural)]
pub struct Quad {
    pub c0: i64,
    pub c1: i64,
    pub c2: i64,
    pub c3: i64,
}

/// All four working values lie in the representable range.
pub open spec fn quad_ok(q: Quad) -> bool {
    chan_ok(q.c0 as int) && chan_ok(q.c1 as int) && chan_ok(q.c2 as int) && chan_ok(q.c3 as int)
}

/// A color mapped into the working space a blend mode asks for.
pub open spec fn spec_convert(c: Color, mode: BlendMode) -> (int, int, int, int) {
    match mode {
        BlendMode::Rgb => (c.r as int, c.g as int, c.b as int, c.a as int),
        BlendMode::LinearRgb => spec_to_linear_rgba(c),
        BlendMode::Oklab => spec_to_oklaba(c),
        BlendMode::Hsv => spec_to_hsva(c),
    }
}

/// Whether a working-space sample holds the given channel values.
pub open spec fn quad_is(q: Quad, t: (int, int, int, int)) -> bool {
    q.c0 == t.0 && q.c1 == t.1 && q.c2 == t.2 && q.c3 == t.3
}

/// Map one color into the working space of the blend mode.
pub fn convert_color(c: &Color, mode: BlendMode) -> (q: Quad)
    requires
        c.wf(),
    ensures
        quad_is(q, spec_convert(*c, mode)),
        quad_ok(q),
{
    match mode {
        BlendMode::Rgb => Quad { c0: c.r, c1: c.g, c2: c.b, c3: c.a },
        BlendMode::LinearRgb => {
            let (a, b, cc, d) = c.to_linear_rgba();
            Quad { c0: a, c1: b, c2: cc, c3: d }
        },
        BlendMode::Oklab => {
            let (a, b, cc, d) = c.to_oklaba();
            Quad { c0: a, c1: b, c2: cc, c3: d }
        },
        BlendMode::Hsv => {
            let (a, b, cc, d) = c.to_hsva();
            Quad { c0: a, c1: b, c2: cc, c3: d }
        },
    }
}

/// Map an ordered list of colors into the working space of the blend
/// mode; this is the single place blend-mode semantics are realized.
pub fn convert_colors(colors: &Vec<Color>, mode: BlendMode) -> (v: Vec<Quad>)
    requires
        forall|i: int| 0 <= i < colors@.len() ==> (#[trigger] colors@[i]).wf(),
    ensures
        v@.len() == colors@.len(),
        forall|i: int|
            0 <= i < colors@.len() ==> quad_is(#[trigger] v@[i], spec_convert(colors@[i], mode))
                && quad_ok(v@[i]),
{
    let mut v: Vec<Quad> = Vec::new();
    let mut i: usize = 0;
    while i < colors.len()
        invariant
            i <= colors@.len(),
            v@.len() == i,
            forall|k: int| 0 <= k < colors@.len() ==> (#[trigger] colors@[k]).wf(),
            forall|k: int|
                0 <= k < i ==> quad_is(#[trigger] v@[k], spec_convert(colors@[k], mode)) && quad_ok(
                    v@[k],
                ),
        decreases colors@.len() - i,
    {
        let q = convert_color(&colors[i], mode);
        v.push(q);
        i = i + 1;
    }
    v
}

/// Working-space channels mapped back to a color, saturating each channel
/// into the representable range first.
pub open spec fn spec_back(mode: BlendMode, w: (int, int, int, int)) -> Color {
    match mode {
        BlendMode::Rgb => Color {
            r: sat(w.0) as i64,
            g: sat(w.1) as i64,
            b: sat(w.2) as i64,
            a: sat(w.3) as i64,
        },
        BlendMode::LinearRgb => spec_from_linear_rgba(sat(w.0), sat(w.1), sat(w.2), sat(w.3)),
        BlendMode::Oklab => spec_from_oklaba(sat(w.0), sat(w.1), sat(w.2), sat(w.3)),
        BlendMode::Hsv => spec_from_hsva(sat(w.0), sat(w.1), sat(w.2), sat(w.3)),
    }
}

/// Map interpolated working-space channels back to a color.
pub fn back_convert(mode: BlendMode, w: Quad) -> (c: Color)
    requires
        quad_ok(w),
    ensures
        c == spec_back(mode, (w.c0 as int, w.c1 as int, w.c2 as int, w.c3 as int)),
        c.wf(),
{
    match mode {
        BlendMode::Rgb => Color { r: w.c0, g: w.c1, b: w.c2, a: w.c3 },
        BlendMode::LinearRgb => Color::from_linear_rgba(w.c0, w.c1, w.c2, w.c3),
        BlendMode::Oklab => Color::from_oklaba(w.c0, w.c1, w.c2, w.c3),
        BlendMode::Hsv => Color::from_hsva(w.c0, w.c1, w.c2, w.c3),
    }
}

} // verus!
