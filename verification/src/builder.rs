//! The validating builder: colors, positions, blend mode and
//! interpolation mode in, a gradient or a typed error out.

use vstd::prelude::*;

use crate::basis::BasisGradient;
use crate::catmull_rom::{
    conv_chan_seq, cubic_is, ext_vals, spec_catmull_coef, CatmullRomGradient,
};
use crate::color::{quad_is, spec_convert, BlendMode, Color};
use crate::css::{color_of_rgba16, css_rgba16, parse_css_color};
use crate::gradient::{Gradient, GradientBase, Interpolation};
use crate::linear::LinearGradient;
use crate::stops::{lin_at, linspace, lemma_nondecreasing_pair, nondecreasing, pos_ok};
use vstd::string::StringExecFns;

verus! {

/// Why a build failed: bad color strings (all reported together), a
/// position count that is neither 0, 2 nor the color count, or positions
/// that are not monotonic (or an empty 2-point domain).
#[derive(Debug, Clone, Eq, PartialEq, Ord, PartialOrd, Hash)]
pub enum CustomGradientError {
    InvalidHtmlColor(Vec<String>),
    WrongDomainCount,
    WrongDomain,
}

impl CustomGradientError {
    /// A short description of the error.
    pub fn message(&self) -> (r: &'static str)
        ensures
            self is InvalidHtmlColor ==> r@ == "invalid html colors"@,
            self is WrongDomainCount ==> r@ == "wrong domain count"@,
            self is WrongDomain ==> r@ == "wrong domain"@,
    {
        match self {
            CustomGradientError::InvalidHtmlColor(_) => "invalid html colors",
            CustomGradientError::WrongDomainCount => "wrong domain count",
            CustomGradientError::WrongDomain => "wrong domain",
        }
    }
}

/// The default first stop color, black.
pub open spec fn spec_black() -> Color {
    Color { r: 0, g: 0, b: 0, a: 1_000_000 }
}

/// The default last stop color, white.
pub open spec fn spec_white() -> Color {
    Color { r: 1_000_000, g: 1_000_000, b: 1_000_000, a: 1_000_000 }
}

/// Color normalization: none becomes black to white, a single color is
/// doubled, two or more are used as given.
pub open spec fn norm_colors(cs: Seq<Color>) -> Seq<Color> {
    if cs.len() == 0 {
        seq![spec_black(), spec_white()]
    } else if cs.len() == 1 {
        seq![cs[0], cs[0]]
    } else {
        cs
    }
}

/// Whether some adjacent pair of positions decreases.
pub open spec fn has_decreasing(ps: Seq<i64>) -> bool {
    exists|i: int| 0 <= i < ps.len() - 1 && (#[trigger] ps[i]) > ps[i + 1]
}

/// `n` evenly spaced positions from `min` to `max`.
pub open spec fn lin_positions(min: int, max: int, n: int) -> Seq<i64> {
    Seq::new(n as nat, |i: int| lin_at(min, max, n, i) as i64)
}

/// Hsv cannot ride a spline: it silently falls back to plain RGB for any
/// interpolation other than Linear.
pub open spec fn resolved_mode(mode: BlendMode, interpolation: Interpolation) -> BlendMode {
    if !(interpolation is Linear) && mode is Hsv {
        BlendMode::Rgb
    } else {
        mode
    }
}

/// The views of a sequence of owned strings.
pub open spec fn str_views(v: Seq<String>) -> Seq<Seq<char>> {
    Seq::new(v.len(), |i: int| v[i]@)
}

/// The views of a sequence of string slices.
pub open spec fn strs_of(v: Seq<&str>) -> Seq<Seq<char>> {
    Seq::new(v.len(), |i: int| v[i]@)
}

/// The colors that parse, in order.
pub open spec fn parsed_colors(ss: Seq<Seq<char>>) -> Seq<Color>
    decreases ss.len(),
{
    if ss.len() == 0 {
        Seq::empty()
    } else {
        let rest = parsed_colors(ss.drop_last());
        match css_rgba16(ss.last()) {
            Some(t) => rest.push(color_of_rgba16(t)),
            None => rest,
        }
    }
}

/// The strings that fail to parse, in order.
pub open spec fn failed_css(ss: Seq<Seq<char>>) -> Seq<Seq<char>>
    decreases ss.len(),
{
    if ss.len() == 0 {
        Seq::empty()
    } else {
        let rest = failed_css(ss.drop_last());
        match css_rgba16(ss.last()) {
            Some(_) => rest,
            None => rest.push(ss.last()),
        }
    }
}

/// Whether the built strategy is the one the interpolation mode selects,
/// over exactly the normalized colors and positions.
pub open spec fn strategy_matches(
    s: GradientBase,
    cs: Seq<Color>,
    ps: Seq<i64>,
    m: BlendMode,
    interpolation: Interpolation,
) -> bool {
    match interpolation {
        Interpolation::Linear => {
            &&& s is Linear
            &&& s->Linear_0.positions@ == ps
            &&& s->Linear_0.mode == m
            &&& s->Linear_0.first_color == cs[0]
            &&& s->Linear_0.last_color == cs[cs.len() - 1]
            &&& s->Linear_0.values@.len() == cs.len()
            &&& forall|i: int|
                0 <= i < cs.len() ==> quad_is(
                    #[trigger] s->Linear_0.values@[i],
                    spec_convert(cs[i], m),
                )
        },
        Interpolation::CatmullRom => {
            &&& s is CatmullRom
            &&& s->CatmullRom_0.positions@ == ps
            &&& s->CatmullRom_0.positions@.len() == cs.len()
            &&& s->CatmullRom_0.mode == m
            &&& s->CatmullRom_0.first_color == cs[0]
            &&& s->CatmullRom_0.last_color == cs[cs.len() - 1]
            &&& forall|i: int|
                0 <= i < cs.len() - 1 ==> cubic_is(
                    #[trigger] s->CatmullRom_0.seg0@[i],
                    spec_catmull_coef(ext_vals(conv_chan_seq(cs, m, 0)), i),
                ) && cubic_is(
                    s->CatmullRom_0.seg1@[i],
                    spec_catmull_coef(ext_vals(conv_chan_seq(cs, m, 1)), i),
                ) && cubic_is(
                    s->CatmullRom_0.seg2@[i],
                    spec_catmull_coef(ext_vals(conv_chan_seq(cs, m, 2)), i),
                ) && cubic_is(
                    s->CatmullRom_0.seg3@[i],
                    spec_catmull_coef(ext_vals(conv_chan_seq(cs, m, 3)), i),
                )
        },
        Interpolation::Basis => {
            &&& s is Basis
            &&& s->Basis_0.positions@ == ps
            &&& s->Basis_0.mode == m
            &&& s->Basis_0.first_color == cs[0]
            &&& s->Basis_0.last_color == cs[cs.len() - 1]
            &&& s->Basis_0.values@.len() == cs.len()
            &&& forall|i: int|
                0 <= i < cs.len() ==> quad_is(
                    #[trigger] s->Basis_0.values@[i],
                    spec_convert(cs[i], m),
                )
        },
    }
}

/// A successful build over the given normalized colors and positions.
pub open spec fn ok_gradient(
    r: Result<Gradient, CustomGradientError>,
    cs: Seq<Color>,
    ps: Seq<i64>,
    mode: BlendMode,
    interpolation: Interpolation,
) -> bool {
    &&& r is Ok
    &&& r->Ok_0.wf()
    &&& r->Ok_0.dmin == ps[0]
    &&& r->Ok_0.dmax == ps[ps.len() - 1]
    &&& strategy_matches(r->Ok_0.gradient, cs, ps, resolved_mode(mode, interpolation), interpolation)
}

/// Everything `build` promises: each error exactly when its condition
/// holds, otherwise a well-formed gradient over the normalized colors
/// and positions.
pub open spec fn spec_build(b: CustomGradient, r: Result<Gradient, CustomGradientError>) -> bool {
    if b.invalid_html_colors@.len() > 0 {
        &&& r is Err
        &&& r->Err_0 is InvalidHtmlColor
        &&& str_views(r->Err_0->InvalidHtmlColor_0@) == str_views(b.invalid_html_colors@)
    } else {
        let cs = norm_colors(b.colors@);
        let n = cs.len() as int;
        if b.pos@.len() == 0 {
            ok_gradient(r, cs, lin_positions(0, 1_000_000, n), b.mode, b.interpolation)
        } else if b.pos@.len() == n {
            if has_decreasing(b.pos@) {
                r == Result::<Gradient, CustomGradientError>::Err(CustomGradientError::WrongDomain)
            } else {
                ok_gradient(r, cs, b.pos@, b.mode, b.interpolation)
            }
        } else if b.pos@.len() == 2 {
            if b.pos@[0] >= b.pos@[1] {
                r == Result::<Gradient, CustomGradientError>::Err(CustomGradientError::WrongDomain)
            } else {
                ok_gradient(
                    r,
                    cs,
                    lin_positions(b.pos@[0] as int, b.pos@[1] as int, n),
                    b.mode,
                    b.interpolation,
                )
            }
        } else {
            r == Result::<Gradient, CustomGradientError>::Err(
                CustomGradientError::WrongDomainCount,
            )
        }
    }
}

/// The gradient builder: accumulated colors and positions, the blend and
/// interpolation modes, and the color strings that failed to parse
/// (reported together at build time).
#[derive(Debug, Clone)]
pub struct CustomGradient {
    pub colors: Vec<Color>,
    pub pos: Vec<i64>,
    pub mode: BlendMode,
    pub interpolation: Interpolation,
    pub invalid_html_colors: Vec<String>,
}

impl CustomGradient {
    /// Accumulated colors and positions stay representable.
    pub open spec fn wf(self) -> bool {
        &&& forall|i: int| 0 <= i < self.colors@.len() ==> (#[trigger] self.colors@[i]).wf()
        &&& forall|i: int| 0 <= i < self.pos@.len() ==> pos_ok((#[trigger] self.pos@[i]) as int)
    }

    /// An empty builder: RGB blending, linear interpolation.
    pub fn new() -> (b: CustomGradient)
        ensures
            b.colors@.len() == 0,
            b.pos@.len() == 0,
            b.mode == BlendMode::Rgb,
            b.interpolation == Interpolation::Linear,
            b.invalid_html_colors@.len() == 0,
            b.wf(),
    {
        CustomGradient {
            colors: Vec::new(),
            pos: Vec::new(),
            mode: BlendMode::Rgb,
            interpolation: Interpolation::Linear,
            invalid_html_colors: Vec::new(),
        }
    }

    /// Append gradient colors.
    pub fn colors(self, colors: &[Color]) -> (r: CustomGradient)
        requires
            self.wf(),
            forall|i: int| 0 <= i < colors@.len() ==> (#[trigger] colors@[i]).wf(),
        ensures
            r.colors@ == self.colors@ + colors@,
            r.pos == self.pos,
            r.mode == self.mode,
            r.interpolation == self.interpolation,
            r.invalid_html_colors == self.invalid_html_colors,
            r.wf(),
    {
        let mut out = self;
        let mut i: usize = 0;
        while i < colors.len()
            invariant
                forall|k: int| 0 <= k < colors@.len() ==> (#[trigger] colors@[k]).wf(),
                i <= colors@.len(),
                out.colors@ == old_colors_plus(self.colors@, colors@, i as int),
                out.pos == self.pos,
                out.mode == self.mode,
                out.interpolation == self.interpolation,
                out.invalid_html_colors == self.invalid_html_colors,
                out.wf(),
            decreases colors@.len() - i,
        {
            out.colors.push(colors[i]);
            i = i + 1;
        }
        proof {
            assert(out.colors@ =~= self.colors@ + colors@);
        }
        out
    }

    /// Append colors given as CSS/web color strings; malformed strings
    /// are collected and surface together at build time.
    pub fn html_colors(self, html_colors: &[&str]) -> (r: CustomGradient)
        requires
            self.wf(),
        ensures
            r.colors@ == self.colors@ + parsed_colors(strs_of(html_colors@)),
            str_views(r.invalid_html_colors@) == str_views(self.invalid_html_colors@) + failed_css(
                strs_of(html_colors@),
            ),
            r.pos == self.pos,
            r.mode == self.mode,
            r.interpolation == self.interpolation,
            r.wf(),
    {
        let ghost ss = strs_of(html_colors@);
        let mut out = self;
        let mut i: usize = 0;
        while i < html_colors.len()
            invariant
                ss == strs_of(html_colors@),
                i <= html_colors@.len(),
                out.colors@ == self.colors@ + parsed_colors(ss.take(i as int)),
                str_views(out.invalid_html_colors@) == str_views(self.invalid_html_colors@)
                    + failed_css(ss.take(i as int)),
                out.pos == self.pos,
                out.mode == self.mode,
                out.interpolation == self.interpolation,
                out.wf(),
            decreases html_colors@.len() - i,
        {
            let s = html_colors[i];
            proof {
                lemma_css_step(ss, i as int);
                assert(s@ == ss[i as int]);
            }
            let ghost prev = out;
            match parse_css_color(s) {
                Some(c) => {
                    out.colors.push(c);
                    proof {
                        assert(out.colors@ =~= self.colors@ + parsed_colors(ss.take(i + 1)));
                    }
                },
                None => {
                    let ns = String::from_str(s);
                    out.invalid_html_colors.push(ns);
                    proof {
                        lemma_str_views_push(prev.invalid_html_colors@, ns);
                        assert(str_views(out.invalid_html_colors@) =~= str_views(
                            self.invalid_html_colors@,
                        ) + failed_css(ss.take(i + 1)));
                    }
                },
            }
            i = i + 1;
        }
        proof {
            assert(ss.take(html_colors@.len() as int) =~= ss);
        }
        out
    }

    /// Set the gradient domain and/or the color positions, replacing any
    /// earlier setting.
    pub fn domain(self, pos: &[i64]) -> (r: CustomGradient)
        requires
            self.wf(),
            forall|i: int| 0 <= i < pos@.len() ==> pos_ok((#[trigger] pos@[i]) as int),
        ensures
            r.pos@ == pos@,
            r.colors == self.colors,
            r.mode == self.mode,
            r.interpolation == self.interpolation,
            r.invalid_html_colors == self.invalid_html_colors,
            r.wf(),
    {
        let mut out = self;
        let mut v: Vec<i64> = Vec::new();
        let mut i: usize = 0;
        while i < pos.len()
            invariant
                forall|k: int| 0 <= k < pos@.len() ==> pos_ok((#[trigger] pos@[k]) as int),
                i <= pos@.len(),
                v@ == pos@.take(i as int),
            decreases pos@.len() - i,
        {
            v.push(pos[i]);
            proof {
                assert(v@ =~= pos@.take(i + 1));
            }
            i = i + 1;
        }
        proof {
            assert(pos@.take(pos@.len() as int) =~= pos@);
        }
        out.pos = v;
        out
    }

    /// Set the color blending mode.
    pub fn mode(self, mode: BlendMode) -> (r: CustomGradient)
        requires
            self.wf(),
        ensures
            r.mode == mode,
            r.colors == self.colors,
            r.pos == self.pos,
            r.interpolation == self.interpolation,
            r.invalid_html_colors == self.invalid_html_colors,
            r.wf(),
    {
        let mut out = self;
        out.mode = mode;
        out
    }

    /// Set the interpolation mode.
    pub fn interpolation(self, mode: Interpolation) -> (r: CustomGradient)
        requires
            self.wf(),
        ensures
            r.interpolation == mode,
            r.colors == self.colors,
            r.pos == self.pos,
            r.mode == self.mode,
            r.invalid_html_colors == self.invalid_html_colors,
            r.wf(),
    {
        let mut out = self;
        out.interpolation = mode;
        out
    }

    /// Validate the accumulated input and build the gradient.
    #[verifier::rlimit(100)]
    pub fn build(&self) -> (r: Result<Gradient, CustomGradientError>)
        requires
            self.wf(),
        ensures
            spec_build(*self, r),
    {
        if self.invalid_html_colors.len() > 0 {
            let mut bad: Vec<String> = Vec::new();
            let mut i: usize = 0;
            while i < self.invalid_html_colors.len()
                invariant
                    i <= self.invalid_html_colors@.len(),
                    str_views(bad@) == str_views(self.invalid_html_colors@).take(i as int),
                decreases self.invalid_html_colors@.len() - i,
            {
                let ghost prev = bad@;
                let ns = String::from_str(self.invalid_html_colors[i].as_str());
                bad.push(ns);
                proof {
                    lemma_str_views_push(prev, ns);
                    lemma_take_push(str_views(self.invalid_html_colors@), i as int);
                    assert(str_views(prev).push(ns@) == str_views(self.invalid_html_colors@).take(
                        i as int,
                    ).push(str_views(self.invalid_html_colors@)[i as int]));
                }
                i = i + 1;
            }
            proof {
                assert(str_views(self.invalid_html_colors@).take(
                    self.invalid_html_colors@.len() as int,
                ) =~= str_views(self.invalid_html_colors@));
            }
            return Err(CustomGradientError::InvalidHtmlColor(bad));
        }
        let mut colors: Vec<Color> = Vec::new();
        if self.colors.len() == 0 {
            colors.push(Color { r: 0, g: 0, b: 0, a: 1_000_000 });
            colors.push(Color { r: 1_000_000, g: 1_000_000, b: 1_000_000, a: 1_000_000 });
        } else if self.colors.len() == 1 {
            colors.push(self.colors[0]);
            colors.push(self.colors[0]);
        } else {
            let mut i: usize = 0;
            while i < self.colors.len()
                invariant
                    i <= self.colors@.len(),
                    colors@ == self.colors@.take(i as int),
                decreases self.colors@.len() - i,
            {
                colors.push(self.colors[i]);
                proof {
                    assert(colors@ =~= self.colors@.take(i + 1));
                }
                i = i + 1;
            }
            proof {
                assert(self.colors@.take(self.colors@.len() as int) =~= self.colors@);
            }
        }
        proof {
            assert(colors@ =~= norm_colors(self.colors@));
        }
        let n = colors.len();
        let pos: Vec<i64>;
        if self.pos.len() == 0 {
            pos = linspace(0, 1_000_000, n);
            proof {
                assert(pos@ =~= lin_positions(0, 1_000_000, n as int));
            }
        } else if self.pos.len() == n {
            let mut i: usize = 0;
            while i + 1 < n
                invariant
                    n == self.pos@.len(),
                    self.invalid_html_colors@.len() == 0,
                    n == norm_colors(self.colors@).len(),
                    i + 1 <= n,
                    forall|k: int| 0 <= k < i ==> (#[trigger] self.pos@[k]) <= self.pos@[k + 1],
                decreases n - i,
            {
                if self.pos[i] > self.pos[i + 1] {
                    proof {
                        assert(has_decreasing(self.pos@)) by {
                            assert(0 <= i < self.pos@.len() - 1 && (self.pos@[i as int])
                                > self.pos@[i as int + 1]);
                        }
                    }
                    return Err(CustomGradientError::WrongDomain);
                }
                i = i + 1;
            }
            let mut v: Vec<i64> = Vec::new();
            let mut j: usize = 0;
            while j < self.pos.len()
                invariant
                    j <= self.pos@.len(),
                    v@ == self.pos@.take(j as int),
                decreases self.pos@.len() - j,
            {
                v.push(self.pos[j]);
                proof {
                    assert(v@ =~= self.pos@.take(j + 1));
                }
                j = j + 1;
            }
            proof {
                assert(self.pos@.take(self.pos@.len() as int) =~= self.pos@);
            }
            pos = v;
        } else if self.pos.len() == 2 {
            if self.pos[0] >= self.pos[1] {
                return Err(CustomGradientError::WrongDomain);
            }
            pos = linspace(self.pos[0], self.pos[1], n);
            proof {
                assert(pos@ =~= lin_positions(self.pos@[0] as int, self.pos@[1] as int, n as int));
            }
        } else {
            return Err(CustomGradientError::WrongDomainCount);
        }
        let mode = if !(matches!(self.interpolation, Interpolation::Linear)) && matches!(
            self.mode,
            BlendMode::Hsv,
        ) {
            BlendMode::Rgb
        } else {
            self.mode
        };
        let dmin = pos[0];
        let dmax = pos[pos.len() - 1];
        proof {
            lemma_nondecreasing_pair(pos@, 0, pos@.len() - 1);
        }
        let strategy: GradientBase = match self.interpolation {
            Interpolation::Linear => GradientBase::Linear(LinearGradient::new(colors, pos, mode)),
            Interpolation::CatmullRom => GradientBase::CatmullRom(
                CatmullRomGradient::new(colors, pos, mode),
            ),
            Interpolation::Basis => GradientBase::Basis(BasisGradient::new(colors, pos, mode)),
        };
        Ok(Gradient { gradient: strategy, dmin, dmax })
    }
}


/// Appending one string appends its view.
proof fn lemma_str_views_push(v: Seq<String>, s: String)
    ensures
        str_views(v.push(s)) == str_views(v).push(s@),
{
    assert forall|k: int| 0 <= k < v.len() + 1 implies str_views(v.push(s))[k] == str_views(
        v,
    ).push(s@)[k] by {
        if k < v.len() {
            assert(v.push(s)[k] == v[k]);
        } else {
            assert(v.push(s)[k] == s);
        }
    }
    assert(str_views(v.push(s)) =~= str_views(v).push(s@));
}

/// A prefix extended by its next element is the next prefix.
proof fn lemma_take_push<A>(v: Seq<A>, i: int)
    requires
        0 <= i < v.len(),
    ensures
        v.take(i).push(v[i]) == v.take(i + 1),
{
    assert(v.take(i).push(v[i]) =~= v.take(i + 1));
}

/// One parsing step: the next string either extends the parsed colors or
/// the failed strings, never both.
proof fn lemma_css_step(ss: Seq<Seq<char>>, i: int)
    requires
        0 <= i < ss.len(),
    ensures
        css_rgba16(ss[i]) is Some ==> parsed_colors(ss.take(i + 1)) == parsed_colors(
            ss.take(i),
        ).push(color_of_rgba16(css_rgba16(ss[i])->0)) && failed_css(ss.take(i + 1)) == failed_css(
            ss.take(i),
        ),
        css_rgba16(ss[i]) is None ==> parsed_colors(ss.take(i + 1)) == parsed_colors(ss.take(i))
            && failed_css(ss.take(i + 1)) == failed_css(ss.take(i)).push(ss[i]),
{
    assert(ss.take(i + 1).drop_last() =~= ss.take(i));
    assert(ss.take(i + 1).last() == ss[i]);
}

/// The colors accumulated so far plus the first `i` new ones.
pub open spec fn old_colors_plus(a: Seq<Color>, b: Seq<Color>, i: int) -> Seq<Color> {
    a + b.take(i)
}

} // verus!
