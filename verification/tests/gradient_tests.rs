use colorgrad::{BlendMode, Color, CustomGradient, CustomGradientError, Interpolation, ONE};

fn black() -> Color {
    Color::new(0, 0, 0, ONE)
}

fn white() -> Color {
    Color::new(ONE, ONE, ONE, ONE)
}

fn assert_close(a: i64, b: i64, eps: i64, what: &str) {
    let d = if a > b { a - b } else { b - a };
    assert!(d <= eps, "{}: {} vs {} (eps {})", what, a, b, eps);
}

fn assert_color_close(a: Color, b: Color, eps: i64) {
    assert_close(a.r, b.r, eps, "r");
    assert_close(a.g, b.g, eps, "g");
    assert_close(a.b, b.b, eps, "b");
    assert_close(a.a, b.a, eps, "a");
}

#[test]
fn default_build_is_black_to_white() {
    let g = CustomGradient::new().build().unwrap();
    assert_eq!(g.domain(), (0, ONE));
    assert_eq!(g.at(0), black());
    assert_eq!(g.at(ONE), white());
}

#[test]
fn endpoints_are_exact_stop_colors() {
    let g = CustomGradient::new()
        .colors(&[Color::from_rgba8(255, 0, 0, 255), Color::from_rgba8(0, 0, 255, 255)])
        .build()
        .unwrap();
    assert_eq!(g.at(0), Color::from_rgba8(255, 0, 0, 255));
    assert_eq!(g.at(ONE), Color::from_rgba8(0, 0, 255, 255));
}

#[test]
fn out_of_domain_clamps_to_endpoints() {
    let g = CustomGradient::new()
        .colors(&[Color::from_rgba8(10, 20, 30, 255), Color::from_rgba8(200, 100, 50, 255)])
        .build()
        .unwrap();
    let first = g.at(0);
    let last = g.at(ONE);
    assert_eq!(g.at(-5 * ONE), first);
    assert_eq!(g.at(-1), first);
    assert_eq!(g.at(ONE + 1), last);
    assert_eq!(g.at(7 * ONE), last);
}

#[test]
fn linear_midpoint_is_exact_gray() {
    let g = CustomGradient::new()
        .colors(&[black(), white()])
        .mode(BlendMode::Rgb)
        .build()
        .unwrap();
    let half = ONE / 2;
    assert_eq!(g.at(half), Color::new(half, half, half, ONE));
}

#[test]
fn single_color_is_constant_everywhere() {
    let c = Color::from_rgba8(12, 34, 56, 200);
    let g = CustomGradient::new().colors(&[c]).build().unwrap();
    for t in [-ONE, 0, 1, ONE / 3, ONE / 2, ONE - 1, ONE, 2 * ONE] {
        assert_eq!(g.at(t), c);
    }
}

#[test]
fn empty_colors_build_black_to_white() {
    let g = CustomGradient::new().build().unwrap();
    assert_eq!(g.at(-1), black());
    assert_eq!(g.at(2 * ONE), white());
}

#[test]
fn non_monotonic_positions_fail_wrong_domain() {
    let err = CustomGradient::new()
        .colors(&[black(), white(), black()])
        .domain(&[0, 700_000, 300_000])
        .build()
        .unwrap_err();
    assert_eq!(err, CustomGradientError::WrongDomain);
}

#[test]
fn equal_adjacent_positions_are_accepted() {
    let g = CustomGradient::new()
        .colors(&[black(), white(), black()])
        .domain(&[0, 500_000, 500_000])
        .build();
    assert!(g.is_ok());
}

#[test]
fn position_count_mismatch_fails_wrong_domain_count() {
    let err = CustomGradient::new()
        .colors(&[black(), white(), black(), white()])
        .domain(&[0, ONE, 2 * ONE])
        .build()
        .unwrap_err();
    assert_eq!(err, CustomGradientError::WrongDomainCount);
}

#[test]
fn two_point_domain_must_increase() {
    let err = CustomGradient::new()
        .colors(&[black(), white(), black()])
        .domain(&[ONE, ONE])
        .build()
        .unwrap_err();
    assert_eq!(err, CustomGradientError::WrongDomain);

    let g = CustomGradient::new()
        .colors(&[black(), white(), black()])
        .domain(&[0, 100 * ONE])
        .build()
        .unwrap();
    assert_eq!(g.domain(), (0, 100 * ONE));
}

#[test]
fn hsv_with_spline_matches_explicit_rgb() {
    let cs = [
        Color::from_rgba8(255, 0, 0, 255),
        Color::from_rgba8(0, 255, 0, 255),
        Color::from_rgba8(0, 0, 255, 255),
    ];
    let g_hsv = CustomGradient::new()
        .colors(&cs)
        .mode(BlendMode::Hsv)
        .interpolation(Interpolation::CatmullRom)
        .build()
        .unwrap();
    let g_rgb = CustomGradient::new()
        .colors(&cs)
        .mode(BlendMode::Rgb)
        .interpolation(Interpolation::CatmullRom)
        .build()
        .unwrap();
    for t in [0, ONE / 7, ONE / 3, ONE / 2, 3 * ONE / 4, ONE] {
        assert_eq!(g_hsv.at(t), g_rgb.at(t));
    }
}

#[test]
fn hsv_with_linear_keeps_hsv_blending() {
    let cs = [Color::from_rgba8(255, 0, 0, 255), Color::from_rgba8(0, 0, 255, 255)];
    let g_hsv = CustomGradient::new().colors(&cs).mode(BlendMode::Hsv).build().unwrap();
    let g_rgb = CustomGradient::new().colors(&cs).mode(BlendMode::Rgb).build().unwrap();
    // Halfway between red and blue the two spaces disagree visibly.
    assert_ne!(g_hsv.at(ONE / 2), g_rgb.at(ONE / 2));
}

#[test]
fn sharp_zero_smoothness_is_a_pure_step() {
    let c0 = Color::from_rgba8(255, 0, 0, 255);
    let c1 = Color::from_rgba8(0, 255, 0, 255);
    let c2 = Color::from_rgba8(0, 0, 255, 255);
    let g = CustomGradient::new().colors(&[c0, c1, c2]).build().unwrap();
    let s = g.sharp(3, 0);
    // Band midpoints return the exact base colors.
    assert_eq!(s.at(ONE / 6), c0);
    assert_eq!(s.at(ONE / 2), c1);
    assert_eq!(s.at(5 * ONE / 6), c2);
    // Just inside each band boundary the color is still flat.
    assert_eq!(s.at(333_000), c0);
    assert_eq!(s.at(334_000), c1);
}

#[test]
fn sharp_smoothness_ramps_between_bands() {
    let c0 = Color::from_rgba8(255, 0, 0, 255);
    let c1 = Color::from_rgba8(0, 255, 0, 255);
    let g = CustomGradient::new().colors(&[c0, c1]).build().unwrap();
    let s = g.sharp(2, ONE);
    // At the exact boundary between the two bands the ramp is halfway.
    let mid = s.at(ONE / 2);
    let expect_r = (c0.r + c1.r) / 2;
    let expect_g = (c0.g + c1.g) / 2;
    assert_close(mid.r, expect_r, 2000, "ramp r");
    assert_close(mid.g, expect_g, 2000, "ramp g");
    // Band midpoints are still the flat colors.
    assert_eq!(s.at(ONE / 4), c0);
    assert_eq!(s.at(3 * ONE / 4), c1);
}

#[test]
fn two_stop_catmull_rom_is_the_exact_linear_blend() {
    let g = CustomGradient::new()
        .colors(&[black(), white()])
        .interpolation(Interpolation::CatmullRom)
        .build()
        .unwrap();
    for t in [1, ONE / 4, ONE / 3, ONE / 2, 3 * ONE / 4, ONE - 1] {
        let c = g.at(t);
        assert_eq!(c, Color::new(t, t, t, ONE));
    }
}

#[test]
fn two_stop_basis_is_the_exact_linear_blend() {
    let g = CustomGradient::new()
        .colors(&[black(), white()])
        .interpolation(Interpolation::Basis)
        .build()
        .unwrap();
    for t in [1, ONE / 4, ONE / 3, ONE / 2, 3 * ONE / 4, ONE - 1] {
        let c = g.at(t);
        assert_eq!(c, Color::new(t, t, t, ONE));
    }
}

#[test]
fn two_stop_splines_never_overshoot() {
    let lo = Color::from_rgba8(40, 200, 10, 255);
    let hi = Color::from_rgba8(90, 20, 250, 255);
    for interp in [Interpolation::CatmullRom, Interpolation::Basis] {
        let g = CustomGradient::new().colors(&[lo, hi]).interpolation(interp).build().unwrap();
        for i in 0..=50i64 {
            let c = g.at(i * (ONE / 50));
            assert!(c.r >= lo.r.min(hi.r) && c.r <= lo.r.max(hi.r));
            assert!(c.g >= lo.g.min(hi.g) && c.g <= lo.g.max(hi.g));
            assert!(c.b >= lo.b.min(hi.b) && c.b <= lo.b.max(hi.b));
        }
    }
}

#[test]
fn catmull_rom_passes_through_interior_stops() {
    let cs = [
        Color::from_rgba8(255, 0, 0, 255),
        Color::from_rgba8(0, 255, 0, 255),
        Color::from_rgba8(0, 0, 255, 255),
    ];
    let g = CustomGradient::new()
        .colors(&cs)
        .interpolation(Interpolation::CatmullRom)
        .build()
        .unwrap();
    assert_color_close(g.at(ONE / 2), cs[1], 5);
}

#[test]
fn linear_rgb_round_trip() {
    for c in [
        Color::from_rgba8(128, 64, 192, 255),
        Color::from_rgba8(1, 2, 3, 10),
        Color::from_rgba8(250, 128, 9, 200),
        black(),
        white(),
    ] {
        let (lr, lg, lb, la) = c.to_linear_rgba();
        let back = Color::from_linear_rgba(lr, lg, lb, la);
        assert_color_close(back, c, 2000);
    }
}

#[test]
fn oklab_round_trip() {
    for c in [
        Color::from_rgba8(128, 64, 192, 255),
        Color::from_rgba8(30, 200, 90, 128),
        Color::from_rgba8(250, 250, 250, 255),
    ] {
        let (l, a, b, alpha) = c.to_oklaba();
        let back = Color::from_oklaba(l, a, b, alpha);
        assert_color_close(back, c, 5000);
    }
}

#[test]
fn hsv_round_trip() {
    for c in [
        Color::from_rgba8(128, 64, 192, 255),
        Color::from_rgba8(30, 200, 90, 128),
        Color::from_rgba8(10, 10, 10, 255),
    ] {
        let (h, s, v, a) = c.to_hsva();
        let back = Color::from_hsva(h, s, v, a);
        assert_color_close(back, c, 100);
    }
}

#[test]
fn rgb_round_trip_through_bytes_is_exact() {
    let c = Color::from_rgba8(17, 99, 201, 255);
    assert_eq!(c.to_rgba8(), (17, 99, 201, 255));
}

#[test]
fn oklab_mode_interpolates_smoothly() {
    let g = CustomGradient::new()
        .colors(&[black(), white()])
        .mode(BlendMode::Oklab)
        .build()
        .unwrap();
    let mid = g.at(ONE / 2);
    // Halfway in Oklab lightness lands near 39% in gamma-encoded sRGB,
    // well below the plain-RGB midpoint gray.
    assert!(mid.r > 350_000 && mid.r < 450_000);
    assert_eq!(mid.r, mid.g);
    assert_eq!(mid.g, mid.b);
    assert_eq!(mid.a, ONE);
}

#[test]
fn html_colors_parse_through_the_css_grammar() {
    let g = CustomGradient::new()
        .html_colors(&["deeppink", "gold", "seagreen"])
        .domain(&[0, 100 * ONE])
        .mode(BlendMode::Rgb)
        .build()
        .unwrap();
    assert_eq!(g.at(0).to_rgba8(), (255, 20, 147, 255));
    assert_eq!(g.at(100 * ONE).to_rgba8(), (46, 139, 87, 255));
}

#[test]
fn invalid_html_colors_are_reported_together() {
    let err = CustomGradient::new()
        .html_colors(&["#ff0000", "not-a-color", "blue", "also bad"])
        .build()
        .unwrap_err();
    match err {
        CustomGradientError::InvalidHtmlColor(bad) => {
            assert_eq!(bad, vec!["not-a-color".to_string(), "also bad".to_string()]);
        },
        other => panic!("expected InvalidHtmlColor, got {:?}", other),
    }
}

#[test]
fn error_messages_name_the_failure() {
    assert_eq!(CustomGradientError::WrongDomain.message(), "wrong domain");
    assert_eq!(CustomGradientError::WrongDomainCount.message(), "wrong domain count");
    assert_eq!(
        CustomGradientError::InvalidHtmlColor(vec![]).message(),
        "invalid html colors"
    );
}

#[test]
fn builder_defaults_and_setters() {
    let g = CustomGradient::new()
        .colors(&[black(), white()])
        .domain(&[-2 * ONE, 2 * ONE])
        .build()
        .unwrap();
    assert_eq!(g.domain(), (-2 * ONE, 2 * ONE));
    assert_eq!(g.at(-2 * ONE), black());
    assert_eq!(g.at(2 * ONE), white());
    assert_eq!(g.at(0), Color::new(ONE / 2, ONE / 2, ONE / 2, ONE));
}
