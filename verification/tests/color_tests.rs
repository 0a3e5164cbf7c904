use pastel_core::{Color, Scalar};
use pastel_core::scalar::mod_positive;
use pastel_core::Hue;

fn s(n: i64, d: i64) -> Scalar {
    Scalar::new(n, d)
}

fn i(v: i64) -> Scalar {
    Scalar::from_int(v)
}

#[test]
fn test_mod_positive() {
    assert!(s(1, 2).eq_value(&mod_positive(&s(29, 10), &s(12, 5))));
    assert!(s(17, 10).eq_value(&mod_positive(&s(-3, 10), &i(2))));
}

#[test]
fn test_hue_clipping() {
    assert!(i(43).eq_value(&Hue::from(i(43)).value()));
    assert!(i(13).eq_value(&Hue::from(i(373)).value()));
    assert!(i(300).eq_value(&Hue::from(i(-60)).value()));
    assert!(i(360).eq_value(&Hue::from(i(360)).value()));
}

#[test]
fn test_color_partial_eq() {
    assert_eq!(
        Color::from_hsl(i(120), s(3, 10), s(1, 2)),
        Color::from_hsl(i(360 + 120), s(3, 10), s(1, 2)),
    );
    assert_eq!(
        Color::from_rgba(1, 2, 3, s(3, 10)),
        Color::from_rgba(1, 2, 3, s(3, 10)),
    );
    assert_eq!(Color::black(), Color::from_hsl(i(123), s(3, 10), i(0)));
    assert_eq!(Color::white(), Color::from_hsl(i(123), s(3, 10), i(1)));

    assert_ne!(
        Color::from_hsl(i(120), s(3, 10), s(1, 2)),
        Color::from_hsl(i(122), s(3, 10), s(1, 2)),
    );
    assert_ne!(
        Color::from_hsl(i(120), s(3, 10), s(1, 2)),
        Color::from_hsl(i(120), s(32, 100), s(1, 2)),
    );
    assert_ne!(
        Color::from_hsl(i(120), s(3, 10), s(1, 2)),
        Color::from_hsl(i(120), s(3, 10), s(52, 100)),
    );
    assert_ne!(
        Color::from_hsla(i(120), s(3, 10), s(1, 2), s(9, 10)),
        Color::from_hsla(i(120), s(3, 10), s(1, 2), s(901, 1000)),
    );
    assert_ne!(
        Color::from_rgba(1, 2, 3, s(3, 10)),
        Color::from_rgba(2, 2, 3, s(3, 10)),
    );
    assert_ne!(
        Color::from_rgba(1, 2, 3, s(3, 10)),
        Color::from_rgba(1, 3, 3, s(3, 10)),
    );
    assert_ne!(
        Color::from_rgba(1, 2, 3, s(3, 10)),
        Color::from_rgba(1, 2, 4, s(3, 10)),
    );
}

#[test]
fn test_rgb_to_hsl_conversion() {
    // white
    assert_eq!(
        Color::from_hsl(i(0), i(0), i(1)),
        Color::from_rgb_scaled(i(1), i(1), i(1))
    );
    // gray
    assert_eq!(
        Color::from_hsl(i(0), i(0), s(1, 2)),
        Color::from_rgb_scaled(s(1, 2), s(1, 2), s(1, 2))
    );
    // black
    assert_eq!(
        Color::from_hsl(i(0), i(0), i(0)),
        Color::from_rgb_scaled(i(0), i(0), i(0))
    );
    // red
    assert_eq!(
        Color::from_hsl(i(0), i(1), s(1, 2)),
        Color::from_rgb_scaled(i(1), i(0), i(0))
    );
    // yellow-green
    assert_eq!(
        Color::from_hsl(i(60), i(1), s(375, 1000)),
        Color::from_rgb_scaled(s(75, 100), s(75, 100), i(0))
    );
    // green
    assert_eq!(
        Color::from_hsl(i(120), i(1), s(25, 100)),
        Color::from_rgb_scaled(i(0), s(1, 2), i(0))
    );
    // blue
    assert_eq!(
        Color::from_hsl(i(240), i(1), s(75, 100)),
        Color::from_rgb_scaled(s(1, 2), s(1, 2), i(1))
    );
    // yellow
    assert_eq!(
        Color::from_hsl(s(495, 10), s(893, 1000), s(497, 1000)),
        Color::from_rgb_scaled(s(941, 1000), s(785, 1000), s(53, 1000))
    );
    // cyan 2
    assert_eq!(
        Color::from_hsl(s(1624, 10), s(779, 1000), s(447, 1000)),
        Color::from_rgb_scaled(s(99, 1000), s(795, 1000), s(591, 1000))
    );
}

#[test]
fn test_roundtrip_conversion() {
    let roundtrip = |h: Scalar, sat: Scalar, l: Scalar| {
        let color1 = Color::from_hsl(h, sat, l);
        let rgb = color1.to_rgba();
        let color2 = Color::from_rgb(rgb.r, rgb.g, rgb.b);
        assert_eq!(color1, color2);
    };

    roundtrip(i(0), i(0), i(1));
    roundtrip(i(0), i(0), s(1, 2));
    roundtrip(i(0), i(0), i(0));
    roundtrip(i(60), i(1), s(375, 1000));
    roundtrip(i(120), i(1), s(25, 100));
    roundtrip(i(240), i(1), s(75, 100));
    roundtrip(s(495, 10), s(893, 1000), s(497, 1000));
    roundtrip(s(1624, 10), s(779, 1000), s(447, 1000));

    for degree in 0..360i64 {
        roundtrip(i(degree), s(1, 2), s(8, 10));
    }
}

#[test]
fn test_to_rgba_exact_values() {
    let red = Color::from_hsl(i(0), i(1), s(1, 2)).to_rgba();
    assert_eq!((red.r, red.g, red.b), (255, 0, 0));
    assert!(red.alpha.eq_value(&i(1)));

    let green = Color::from_hsl(i(120), i(1), s(25, 100)).to_rgba();
    assert_eq!((green.r, green.g, green.b), (0, 128, 0));

    let gray = Color::gray(s(1, 2)).to_rgba();
    assert_eq!((gray.r, gray.g, gray.b), (128, 128, 128));

    let clamped = Color::from_rgb_scaled(s(3, 2), s(-1, 2), i(1)).to_rgba();
    assert_eq!((clamped.r, clamped.g, clamped.b), (255, 0, 255));
}

#[test]
fn test_to_hsla_passthrough() {
    let c = Color::from_hsla(i(373), s(3, 10), s(1, 2), s(9, 10));
    let h = c.to_hsla();
    assert!(h.h.eq_value(&i(13)));
    assert!(h.s.eq_value(&s(3, 10)));
    assert!(h.l.eq_value(&s(1, 2)));
    assert!(h.alpha.eq_value(&s(9, 10)));
}

#[test]
fn test_to_rgba_scaled_exact() {
    let red = Color::from_hsl(i(0), i(1), s(1, 2)).to_rgba_scaled();
    assert!(red.r.eq_value(&i(1)));
    assert!(red.g.eq_value(&i(0)));
    assert!(red.b.eq_value(&i(0)));
    assert!(red.alpha.eq_value(&i(1)));

    let gray = Color::gray(s(1, 4)).to_rgba_scaled();
    assert!(gray.r.eq_value(&s(1, 4)));
    assert!(gray.g.eq_value(&s(1, 4)));
    assert!(gray.b.eq_value(&s(1, 4)));
}

#[test]
fn test_from_rgba_scaled_carries_alpha() {
    let c = Color::from_rgba_scaled(i(1), i(0), i(0), s(3, 10));
    assert_eq!(c, Color::from_rgba(255, 0, 0, s(3, 10)));
    assert_ne!(c, Color::from_rgba(255, 0, 0, s(4, 10)));
    let h = c.to_hsla();
    assert!(h.alpha.eq_value(&s(3, 10)));
}

#[test]
fn test_black_white_any_hue_saturation() {
    assert_eq!(Color::black(), Color::from_hsl(i(301), s(99, 100), i(0)));
    assert_eq!(Color::white(), Color::from_hsl(s(1, 7), s(1, 100), i(1)));
    let b = Color::from_hsl(i(200), s(1, 2), i(0)).to_rgba();
    assert_eq!((b.r, b.g, b.b), (0, 0, 0));
    let w = Color::from_hsl(i(200), s(1, 2), i(1)).to_rgba();
    assert_eq!((w.r, w.g, w.b), (255, 255, 255));
}
