//! The laws of the conversion engine, proved once and for all: converting a
//! color to its 8-bit RGB projection and back yields the same color under
//! the library's notion of equality; hues that differ by full turns give the
//! same color; lightness 0 is always black and lightness 1 always white; and
//! colors whose alpha values differ are never equal.

use vstd::prelude::*;
use vstd::arithmetic::div_mod::{lemma_fundamental_div_mod_converse};
use crate::scalar::{Scalar, Frac, lemma_mul_pos, lemma_mod_range};
use crate::color::{Color, byte_of, max2, min2};

verus! {

/// A fraction that denotes `v / 255` quantizes to the byte `v`.
proof fn lemma_byte_of_value(ch: Frac, v: int)
    requires
        0 < ch.d,
        255 * ch.n == v * ch.d,
        0 <= v <= 255,
    ensures
        byte_of(ch) == v,
{
    let scaled = Frac { n: 255 * ch.n, d: ch.d };
    assert(scaled.n == v * ch.d);
    assert(scaled.n >= 0) by (nonlinear_arith)
        requires scaled.n == v * ch.d, 0 <= v, 0 < ch.d;
    assert(2 * scaled.n + scaled.d == v * (2 * ch.d) + ch.d) by (nonlinear_arith)
        requires scaled.n == v * ch.d, scaled.d == ch.d;
    lemma_fundamental_div_mod_converse(2 * scaled.n + scaled.d, 2 * ch.d, v, ch.d);
    assert(scaled.round() == v);
}

/// The three channel values of a chromatic color whose stored components
/// came from an RGB triple: the chroma component quantizes back to the
/// maximum channel, the triangular component to `e` plus the minimum
/// channel, and the bare offset to the minimum channel.
proof fn lemma_chan_values(dd: int, ch: int, mx: int, mn: int, e: int)
    requires
        0 < dd,
        0 < ch,
        0 <= mn,
        mx == ch + mn,
        mx <= 255,
        0 <= e <= ch,
    ensures
        ({
            let chroma = Frac { n: 2 * dd * ch, d: 510 * dd };
            let mb = Frac { n: mx + mn, d: 510 }.sub(chroma.half());
            byte_of(chroma.add(mb)) == mx
        }),
        ({
            let chroma = Frac { n: 2 * dd * ch, d: 510 * dd };
            let mb = Frac { n: mx + mn, d: 510 }.sub(chroma.half());
            byte_of((chroma.mul(Frac { n: 60 * e, d: 60 * ch })).add(mb)) == e + mn
        }),
        ({
            let chroma = Frac { n: 2 * dd * ch, d: 510 * dd };
            let mb = Frac { n: mx + mn, d: 510 }.sub(chroma.half());
            byte_of((Frac { n: 0, d: 1 }).add(mb)) == mn
        }),
{
    let chroma = Frac { n: 2 * dd * ch, d: 510 * dd };
    let mb = Frac { n: mx + mn, d: 510 }.sub(chroma.half());
    assert(mb.n == (mx + mn) * (2 * (510 * dd)) - (2 * dd * ch) * 510);
    assert(mb.d == 510 * (2 * (510 * dd)));
    assert(0 < mb.d) by (nonlinear_arith)
        requires 0 < dd, mb.d == 510 * (2 * (510 * dd));

    let c1 = chroma.add(mb);
    assert(0 < c1.d && 255 * c1.n == mx * c1.d) by (nonlinear_arith)
        requires
            c1.n == chroma.n * mb.d + mb.n * chroma.d,
            c1.d == chroma.d * mb.d,
            chroma.n == 2 * dd * ch,
            chroma.d == 510 * dd,
            mb.n == (mx + mn) * (2 * (510 * dd)) - (2 * dd * ch) * 510,
            mb.d == 510 * (2 * (510 * dd)),
            mx == ch + mn,
            0 < dd,
            0 < ch,
    ;
    lemma_byte_of_value(c1, mx);

    let xf = chroma.mul(Frac { n: 60 * e, d: 60 * ch });
    let c2 = xf.add(mb);
    assert(0 < c2.d && 255 * c2.n == (e + mn) * c2.d) by (nonlinear_arith)
        requires
            xf.n == (2 * dd * ch) * (60 * e),
            xf.d == (510 * dd) * (60 * ch),
            c2.n == xf.n * mb.d + mb.n * xf.d,
            c2.d == xf.d * mb.d,
            mb.n == (mx + mn) * (2 * (510 * dd)) - (2 * dd * ch) * 510,
            mb.d == 510 * (2 * (510 * dd)),
            mx == ch + mn,
            0 < dd,
            0 < ch,
    ;
    lemma_byte_of_value(c2, e + mn);

    let c3 = (Frac { n: 0, d: 1 }).add(mb);
    assert(0 < c3.d && 255 * c3.n == mn * c3.d) by (nonlinear_arith)
        requires
            c3.n == 0 * mb.d + mb.n * 1,
            c3.d == 1 * mb.d,
            mb.n == (mx + mn) * (2 * (510 * dd)) - (2 * dd * ch) * 510,
            mb.d == 510 * (2 * (510 * dd)),
            mx == ch + mn,
            0 < dd,
            0 < ch,
    ;
    lemma_byte_of_value(c3, mn);
}

/// Converting an RGB triple to HSL and projecting back to 8-bit RGB returns
/// exactly the original triple, whatever the alpha value.
pub proof fn lemma_rgb_roundtrip(r: int, g: int, b: int, a: Scalar)
    requires
        0 <= r <= 255,
        0 <= g <= 255,
        0 <= b <= 255,
    ensures
        Color::spec_from_rgba(r, g, b, a).rgb8() == (r, g, b),
{
    let c = Color::spec_from_rgba(r, g, b, a);
    let mx = max2(max2(r, g), b);
    let mn = min2(min2(r, g), b);
    let ch = mx - mn;

    if ch == 0 {
        assert(r == mx && g == mx && b == mx);
        assert(c.hue_clipped() == Frac { n: 0, d: 1 }) by {
            lemma_fundamental_div_mod_converse(0, 360, 0, 0);
        }
        assert(c.sector() == 0);
        assert(c.hue_mod2() == Frac { n: 0, d: 60 }) by {
            lemma_fundamental_div_mod_converse(0, 120, 0, 0);
        }
        assert(c.tfac() == Frac { n: 0, d: 60 });
        assert(c.chroma() == Frac { n: 0, d: 510 }) by {
            assert((510 - vstd::math::abs(2 * (mx + mn) - 510)) * 0 == 0) by (nonlinear_arith);
        }
        assert(c.xfac().n == 0);
        let mb = c.mbase();
        assert(mb.n == (mx + mn) * (2 * 510) - 0 * 510);
        assert(mb.d == 510 * (2 * 510));
        let cr = c.chan_r();
        let cg = c.chan_g();
        let cb = c.chan_b();
        assert(255 * cr.n == mx * cr.d && 0 < cr.d) by (nonlinear_arith)
            requires
                cr.n == 0 * mb.d + mb.n * 510,
                cr.d == 510 * mb.d,
                mb.n == (mx + mn) * (2 * 510) - 0 * 510,
                mb.d == 510 * (2 * 510),
                mx == mn,
        ;
        assert(255 * cg.n == mx * cg.d && 0 < cg.d) by (nonlinear_arith)
            requires
                cg.n == 0 * mb.d + mb.n * (510 * 60),
                cg.d == (510 * 60) * mb.d,
                mb.n == (mx + mn) * (2 * 510) - 0 * 510,
                mb.d == 510 * (2 * 510),
                mx == mn,
        ;
        assert(255 * cb.n == mx * cb.d && 0 < cb.d) by (nonlinear_arith)
            requires
                cb.n == 0 * mb.d + mb.n * 1,
                cb.d == 1 * mb.d,
                mb.n == (mx + mn) * (2 * 510) - 0 * 510,
                mb.d == 510 * (2 * 510),
                mx == mn,
        ;
        lemma_byte_of_value(cr, mx);
        lemma_byte_of_value(cg, mx);
        lemma_byte_of_value(cb, mx);
    } else {
        let dd = 255 - vstd::math::abs(mx + mn - 255);
        assert(0 < dd <= 255);
        assert(c.spec_sat().frac() == Frac { n: ch, d: dd });
        assert(c.spec_light().frac() == Frac { n: mx + mn, d: 510 });
        assert(c.chroma() == Frac { n: 2 * dd * ch, d: 510 * dd }) by {
            assert((510 - vstd::math::abs(2 * (mx + mn) - 510)) == 2 * dd);
            assert((2 * dd) * ch == 2 * dd * ch) by (nonlinear_arith);
        }
        let mb = c.mbase();

        let hn = c.spec_hue().frac().n;
        let hd = c.spec_hue().frac().d;
        assert(hd == ch);

        if r == mx {
            let q = g - b;
            lemma_mod_range(q, 6 * ch);
            let m6 = q % (6 * ch);
            assert(hn == 60 * m6);
            if q >= 0 {
                lemma_fundamental_div_mod_converse(q, 6 * ch, 0, q);
                assert(m6 == q);
                assert(b == mn);
            } else {
                lemma_fundamental_div_mod_converse(q, 6 * ch, -1, q + 6 * ch);
                assert(m6 == q + 6 * ch);
                assert(g == mn);
            }
            assert(0 <= hn < 360 * ch);
            lemma_fundamental_div_mod_converse(hn, 360 * ch, 0, hn);
            assert(c.hue_clipped() == Frac { n: hn, d: ch });
            assert(c.hue_sixth() == Frac { n: hn, d: 60 * ch });
            if q >= 0 && q < ch {
                // first sector: the red channel carries the chroma
                assert(c.sector() == 0);
                lemma_fundamental_div_mod_converse(hn, 120 * ch, 0, hn);
                assert(c.hue_mod2() == Frac { n: 60 * q, d: 60 * ch });
                assert(c.tfac() == Frac { n: 60 * q, d: 60 * ch });
                lemma_chan_values(dd, ch, mx, mn, q);
                assert(c.chan_r().n == c.chroma().add(mb).n);
                assert(byte_of(c.chan_r()) == mx);
                assert(byte_of(c.chan_g()) == q + mn);
                assert(byte_of(c.chan_b()) == mn);
            } else if q >= 0 {
                // hue exactly at 60 degrees: g equals r
                assert(q == ch && g == mx);
                assert(c.sector() == 1);
                lemma_fundamental_div_mod_converse(hn, 120 * ch, 0, hn);
                assert(c.hue_mod2() == Frac { n: 60 * ch, d: 60 * ch });
                assert(c.tfac() == Frac { n: 60 * ch, d: 60 * ch });
                lemma_chan_values(dd, ch, mx, mn, ch);
                assert(byte_of(c.chan_r()) == ch + mn);
                assert(byte_of(c.chan_g()) == mx);
                assert(byte_of(c.chan_b()) == mn);
            } else {
                // last sector: blue exceeds green
                assert(5 * (60 * ch) <= hn);
                assert(c.sector() == 5);
                lemma_fundamental_div_mod_converse(hn, 120 * ch, 2, hn - 240 * ch);
                assert(c.hue_mod2() == Frac { n: 60 * q + 120 * ch, d: 60 * ch });
                assert(c.tfac() == Frac { n: 60 * (-q), d: 60 * ch });
                lemma_chan_values(dd, ch, mx, mn, -q);
                assert(byte_of(c.chan_r()) == mx);
                assert(byte_of(c.chan_g()) == mn);
                assert(byte_of(c.chan_b()) == -q + mn);
            }
        } else if g == mx {
            let w = b - r + 2 * ch;
            assert(hn == 60 * w);
            assert(ch <= w <= 3 * ch);
            assert(0 <= hn < 360 * ch);
            lemma_fundamental_div_mod_converse(hn, 360 * ch, 0, hn);
            assert(c.hue_clipped() == Frac { n: hn, d: ch });
            assert(c.hue_sixth() == Frac { n: hn, d: 60 * ch });
            if w < 2 * ch {
                // second sector: blue below red
                assert(b < r && mn == b);
                assert(c.sector() == 1);
                lemma_fundamental_div_mod_converse(hn, 120 * ch, 0, hn);
                assert(c.hue_mod2() == Frac { n: 60 * w, d: 60 * ch });
                assert(c.tfac() == Frac { n: 60 * (r - b), d: 60 * ch });
                lemma_chan_values(dd, ch, mx, mn, r - b);
                assert(byte_of(c.chan_r()) == r - b + mn);
                assert(byte_of(c.chan_g()) == mx);
                assert(byte_of(c.chan_b()) == mn);
            } else if w < 3 * ch {
                // third sector: red at or below blue
                assert(r <= b && mn == r);
                assert(c.sector() == 2);
                lemma_fundamental_div_mod_converse(hn, 120 * ch, 1, hn - 120 * ch);
                assert(c.hue_mod2() == Frac { n: 60 * w - 120 * ch, d: 60 * ch });
                assert(c.tfac() == Frac { n: 60 * (b - r), d: 60 * ch });
                lemma_chan_values(dd, ch, mx, mn, b - r);
                assert(byte_of(c.chan_r()) == mn);
                assert(byte_of(c.chan_g()) == mx);
                assert(byte_of(c.chan_b()) == b - r + mn);
            } else {
                // hue exactly at 180 degrees: b equals g
                assert(w == 3 * ch && mn == r && b == mx);
                assert(c.sector() == 3);
                lemma_fundamental_div_mod_converse(hn, 120 * ch, 1, hn - 120 * ch);
                assert(c.hue_mod2() == Frac { n: 60 * ch, d: 60 * ch });
                assert(c.tfac() == Frac { n: 60 * ch, d: 60 * ch });
                lemma_chan_values(dd, ch, mx, mn, ch);
                assert(byte_of(c.chan_r()) == mn);
                assert(byte_of(c.chan_g()) == ch + mn);
                assert(byte_of(c.chan_b()) == mx);
            }
        } else {
            assert(b == mx && r < mx && g < mx);
            let w = r - g + 4 * ch;
            assert(hn == 60 * w);
            assert(3 * ch < w < 5 * ch);
            assert(0 <= hn < 360 * ch);
            lemma_fundamental_div_mod_converse(hn, 360 * ch, 0, hn);
            assert(c.hue_clipped() == Frac { n: hn, d: ch });
            assert(c.hue_sixth() == Frac { n: hn, d: 60 * ch });
            if w < 4 * ch {
                // fourth sector: red below green
                assert(r < g && mn == r);
                assert(c.sector() == 3);
                lemma_fundamental_div_mod_converse(hn, 120 * ch, 1, hn - 120 * ch);
                assert(c.hue_mod2() == Frac { n: 60 * w - 120 * ch, d: 60 * ch });
                assert(c.tfac() == Frac { n: 60 * (g - r), d: 60 * ch });
                lemma_chan_values(dd, ch, mx, mn, g - r);
                assert(byte_of(c.chan_r()) == mn);
                assert(byte_of(c.chan_g()) == g - r + mn);
                assert(byte_of(c.chan_b()) == mx);
            } else {
                // fifth sector: green at or below red
                assert(g <= r && mn == g);
                assert(c.sector() == 4);
                lemma_fundamental_div_mod_converse(hn, 120 * ch, 2, hn - 240 * ch);
                assert(c.hue_mod2() == Frac { n: 60 * w - 240 * ch, d: 60 * ch });
                assert(c.tfac() == Frac { n: 60 * (r - g), d: 60 * ch });
                lemma_chan_values(dd, ch, mx, mn, r - g);
                assert(byte_of(c.chan_r()) == r - g + mn);
                assert(byte_of(c.chan_g()) == mn);
                assert(byte_of(c.chan_b()) == mx);
            }
        }
    }
}

/// Fractions that denote the same number quantize to the same byte.
proof fn lemma_byte_of_same(a: Frac, b: Frac)
    requires
        0 < a.d,
        0 < b.d,
        a.eq(b),
    ensures
        byte_of(a) == byte_of(b),
{
    assert((255 * a.n) * b.d == (255 * b.n) * a.d) by (nonlinear_arith)
        requires a.n * b.d == b.n * a.d;
    crate::scalar::lemma_round_same(Frac { n: 255 * a.n, d: a.d }, Frac { n: 255 * b.n, d: b.d });
}

/// A channel whose sector component is zero quantizes to whatever byte the
/// shared offset denotes.
proof fn lemma_offset_channel(comp: Frac, mb: Frac, v: int)
    requires
        comp.n == 0,
        0 < comp.d,
        0 < mb.d,
        255 * mb.n == v * mb.d,
        0 <= v <= 255,
    ensures
        byte_of(comp.add(mb)) == v,
{
    let chan = comp.add(mb);
    assert(255 * chan.n == v * chan.d && 0 < chan.d) by (nonlinear_arith)
        requires
            chan.n == 0 * mb.d + mb.n * comp.d,
            chan.d == comp.d * mb.d,
            255 * mb.n == v * mb.d,
            0 < comp.d,
            0 < mb.d,
    ;
    lemma_byte_of_value(chan, v);
}

/// The chroma of a color with zero chroma numerator vanishes in every
/// sector component, and the channels all quantize to the offset's byte.
proof fn lemma_flat_color(c: Color, v: int)
    requires
        0 < c.spec_hue().den(),
        0 < c.spec_sat().den(),
        0 < c.spec_light().den(),
        c.chroma().n == 0,
        255 * c.mbase().n == v * c.mbase().d,
        0 <= v <= 255,
    ensures
        c.rgb8() == (v as int, v as int, v as int),
{
    let mb = c.mbase();
    let hd = c.hue_clipped().d;
    assert(0 < hd);
    lemma_mul_pos(c.spec_light().den(), c.spec_sat().den());
    assert(0 < c.chroma().d);
    lemma_mul_pos(c.chroma().d, 60 * hd);
    assert(c.xfac().d == c.chroma().d * (60 * hd));
    assert(c.xfac().n == 0) by (nonlinear_arith)
        requires c.xfac().n == c.chroma().n * c.tfac().n, c.chroma().n == 0;
    assert(0 < mb.d) by {
        lemma_mul_pos(c.spec_light().den(), 2 * c.chroma().d);
    }
    lemma_offset_channel(c.chroma(), mb, v);
    lemma_offset_channel(c.xfac(), mb, v);
    lemma_offset_channel(Frac { n: 0, d: 1 }, mb, v);
    assert(byte_of(c.chan_r()) == v);
    assert(byte_of(c.chan_g()) == v);
    assert(byte_of(c.chan_b()) == v);
}

/// Every color with lightness 0 projects to black, whatever its hue and
/// saturation; with alpha 1 it is the same color as `black()`.
pub proof fn lemma_lightness_zero_is_black(h: Scalar, s: Scalar, l: Scalar, a: Scalar)
    requires
        0 < h.den(),
        0 < s.den(),
        0 < l.den(),
        0 < a.den(),
        l.num() == 0,
    ensures
        Color::spec_from_hsla(h, s, l, a).rgb8() == (0int, 0int, 0int),
        Scalar::same_value(a, Scalar::spec_int(1)) ==> Color::same_color(
            Color::spec_from_hsla(h, s, l, a),
            Color::spec_from_hsla(
                Scalar::spec_int(0),
                Scalar::spec_int(0),
                Scalar::spec_int(0),
                Scalar::spec_int(1),
            ),
        ),
{
    let c = Color::spec_from_hsla(h, s, l, a);
    let u = l.den() - vstd::math::abs(2 * l.num() - l.den());
    assert(u == 0);
    assert(c.chroma().n == u * s.num());
    assert(u * s.num() == 0) by (nonlinear_arith)
        requires u == 0;
    assert(c.mbase().n == 0) by (nonlinear_arith)
        requires
            c.mbase().n == l.num() * (2 * c.chroma().d) - c.chroma().n * l.den(),
            l.num() == 0,
            c.chroma().n == 0,
    ;
    assert(0 < c.mbase().d) by {
        lemma_mul_pos(l.den(), s.den());
        lemma_mul_pos(l.den(), 2 * (l.den() * s.den()));
    }
    lemma_flat_color(c, 0);
    lemma_lightness_extreme_base(
        Scalar::spec_int(0),
        Scalar::spec_int(0),
        Scalar::spec_int(0),
        Scalar::spec_int(1),
        0,
    );
}

/// Every color with lightness 1 projects to white, whatever its hue and
/// saturation; with alpha 1 it is the same color as `white()`.
pub proof fn lemma_lightness_one_is_white(h: Scalar, s: Scalar, l: Scalar, a: Scalar)
    requires
        0 < h.den(),
        0 < s.den(),
        0 < l.den(),
        0 < a.den(),
        l.num() == l.den(),
    ensures
        Color::spec_from_hsla(h, s, l, a).rgb8() == (255int, 255int, 255int),
        Scalar::same_value(a, Scalar::spec_int(1)) ==> Color::same_color(
            Color::spec_from_hsla(h, s, l, a),
            Color::spec_from_hsla(
                Scalar::spec_int(0),
                Scalar::spec_int(0),
                Scalar::spec_int(1),
                Scalar::spec_int(1),
            ),
        ),
{
    lemma_lightness_extreme_base(h, s, l, a, 255);
    lemma_lightness_extreme_base(
        Scalar::spec_int(0),
        Scalar::spec_int(0),
        Scalar::spec_int(1),
        Scalar::spec_int(1),
        255,
    );
}

/// Shared argument for both lightness extremes: when the lightness is
/// exactly `v/255` with `v` equal to 0 or 255 and saturation contributes no
/// chroma, every channel quantizes to `v`.
proof fn lemma_lightness_extreme_base(h: Scalar, s: Scalar, l: Scalar, a: Scalar, v: int)
    requires
        0 < h.den(),
        0 < s.den(),
        0 < l.den(),
        v == 0 && l.num() == 0 || v == 255 && l.num() == l.den(),
    ensures
        Color::spec_from_hsla(h, s, l, a).rgb8() == (v as int, v as int, v as int),
{
    let c = Color::spec_from_hsla(h, s, l, a);
    let u = l.den() - vstd::math::abs(2 * l.num() - l.den());
    assert(u == 0);
    assert(c.chroma().n == u * s.num());
    assert(u * s.num() == 0) by (nonlinear_arith)
        requires u == 0;
    assert(0 < c.chroma().d) by {
        lemma_mul_pos(l.den(), s.den());
    }
    assert(255 * c.mbase().n == v * c.mbase().d) by (nonlinear_arith)
        requires
            c.mbase().n == l.num() * (2 * c.chroma().d) - c.chroma().n * l.den(),
            c.mbase().d == l.den() * (2 * c.chroma().d),
            c.chroma().n == 0,
            v == 0 && l.num() == 0 || v == 255 && l.num() == l.den(),
    ;
    lemma_flat_color(c, v);
}

/// Colors whose alpha values denote different numbers are never the same
/// color, whatever their RGB projections.
pub proof fn lemma_alpha_distinguishes(c1: Color, c2: Color)
    requires
        !Scalar::same_value(c1.spec_alpha(), c2.spec_alpha()),
    ensures
        !Color::same_color(c1, c2),
{
}

/// Adding full turns to the hue never changes the color: the two stored
/// hues normalize to angles that project to the same RGB triple.
pub proof fn lemma_hue_periodic(h1: Scalar, h2: Scalar, k: int, s: Scalar, l: Scalar, a: Scalar)
    requires
        0 < h1.den(),
        0 < s.den(),
        0 < l.den(),
        0 < a.den(),
        h2.den() == h1.den(),
        h2.num() == h1.num() + 360 * k * h1.den(),
    ensures
        Color::same_color(
            Color::spec_from_hsla(h1, s, l, a),
            Color::spec_from_hsla(h2, s, l, a),
        ),
{
    let c1 = Color::spec_from_hsla(h1, s, l, a);
    let c2 = Color::spec_from_hsla(h2, s, l, a);
    let d = h1.den();
    let m = 360 * d;
    assert(0 < m);
    if k == 0 {
        assert(360 * k * h1.den() == 0) by (nonlinear_arith)
            requires k == 0;
        assert(h2.num() == h1.num());
        assert(c1.hue_clipped() == c2.hue_clipped());
    } else if h1.num() == m {
        assert(h2.num() == (1 + k) * m + 0) by (nonlinear_arith)
            requires h2.num() == h1.num() + 360 * k * h1.den(), h1.num() == m, m == 360 * h1.den();
        lemma_fundamental_div_mod_converse(h2.num(), m, 1 + k, 0);
        assert(h2.num() != m) by (nonlinear_arith)
            requires
                h2.num() == h1.num() + 360 * k * h1.den(),
                h1.num() == m,
                m == 360 * h1.den(),
                0 < m,
                k != 0,
        ;
        assert(c1.hue_clipped() == Frac { n: m, d: d });
        assert(c2.hue_clipped() == Frac { n: 0, d: d });
        lemma_full_turn_matches_zero(c1, c2);
    } else if h2.num() == m {
        assert(h1.num() == (1 - k) * m + 0) by (nonlinear_arith)
            requires h2.num() == h1.num() + 360 * k * h1.den(), h2.num() == m, m == 360 * h1.den();
        lemma_fundamental_div_mod_converse(h1.num(), m, 1 - k, 0);
        assert(c2.hue_clipped() == Frac { n: m, d: d });
        assert(c1.hue_clipped() == Frac { n: 0, d: d });
        lemma_full_turn_matches_zero(c2, c1);
        assert(c1.rgb8() == c2.rgb8());
    } else {
        assert(h2.num() == m * k + h1.num()) by (nonlinear_arith)
            requires h2.num() == h1.num() + 360 * k * d, m == 360 * d;
        assert(h2.num() % m == h1.num() % m) by {
            vstd::arithmetic::div_mod::lemma_mod_multiples_vanish(k, h1.num(), m);
        }
        assert(c1.hue_clipped() == c2.hue_clipped());
    }
}

/// A hue of exactly 360 degrees projects like a hue of exactly 0 degrees:
/// the two sectors at the seam of the circle agree channel by channel.
proof fn lemma_full_turn_matches_zero(c1: Color, c2: Color)
    requires
        0 < c1.spec_hue().den(),
        0 < c1.spec_sat().den(),
        0 < c1.spec_light().den(),
        c2.spec_sat() == c1.spec_sat(),
        c2.spec_light() == c1.spec_light(),
        c2.spec_hue().den() == c1.spec_hue().den(),
        c1.hue_clipped() == (Frac { n: 360 * c1.spec_hue().den(), d: c1.spec_hue().den() }),
        c2.hue_clipped() == (Frac { n: 0, d: c1.spec_hue().den() }),
    ensures
        c1.rgb8() == c2.rgb8(),
{
    let d = c1.spec_hue().den();
    assert(c1.hue_sixth() == Frac { n: 360 * d, d: 60 * d });
    assert(c2.hue_sixth() == Frac { n: 0, d: 60 * d });
    assert(!(360 * d < 5 * (60 * d)));
    assert(c1.sector() == 5);
    assert(c2.sector() == 0);
    lemma_fundamental_div_mod_converse(360 * d, 120 * d, 3, 0);
    lemma_fundamental_div_mod_converse(0, 120 * d, 0, 0);
    assert(c1.hue_mod2() == Frac { n: 0, d: 60 * d });
    assert(c2.hue_mod2() == Frac { n: 0, d: 60 * d });
    assert(c1.tfac() == Frac { n: 0, d: 60 * d });
    assert(c1.tfac() == c2.tfac());
    assert(c1.chroma() == c2.chroma());
    assert(c1.xfac() == c2.xfac());
    assert(c1.mbase() == c2.mbase());
    let mb = c1.mbase();
    let xf = c1.xfac();
    assert(xf.n == 0) by (nonlinear_arith)
        requires xf.n == c1.chroma().n * c1.tfac().n, c1.tfac().n == 0;
    assert(0 < c1.chroma().d) by {
        lemma_mul_pos(c1.spec_light().den(), c1.spec_sat().den());
    }
    assert(0 < xf.d) by {
        lemma_mul_pos(c1.chroma().d, 60 * d);
    }
    assert(0 < mb.d) by {
        lemma_mul_pos(c1.spec_light().den(), 2 * c1.chroma().d);
    }
    // red: both sectors carry the chroma component
    assert(c1.chan_r() == c2.chan_r());
    // green: a zero component against the zero-valued triangular component
    let za = (Frac { n: 0, d: 1 }).add(mb);
    let xa = xf.add(mb);
    assert(za.eq(xa) && 0 < za.d && 0 < xa.d) by (nonlinear_arith)
        requires
            za.n == 0 * mb.d + mb.n * 1,
            za.d == 1 * mb.d,
            xa.n == 0 * mb.d + mb.n * xf.d,
            xa.d == xf.d * mb.d,
            xf.n == 0,
            0 < xf.d,
            0 < mb.d,
    ;
    lemma_byte_of_same(za, xa);
    assert(c1.chan_g() == za && c2.chan_g() == xa);
    assert(c1.chan_b() == xa && c2.chan_b() == za);
    assert(byte_of(c1.chan_g()) == byte_of(c2.chan_g()));
    assert(byte_of(c1.chan_b()) == byte_of(c2.chan_b()));
}

/// Round trip at the color level: projecting any color to 8-bit RGB and
/// converting the triple back gives the same color again, under the
/// library's displayable equality.
pub proof fn lemma_roundtrip(c: Color)
    ensures
        ({
            let (r, g, b) = c.rgb8();
            Color::same_color(Color::spec_from_rgba(r, g, b, c.spec_alpha()), c)
        }),
{
    let (r, g, b) = c.rgb8();
    assert(0 <= r <= 255 && 0 <= g <= 255 && 0 <= b <= 255);
    lemma_rgb_roundtrip(r, g, b, c.spec_alpha());
}

} // verus!
