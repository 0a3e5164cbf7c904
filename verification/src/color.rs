//! The color type and the two conversions of the library: HSL to RGB and
//! RGB to HSL. A color is stored in HSL form with exact rational components;
//! the RGB projection quantizes each channel to an 8-bit value. Two colors
//! count as equal when their quantized RGB projections and their exact alpha
//! values agree, not when their stored HSL fields do.

use vstd::prelude::*;
use vstd::arithmetic::div_mod::lemma_div_pos_is_pos;
use crate::scalar::{
    Scalar, Frac, rem_floor, lemma_mul_bound, lemma_mul_pos, lemma_mod_range, lemma_div_lt,
};
use crate::hue::Hue;

verus! {

/// An RGB color with an alpha channel: channels either as exact scalars in
/// `[0, 1]` or as 8-bit integers in `[0, 255]`.
#[derive(Clone, Copy, Debug)]
pub struct RGBA<T> {
    pub r: T,
    pub g: T,
    pub b: T,
    pub alpha: Scalar,
}

/// An HSL color with an alpha channel: the hue in degrees in `[0, 360]`,
/// the other components nominally in `[0, 1]`.
#[derive(Clone, Copy, Debug)]
pub struct HSLA {
    pub h: Scalar,
    pub s: Scalar,
    pub l: Scalar,
    pub alpha: Scalar,
}

/// The representation of a color.
///
/// Note:
/// - Colors outside the sRGB gamut (which cannot be displayed on a typical
///   computer screen) can not be represented by `Color`.
/// - The `PartialEq` instance compares two `Color`s by comparing their (integer)
///   RGB values. This is different from comparing the HSL values. For example,
///   HSL has many different representations of black (arbitrary hue and
///   saturation values).
#[derive(Clone, Copy, Debug)]
pub struct Color {
    pub(crate) hue: Hue,
    pub(crate) saturation: Scalar,
    pub(crate) lightness: Scalar,
    pub(crate) alpha: Scalar,
}

/// Quantize an exact channel value in `[0, 1]` to a byte: multiply by 255,
/// round to the nearest integer, and saturate into `[0, 255]`.
pub open spec fn byte_of(ch: Frac) -> int {
    let v = Frac { n: 255 * ch.n, d: ch.d }.round();
    if v < 0 {
        0
    } else if v > 255 {
        255
    } else {
        v
    }
}

/// Clamp an exact channel value to `[0, 1]`, multiply by 255 and round to
/// the nearest integer: the quantization used when a color is built from
/// scaled RGB values.
pub open spec fn scaled_byte(x: Scalar) -> int {
    let num = 255 * x.num();
    if num < 0 {
        0
    } else if num > 255 * x.den() {
        255
    } else {
        Frac { n: num, d: x.den() }.round()
    }
}

/// The larger of two integers.
pub open spec fn max2(a: int, b: int) -> int {
    if a >= b {
        a
    } else {
        b
    }
}

/// The smaller of two integers.
pub open spec fn min2(a: int, b: int) -> int {
    if a >= b {
        b
    } else {
        a
    }
}

/// The hue, in degrees, of an RGB triple: 60 times the sextant offset given
/// by the channel that attains the maximum; 0 for achromatic triples.
pub open spec fn rgb_hue(r: int, g: int, b: int) -> Frac {
    let mx = max2(max2(r, g), b);
    let mn = min2(min2(r, g), b);
    let c = mx - mn;
    if c == 0 {
        Frac { n: 0, d: 1 }
    } else if r == mx {
        Frac { n: 60 * ((g - b) % (6 * c)), d: c }
    } else if g == mx {
        Frac { n: 60 * (b - r) + 120 * c, d: c }
    } else {
        Frac { n: 60 * (r - g) + 240 * c, d: c }
    }
}

/// The saturation of an RGB triple: the chroma divided by `1 - |2*l - 1|`,
/// both scaled by 255; 0 for achromatic triples.
pub open spec fn rgb_sat(r: int, g: int, b: int) -> Frac {
    let mx = max2(max2(r, g), b);
    let mn = min2(min2(r, g), b);
    let c = mx - mn;
    if c == 0 {
        Frac { n: 0, d: 1 }
    } else {
        Frac { n: c, d: 255 - vstd::math::abs(mx + mn - 255) }
    }
}

/// The lightness of an RGB triple: the mean of the extreme channels.
pub open spec fn rgb_light(r: int, g: int, b: int) -> Frac {
    let mx = max2(max2(r, g), b);
    let mn = min2(min2(r, g), b);
    Frac { n: mx + mn, d: 510 }
}

impl Color {
    #[verifier::type_invariant]
    pub(crate) open(crate) spec fn inv(self) -> bool {
        &&& self.saturation.in_range()
        &&& self.lightness.in_range()
        &&& self.alpha.in_range()
    }

    /// The stored, unnormalized hue angle.
    pub open(crate) spec fn spec_hue(self) -> Scalar {
        self.hue.unclipped
    }

    /// The normalized hue angle, as a fraction in `[0, 360]`.
    pub open(crate) spec fn hue_clipped(self) -> Frac {
        self.hue.clipped()
    }

    /// The stored saturation.
    pub open(crate) spec fn spec_sat(self) -> Scalar {
        self.saturation
    }

    /// The stored lightness.
    pub open(crate) spec fn spec_light(self) -> Scalar {
        self.lightness
    }

    /// The stored alpha value.
    pub open(crate) spec fn spec_alpha(self) -> Scalar {
        self.alpha
    }

    /// The color with the given HSL components, stored as they are.
    pub open(crate) spec fn spec_from_hsla(h: Scalar, s: Scalar, l: Scalar, a: Scalar) -> Color {
        Color { hue: Hue { unclipped: h }, saturation: s, lightness: l, alpha: a }
    }

    /// The color an RGB triple converts to.
    pub open(crate) spec fn spec_from_rgba(r: int, g: int, b: int, a: Scalar) -> Color {
        Color {
            hue: Hue {
                unclipped: Scalar {
                    n: rgb_hue(r, g, b).n as i128,
                    d: rgb_hue(r, g, b).d as i128,
                },
            },
            saturation: Scalar { n: rgb_sat(r, g, b).n as i128, d: rgb_sat(r, g, b).d as i128 },
            lightness: Scalar { n: rgb_light(r, g, b).n as i128, d: rgb_light(r, g, b).d as i128 },
            alpha: a,
        }
    }

    /// The normalized hue divided by 60: which sixth of the circle it is in.
    pub open(crate) spec fn hue_sixth(self) -> Frac {
        let hv = self.hue.clipped();
        Frac { n: hv.n, d: 60 * hv.d }
    }

    /// The hue sixth, wrapped into `[0, 2)`.
    pub open(crate) spec fn hue_mod2(self) -> Frac {
        let h6 = self.hue_sixth();
        Frac { n: h6.n % (2 * h6.d), d: h6.d }
    }

    /// The triangular factor `1 - |(h/60 mod 2) - 1|` of the second channel.
    pub open(crate) spec fn tfac(self) -> Frac {
        let hm = self.hue_mod2();
        Frac { n: hm.d - vstd::math::abs(hm.n - hm.d), d: hm.d }
    }

    /// The chroma `(1 - |2*l - 1|) * s`.
    pub open(crate) spec fn chroma(self) -> Frac {
        let l = self.lightness.frac();
        let u = Frac { n: l.d - vstd::math::abs(2 * l.n - l.d), d: l.d };
        u.mul(self.saturation.frac())
    }

    /// The offset `l - chroma/2` added to every channel.
    pub open(crate) spec fn mbase(self) -> Frac {
        self.lightness.frac().sub(self.chroma().half())
    }

    /// The middle channel value `chroma * tfac`.
    pub open(crate) spec fn xfac(self) -> Frac {
        self.chroma().mul(self.tfac())
    }

    /// Which of the six 60-degree sectors the normalized hue falls into.
    pub open(crate) spec fn sector(self) -> int {
        let h6 = self.hue_sixth();
        if h6.n < h6.d {
            0
        } else if h6.n < 2 * h6.d {
            1
        } else if h6.n < 3 * h6.d {
            2
        } else if h6.n < 4 * h6.d {
            3
        } else if h6.n < 5 * h6.d {
            4
        } else {
            5
        }
    }

    /// The exact red channel of the RGB projection, scaled to `[0, 1]`.
    pub open(crate) spec fn chan_r(self) -> Frac {
        let k = self.sector();
        let comp = if k == 0 || k == 5 {
            self.chroma()
        } else if k == 1 || k == 4 {
            self.xfac()
        } else {
            Frac { n: 0, d: 1 }
        };
        comp.add(self.mbase())
    }

    /// The exact green channel of the RGB projection, scaled to `[0, 1]`.
    pub open(crate) spec fn chan_g(self) -> Frac {
        let k = self.sector();
        let comp = if k == 1 || k == 2 {
            self.chroma()
        } else if k == 0 || k == 3 {
            self.xfac()
        } else {
            Frac { n: 0, d: 1 }
        };
        comp.add(self.mbase())
    }

    /// The exact blue channel of the RGB projection, scaled to `[0, 1]`.
    pub open(crate) spec fn chan_b(self) -> Frac {
        let k = self.sector();
        let comp = if k == 3 || k == 4 {
            self.chroma()
        } else if k == 2 || k == 5 {
            self.xfac()
        } else {
            Frac { n: 0, d: 1 }
        };
        comp.add(self.mbase())
    }

    /// The quantized 8-bit RGB projection of the color.
    pub open(crate) spec fn rgb8(self) -> (int, int, int) {
        (byte_of(self.chan_r()), byte_of(self.chan_g()), byte_of(self.chan_b()))
    }

    /// Two colors are the same color when their 8-bit RGB projections agree
    /// and their alpha values denote the same number.
    pub open(crate) spec fn same_color(a: Color, b: Color) -> bool {
        a.rgb8() == b.rgb8() && Scalar::same_value(a.spec_alpha(), b.spec_alpha())
    }

    pub fn from_hsla(hue: Scalar, saturation: Scalar, lightness: Scalar, alpha: Scalar) -> (c:
        Color)
        requires
            hue.in_range(),
            saturation.in_range(),
            lightness.in_range(),
            alpha.in_range(),
        ensures
            c == Color::spec_from_hsla(hue, saturation, lightness, alpha),
    {
        Color { hue: Hue::from(hue), saturation, lightness, alpha }
    }

    pub fn from_hsl(hue: Scalar, saturation: Scalar, lightness: Scalar) -> (c: Color)
        requires
            hue.in_range(),
            saturation.in_range(),
            lightness.in_range(),
        ensures
            c == Color::spec_from_hsla(hue, saturation, lightness, Scalar::spec_int(1)),
    {
        Self::from_hsla(hue, saturation, lightness, Scalar::from_int(1))
    }

    /// Create a `Color` from integer RGB values between 0 and 255 and an
    /// exact alpha value between 0 and 1.
    pub fn from_rgba(r: u8, g: u8, b: u8, alpha: Scalar) -> (c: Color)
        requires
            alpha.in_range(),
        ensures
            c == Color::spec_from_rgba(r as int, g as int, b as int, alpha),
            c.rgb8() == (r as int, g as int, b as int),
    {
        proof {
            crate::laws::lemma_rgb_roundtrip(r as int, g as int, b as int, alpha);
        }
        let ri: i128 = r as i128;
        let gi: i128 = g as i128;
        let bi: i128 = b as i128;
        let mx: i128 = if ri >= gi { ri } else { gi };
        let mx: i128 = if mx >= bi { mx } else { bi };
        let mn: i128 = if ri >= gi { gi } else { ri };
        let mn: i128 = if mn >= bi { bi } else { mn };
        let ch: i128 = mx - mn;

        let hue: Scalar = if ch == 0 {
            Scalar { n: 0, d: 1 }
        } else if ri == mx {
            proof {
                lemma_mod_range(gi - bi, 6 * ch);
            }
            Scalar { n: 60 * rem_floor(gi - bi, 6 * ch), d: ch }
        } else if gi == mx {
            Scalar { n: 60 * (bi - ri) + 120 * ch, d: ch }
        } else {
            Scalar { n: 60 * (ri - gi) + 240 * ch, d: ch }
        };

        let sum: i128 = mx + mn;
        let saturation: Scalar = if ch == 0 {
            Scalar { n: 0, d: 1 }
        } else {
            let dd: i128 = if sum >= 255 { 510 - sum } else { sum };
            Scalar { n: ch, d: dd }
        };
        let lightness = Scalar { n: sum, d: 510 };

        Color { hue: Hue { unclipped: hue }, saturation, lightness, alpha }
    }

    /// Create a `Color` from integer RGB values between 0 and 255.
    pub fn from_rgb(r: u8, g: u8, b: u8) -> (c: Color)
        ensures
            c == Color::spec_from_rgba(r as int, g as int, b as int, Scalar::spec_int(1)),
    {
        Self::from_rgba(r, g, b, Scalar::from_int(1))
    }

    /// Create a `Color` from RGB and alpha values between 0 and 1. Values
    /// outside this range are clamped.
    pub fn from_rgba_scaled(r: Scalar, g: Scalar, b: Scalar, alpha: Scalar) -> (c: Color)
        requires
            r.in_range(),
            g.in_range(),
            b.in_range(),
            alpha.in_range(),
        ensures
            c == Color::spec_from_rgba(scaled_byte(r), scaled_byte(g), scaled_byte(b), alpha),
    {
        let rb = scaled_to_byte(r);
        let gb = scaled_to_byte(g);
        let bb = scaled_to_byte(b);
        Self::from_rgba(rb, gb, bb, alpha)
    }

    /// Create a `Color` from RGB values between 0 and 1. Values outside this
    /// range are clamped.
    pub fn from_rgb_scaled(r: Scalar, g: Scalar, b: Scalar) -> (c: Color)
        requires
            r.in_range(),
            g.in_range(),
            b.in_range(),
        ensures
            c == Color::spec_from_rgba(
                scaled_byte(r),
                scaled_byte(g),
                scaled_byte(b),
                Scalar::spec_int(1),
            ),
    {
        Self::from_rgba_scaled(r, g, b, Scalar::from_int(1))
    }

    /// Pure black.
    pub fn black() -> (c: Color)
        ensures
            c == Color::spec_from_hsla(
                Scalar::spec_int(0),
                Scalar::spec_int(0),
                Scalar::spec_int(0),
                Scalar::spec_int(1),
            ),
    {
        Color::from_hsl(Scalar::from_int(0), Scalar::from_int(0), Scalar::from_int(0))
    }

    /// Pure white.
    pub fn white() -> (c: Color)
        ensures
            c == Color::spec_from_hsla(
                Scalar::spec_int(0),
                Scalar::spec_int(0),
                Scalar::spec_int(1),
                Scalar::spec_int(1),
            ),
    {
        Color::from_hsl(Scalar::from_int(0), Scalar::from_int(0), Scalar::from_int(1))
    }

    /// Create a gray tone from a lightness value (0 is black, 1 is white).
    pub fn gray(lightness: Scalar) -> (c: Color)
        requires
            lightness.in_range(),
        ensures
            c == Color::spec_from_hsla(
                Scalar::spec_int(0),
                Scalar::spec_int(0),
                lightness,
                Scalar::spec_int(1),
            ),
    {
        Color::from_hsl(Scalar::from_int(0), Scalar::from_int(0), lightness)
    }

    /// Convert a `Color` to its hue, saturation, lightness and alpha values.
    /// The hue is in degrees in `[0, 360]`; the other components are passed
    /// through as stored.
    pub fn to_hsla(&self) -> (res: HSLA)
        ensures
            res.h.num() == self.hue_clipped().n,
            res.h.den() == self.hue_clipped().d,
            res.s == self.spec_sat(),
            res.l == self.spec_light(),
            res.alpha == self.spec_alpha(),
    {
        HSLA {
            h: self.hue.value(),
            s: self.saturation,
            l: self.lightness,
            alpha: self.alpha,
        }
    }

    /// Convert a `Color` to its red, green, blue and alpha values, with the
    /// RGB channels as exact scalars scaled to `[0, 1]`.
    pub fn to_rgba_scaled(&self) -> (res: RGBA<Scalar>)
        ensures
            res.r.frac() == self.chan_r(),
            res.g.frac() == self.chan_g(),
            res.b.frac() == self.chan_b(),
            res.alpha == self.spec_alpha(),
            -0x4000_0000_0000_0000_0000_0000_0000 <= res.r.num()
                <= 0x4000_0000_0000_0000_0000_0000_0000,
            -0x4000_0000_0000_0000_0000_0000_0000 <= res.g.num()
                <= 0x4000_0000_0000_0000_0000_0000_0000,
            -0x4000_0000_0000_0000_0000_0000_0000 <= res.b.num()
                <= 0x4000_0000_0000_0000_0000_0000_0000,
            res.r.den() <= 0x1_0000_0000_0000_0000_0000_0000,
            res.g.den() <= 0x1_0000_0000_0000_0000_0000_0000,
            res.b.den() <= 0x1_0000_0000_0000_0000_0000_0000,
    {
        proof {
            use_type_invariant(*self);
            use_type_invariant(self.hue);
        }
        let hv: Scalar = self.hue.value();
        let h6d: i128 = 60 * hv.d;
        let hm_n: i128 = hv.n % (2 * h6d);
        proof {
            lemma_mod_range(hv.num(), 2 * (h6d as int));
        }
        let abs1: i128 = if hm_n >= h6d { hm_n - h6d } else { h6d - hm_n };
        let t_n: i128 = h6d - abs1;

        let l: Scalar = self.lightness;
        let s: Scalar = self.saturation;
        let u_abs: i128 = if 2 * l.n >= l.d { 2 * l.n - l.d } else { l.d - 2 * l.n };
        let u_n: i128 = l.d - u_abs;
        proof {
            lemma_mul_bound(u_n as int, s.num(), 0x80_0000, 0x40_0000);
            lemma_mul_bound(l.den(), s.den(), 0x4000, 0x4000);
            lemma_mul_pos(l.den(), s.den());
        }
        let c_n: i128 = u_n * s.n;
        let c_d: i128 = l.d * s.d;
        proof {
            lemma_mul_bound(l.num(), 2 * c_d as int, 0x40_0000, 0x2000_0000);
            lemma_mul_bound(c_n as int, l.den(), 0x2000_0000_0000, 0x4000);
            lemma_mul_bound(l.den(), 2 * c_d as int, 0x4000, 0x2000_0000);
            lemma_mul_pos(l.den(), 2 * c_d as int);
            lemma_mul_bound(c_n as int, t_n as int, 0x2000_0000_0000, 0x10_0000);
            lemma_mul_bound(c_d as int, h6d as int, 0x1000_0000, 0x10_0000);
            lemma_mul_pos(c_d as int, h6d as int);
        }
        let m_n: i128 = l.n * (2 * c_d) - c_n * l.d;
        let m_d: i128 = l.d * (2 * c_d);
        let x_n: i128 = c_n * t_n;
        let x_d: i128 = c_d * h6d;

        let (r0n, r0d, g0n, g0d, b0n, b0d): (i128, i128, i128, i128, i128, i128) = if hv.n < h6d {
            (c_n, c_d, x_n, x_d, 0, 1)
        } else if hv.n < 2 * h6d {
            (x_n, x_d, c_n, c_d, 0, 1)
        } else if hv.n < 3 * h6d {
            (0, 1, c_n, c_d, x_n, x_d)
        } else if hv.n < 4 * h6d {
            (0, 1, x_n, x_d, c_n, c_d)
        } else if hv.n < 5 * h6d {
            (x_n, x_d, 0, 1, c_n, c_d)
        } else {
            (c_n, c_d, 0, 1, x_n, x_d)
        };

        let rr = chan_scalar(r0n, r0d, m_n, m_d);
        let gg = chan_scalar(g0n, g0d, m_n, m_d);
        let bb = chan_scalar(b0n, b0d, m_n, m_d);

        RGBA { r: rr, g: gg, b: bb, alpha: self.alpha }
    }

    /// Convert a `Color` to its red, green, blue and alpha values, with the
    /// RGB channels quantized to 8-bit integers.
    pub fn to_rgba(&self) -> (res: RGBA<u8>)
        ensures
            res.r as int == self.rgb8().0,
            res.g as int == self.rgb8().1,
            res.b as int == self.rgb8().2,
            res.alpha == self.spec_alpha(),
    {
        let sc = self.to_rgba_scaled();
        let r = byte_from_channel(&sc.r);
        let g = byte_from_channel(&sc.g);
        let b = byte_from_channel(&sc.b);
        RGBA { r, g, b, alpha: sc.alpha }
    }
}

/// The sum of a sector component and the channel offset, as one scalar.
fn chan_scalar(pn: i128, pd: i128, mn: i128, md: i128) -> (ch: Scalar)
    requires
        0 < pd <= 0x1_0000_0000_0000,
        0 < md <= 0x800_0000_0000,
        -0x4_0000_0000_0000_0000 <= pn <= 0x4_0000_0000_0000_0000,
        -0x1000_0000_0000_0000 <= mn <= 0x1000_0000_0000_0000,
    ensures
        ch.frac() == (Frac { n: pn as int, d: pd as int }).add(Frac { n: mn as int, d: md as int }),
        -0x4000_0000_0000_0000_0000_0000_0000 <= ch.num()
            <= 0x4000_0000_0000_0000_0000_0000_0000,
        0 < ch.den() <= 0x1_0000_0000_0000_0000_0000_0000,
{
    proof {
        lemma_mul_bound(pn as int, md as int, 0x4_0000_0000_0000_0000, 0x800_0000_0000);
        lemma_mul_bound(mn as int, pd as int, 0x1000_0000_0000_0000, 0x1_0000_0000_0000);
        lemma_mul_bound(pd as int, md as int, 0x1_0000_0000_0000, 0x800_0000_0000);
        lemma_mul_pos(pd as int, md as int);
    }
    Scalar { n: pn * md + mn * pd, d: pd * md }
}

/// Quantize one exact channel to a byte, saturating into `[0, 255]`.
fn byte_from_channel(ch: &Scalar) -> (v: u8)
    requires
        -0x4000_0000_0000_0000_0000_0000_0000 <= ch.num()
            <= 0x4000_0000_0000_0000_0000_0000_0000,
        ch.den() <= 0x1_0000_0000_0000_0000_0000_0000,
    ensures
        v as int == byte_of(ch.frac()),
{
    proof {
        use_type_invariant(*ch);
    }
    if ch.n < 0 {
        proof {
            lemma_div_pos_is_pos(-2 * (255 * ch.num()) + ch.den(), 2 * ch.den());
        }
        0
    } else {
        let n2: i128 = 255 * ch.n;
        let q: i128 = (2 * n2 + ch.d) / (2 * ch.d);
        proof {
            lemma_div_pos_is_pos(2 * (n2 as int) + ch.den(), 2 * ch.den());
        }
        if q > 255 {
            255
        } else {
            q as u8
        }
    }
}

/// Clamp a scaled channel into `[0, 1]` and quantize it to a byte.
fn scaled_to_byte(x: Scalar) -> (v: u8)
    requires
        x.in_range(),
    ensures
        v as int == scaled_byte(x),
{
    proof {
        use_type_invariant(x);
    }
    let n2: i128 = 255 * x.n;
    if n2 < 0 {
        0
    } else if n2 > 255 * x.d {
        255
    } else {
        let q: i128 = (2 * n2 + x.d) / (2 * x.d);
        proof {
            lemma_div_pos_is_pos(2 * (n2 as int) + x.den(), 2 * x.den());
            lemma_div_lt(2 * (n2 as int) + x.den(), 2 * x.den(), 256);
        }
        q as u8
    }
}

impl PartialEq for Color {
    /// Two colors are equal when their quantized RGB projections and their
    /// exact alpha values agree.
    fn eq(&self, other: &Color) -> (r: bool) {
        proof {
            use_type_invariant(*self);
            use_type_invariant(*other);
        }
        let a = self.to_rgba();
        let b = other.to_rgba();
        a.r == b.r && a.g == b.g && a.b == b.b && a.alpha.eq_value(&b.alpha)
    }
}

impl vstd::std_specs::cmp::PartialEqSpecImpl for Color {
    open spec fn obeys_eq_spec() -> bool {
        true
    }

    open spec fn eq_spec(&self, other: &Color) -> bool {
        Color::same_color(*self, *other)
    }
}

} // verus!
