//! The hue of a color: an angle in degrees, stored unclipped and normalized
//! into `[0, 360]` on read. An angle of exactly 360 is kept as 360 rather
//! than wrapped to 0, so that full-circle hues stay stable.

use vstd::prelude::*;
use crate::scalar::{Scalar, Frac, rem_floor};
use vstd::arithmetic::div_mod::{lemma_fundamental_div_mod, lemma_mod_multiples_basic};

verus! {

/// The hue of a color, represented by an angle (degrees).
#[derive(Clone, Copy, Debug)]
pub struct Hue {
    pub(crate) unclipped: Scalar,
}

impl Hue {
    #[verifier::type_invariant]
    pub(crate) open(crate) spec fn inv(self) -> bool {
        self.unclipped.in_range()
    }

    /// The angle this hue was built from, unnormalized.
    pub open(crate) spec fn angle(self) -> Scalar {
        self.unclipped
    }

    /// The normalized angle as a fraction: the remainder of the angle modulo
    /// 360, except that exactly 360 is kept.
    pub open(crate) spec fn clipped(self) -> Frac {
        let u = self.unclipped;
        if u.num() == 360 * u.den() {
            u.frac()
        } else {
            Frac { n: u.num() % (360 * u.den()), d: u.den() }
        }
    }

    /// Wrap an angle into a hue, as it is.
    pub fn from(unclipped: Scalar) -> (h: Hue)
        requires
            unclipped.in_range(),
        ensures
            h.angle() == unclipped,
    {
        Hue { unclipped }
    }

    /// Return a hue value in the interval [0, 360]: congruent to the stored
    /// angle modulo 360, with the same denominator, and equal to 360 only
    /// when the stored angle is exactly 360.
    pub fn value(self) -> (v: Scalar)
        ensures
            v.num() == self.clipped().n,
            v.den() == self.clipped().d,
            v.den() == self.angle().den(),
            0 <= v.num() <= 360 * v.den(),
            (self.angle().num() - v.num()) % (360 * v.den()) == 0,
    {
        proof {
            use_type_invariant(self);
            use_type_invariant(self.unclipped);
        }
        let u = self.unclipped;
        if u.n == 360 * u.d {
            proof {
                lemma_mod_multiples_basic(0, 360 * u.den());
            }
            u
        } else {
            let n = rem_floor(u.n, 360 * u.d);
            proof {
                let m = 360 * u.den();
                lemma_fundamental_div_mod(u.num(), m);
                lemma_mod_multiples_basic(u.num() / m, m);
                assert(u.num() - n == m * (u.num() / m));
                assert((u.num() / m) * m == m * (u.num() / m)) by (nonlinear_arith);
            }
            Scalar { n, d: u.d }
        }
    }
}

} // verus!
