//! Complex numbers in double precision, and the measurements of one that the choice of an
//! expansion reads.

use vstd::prelude::*;
use crate::double::Double;

verus! {

/// A complex number, given by the patterns of its real and imaginary parts.
#[derive(Clone, Copy, Debug, PartialEq, Eq, Structural)]
pub struct Complex {
    pub re: Double,
    pub im: Double,
}

impl Complex {
    /// The complex conjugate: the imaginary part changes its sign.
    pub open spec fn conj_spec(self) -> Complex {
        Complex { re: self.re, im: self.im.neg_spec() }
    }

    /// The number as the logarithm reads it: a part that is a zero of either sign counts as
    /// positive zero, so that the phase does not jump with the sign of a zero.
    pub open spec fn canonical_spec(self) -> Complex {
        Complex { re: self.re.canonical_spec(), im: self.im.canonical_spec() }
    }

    /// The complex conjugate.
    pub fn conj(self) -> (r: Complex)
        ensures
            r == self.conj_spec(),
            r.re == self.re,
            r.im.units() == -self.im.units(),
            r.im.nan() == self.im.nan(),
    {
        Complex { re: self.re, im: self.im.neg() }
    }

    /// The number as the logarithm reads it, with positive zero in place of negative zero in
    /// either part.
    pub fn canonical(self) -> (r: Complex)
        ensures
            r == self.canonical_spec(),
            r.re.units() == self.re.units(),
            r.im.units() == self.im.units(),
            r.re.zero() ==> r.re.bits == 0,
            r.im.zero() ==> r.im.bits == 0,
            r.canonical_spec() == r,
    {
        Complex { re: self.re.canonical(), im: self.im.canonical() }
    }
}

/// A complex number with its squared modulus, as the caller's arithmetic rounded it.
#[derive(Clone, Copy, Debug, PartialEq, Eq, Structural)]
pub struct Normed {
    pub z: Complex,
    pub norm_sqr: Double,
}

impl Normed {
    /// The conjugate, whose squared modulus is the same.
    pub open spec fn conj_spec(self) -> Normed {
        Normed { z: self.z.conj_spec(), norm_sqr: self.norm_sqr }
    }
}

/// A complex number with its squared modulus, its phase, and the squared modulus of its
/// logarithm, each as the caller's arithmetic rounded it.
#[derive(Clone, Copy, Debug, PartialEq, Eq, Structural)]
pub struct Polar {
    pub z: Complex,
    pub norm_sqr: Double,
    pub arg: Double,
    pub log_norm_sqr: Double,
}

} // verus!
