//! The fourth-order polylogarithm: closed-form values and the choice of expansion.

use vstd::prelude::*;
use crate::complex::{Complex, Polar};
use crate::double::{two_to, lemma_landmarks, Double, ONE};

verus! {

/// The pattern of ζ(4) = π⁴/90, the fourth-order polylogarithm of one.
pub const ZETA_4: u64 = 0x3ff1_5132_2ac7_d847;

/// The pattern of -7/8 ζ(4), the fourth-order polylogarithm of minus one.
pub const MINUS_SEVEN_EIGHTHS_ZETA_4: u64 = 0xbfee_4e17_cadd_ba7c;

/// The fourth-order polylogarithm of a number, as far as it is decided without rounding:
/// a `T` holds the value where it is known in closed form, and elsewhere names the expansion
/// that gives it.
pub trait Li4<T> {
    spec fn li4_spec(&self) -> T;

    fn li4(&self) -> (value: T)
        ensures
            value == self.li4_spec(),
    ;
}

/// How the phase of `-z` is had from the phase of `z`: by the shift that keeps it between
/// -π and π, so that the logarithm of `-z` is cut along the positive real axis only.
#[derive(Clone, Copy, Debug, PartialEq, Eq, Structural)]
pub enum Shift {
    /// arg(-z) = arg z - π, for a phase above zero.
    MinusPi,
    /// arg(-z) = arg z + π, for every other phase.
    PlusPi,
}

/// The two sides of the unit circle, each with its variable `u` for the power series, a sign
/// for the series and a remainder.
#[derive(Clone, Copy, Debug, PartialEq, Eq, Structural)]
pub enum Side {
    /// |z|² <= 1: u = -ln(1 - z), no remainder.
    Inside,
    /// Inversion z -> 1/z for every other argument: u = -ln(1 - 1/z), and the remainder
    /// (-7π⁴ + l²(-30π² - 15 l²))/360 in l = ln(-z), whose phase is shifted as told.
    Outside(Shift),
}

impl Side {
    /// The sign of the series in the result `remainder + sign * series`.
    pub open spec fn sign_spec(self) -> int {
        match self {
            Side::Inside => 1,
            Side::Outside(_) => -1,
        }
    }

    /// The side for a squared modulus and a phase. A comparison with what is not a number
    /// counts as failed.
    pub open spec fn of(norm_sqr: Double, arg: Double) -> Side {
        if !norm_sqr.nan() && norm_sqr.units() <= two_to(0) {
            Side::Inside
        } else if !arg.nan() && arg.units() > 0 {
            Side::Outside(Shift::MinusPi)
        } else {
            Side::Outside(Shift::PlusPi)
        }
    }

    /// The sign of the series in the result.
    pub fn sign(self) -> (s: i8)
        ensures
            s == self.sign_spec(),
            s == 1 || s == -1,
    {
        match self {
            Side::Inside => 1,
            Side::Outside(_) => -1,
        }
    }

    /// Chooses the side for a squared modulus and a phase.
    pub fn choose_for(norm_sqr: Double, arg: Double) -> (side: Side)
        ensures
            side == Side::of(norm_sqr, arg),
    {
        proof {
            lemma_landmarks();
        }
        let zero = Double { bits: 0 };
        let one = Double { bits: ONE };
        if norm_sqr.le(one) {
            Side::Inside
        } else if zero.lt(arg) {
            Side::Outside(Shift::MinusPi)
        } else {
            Side::Outside(Shift::PlusPi)
        }
    }
}

/// The fourth-order polylogarithm of a complex number, as far as it is had without rounding.
#[derive(Clone, Copy, Debug, PartialEq, Eq, Structural)]
pub enum Tetralog {
    /// The value itself, for an argument whose polylogarithm is known in closed form.
    Value(Complex),
    /// |ln z| < 1: the expansion around one, a series in u = ln z, whose coefficient of u³ is
    /// (11/6 - ln(-u))/6.
    NearOne,
    /// The power series of the argument's side of the unit circle.
    Series(Side),
}

impl Li4<Tetralog> for Polar {
    /// Zero at zero, ζ(4) at one and -7/8 ζ(4) at minus one. Every other argument goes by
    /// the size of its logarithm: below one the expansion around one, else the power series.
    open spec fn li4_spec(&self) -> Tetralog {
        let re = self.z.re;
        if self.z.im.zero() && re.zero() {
            Tetralog::Value(Complex { re: Double { bits: 0 }, im: Double { bits: 0 } })
        } else if self.z.im.zero() && !re.nan() && re.units() == two_to(0) {
            Tetralog::Value(Complex { re: Double { bits: ZETA_4 }, im: Double { bits: 0 } })
        } else if self.z.im.zero() && !re.nan() && re.units() == -two_to(0) {
            Tetralog::Value(
                Complex { re: Double { bits: MINUS_SEVEN_EIGHTHS_ZETA_4 }, im: Double { bits: 0 } },
            )
        } else if !self.log_norm_sqr.nan() && self.log_norm_sqr.units() < two_to(0) {
            Tetralog::NearOne
        } else {
            Tetralog::Series(Side::of(self.norm_sqr, self.arg))
        }
    }

    fn li4(&self) -> (value: Tetralog) {
        proof {
            lemma_landmarks();
        }
        let zero = Double { bits: 0 };
        let one = Double { bits: ONE };
        let re = self.z.re;
        if self.z.im.is_zero() {
            if re.is_zero() {
                return Tetralog::Value(Complex { re: zero, im: zero });
            }
            if re.equals(one) {
                return Tetralog::Value(Complex { re: Double { bits: ZETA_4 }, im: zero });
            }
            if re.equals(one.neg()) {
                return Tetralog::Value(
                    Complex { re: Double { bits: MINUS_SEVEN_EIGHTHS_ZETA_4 }, im: zero },
                );
            }
        }
        if self.log_norm_sqr.lt(one) {
            Tetralog::NearOne
        } else {
            Tetralog::Series(Side::choose_for(self.norm_sqr, self.arg))
        }
    }
}

} // verus!
