//! The dilogarithm: closed-form values and the choice of expansion.

use vstd::prelude::*;
use crate::complex::{Complex, Normed};
use crate::double::{
    two_to, lemma_landmarks, lemma_units_of_order, Double, EPSILON, HALF, INFINITY, ONE, TWO,
};

verus! {

/// The pattern of π²/6 as double-precision arithmetic gives it from π, the dilogarithm of one.
pub const PI_SQUARED_OVER_6: u64 = 0x3ffa_51a6_6253_07d3;

/// The pattern of -π²/12 as double-precision arithmetic gives it from π, the dilogarithm of
/// minus one.
pub const MINUS_PI_SQUARED_OVER_12: u64 = 0xbfea_51a6_6253_07d3;

/// The dilogarithm of a number, as far as it is decided without rounding: a `T` holds the
/// value where it is known in closed form, and elsewhere names the expansion that gives it.
pub trait Li2<T> {
    spec fn li2_spec(&self) -> T;

    fn li2(&self) -> (value: T)
        ensures
            value == self.li2_spec(),
    ;
}

/// The six stretches of the real line, each with its own reduction of the argument `x` to a
/// variable `y` in the unit interval for the Chebyshev series, a sign `s` and an additive
/// term `a`.
#[derive(Clone, Copy, Debug, PartialEq, Eq, Structural)]
pub enum RealRegion {
    /// 2 <= x: y = 1/(x - 1), a = -π²/3 + (ln² x - ln²(1 - 1/x))/2.
    FromTwo,
    /// 1 < x < 2: y = x - 1, a = -π²/6 + ln x (ln x + ln(1 - 1/x)).
    OneToTwo,
    /// 1/2 <= x <= 1: y = (1 - x)/x, a = -π²/6 + ln x (ln(1 - x) - (ln x)/2).
    HalfToOne,
    /// 0 < x < 1/2: y = x/(1 - x), a = ln²(1 - x)/2.
    ZeroToHalf,
    /// -1 <= x <= 0: y = -x, a = 0.
    MinusOneToZero,
    /// x < -1, and what is not a number: y = -1/x, a = π²/6 + ln²(-x)/2.
    BelowMinusOne,
}

impl RealRegion {
    /// The sign `s` of the series in the result `-(s * series + a)`.
    pub open spec fn sign_spec(self) -> int {
        match self {
            RealRegion::FromTwo | RealRegion::HalfToOne | RealRegion::MinusOneToZero => 1,
            RealRegion::OneToTwo | RealRegion::ZeroToHalf | RealRegion::BelowMinusOne => -1,
        }
    }

    /// The region of a number.
    pub open spec fn of(x: Double) -> RealRegion {
        if x.nan() {
            RealRegion::BelowMinusOne
        } else if x.units() >= two_to(1) {
            RealRegion::FromTwo
        } else if x.units() > two_to(0) {
            RealRegion::OneToTwo
        } else if x.units() >= two_to(-1) {
            RealRegion::HalfToOne
        } else if x.units() > 0 {
            RealRegion::ZeroToHalf
        } else if x.units() >= -two_to(0) {
            RealRegion::MinusOneToZero
        } else {
            RealRegion::BelowMinusOne
        }
    }

    /// The reduced variable `y` of an argument of `u` units, as a ratio of two counts of
    /// units: numerator and denominator.
    pub open spec fn reduced(self, u: int) -> (int, int) {
        let one = two_to(0);
        match self {
            RealRegion::FromTwo => (one, u - one),
            RealRegion::OneToTwo => (u - one, one),
            RealRegion::HalfToOne => (one - u, u),
            RealRegion::ZeroToHalf => (u, one - u),
            RealRegion::MinusOneToZero => (-u, one),
            RealRegion::BelowMinusOne => (one, -u),
        }
    }

    /// The sign `s` of the series.
    pub fn sign(self) -> (s: i8)
        ensures
            s == self.sign_spec(),
            s == 1 || s == -1,
    {
        match self {
            RealRegion::FromTwo | RealRegion::HalfToOne | RealRegion::MinusOneToZero => 1,
            RealRegion::OneToTwo | RealRegion::ZeroToHalf | RealRegion::BelowMinusOne => -1,
        }
    }

    /// Finds the region of `x` by comparing `-x` with -2, -1, -1/2, 0 and 1 in turn.
    pub fn locate(x: Double) -> (region: RealRegion)
        ensures
            region == RealRegion::of(x),
    {
        proof {
            lemma_landmarks();
        }
        let zero = Double { bits: 0 };
        let half = Double { bits: HALF };
        let one = Double { bits: ONE };
        let two = Double { bits: TWO };
        let t = x.neg();
        if t.le(two.neg()) {
            RealRegion::FromTwo
        } else if t.lt(one.neg()) {
            RealRegion::OneToTwo
        } else if t.le(half.neg()) {
            RealRegion::HalfToOne
        } else if t.lt(zero) {
            RealRegion::ZeroToHalf
        } else if t.le(one) {
            RealRegion::MinusOneToZero
        } else {
            RealRegion::BelowMinusOne
        }
    }
}

/// The dilogarithm of a real number, as far as it is had without rounding.
#[derive(Clone, Copy, Debug, PartialEq, Eq, Structural)]
pub enum RealDilog {
    /// The value itself, for an argument whose dilogarithm is known in closed form.
    Value(Double),
    /// The region whose reduction and series give the value.
    Series(RealRegion),
}

impl Li2<RealDilog> for Double {
    /// π²/6 at one and -π²/12 at minus one, where the reductions would take the logarithm of
    /// zero; everywhere else the series of the argument's region.
    open spec fn li2_spec(&self) -> RealDilog {
        if !self.nan() && self.units() == two_to(0) {
            RealDilog::Value(Double { bits: PI_SQUARED_OVER_6 })
        } else if !self.nan() && self.units() == -two_to(0) {
            RealDilog::Value(Double { bits: MINUS_PI_SQUARED_OVER_12 })
        } else {
            RealDilog::Series(RealRegion::of(*self))
        }
    }

    fn li2(&self) -> (value: RealDilog) {
        proof {
            lemma_landmarks();
        }
        let one = Double { bits: ONE };
        if self.equals(one) {
            RealDilog::Value(Double { bits: PI_SQUARED_OVER_6 })
        } else if self.equals(one.neg()) {
            RealDilog::Value(Double { bits: MINUS_PI_SQUARED_OVER_12 })
        } else {
            RealDilog::Series(RealRegion::locate(*self))
        }
    }
}

/// The three continuations of the complex dilogarithm into the region where its series in
/// `cz` converges fast, each with an additive term `cy`.
#[derive(Clone, Copy, Debug, PartialEq, Eq, Structural)]
pub enum Continuation {
    /// The argument as it is: cz = -ln(1 - z), cy = 0.
    Direct,
    /// Reflection z -> 1 - z: cz = -ln z, cy = cz ln(1 - z).
    Reflected,
    /// Inversion z -> 1/z: cz = -ln(1 - 1/z), cy = -ln²(-z)/2.
    Inverted,
}

impl Continuation {
    /// The sign of the series in the result.
    pub open spec fn sign_spec(self) -> int {
        match self {
            Continuation::Direct => 1,
            Continuation::Reflected | Continuation::Inverted => -1,
        }
    }

    /// How many times π²/12 is added to the result.
    pub open spec fn twelfths_spec(self) -> int {
        match self {
            Continuation::Direct => 0,
            Continuation::Reflected => 2,
            Continuation::Inverted => -2,
        }
    }

    /// The continuation for an argument with real part `re` and squared modulus `norm_sqr`.
    ///
    /// Left of Re z = 1/2 the unit disc is taken directly and the rest inverted. Right of it,
    /// the disc |z - 1| <= 1, which is |z|² <= 2 Re z, is reflected and the rest inverted.
    /// A comparison with what is not a number counts as failed.
    pub open spec fn of(re: Double, norm_sqr: Double) -> Continuation {
        if !re.nan() && re.units() <= two_to(-1) {
            if !norm_sqr.nan() && norm_sqr.units() > two_to(0) {
                Continuation::Inverted
            } else {
                Continuation::Direct
            }
        } else {
            if !norm_sqr.nan() && !re.nan() && norm_sqr.units() <= re.twice_units() {
                Continuation::Reflected
            } else {
                Continuation::Inverted
            }
        }
    }

    /// The sign of the series in the result.
    pub fn sign(self) -> (s: i8)
        ensures
            s == self.sign_spec(),
            s == 1 || s == -1,
    {
        match self {
            Continuation::Direct => 1,
            Continuation::Reflected | Continuation::Inverted => -1,
        }
    }

    /// How many times π²/12 is added to the result.
    pub fn twelfths(self) -> (n: i8)
        ensures
            n == self.twelfths_spec(),
            n == -2 || n == 0 || n == 2,
    {
        match self {
            Continuation::Direct => 0,
            Continuation::Reflected => 2,
            Continuation::Inverted => -2,
        }
    }

    /// Chooses the continuation for an argument with real part `re` and squared modulus
    /// `norm_sqr`.
    pub fn choose_for(re: Double, norm_sqr: Double) -> (c: Continuation)
        ensures
            c == Continuation::of(re, norm_sqr),
    {
        proof {
            lemma_landmarks();
        }
        let half = Double { bits: HALF };
        let one = Double { bits: ONE };
        if re.le(half) {
            if one.lt(norm_sqr) {
                Continuation::Inverted
            } else {
                Continuation::Direct
            }
        } else {
            if norm_sqr.le(re.twice()) {
                Continuation::Reflected
            } else {
                Continuation::Inverted
            }
        }
    }
}

/// The dilogarithm of a complex number, as far as it is had without rounding.
#[derive(Clone, Copy, Debug, PartialEq, Eq, Structural)]
pub enum ComplexDilog {
    /// On the real axis: the real part is the real dilogarithm of the argument's real part.
    /// The imaginary part is zero up to one and -π ln x beyond it, the value above the cut.
    OnAxis { real: RealDilog, beyond_one: bool },
    /// The value itself: the argument, where its square is below the precision.
    Value(Complex),
    /// The continuation whose series gives the value.
    Series(Continuation),
}

impl ComplexDilog {
    /// The conjugate of a value; what is still to be evaluated is left as it is.
    pub open spec fn conj_spec(self) -> ComplexDilog {
        match self {
            ComplexDilog::Value(z) => ComplexDilog::Value(z.conj_spec()),
            other => other,
        }
    }
}

impl Li2<ComplexDilog> for Normed {
    /// On the real axis the real dilogarithm decides. Off it, an argument whose squared
    /// modulus is below 2^-52 is its own dilogarithm to full precision, and every other
    /// argument gets the series of its continuation.
    open spec fn li2_spec(&self) -> ComplexDilog {
        if self.z.im.zero() {
            ComplexDilog::OnAxis {
                real: self.z.re.li2_spec(),
                beyond_one: self.z.re.nan() || self.z.re.units() > two_to(0),
            }
        } else if !self.norm_sqr.nan() && self.norm_sqr.units() < two_to(-52) {
            ComplexDilog::Value(self.z)
        } else {
            ComplexDilog::Series(Continuation::of(self.z.re, self.norm_sqr))
        }
    }

    fn li2(&self) -> (value: ComplexDilog) {
        proof {
            lemma_landmarks();
        }
        let one = Double { bits: ONE };
        let epsilon = Double { bits: EPSILON };
        if self.z.im.is_zero() {
            ComplexDilog::OnAxis { real: self.z.re.li2(), beyond_one: !self.z.re.le(one) }
        } else if self.norm_sqr.lt(epsilon) {
            ComplexDilog::Value(self.z)
        } else {
            ComplexDilog::Series(Continuation::choose_for(self.z.re, self.norm_sqr))
        }
    }
}

/// The reduction of a number's region takes the number into the unit interval, where the
/// Chebyshev series is valid: 0 <= y <= 1.
pub proof fn lemma_reduction_in_unit_interval(x: Double)
    requires
        !x.nan(),
    ensures
        RealRegion::of(x).reduced(x.units()).1 > 0,
        0 <= RealRegion::of(x).reduced(x.units()).0 <= RealRegion::of(x).reduced(x.units()).1,
{
    lemma_landmarks();
}

/// A continuation is chosen only where it takes the argument into the half of the unit disc
/// left of Re w = 1/2, where the series converges fast: directly for w = z, reflected for
/// w = 1 - z, with |w|² = 1 - 2 Re z + |z|², and inverted for w = 1/z, with |w|² = 1/|z|² and
/// Re w = Re z / |z|².
pub proof fn lemma_continuation_converges(re: Double, norm_sqr: Double)
    requires
        !re.nan(),
        !norm_sqr.nan(),
    ensures
        Continuation::of(re, norm_sqr) == Continuation::Direct ==> 2 * re.units() <= two_to(0)
            && norm_sqr.units() <= two_to(0),
        Continuation::of(re, norm_sqr) == Continuation::Reflected ==> 2 * re.units() > two_to(0)
            && norm_sqr.units() <= 2 * re.units(),
        Continuation::of(re, norm_sqr) == Continuation::Inverted ==> norm_sqr.units() > two_to(0)
            && norm_sqr.units() > 2 * re.units(),
{
    lemma_landmarks();
    lemma_units_of_order(norm_sqr.magnitude() as nat, INFINITY as nat);
}

/// On the real axis the complex dilogarithm agrees with the real one: its real part is the
/// real dilogarithm of the argument, and its imaginary part is zero for an argument up to
/// one and -π ln x for an argument beyond one.
pub proof fn lemma_real_axis_agrees(z: Normed)
    requires
        z.z.im.zero(),
    ensures
        z.li2_spec() is OnAxis,
        z.li2_spec()->real == z.z.re.li2_spec(),
        !z.z.re.nan() && z.z.re.units() <= two_to(0) ==> !z.li2_spec()->beyond_one,
        !z.z.re.nan() && z.z.re.units() > two_to(0) ==> z.li2_spec()->beyond_one,
{
}

/// Off the real axis, an argument whose squared modulus is below 2^-52 is returned unchanged:
/// the dilogarithm is z + z²/4 + ..., and the square is lost in rounding.
pub proof fn lemma_tiny_argument_unchanged(z: Normed)
    requires
        !z.z.im.zero(),
        !z.norm_sqr.nan(),
        z.norm_sqr.units() < two_to(-52),
    ensures
        z.li2_spec() == ComplexDilog::Value(z.z),
{
}

/// Conjugate arguments are treated alike: both get the same expansion, and where the value
/// is had without rounding, the value of the one is the conjugate of the value of the other.
pub proof fn lemma_conjugate_symmetry(z: Normed)
    ensures
        z.conj_spec().li2_spec() == z.li2_spec().conj_spec(),
{
}

} // verus!
