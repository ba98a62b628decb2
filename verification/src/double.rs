//! Double-precision numbers held by their bit patterns.
//!
//! A pattern is read as IEEE-754 binary64: one sign bit, eleven exponent bits and fifty-two
//! fraction bits. Every number it can stand for is a whole multiple of 2^-1074, so the
//! mathematical model of a pattern is an integer count of such units. The comparisons of this
//! module work on the patterns alone and are proved to agree with the order of those counts.

use vstd::prelude::*;
use vstd::arithmetic::power2::{
    pow2, lemma2_to64, lemma2_to64_rest, lemma_pow2_adds, lemma_pow2_pos,
    lemma_pow2_strictly_increases, lemma_pow2_unfold,
};

verus! {

/// The pattern whose only set bit is the sign.
pub const SIGN_BIT: u64 = 0x8000_0000_0000_0000;

/// The least pattern with a non-zero exponent field, 2^52: the weight of the exponent field
/// and the leading bit that a normal number has without storing it.
pub const HIDDEN_BIT: u64 = 0x0010_0000_0000_0000;

/// The pattern of positive infinity; every sign-free pattern above it is a NaN.
pub const INFINITY: u64 = 0x7ff0_0000_0000_0000;

/// The pattern of the number one.
pub const ONE: u64 = 0x3ff0_0000_0000_0000;

/// The pattern of the number two.
pub const TWO: u64 = 0x4000_0000_0000_0000;

/// The pattern of one half.
pub const HALF: u64 = 0x3fe0_0000_0000_0000;

/// The pattern of 2^-52, the gap between one and the next number above it.
pub const EPSILON: u64 = 0x3cb0_0000_0000_0000;

/// How many units of 2^-1074 a sign-free pattern stands for.
///
/// Below `HIDDEN_BIT` the pattern counts the units itself. From there on the fraction field
/// gets its leading bit back and each step of the exponent field doubles the count. The
/// pattern of infinity comes out as 2^2098, above every finite number.
pub open spec fn units_of(pattern: nat) -> nat {
    if pattern < HIDDEN_BIT {
        pattern
    } else {
        ((HIDDEN_BIT + pattern % (HIDDEN_BIT as nat)) * pow2(
            (pattern / (HIDDEN_BIT as nat) - 1) as nat,
        )) as nat
    }
}

/// The power of two 2^k in units of 2^-1074.
pub open spec fn two_to(k: int) -> int
    recommends
        -1074 <= k,
{
    pow2((k + 1074) as nat) as int
}

/// A pattern at or above `HIDDEN_BIT` lies between the power of two that its exponent field
/// names and the next one.
proof fn lemma_units_of_bounds(pattern: nat)
    requires
        pattern >= HIDDEN_BIT,
    ensures
        HIDDEN_BIT * pow2((pattern / (HIDDEN_BIT as nat) - 1) as nat) <= units_of(pattern),
        units_of(pattern) < HIDDEN_BIT * pow2((pattern / (HIDDEN_BIT as nat)) as nat),
{
    let e = pattern / (HIDDEN_BIT as nat);
    let f = pattern % (HIDDEN_BIT as nat);
    let p = pow2((e - 1) as nat);
    let h = HIDDEN_BIT as nat;
    lemma_pow2_unfold(e);
    lemma_pow2_pos((e - 1) as nat);
    assert(h * p <= (h + f) * p && (h + f) * p < h * (2 * p)) by (nonlinear_arith)
        requires
            0 <= f < h,
            p > 0,
    ;
}

/// A larger pattern stands for more units.
proof fn lemma_units_of_increases(a: nat, b: nat)
    requires
        a < b,
    ensures
        units_of(a) < units_of(b),
{
    let h = HIDDEN_BIT as nat;
    if b < h {
    } else if a < h {
        lemma_units_of_bounds(b);
        lemma_pow2_pos((b / h - 1) as nat);
        assert(h * pow2((b / h - 1) as nat) >= h) by (nonlinear_arith)
            requires
                pow2((b / h - 1) as nat) > 0,
        ;
    } else {
        let ea = a / h;
        let eb = b / h;
        if ea == eb {
            let p = pow2((ea - 1) as nat);
            let fa = a % h;
            let fb = b % h;
            lemma_pow2_pos((ea - 1) as nat);
            assert(fa < fb);
            assert((h + fa) * p < (h + fb) * p) by (nonlinear_arith)
                requires
                    fa < fb,
                    p > 0,
            ;
        } else {
            lemma_units_of_bounds(a);
            lemma_units_of_bounds(b);
            if ea < eb - 1 {
                lemma_pow2_strictly_increases(ea, (eb - 1) as nat);
            }
            assert(h * pow2(ea) <= h * pow2((eb - 1) as nat)) by (nonlinear_arith)
                requires
                    pow2(ea) <= pow2((eb - 1) as nat),
            ;
        }
    }
}

/// The order of two patterns is the order of the units they stand for.
pub proof fn lemma_units_of_order(a: nat, b: nat)
    ensures
        a < b <==> units_of(a) < units_of(b),
        a == b <==> units_of(a) == units_of(b),
        a <= b <==> units_of(a) <= units_of(b),
{
    if a < b {
        lemma_units_of_increases(a, b);
    }
    if b < a {
        lemma_units_of_increases(b, a);
    }
}

/// A pattern with an empty fraction field and exponent field `e` stands for 2^(e - 1023),
/// which is 2^(e + 51) units.
pub proof fn lemma_units_of_power(e: nat)
    requires
        e >= 1,
    ensures
        units_of((e * HIDDEN_BIT) as nat) == pow2(e + 51),
{
    let h = HIDDEN_BIT as nat;
    lemma2_to64_rest();
    lemma_pow2_adds(52, (e - 1) as nat);
    assert((e * h) / h == e && (e * h) % h == 0 && e * h >= h) by (nonlinear_arith)
        requires
            h > 0,
            e >= 1,
    ;
}

/// What the named patterns stand for: the powers of two 2^-52, 2^-1, 2^0 and 2^1, and for
/// infinity 2^1024, which no finite number reaches.
pub proof fn lemma_landmarks()
    ensures
        units_of(EPSILON as nat) == two_to(-52),
        units_of(HALF as nat) == two_to(-1),
        units_of(ONE as nat) == two_to(0),
        units_of(TWO as nat) == two_to(1),
        units_of(INFINITY as nat) == two_to(1024),
        two_to(1) == 2 * two_to(0),
        two_to(0) == 2 * two_to(-1),
        0 < two_to(-52) < two_to(-1),
{
    lemma_units_of_power(971);
    lemma_units_of_power(1022);
    lemma_units_of_power(1023);
    lemma_units_of_power(1024);
    lemma_units_of_power(2047);
    lemma_pow2_unfold(1075);
    lemma_pow2_unfold(1074);
    lemma_pow2_pos(1022);
    lemma_pow2_strictly_increases(1022, 1073);
}

/// Doubling in patterns: below `HIDDEN_BIT` the pattern doubles, from there on the exponent
/// field goes up by one, and from the last finite exponent on the result is infinity.
proof fn lemma_units_of_doubled(b: nat)
    requires
        b <= INFINITY,
    ensures
        b < HIDDEN_BIT ==> units_of(2 * b) == 2 * units_of(b),
        HIDDEN_BIT <= b < INFINITY - HIDDEN_BIT ==> units_of((b + HIDDEN_BIT) as nat) == 2
            * units_of(b),
        b < INFINITY - HIDDEN_BIT ==> 2 * units_of(b) < two_to(1024),
        b >= INFINITY - HIDDEN_BIT ==> 2 * units_of(b) >= two_to(1024),
{
    let h = HIDDEN_BIT as nat;
    lemma_landmarks();
    lemma_units_of_power(2046);
    lemma_pow2_unfold(2098);
    lemma_units_of_order((INFINITY - HIDDEN_BIT) as nat, b);
    if b < h {
        lemma2_to64();
        lemma_units_of_order(2 * b, (INFINITY - HIDDEN_BIT) as nat);
        if 2 * b >= h {
            assert((2 * b) / h == 1 && (2 * b) % h == 2 * b - h);
            assert(units_of(2 * b) == ((h + (2 * b - h)) * pow2(0)) as nat);
        }
    } else if b < INFINITY - HIDDEN_BIT {
        let e = b / h;
        let f = b % h;
        let p = pow2((e - 1) as nat);
        lemma_pow2_unfold(e);
        assert((b + h) / h == e + 1 && (b + h) % h == f);
        assert((h + f) * (2 * p) == 2 * ((h + f) * p)) by (nonlinear_arith);
        lemma_units_of_order(b, (INFINITY - HIDDEN_BIT) as nat);
    }
}

/// A double-precision number, given by its bit pattern.
///
/// `==` on this type compares patterns: it tells the two zeros apart and a NaN equals itself.
/// The comparisons of numbers are `equals`, `lt` and `le`.
#[derive(Clone, Copy, Debug, PartialEq, Eq, Structural)]
pub struct Double {
    pub bits: u64,
}

impl Double {
    /// Whether the sign bit is set.
    pub open spec fn negative(self) -> bool {
        self.bits >= SIGN_BIT
    }

    /// The pattern without its sign bit.
    pub open spec fn magnitude(self) -> u64 {
        if self.bits >= SIGN_BIT {
            (self.bits - SIGN_BIT) as u64
        } else {
            self.bits
        }
    }

    /// Whether the pattern stands for no number.
    pub open spec fn nan(self) -> bool {
        self.magnitude() > INFINITY
    }

    /// Whether the pattern is one of the two zeros.
    pub open spec fn zero(self) -> bool {
        self.magnitude() == 0
    }

    /// The number in units of 2^-1074; for an infinity, 2^2098 units with its sign.
    /// It says nothing of a NaN.
    pub open spec fn units(self) -> int {
        if self.negative() {
            -(units_of(self.magnitude() as nat) as int)
        } else {
            units_of(self.magnitude() as nat) as int
        }
    }

    /// Twice the number as rounded arithmetic gives it, in units: exact, but for a product
    /// beyond the finite range, which becomes the infinity of its sign.
    pub open spec fn twice_units(self) -> int {
        let exact = 2 * self.units();
        if exact > two_to(1024) {
            two_to(1024)
        } else if exact < -two_to(1024) {
            -two_to(1024)
        } else {
            exact
        }
    }

    /// Equality of numbers: false as soon as one side is a NaN, true of the two zeros.
    pub open spec fn equals_spec(self, other: Double) -> bool {
        !self.nan() && !other.nan() && self.units() == other.units()
    }

    /// The strict order of numbers: false as soon as one side is a NaN.
    pub open spec fn lt_spec(self, other: Double) -> bool {
        !self.nan() && !other.nan() && self.units() < other.units()
    }

    /// The order of numbers: false as soon as one side is a NaN.
    pub open spec fn le_spec(self, other: Double) -> bool {
        !self.nan() && !other.nan() && self.units() <= other.units()
    }

    /// The number with the other sign. It keeps a NaN a NaN.
    pub open spec fn neg_spec(self) -> Double {
        Double {
            bits: if self.bits >= SIGN_BIT {
                (self.bits - SIGN_BIT) as u64
            } else {
                (self.bits + SIGN_BIT) as u64
            },
        }
    }

    /// The same number, with positive zero in place of a zero of either sign.
    pub open spec fn canonical_spec(self) -> Double {
        if self.zero() {
            Double { bits: 0 }
        } else {
            self
        }
    }

    /// Whether the sign bit is set; true of negative zero too.
    pub fn is_negative(self) -> (r: bool)
        ensures
            r == self.negative(),
    {
        self.bits >= SIGN_BIT
    }

    /// The pattern of the absolute value.
    pub fn abs_bits(self) -> (r: u64)
        ensures
            r == self.magnitude(),
            r < SIGN_BIT,
    {
        if self.bits >= SIGN_BIT {
            self.bits - SIGN_BIT
        } else {
            self.bits
        }
    }

    /// Whether this is not a number.
    pub fn is_nan(self) -> (r: bool)
        ensures
            r == self.nan(),
    {
        self.abs_bits() > INFINITY
    }

    /// Whether this is zero, of either sign.
    pub fn is_zero(self) -> (r: bool)
        ensures
            r == self.zero(),
            r == (self.units() == 0),
    {
        proof {
            lemma_units_of_order(0, self.magnitude() as nat);
        }
        self.abs_bits() == 0
    }

    /// The number with the other sign.
    pub fn neg(self) -> (r: Double)
        ensures
            r == self.neg_spec(),
            r.magnitude() == self.magnitude(),
            r.negative() != self.negative(),
            r.nan() == self.nan(),
            r.units() == -self.units(),
    {
        let bits: u64 = self.bits;
        let flipped: u64 = bits ^ SIGN_BIT;
        assert(flipped == if bits >= 0x8000_0000_0000_0000u64 {
            (bits - 0x8000_0000_0000_0000u64) as u64
        } else {
            (bits + 0x8000_0000_0000_0000u64) as u64
        }) by (bit_vector)
            requires
                flipped == bits ^ 0x8000_0000_0000_0000u64,
        ;
        Double { bits: flipped }
    }

    /// The same number, with positive zero in place of negative zero.
    pub fn canonical(self) -> (r: Double)
        ensures
            r == self.canonical_spec(),
            r.nan() == self.nan(),
            r.units() == self.units(),
            r.zero() ==> r.bits == 0,
            r.canonical_spec() == r,
    {
        if self.is_zero() {
            Double { bits: 0 }
        } else {
            self
        }
    }

    /// Whether this number is at most the other.
    pub fn le(self, other: Double) -> (r: bool)
        ensures
            r == self.le_spec(other),
    {
        if self.is_nan() || other.is_nan() {
            return false;
        }
        let a: u64 = self.abs_bits();
        let b: u64 = other.abs_bits();
        proof {
            lemma_units_of_order(a as nat, b as nat);
            lemma_units_of_order(0, a as nat);
            lemma_units_of_order(0, b as nat);
        }
        if self.is_negative() {
            if other.is_negative() {
                b <= a
            } else {
                true
            }
        } else {
            if other.is_negative() {
                a == 0 && b == 0
            } else {
                a <= b
            }
        }
    }

    /// Whether this number is below the other.
    pub fn lt(self, other: Double) -> (r: bool)
        ensures
            r == self.lt_spec(other),
    {
        if self.is_nan() || other.is_nan() {
            return false;
        }
        !other.le(self)
    }

    /// Whether the two are the same number.
    pub fn equals(self, other: Double) -> (r: bool)
        ensures
            r == self.equals_spec(other),
    {
        self.le(other) && other.le(self)
    }

    /// Twice the number, as rounded arithmetic gives it. A NaN comes back as it is.
    pub fn twice(self) -> (r: Double)
        ensures
            r.nan() == self.nan(),
            r.negative() == self.negative(),
            self.nan() ==> r == self,
            !self.nan() ==> r.units() == self.twice_units(),
    {
        if self.is_nan() {
            return self;
        }
        let b: u64 = self.abs_bits();
        let doubled: u64 = if b < HIDDEN_BIT {
            2 * b
        } else if b >= INFINITY - HIDDEN_BIT {
            INFINITY
        } else {
            b + HIDDEN_BIT
        };
        proof {
            lemma_units_of_doubled(b as nat);
            lemma_landmarks();
        }
        Double { bits: if self.is_negative() { doubled + SIGN_BIT } else { doubled } }
    }
}

} // verus!
