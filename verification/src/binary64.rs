//! Values of the IEEE 754 double format, in integer arithmetic.
//!
//! A double is carried by its 64-bit pattern. The operations here give,
//! bit for bit, what the format's round-to-nearest, ties-to-even
//! arithmetic gives; they are stated over exact quotients of natural
//! numbers.

use crate::rounding::{
    lemma_width_above, lemma_width_at_most, nearest, nearest_integer, nearest_ratio,
    power_of_two, width, Float, TWO_52, TWO_53,
};
use vstd::arithmetic::power2::{
    lemma2_to64, lemma2_to64_rest, lemma_pow2_adds, lemma_pow2_pos, lemma_pow2_strictly_increases,
    lemma_pow2_unfold, pow2,
};
use vstd::prelude::*;

verus! {

/// Two to the 63rd: the weight of the sign bit.
pub const SIGN_BIT: u64 = 0x8000_0000_0000_0000;

/// A value of the IEEE 754 double format, carried by its bit pattern.
#[derive(Clone, Copy, Debug, PartialEq, Eq, Structural)]
pub struct Binary64 {
    pub bits: u64,
}

impl Binary64 {
    /// Whether the sign bit is set.
    pub open spec fn negative(self) -> bool {
        self.bits >= SIGN_BIT
    }

    /// The biased exponent: the eleven bits below the sign.
    pub open spec fn biased_exponent(self) -> nat {
        ((self.bits / TWO_52) % 2048) as nat
    }

    /// The fraction: the low 52 bits.
    pub open spec fn fraction(self) -> nat {
        (self.bits % TWO_52) as nat
    }

    /// Whether the pattern is not a number.
    pub open spec fn is_nan(self) -> bool {
        self.biased_exponent() == 2047 && self.fraction() != 0
    }

    /// The absolute value times `2^1074`, which is a natural number for
    /// every finite double; an infinity gets a number above all of them.
    pub open spec fn magnitude(self) -> nat {
        if self.biased_exponent() == 0 {
            self.fraction()
        } else {
            ((TWO_52 + self.fraction()) * pow2((self.biased_exponent() - 1) as nat)) as nat
        }
    }

    /// The value times `2^1074`, with its sign.
    pub open spec fn value(self) -> int {
        if self.negative() {
            -(self.magnitude() as int)
        } else {
            self.magnitude() as int
        }
    }

    /// Whether `self >= other` as IEEE 754 compares: false where either is
    /// not a number, else by value.
    pub open spec fn ge(self, other: Binary64) -> bool {
        !self.is_nan() && !other.is_nan() && self.value() >= other.value()
    }

    /// The double with the given bit pattern.
    pub fn from_bits(bits: u64) -> (x: Binary64)
        ensures
            x.bits == bits,
    {
        Binary64 { bits }
    }

    /// The bit pattern.
    pub fn to_bits(&self) -> (bits: u64)
        ensures
            bits == self.bits,
    {
        self.bits
    }

    /// Whether the pattern is not a number.
    pub fn not_a_number(&self) -> (b: bool)
        ensures
            b == self.is_nan(),
    {
        (self.bits / TWO_52) % 2048 == 2047 && self.bits % TWO_52 != 0
    }

    /// Whether `self >= other`, as [`Binary64::ge`] says.
    pub fn at_least(&self, other: &Binary64) -> (b: bool)
        ensures
            b == self.ge(*other),
    {
        if self.not_a_number() || other.not_a_number() {
            return false;
        }
        let x: u64 = self.bits % SIGN_BIT;
        let y: u64 = other.bits % SIGN_BIT;
        proof {
            if x < y {
                lemma_magnitude_order(Binary64 { bits: x }, Binary64 { bits: y });
            }
            if y < x {
                lemma_magnitude_order(Binary64 { bits: y }, Binary64 { bits: x });
            }
            if x > 0 {
                lemma_magnitude_order(Binary64 { bits: 0 }, Binary64 { bits: x });
            }
            if y > 0 {
                lemma_magnitude_order(Binary64 { bits: 0 }, Binary64 { bits: y });
            }
            assert((Binary64 { bits: 0 }).magnitude() == 0);
            lemma_magnitude_ignores_sign(*self);
            lemma_magnitude_ignores_sign(*other);
        }
        if self.bits < SIGN_BIT {
            if other.bits < SIGN_BIT {
                x >= y
            } else {
                true
            }
        } else {
            if other.bits < SIGN_BIT {
                x == 0 && y == 0
            } else {
                x <= y
            }
        }
    }
}

/// The magnitude does not depend on the sign bit.
pub proof fn lemma_magnitude_ignores_sign(x: Binary64)
    ensures
        (Binary64 { bits: (x.bits % SIGN_BIT) as u64 }).magnitude() == x.magnitude(),
{
    let y = Binary64 { bits: (x.bits % SIGN_BIT) as u64 };
    assert(y.bits / TWO_52 % 2048 == x.bits / TWO_52 % 2048);
    assert(y.bits % TWO_52 == x.bits % TWO_52);
}

/// Among patterns without the sign bit, a smaller pattern has a smaller
/// magnitude.
pub proof fn lemma_magnitude_order(x: Binary64, y: Binary64)
    requires
        x.bits < y.bits < SIGN_BIT,
    ensures
        x.magnitude() < y.magnitude(),
{
    let ex = x.biased_exponent();
    let ey = y.biased_exponent();
    let fx = x.fraction();
    let fy = y.fraction();
    assert(x.bits == ex * TWO_52 + fx);
    assert(y.bits == ey * TWO_52 + fy);
    assert(ex <= ey);
    let py = pow2((ey - 1) as nat);
    if ex == ey {
        if ex != 0 {
            lemma_pow2_pos((ey - 1) as nat);
            assert((TWO_52 + fx) * py < (TWO_52 + fy) * py) by (nonlinear_arith)
                requires
                    fx < fy,
                    py > 0,
            ;
        }
    } else {
        lemma_pow2_pos((ey - 1) as nat);
        assert(TWO_52 * py <= (TWO_52 + fy) * py) by (nonlinear_arith)
            requires
                py > 0,
                fy >= 0,
        ;
        if ex == 0 {
            assert(TWO_52 <= TWO_52 * py) by (nonlinear_arith)
                requires
                    py >= 1,
            ;
        } else {
            let px = pow2((ex - 1) as nat);
            lemma_pow2_pos((ex - 1) as nat);
            lemma_pow2_unfold(ex);
            if ex < ey - 1 {
                lemma_pow2_strictly_increases(ex, (ey - 1) as nat);
            }
            assert(pow2(ex) <= py);
            assert((TWO_52 + fx) * px < TWO_52 * (2 * px)) by (nonlinear_arith)
                requires
                    fx < TWO_52,
                    px > 0,
            ;
            assert(TWO_52 * pow2(ex) <= TWO_52 * py) by (nonlinear_arith)
                requires
                    pow2(ex) <= py,
            ;
        }
    }
}

/// The value `f` with its exponent raised by `by`.
pub open spec fn shifted(f: Float, by: int) -> Float {
    Float { mantissa: f.mantissa, exponent: f.exponent + by }
}

/// The double nearest to the positive integer `n`.
pub open spec fn from_integer(n: nat) -> Float {
    nearest(n, 1)
}

/// The double nearest to the quotient of two positive doubles.
pub open spec fn quotient(a: Float, b: Float) -> Float {
    shifted(nearest(a.mantissa, b.mantissa), a.exponent - b.exponent)
}

/// The double nearest to a hundred times a positive double.
pub open spec fn times_hundred(a: Float) -> Float {
    shifted(nearest(a.mantissa * 100, 1), a.exponent)
}

/// The significand and exponent of the double that `percent_bits` encodes.
pub open spec fn percent_float(part: nat, whole: nat) -> Float {
    times_hundred(quotient(from_integer(part), from_integer(whole)))
}

/// The bit pattern of the positive normal double `f`.
pub open spec fn encode(f: Float) -> nat {
    ((f.exponent + 1075) * TWO_52 + (f.mantissa - TWO_52)) as nat
}

/// The bit pattern of `part as double / whole as double * 100.0`, each
/// step rounded to the nearest double; for `whole` above zero.
pub open spec fn percent_bits(part: nat, whole: nat) -> nat {
    if part == 0 {
        0
    } else {
        encode(percent_float(part, whole))
    }
}

/// Computes [`percent_float`].
fn percent_parts(part: u64, whole: u64) -> (r: (u64, i32))
    requires
        part > 0,
        whole > 0,
    ensures
        (Float { mantissa: r.0 as nat, exponent: r.1 as int }) == percent_float(
            part as nat,
            whole as nat,
        ),
        TWO_52 <= r.0 < TWO_53,
        -120 <= r.1 <= 22,
{
    proof {
        lemma2_to64();
        lemma2_to64_rest();
        assert(width(1) == 1) by {
            assert(width(0) == 0);
        }
    }
    let (ma, ea) = nearest_ratio(part as u128, 1);
    let (mb, eb) = nearest_ratio(whole as u128, 1);
    proof {
        lemma_width_at_most(ma as nat, 53);
        lemma_width_above(ma as nat, 52);
        lemma_width_at_most(mb as nat, 53);
        lemma_width_above(mb as nat, 52);
    }
    let (mq, kq) = nearest_ratio(ma as u128, mb as u128);
    let eq: i32 = ea - eb + kq;
    let scaled: u128 = mq as u128 * 100;
    proof {
        assert(scaled >= pow2(58));
        assert(scaled < pow2(60));
        lemma_width_at_most(scaled as nat, 60);
        lemma_width_above(scaled as nat, 58);
    }
    let (mp, kp) = nearest_ratio(scaled, 1);
    (mp, eq + kp)
}

/// The bit pattern of `part as double / whole as double * 100.0`, as
/// [`percent_bits`] says. The quotient is not formed for a zero `whole`.
pub fn percent(part: u64, whole: u64) -> (p: Binary64)
    requires
        whole > 0,
    ensures
        p.bits == percent_bits(part as nat, whole as nat),
        !p.is_nan(),
        !p.negative(),
{
    if part == 0 {
        return Binary64 { bits: 0 };
    }
    let (m, e) = percent_parts(part, whole);
    let biased: u64 = (e + 1075) as u64;
    let bits: u64 = biased * TWO_52 + (m - TWO_52);
    proof {
        let p = Binary64 { bits };
        assert(bits / TWO_52 == biased);
        assert(p.biased_exponent() == biased);
    }
    Binary64 { bits }
}

/// The positive double `f` in hundredths, rounded to the nearest whole
/// number of them, a tie going to the even one.
pub open spec fn hundredths(f: Float) -> nat {
    if f.exponent >= 0 {
        f.mantissa * 100 * pow2(f.exponent as nat)
    } else {
        nearest_integer(f.mantissa * 100, pow2((-f.exponent) as nat))
    }
}

/// The percentage of [`percent_bits`] in hundredths of a percent, rounded
/// as two decimal places are printed.
pub open spec fn percent_hundredths(part: nat, whole: nat) -> nat {
    if part == 0 {
        0
    } else {
        hundredths(percent_float(part, whole))
    }
}

/// Computes [`percent_hundredths`]. The quotient is not formed for a zero
/// `whole`.
pub fn percent_in_hundredths(part: u64, whole: u64) -> (h: u128)
    requires
        whole > 0,
    ensures
        h == percent_hundredths(part as nat, whole as nat),
{
    if part == 0 {
        return 0;
    }
    let (m, e) = percent_parts(part, whole);
    let scaled: u128 = m as u128 * 100;
    if e >= 0 {
        let p = power_of_two(e as u32);
        proof {
            lemma2_to64();
            if e < 22 {
                lemma_pow2_strictly_increases(e as nat, 22);
            }
            assert(scaled * p < 0x1_0000_0000_0000_0000_0000_0000) by (nonlinear_arith)
                requires
                    scaled < 0x1000_0000_0000_0000,
                    p <= 0x40_0000,
            ;
        }
        scaled * p
    } else {
        let p = power_of_two((-e) as u32);
        proof {
            lemma_pow2_pos((-e) as nat);
            lemma2_to64();
            lemma_pow2_adds(64, 56);
            if -e < 120 {
                lemma_pow2_strictly_increases((-e) as nat, 120);
            }
            lemma_pow2_adds(64, 32);
            lemma_pow2_adds(96, 24);
        }
        let q: u128 = scaled / p;
        let r: u128 = scaled % p;
        if 2 * r > p || (2 * r == p && q % 2 == 1) {
            q + 1
        } else {
            q
        }
    }
}

} // verus!
