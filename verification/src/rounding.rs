//! Rounding a quotient of natural numbers to a 53-bit significand, to the
//! nearest value with ties to the even one.

use vstd::arithmetic::power2::{
    lemma2_to64, lemma2_to64_rest, lemma_pow2_adds, lemma_pow2_pos, lemma_pow2_strictly_increases,
    lemma_pow2_unfold, pow2,
};
use vstd::prelude::*;

verus! {

/// Two to the 52nd: the least significand of a normal value.
pub const TWO_52: u64 = 0x10_0000_0000_0000;

/// Two to the 53rd: the bound of the significands.
pub const TWO_53: u64 = 0x20_0000_0000_0000;

/// The quotient `n / d` rounded to the nearest integer, a tie going to the
/// even neighbour.
pub open spec fn nearest_integer(n: nat, d: nat) -> nat {
    let q = n / d;
    let r = n % d;
    if 2 * r > d || (2 * r == d && q % 2 == 1) {
        q + 1
    } else {
        q
    }
}

/// The distance between `x` and `y`.
pub open spec fn gap(x: int, y: int) -> nat {
    if x >= y {
        (x - y) as nat
    } else {
        (y - x) as nat
    }
}

/// [`nearest_integer`] is what it is called: no integer `z` is nearer to
/// `n / d`, the quotient is missed by at most a half, and where it lies
/// in the middle between two integers the even one is taken.
pub proof fn lemma_nearest_integer_is_nearest(n: nat, d: nat, z: int)
    requires
        d > 0,
    ensures
        gap((nearest_integer(n, d) * d) as int, n as int) <= gap(z * d, n as int),
        2 * gap((nearest_integer(n, d) * d) as int, n as int) <= d,
        2 * (n % d) == d ==> nearest_integer(n, d) % 2 == 0,
        n / d <= nearest_integer(n, d) <= n / d + 1,
{
    let q = (n / d) as int;
    let r = (n % d) as int;
    vstd::arithmetic::div_mod::lemma_fundamental_div_mod(n as int, d as int);
    vstd::arithmetic::div_mod::lemma_mod_bound(n as int, d as int);
    assert(n == d * q + r);
    assert((q + 1) * d == d * q + d) by (nonlinear_arith);
    assert(q * d == d * q) by (nonlinear_arith);
    if z <= q {
        assert(z * d <= q * d) by (nonlinear_arith)
            requires
                z <= q,
                d > 0,
        ;
    } else {
        assert(z * d >= (q + 1) * d) by (nonlinear_arith)
            requires
                z >= q + 1,
                d > 0,
        ;
    }
}

/// The number of binary digits of `n`; zero has none.
pub open spec fn width(n: nat) -> nat
    decreases n,
{
    if n == 0 {
        0
    } else {
        1 + width(n / 2)
    }
}

/// The value `mantissa * 2^exponent`.
pub ghost struct Float {
    pub mantissa: nat,
    pub exponent: int,
}

/// The numerator of `(n / d) / 2^k` as a quotient of natural numbers.
pub open spec fn scaled_num(n: nat, k: int) -> nat {
    if k < 0 {
        n * pow2((-k) as nat)
    } else {
        n
    }
}

/// The denominator of `(n / d) / 2^k` as a quotient of natural numbers.
pub open spec fn scaled_den(d: nat, k: int) -> nat {
    if k < 0 {
        d
    } else {
        d * pow2(k as nat)
    }
}

/// Whether `2^52 <= (n / d) / 2^k < 2^53`.
pub open spec fn in_window(n: nat, d: nat, k: int) -> bool {
    TWO_52 * scaled_den(d, k) <= scaled_num(n, k) < TWO_53 * scaled_den(d, k)
}

/// The exponent `k` that puts `(n / d) / 2^k` between `2^52` and `2^53`,
/// for positive `n` and `d`.
pub open spec fn exponent_of(n: nat, d: nat) -> int {
    let k = width(n) - width(d) - 53;
    if in_window(n, d, k) {
        k
    } else {
        k + 1
    }
}

/// The value with a 53-bit significand that is nearest to `n / d`, a tie
/// going to the even significand; for positive `n` and `d`.
pub open spec fn nearest(n: nat, d: nat) -> Float {
    let k = exponent_of(n, d);
    let q = nearest_integer(scaled_num(n, k), scaled_den(d, k));
    if q == TWO_53 {
        Float { mantissa: TWO_52 as nat, exponent: k + 1 }
    } else {
        Float { mantissa: q, exponent: k }
    }
}

/// A number with `w` binary digits lies between `2^(w-1)` and `2^w`.
pub proof fn lemma_width_bounds(n: nat)
    requires
        n > 0,
    ensures
        width(n) >= 1,
        pow2((width(n) - 1) as nat) <= n < pow2(width(n)),
    decreases n,
{
    if n == 1 {
        assert(width(0) == 0);
        assert(width(1) == 1);
        lemma2_to64();
    } else {
        lemma_width_bounds(n / 2);
        let w = width(n / 2);
        lemma_pow2_unfold(w);
        lemma_pow2_unfold(width(n));
    }
}

/// A number below `2^b` has at most `b` binary digits.
pub proof fn lemma_width_at_most(n: nat, b: nat)
    requires
        n < pow2(b),
    ensures
        width(n) <= b,
{
    if n > 0 {
        lemma_width_bounds(n);
        if width(n) > b {
            if width(n) - 1 > b {
                lemma_pow2_strictly_increases(b, (width(n) - 1) as nat);
            }
        }
    }
}

/// Two to the power `k`.
pub(crate) fn power_of_two(k: u32) -> (p: u128)
    requires
        k <= 127,
    ensures
        p == pow2(k as nat),
{
    let mut p: u128 = 1;
    let mut i: u32 = 0;
    proof {
        lemma2_to64();
    }
    while i < k
        invariant
            i <= k <= 127,
            p == pow2(i as nat),
        decreases k - i,
    {
        proof {
            lemma_pow2_unfold((i + 1) as nat);
            lemma_pow2_strictly_increases((i + 1) as nat, 128);
            lemma_pow2_adds(64, 64);
            lemma2_to64();
        }
        p = p * 2;
        i += 1;
    }
    p
}

/// The number of binary digits of `n`.
fn bit_width(n: u128) -> (w: u32)
    ensures
        w == width(n as nat),
        w <= 128,
{
    let mut w: u32 = 0;
    let mut rest: u128 = n;
    proof {
        lemma_pow2_adds(64, 64);
        lemma2_to64();
        lemma_width_at_most(n as nat, 128);
    }
    while rest > 0
        invariant
            width(n as nat) == w + width(rest as nat),
            w + width(rest as nat) <= 128,
        decreases rest,
    {
        rest = rest / 2;
        w += 1;
    }
    w
}

/// With `k` the difference of the widths less 53, `(n / d) / 2^k` lies
/// between `2^52` and `2^54`.
proof fn lemma_first_guess(n: nat, d: nat)
    requires
        n > 0,
        d > 0,
    ensures
        ({
            let k = width(n) - width(d) - 53;
            TWO_52 * scaled_den(d, k) <= scaled_num(n, k) < 4 * TWO_52 * scaled_den(d, k)
        }),
{
    let wn = width(n);
    let wd = width(d);
    let k = wn - wd - 53;
    lemma_width_bounds(n);
    lemma_width_bounds(d);
    lemma2_to64_rest();
    lemma2_to64();
    let lo_n = pow2((wn - 1) as nat);
    let lo_d = pow2((wd - 1) as nat);
    lemma_pow2_unfold(wn);
    lemma_pow2_unfold(wd);
    assert(pow2(52) == TWO_52);
    if k < 0 {
        let a = (-k) as nat;
        let p = pow2(a);
        lemma_pow2_pos(a);
        // lower: 2^52 * d < 2^(52 + wd) = 2^(wn - 1 + a) <= n * 2^a
        lemma_pow2_adds(52, wd);
        lemma_pow2_adds((wn - 1) as nat, a);
        assert(52 + wd == wn - 1 + a);
        assert(TWO_52 * d <= TWO_52 * pow2(wd)) by (nonlinear_arith)
            requires
                d <= pow2(wd),
        ;
        assert(lo_n * p <= n * p) by (nonlinear_arith)
            requires
                lo_n <= n,
                p > 0,
        ;
        // upper: n * 2^a < 2^(wn + a) = 2^(wd + 53) = 2^54 * 2^(wd - 1) <= 2^54 * d
        lemma_pow2_adds(wn, a);
        lemma_pow2_adds(54, (wd - 1) as nat);
        assert(wn + a == 54 + (wd - 1));
        lemma_pow2_adds(2, 52);
        assert(pow2(54) == 4 * TWO_52) by {
            lemma_pow2_adds(2, 52);
        }
        assert(n * p < pow2(wn) * p) by (nonlinear_arith)
            requires
                n < pow2(wn),
                p > 0,
        ;
        assert(pow2(54) * lo_d <= pow2(54) * d) by (nonlinear_arith)
            requires
                lo_d <= d,
        ;
    } else {
        let b = k as nat;
        let p = pow2(b);
        lemma_pow2_pos(b);
        // lower: 2^52 * d * 2^b < 2^52 * 2^wd * 2^b = 2^(wn - 1) <= n
        lemma_pow2_adds(52, wd);
        lemma_pow2_adds(52 + wd, b);
        assert(52 + wd + b == wn - 1);
        assert(TWO_52 * (d * p) <= (TWO_52 * pow2(wd)) * p) by (nonlinear_arith)
            requires
                d <= pow2(wd),
                p > 0,
        ;
        // upper: n < 2^wn = 2^54 * 2^(wd - 1) * 2^b <= 2^54 * d * 2^b
        lemma_pow2_adds(54, (wd - 1) as nat);
        lemma_pow2_adds((54 + wd - 1) as nat, b);
        assert(54 + wd - 1 + b == wn);
        assert(pow2(54) == 4 * TWO_52) by {
            lemma_pow2_adds(2, 52);
        }
        assert((pow2(54) * lo_d) * p <= 4 * TWO_52 * (d * p)) by (nonlinear_arith)
            requires
                lo_d <= d,
                p > 0,
                pow2(54) == 4 * TWO_52,
        ;
    }
}

/// Raising the exponent by one halves the scaled quotient.
proof fn lemma_next_exponent(n: nat, d: nat, k: int)
    ensures
        (scaled_num(n, k) == 2 * scaled_num(n, k + 1) && scaled_den(d, k + 1) == scaled_den(d, k))
            || (scaled_num(n, k) == scaled_num(n, k + 1) && scaled_den(d, k + 1) == 2
            * scaled_den(d, k)),
{
    lemma2_to64();
    if k < 0 {
        let a = (-k) as nat;
        let b = (a - 1) as nat;
        lemma_pow2_unfold(a);
        assert(pow2(a) == 2 * pow2(b));
        assert(n * pow2(a) == 2 * (n * pow2(b))) by (nonlinear_arith)
            requires
                pow2(a) == 2 * pow2(b),
        ;
        assert(scaled_num(n, k) == n * pow2(a));
        if k + 1 < 0 {
            assert((-(k + 1)) as nat == b);
            assert(scaled_num(n, k + 1) == n * pow2(b));
        } else {
            assert(b == 0);
            assert(pow2(0) == 1);
            assert(n * pow2(b) == n) by (nonlinear_arith)
                requires
                    pow2(b) == 1,
            ;
            assert(scaled_num(n, k + 1) == n);
            assert(d * pow2(0) == d) by (nonlinear_arith)
                requires
                    pow2(0) == 1,
            ;
        }
    } else {
        let a = k as nat;
        lemma_pow2_unfold(a + 1);
        assert((k + 1) as nat == a + 1);
        assert(d * pow2(a + 1) == 2 * (d * pow2(a))) by (nonlinear_arith)
            requires
                pow2(a + 1) == 2 * pow2(a),
        ;
    }
}

/// The exponent that [`exponent_of`] gives puts the quotient in the window:
/// `2^52 <= (n / d) / 2^k < 2^53`.
pub proof fn lemma_exponent_window(n: nat, d: nat)
    requires
        n > 0,
        d > 0,
    ensures
        in_window(n, d, exponent_of(n, d)),
{
    let k = width(n) - width(d) - 53;
    lemma_first_guess(n, d);
    lemma_next_exponent(n, d, k);
    let a = scaled_num(n, k);
    let b = scaled_den(d, k);
    let a1 = scaled_num(n, k + 1);
    let b1 = scaled_den(d, k + 1);
    assert(TWO_52 * b <= a < 4 * TWO_52 * b);
    if !in_window(n, d, k) {
        assert(a >= TWO_53 * b);
        assert(exponent_of(n, d) == k + 1);
        if a == 2 * a1 && b1 == b {
            assert(TWO_52 * b1 <= a1 < TWO_53 * b1) by (nonlinear_arith)
                requires
                    a >= TWO_53 * b,
                    a < 4 * TWO_52 * b,
                    a == 2 * a1,
                    b1 == b,
                    TWO_53 == 2 * TWO_52,
            ;
        } else {
            assert(TWO_52 * b1 <= a1 < TWO_53 * b1) by (nonlinear_arith)
                requires
                    a >= TWO_53 * b,
                    a < 4 * TWO_52 * b,
                    a == a1,
                    b1 == 2 * b,
                    TWO_53 == 2 * TWO_52,
            ;
        }
    }
}

/// The significand of [`nearest`] is normal: between `2^52` and `2^53`.
pub proof fn lemma_nearest_normal(n: nat, d: nat)
    requires
        n > 0,
        d > 0,
    ensures
        TWO_52 <= nearest(n, d).mantissa < TWO_53,
{
    let k = exponent_of(n, d);
    lemma_exponent_window(n, d);
    let a = scaled_num(n, k);
    let b = scaled_den(d, k);
    assert(b > 0) by {
        if k >= 0 {
            lemma_pow2_pos(k as nat);
            assert(d * pow2(k as nat) > 0) by (nonlinear_arith)
                requires
                    d > 0,
                    pow2(k as nat) > 0,
            ;
        }
    }
    lemma_quotient_bounds(a, b, TWO_52 as nat, TWO_53 as nat);
}

/// A quotient between two bounds has its integer part between them.
proof fn lemma_quotient_bounds(a: nat, b: nat, lo: nat, hi: nat)
    requires
        b > 0,
        lo * b <= a < hi * b,
    ensures
        lo <= a / b < hi,
        a == b * (a / b) + a % b,
        a % b < b,
{
    vstd::arithmetic::div_mod::lemma_fundamental_div_mod(a as int, b as int);
    vstd::arithmetic::div_mod::lemma_mod_bound(a as int, b as int);
    let q = a / b;
    let r = a % b;
    assert(lo <= q) by (nonlinear_arith)
        requires
            a == b * q + r,
            0 <= r < b,
            lo * b <= a,
            b > 0,
    ;
    assert(q < hi) by (nonlinear_arith)
        requires
            a == b * q + r,
            0 <= r < b,
            a < hi * b,
            b > 0,
    ;
}

/// A scaled quotient between `2^52` and `2^54` has small terms.
proof fn lemma_scaled_fit(n: nat, d: nat, k: int)
    requires
        0 < n < 0x10000000000000000,
        0 < d < 0x40000000000000,
        TWO_52 * scaled_den(d, k) <= scaled_num(n, k) < 4 * TWO_52 * scaled_den(d, k),
    ensures
        0 < scaled_den(d, k) < 0x40000000000000,
        0 < scaled_num(n, k) < 0x4000000000000000000000000000,
{
    let a = scaled_num(n, k);
    let b = scaled_den(d, k);
    if k < 0 {
        assert(b == d);
        assert(a < 0x4000000000000000000000000000) by (nonlinear_arith)
            requires
                a < 4 * TWO_52 * b,
                b < 0x40000000000000,
                TWO_52 == 0x10_0000_0000_0000,
        ;
        assert(a > 0) by (nonlinear_arith)
            requires
                TWO_52 * b <= a,
                b > 0,
                TWO_52 == 0x10_0000_0000_0000,
        ;
    } else {
        assert(a == n);
        lemma_pow2_pos(k as nat);
        assert(b > 0) by (nonlinear_arith)
            requires
                b == d * pow2(k as nat),
                d > 0,
                pow2(k as nat) > 0,
        ;
        assert(b < 0x40000000000000) by (nonlinear_arith)
            requires
                TWO_52 * b <= a,
                a < 0x10000000000000000,
                TWO_52 == 0x10_0000_0000_0000,
        ;
    }
}

/// The terms of `(n / d) / 2^k` as a quotient of natural numbers.
fn scale(n: u128, d: u128, k: i32) -> (r: (u128, u128))
    requires
        -120 <= k <= 120,
        scaled_num(n as nat, k as int) < 0x4000000000000000000000000000,
        scaled_den(d as nat, k as int) < 0x4000000000000000000000000000,
    ensures
        r.0 == scaled_num(n as nat, k as int),
        r.1 == scaled_den(d as nat, k as int),
{
    if k < 0 {
        let p = power_of_two((-k) as u32);
        (n * p, d)
    } else {
        let p = power_of_two(k as u32);
        (n, d * p)
    }
}

/// The significand and exponent of the nearest value to `n / d`, as
/// [`nearest`] says.
pub(crate) fn nearest_ratio(n: u128, d: u128) -> (r: (u64, i32))
    requires
        0 < n < 0x10000000000000000,
        0 < d < 0x40000000000000,
    ensures
        (Float { mantissa: r.0 as nat, exponent: r.1 as int }) == nearest(n as nat, d as nat),
        TWO_52 <= r.0 < TWO_53,
        width(n as nat) - width(d as nat) - 53 <= r.1 <= width(n as nat) - width(d as nat) - 51,
        1 <= width(n as nat) <= 64,
        1 <= width(d as nat) <= 54,
{
    let wn = bit_width(n);
    let wd = bit_width(d);
    proof {
        lemma2_to64();
        lemma2_to64_rest();
        lemma_width_at_most(n as nat, 64);
        lemma_width_at_most(d as nat, 54);
        lemma_width_bounds(n as nat);
        lemma_width_bounds(d as nat);
        lemma_first_guess(n as nat, d as nat);
        lemma_exponent_window(n as nat, d as nat);
        lemma_nearest_normal(n as nat, d as nat);
    }
    let k0: i32 = wn as i32 - wd as i32 - 53;
    proof {
        lemma_scaled_fit(n as nat, d as nat, k0 as int);
    }
    let (a0, b0) = scale(n, d, k0);
    let k: i32 = if TWO_52 as u128 * b0 <= a0 && a0 < TWO_53 as u128 * b0 {
        k0
    } else {
        k0 + 1
    };
    assert(k == exponent_of(n as nat, d as nat));
    proof {
        lemma_scaled_fit(n as nat, d as nat, k as int);
    }
    let (a, b) = scale(n, d, k);
    proof {
        lemma_quotient_bounds(a as nat, b as nat, TWO_52 as nat, TWO_53 as nat);
    }
    let q: u128 = a / b;
    let r: u128 = a % b;
    let m: u128 = if 2 * r > b || (2 * r == b && q % 2 == 1) {
        q + 1
    } else {
        q
    };
    assert(m == nearest_integer(a as nat, b as nat));
    if m == TWO_53 as u128 {
        (TWO_52, k + 1)
    } else {
        (m as u64, k)
    }
}

/// A number of at least `2^b` has more than `b` binary digits.
pub proof fn lemma_width_above(n: nat, b: nat)
    requires
        n >= pow2(b),
    ensures
        width(n) > b,
{
    lemma_pow2_pos(b);
    lemma_width_bounds(n);
    if width(n) < b {
        lemma_pow2_strictly_increases(width(n), b);
    }
}

} // verus!
