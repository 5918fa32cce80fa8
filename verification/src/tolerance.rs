//! How far the computed percentage is from the exact one.
//!
//! Each of the four roundings misses its exact result by at most one part
//! in `2^53`; together they miss the exact percentage by at most one part
//! in `2^50`.

use crate::binary64::{encode, from_integer, percent_float, quotient, times_hundred, Binary64};
use crate::rounding::{
    exponent_of, gap, lemma_exponent_window, lemma_nearest_integer_is_nearest,
    lemma_nearest_normal, lemma_width_at_most, lemma_width_bounds, nearest, nearest_integer,
    scaled_den, scaled_num, width, Float, TWO_52, TWO_53,
};
use vstd::arithmetic::power2::{lemma2_to64, lemma_pow2_adds, lemma_pow2_pos, pow2};
use vstd::prelude::*;

verus! {

/// The value of `f` times `2^scale`, a natural number where the scale
/// makes up for the exponent.
pub open spec fn scaled_value(f: Float, scale: int) -> nat {
    f.mantissa * pow2((f.exponent + scale) as nat)
}

/// Scaling two numbers scales their distance.
proof fn lemma_gap_scales(x: int, y: int, w: nat)
    ensures
        gap(x * w, y * w) == gap(x, y) * w,
{
    assert(x * w - y * w == (x - y) * w) by (nonlinear_arith);
    assert(y * w - x * w == (y - x) * w) by (nonlinear_arith);
    if x >= y {
        assert(x * w >= y * w) by (nonlinear_arith)
            requires
                x >= y,
                w >= 0,
        ;
    } else {
        assert(x * w <= y * w) by (nonlinear_arith)
            requires
                x <= y,
                w >= 0,
        ;
    }
}

/// The exponent of [`nearest`] is that of [`exponent_of`] or one more.
pub proof fn lemma_nearest_exponent(n: nat, d: nat)
    ensures
        width(n) - width(d) - 53 <= exponent_of(n, d) <= width(n) - width(d) - 52,
        exponent_of(n, d) <= nearest(n, d).exponent <= exponent_of(n, d) + 1,
{
}

/// The double nearest to `n / d` misses it by at most one part in `2^53`:
/// at any scale that makes both sides whole numbers,
/// `2^53 * |f * d - n| <= n`.
pub proof fn lemma_nearest_is_close(n: nat, d: nat, scale: int)
    requires
        n > 0,
        d > 0,
        scale >= 0,
        scale + exponent_of(n, d) >= 0,
    ensures
        TWO_53 * gap(
            (scaled_value(nearest(n, d), scale) * d) as int,
            (n * pow2(scale as nat)) as int,
        ) <= n * pow2(scale as nat),
{
    let k = exponent_of(n, d);
    let f = nearest(n, d);
    let a = scaled_num(n, k);
    let b = scaled_den(d, k);
    let q = nearest_integer(a, b);
    lemma_exponent_window(n, d);
    lemma_nearest_normal(n, d);
    assert(b > 0) by {
        if k >= 0 {
            lemma_pow2_pos(k as nat);
            assert(d * pow2(k as nat) > 0) by (nonlinear_arith)
                requires
                    d > 0,
                    pow2(k as nat) > 0,
            ;
        }
    }
    lemma_nearest_integer_is_nearest(a, b, 0);
    let g = gap((q * b) as int, a as int);
    assert(TWO_53 * g <= a) by (nonlinear_arith)
        requires
            2 * g <= b,
            TWO_52 * b <= a,
            TWO_53 == 2 * TWO_52,
    ;
    // The value of `f` is `q * 2^k`, carry or not.
    let low = pow2((k + scale) as nat);
    assert(scaled_value(f, scale) == q * low) by {
        if q == TWO_53 {
            vstd::arithmetic::power2::lemma_pow2_unfold((k + 1 + scale) as nat);
            assert(TWO_52 * (2 * low) == TWO_53 * low) by (nonlinear_arith)
                requires
                    TWO_53 == 2 * TWO_52,
            ;
        }
    }
    // Both sides are the scaled terms times one power of two.
    let w: nat = if k < 0 {
        low
    } else {
        pow2(scale as nat)
    };
    assert((q * low) * d == (q * b) * w && n * pow2(scale as nat) == a * w) by {
        let ps = pow2(scale as nat);
        if k < 0 {
            let pn = pow2((-k) as nat);
            lemma_pow2_adds((-k) as nat, (k + scale) as nat);
            assert(((-k) as nat) + ((k + scale) as nat) == scale as nat);
            assert(ps == pn * low);
            assert(a == n * pn && b == d && w == low);
            assert(n * (pn * low) == (n * pn) * low) by (nonlinear_arith);
            assert((q * low) * d == (q * d) * low) by (nonlinear_arith);
        } else {
            let pk = pow2(k as nat);
            lemma_pow2_adds(k as nat, scale as nat);
            assert((k as nat) + (scale as nat) == (k + scale) as nat);
            assert(low == pk * ps);
            assert(a == n && b == d * pk && w == ps);
            assert((q * (pk * ps)) * d == (q * (d * pk)) * ps) by (nonlinear_arith);
        }
    }
    lemma_gap_scales((q * b) as int, a as int, w);
    assert(TWO_53 * (g * w) <= a * w) by (nonlinear_arith)
        requires
            TWO_53 * g <= a,
            w >= 0,
    ;
}

/// Inequalities between non-negative numbers multiply.
proof fn lemma_product_order(a: int, b: int, c: int, d: int)
    requires
        0 <= a <= b,
        0 <= c <= d,
    ensures
        a * c <= b * d,
{
    assert(a * c <= b * c) by (nonlinear_arith)
        requires
            a <= b,
            0 <= c,
    ;
    assert(b * c <= b * d) by (nonlinear_arith)
        requires
            c <= d,
            0 <= b,
    ;
}

/// A positive factor on both sides of an inequality can be dropped.
proof fn lemma_cancel(a: int, b: int, t: int)
    requires
        a * t <= b * t,
        t > 0,
    ensures
        a <= b,
{
    assert(a <= b) by (nonlinear_arith)
        requires
            a * t <= b * t,
            t > 0,
    ;
}

/// Four steps that each overshoot by at most one part in `u` overshoot
/// together by at most `(u + 1)^3 / (u^2 * (u - 1))`.
///
/// Here `x`, `y`, `z` and `w` stand for the rounded part, whole, quotient
/// and percentage, all at the scale `t`.
proof fn lemma_chain_above(
    u: int,
    x: int,
    y: int,
    z: int,
    w: int,
    part: int,
    whole: int,
    t: int,
)
    requires
        u >= 2,
        t > 0,
        x >= 0,
        y >= 0,
        z >= 0,
        w >= 0,
        part >= 0,
        whole >= 0,
        u * x <= (u + 1) * (part * t),
        (u - 1) * (whole * t) <= u * y,
        u * (z * y) <= (u + 1) * (x * t),
        u * w <= (u + 1) * (100 * z),
    ensures
        (u * u * (u - 1)) * (w * whole) <= ((u + 1) * (u + 1) * (u + 1)) * (100 * (part * t)),
{
    let v = u + 1;
    // (1) u^2 * w * y <= v^2 * 100 * x * t
    lemma_product_order(u * w, v * (100 * z), u * y, u * y);
    assert((u * w) * (u * y) == (u * u) * (w * y)) by (nonlinear_arith);
    assert((v * (100 * z)) * (u * y) == (v * 100) * (u * (z * y))) by (nonlinear_arith);
    lemma_product_order(v * 100, v * 100, u * (z * y), v * (x * t));
    assert((v * 100) * (v * (x * t)) == (v * v * 100) * (x * t)) by (nonlinear_arith);
    let s1 = (u * u) * (w * y);
    assert(s1 <= (v * v * 100) * (x * t));
    // (2) u^3 * w * y <= v^3 * 100 * part * t * t
    lemma_product_order(s1, (v * v * 100) * (x * t), u, u);
    assert(s1 * u == (u * u * u) * (w * y)) by (nonlinear_arith)
        requires
            s1 == (u * u) * (w * y),
    ;
    assert(((v * v * 100) * (x * t)) * u == (v * v * 100 * t) * (u * x)) by (nonlinear_arith);
    assert(v * v * 100 * t >= 0) by (nonlinear_arith)
        requires
            v >= 0,
            t >= 0,
    ;
    lemma_product_order(v * v * 100 * t, v * v * 100 * t, u * x, v * (part * t));
    assert((v * v * 100 * t) * (v * (part * t)) == ((v * v * v) * (100 * (part * t))) * t)
        by (nonlinear_arith);
    let s2 = (u * u * u) * (w * y);
    let top = (v * v * v) * (100 * (part * t));
    assert(s2 <= top * t);
    // (3) u^2 * (u - 1) * w * whole * t <= u^3 * w * y
    assert(u * u * w >= 0) by (nonlinear_arith)
        requires
            w >= 0,
    ;
    assert((u - 1) * (whole * t) >= 0) by (nonlinear_arith)
        requires
            u >= 2,
            whole >= 0,
            t >= 0,
    ;
    lemma_product_order(u * u * w, u * u * w, (u - 1) * (whole * t), u * y);
    assert((u * u * w) * ((u - 1) * (whole * t)) == ((u * u * (u - 1)) * (w * whole)) * t)
        by (nonlinear_arith);
    assert((u * u * w) * (u * y) == s2) by (nonlinear_arith)
        requires
            s2 == (u * u * u) * (w * y),
    ;
    lemma_cancel((u * u * (u - 1)) * (w * whole), top, t);
}

/// Four steps that each fall short by at most one part in `u` fall short
/// together by at most `(u - 1)^3 / (u^2 * (u + 1))`.
proof fn lemma_chain_below(
    u: int,
    x: int,
    y: int,
    z: int,
    w: int,
    part: int,
    whole: int,
    t: int,
)
    requires
        u >= 2,
        t > 0,
        x >= 0,
        y >= 0,
        z >= 0,
        w >= 0,
        part >= 0,
        whole >= 0,
        (u - 1) * (part * t) <= u * x,
        u * y <= (u + 1) * (whole * t),
        (u - 1) * (x * t) <= u * (z * y),
        (u - 1) * (100 * z) <= u * w,
    ensures
        ((u - 1) * (u - 1) * (u - 1)) * (100 * (part * t)) <= (u * u * (u + 1)) * (w * whole),
{
    let v = u - 1;
    // (1) v^2 * 100 * x * t <= u^2 * w * y
    assert(v * 100 >= 0 && u * y >= 0) by (nonlinear_arith)
        requires
            u >= 2,
            v == u - 1,
            y >= 0,
    ;
    assert(v * (x * t) >= 0 && v * (100 * z) >= 0) by (nonlinear_arith)
        requires
            v >= 1,
            x >= 0,
            t >= 0,
            z >= 0,
    ;
    lemma_product_order(v * 100, v * 100, v * (x * t), u * (z * y));
    assert((v * 100) * (v * (x * t)) == (v * v * 100) * (x * t)) by (nonlinear_arith);
    assert((v * 100) * (u * (z * y)) == (v * (100 * z)) * (u * y)) by (nonlinear_arith);
    lemma_product_order(v * (100 * z), u * w, u * y, u * y);
    assert((u * w) * (u * y) == (u * u) * (w * y)) by (nonlinear_arith);
    let s1 = (u * u) * (w * y);
    assert((v * v * 100) * (x * t) <= s1);
    // (2) v^3 * 100 * part * t * t <= u^3 * w * y
    assert(v * v * 100 * t >= 0 && v * (part * t) >= 0) by (nonlinear_arith)
        requires
            v >= 1,
            t >= 0,
            part >= 0,
    ;
    lemma_product_order(v * v * 100 * t, v * v * 100 * t, v * (part * t), u * x);
    assert((v * v * 100 * t) * (v * (part * t)) == ((v * v * v) * (100 * (part * t))) * t)
        by (nonlinear_arith);
    assert((v * v * 100 * t) * (u * x) == ((v * v * 100) * (x * t)) * u) by (nonlinear_arith);
    assert((v * v * 100) * (x * t) >= 0) by (nonlinear_arith)
        requires
            v >= 1,
            x >= 0,
            t >= 0,
    ;
    lemma_product_order((v * v * 100) * (x * t), s1, u, u);
    assert(s1 * u == (u * u * u) * (w * y)) by (nonlinear_arith)
        requires
            s1 == (u * u) * (w * y),
    ;
    let s2 = (u * u * u) * (w * y);
    let bottom = (v * v * v) * (100 * (part * t));
    assert(bottom * t <= s2);
    // (3) u^3 * w * y <= u^2 * (u + 1) * w * whole * t
    assert(u * u * w >= 0) by (nonlinear_arith)
        requires
            w >= 0,
    ;
    lemma_product_order(u * u * w, u * u * w, u * y, (u + 1) * (whole * t));
    assert((u * u * w) * (u * y) == s2) by (nonlinear_arith)
        requires
            s2 == (u * u * u) * (w * y),
    ;
    assert((u * u * w) * ((u + 1) * (whole * t)) == ((u * u * (u + 1)) * (w * whole)) * t)
        by (nonlinear_arith);
    lemma_cancel(bottom, (u * u * (u + 1)) * (w * whole), t);
}

/// The scale at which every finite double is a whole number: `2^1074`.
pub open spec fn unit() -> nat {
    pow2(1074)
}

/// A relative miss of at most one part in `2^53` as two inequalities.
proof fn lemma_two_sided(x: int, y: int)
    requires
        x >= 0,
        y >= 0,
        TWO_53 * gap(x, y) <= y,
    ensures
        (TWO_53 - 1) * y <= TWO_53 * x <= (TWO_53 + 1) * y,
{
    let g = gap(x, y) as int;
    assert((TWO_53 - 1) * y <= TWO_53 * x <= (TWO_53 + 1) * y) by (nonlinear_arith)
        requires
            TWO_53 * g <= y,
            g >= x - y,
            g >= y - x,
            TWO_53 > 0,
    ;
}

/// The computed percentage as a significand and an exponent misses the
/// exact percentage `100 * part / whole` by at most one part in `2^50`.
pub proof fn lemma_percent_float_is_close(part: nat, whole: nat)
    requires
        0 < part <= u64::MAX,
        0 < whole <= u64::MAX,
    ensures
        -1074 <= percent_float(part, whole).exponent <= 900,
        TWO_52 <= percent_float(part, whole).mantissa < TWO_53,
        0x4_0000_0000_0000 * gap(
            (scaled_value(percent_float(part, whole), 1074) * whole) as int,
            (100 * (part * unit())) as int,
        ) <= 100 * (part * unit()),
{
    let s: int = 1074;
    let t = unit();
    let a = from_integer(part);
    let b = from_integer(whole);
    let n = nearest(a.mantissa, b.mantissa);
    let q = quotient(a, b);
    let m = nearest(q.mantissa * 100, 1);
    let p = times_hundred(q);
    assert(p == percent_float(part, whole));
    lemma2_to64();
    vstd::arithmetic::power2::lemma2_to64_rest();
    lemma_pow2_pos(1074);
    assert(width(1) == 1) by {
        assert(width(0) == 0);
    }
    // Significands and exponents are in range.
    lemma_width_at_most(part, 64);
    lemma_width_at_most(whole, 64);
    lemma_width_bounds(part);
    lemma_width_bounds(whole);
    lemma_nearest_exponent(part, 1);
    lemma_nearest_exponent(whole, 1);
    lemma_nearest_normal(part, 1);
    lemma_nearest_normal(whole, 1);
    assert(-53 <= a.exponent <= 12 && -53 <= b.exponent <= 12);
    crate::rounding::lemma_width_above(a.mantissa, 52);
    crate::rounding::lemma_width_above(b.mantissa, 52);
    lemma_width_at_most(a.mantissa, 53);
    lemma_width_at_most(b.mantissa, 53);
    lemma_nearest_exponent(a.mantissa, b.mantissa);
    lemma_nearest_normal(a.mantissa, b.mantissa);
    assert(-53 <= n.exponent <= -51);
    assert(q.mantissa == n.mantissa && q.exponent == n.exponent + a.exponent - b.exponent);
    let hundredfold = q.mantissa * 100;
    assert(pow2(58) <= hundredfold < pow2(60));
    crate::rounding::lemma_width_above(hundredfold, 58);
    lemma_width_at_most(hundredfold, 60);
    lemma_nearest_exponent(hundredfold, 1);
    lemma_nearest_normal(hundredfold, 1);
    assert(5 <= m.exponent <= 8);
    assert(p.mantissa == m.mantissa && p.exponent == m.exponent + q.exponent);
    // The four roundings, each at the scale that makes it whole.
    let x = scaled_value(a, s);
    let y = scaled_value(b, s);
    let z = scaled_value(q, s);
    let w = scaled_value(p, s);
    lemma_nearest_is_close(part, 1, s);
    lemma_nearest_is_close(whole, 1, s);
    let e3 = a.exponent + 2 * s;
    lemma_nearest_is_close(a.mantissa, b.mantissa, e3);
    let e4 = q.exponent + s;
    lemma_nearest_is_close(hundredfold, 1, e4);
    assert(scaled_value(n, e3) * b.mantissa == z * y && a.mantissa * pow2(e3 as nat) == x * t) by {
        let pz = pow2((q.exponent + s) as nat);
        let py = pow2((b.exponent + s) as nat);
        let px = pow2((a.exponent + s) as nat);
        lemma_pow2_adds((q.exponent + s) as nat, (b.exponent + s) as nat);
        lemma_pow2_adds((a.exponent + s) as nat, s as nat);
        assert(((q.exponent + s) as nat) + ((b.exponent + s) as nat) == (n.exponent + e3) as nat);
        assert(((a.exponent + s) as nat) + (s as nat) == e3 as nat);
        assert((n.mantissa * (pz * py)) * b.mantissa == (n.mantissa * pz) * (b.mantissa * py))
            by (nonlinear_arith);
        assert(a.mantissa * (px * t) == (a.mantissa * px) * t) by (nonlinear_arith);
    }
    assert(scaled_value(m, e4) == w);
    assert(hundredfold * pow2(e4 as nat) == 100 * z) by (nonlinear_arith)
        requires
            hundredfold == q.mantissa * 100,
            z == q.mantissa * pow2(e4 as nat),
    ;
    assert(x * 1 == x && y * 1 == y && w * 1 == w);
    lemma_two_sided(x as int, (part * t) as int);
    lemma_two_sided(y as int, (whole * t) as int);
    lemma_two_sided((z * y) as int, (x * t) as int);
    lemma_two_sided(w as int, (100 * z) as int);
    let u = TWO_53 as int;
    lemma_chain_above(u, x as int, y as int, z as int, w as int, part as int, whole as int, t as int);
    lemma_chain_below(u, x as int, y as int, z as int, w as int, part as int, whole as int, t as int);
    let have = (w * whole) as int;
    let want = (100 * (part * t)) as int;
    assert(u * u * (u - 1) == 730750818665451377972204001751459814038961127424);
    assert((u + 1) * (u + 1) * (u + 1) == 730750818665451702490757660178213618792745926657);
    assert((u - 1) * (u - 1) * (u - 1) == 730750818665451215712927172538123444058715062271);
    assert(u * u * (u + 1) == 730750818665451540231480830964823205616971415552);
    assert(730750818665451377972204001751459814038961127424 * have <= 730750818665451702490757660178213618792745926657 * want);
    assert(730750818665451215712927172538123444058715062271 * want <= 730750818665451540231480830964823205616971415552 * have);
    assert(0x4_0000_0000_0000 * (have - want) <= want) by (nonlinear_arith)
        requires
            730750818665451377972204001751459814038961127424 * have <= 730750818665451702490757660178213618792745926657 * want,
            want >= 0,
    ;
    assert(0x4_0000_0000_0000 * (want - have) <= want) by (nonlinear_arith)
        requires
            730750818665451215712927172538123444058715062271 * want <= 730750818665451540231480830964823205616971415552 * have,
            want >= 0,
    ;
}

/// The bit pattern of a normal double decodes to its significand and
/// exponent: its magnitude is `mantissa * 2^(exponent + 1074)`.
pub proof fn lemma_encode_magnitude(f: Float)
    requires
        TWO_52 <= f.mantissa < TWO_53,
        -1074 <= f.exponent <= 971,
    ensures
        encode(f) <= u64::MAX,
        (Binary64 { bits: encode(f) as u64 }).magnitude() == scaled_value(f, 1074),
        !(Binary64 { bits: encode(f) as u64 }).is_nan(),
        !(Binary64 { bits: encode(f) as u64 }).negative(),
{
    let biased = f.exponent + 1075;
    let bits = encode(f);
    assert(bits == biased * TWO_52 + (f.mantissa - TWO_52));
    assert(bits <= u64::MAX);
    let x = Binary64 { bits: bits as u64 };
    assert(x.bits / TWO_52 == biased);
    assert(x.bits % TWO_52 == f.mantissa - TWO_52);
    assert(x.biased_exponent() == biased);
    assert(x.fraction() == f.mantissa - TWO_52);
}

/// The computed percentage misses the exact percentage
/// `100 * part / whole` by at most one part in `2^50`: with both sides
/// taken times `whole` and at the scale of [`unit`],
/// `2^50 * |computed * whole - 100 * part| <= 100 * part`.
pub proof fn lemma_percent_is_close(part: u64, whole: u64)
    requires
        whole > 0,
    ensures
        ({
            let p = Binary64 { bits: crate::binary64::percent_bits(part as nat, whole as nat) as u64 };
            &&& !p.is_nan()
            &&& !p.negative()
            &&& 0x4_0000_0000_0000 * gap(
                (p.magnitude() * whole) as int,
                (100 * (part * unit())) as int,
            ) <= 100 * (part * unit())
        }),
{
    if part > 0 {
        lemma_percent_float_is_close(part as nat, whole as nat);
        lemma_encode_magnitude(percent_float(part as nat, whole as nat));
    } else {
        let p = Binary64 { bits: 0 };
        assert(p.magnitude() == 0);
        assert(p.magnitude() * whole == 0) by (nonlinear_arith)
            requires
                p.magnitude() == 0,
        ;
        assert(100 * (part * unit()) == 0) by (nonlinear_arith)
            requires
                part == 0,
        ;
    }
}

} // verus!
