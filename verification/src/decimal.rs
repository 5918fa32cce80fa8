//! Unsigned decimal numerals: reading them from text and writing them.

use vstd::prelude::*;

verus! {

/// Whether `c` is one of the ten ASCII digits.
pub open spec fn is_digit(c: char) -> bool {
    0x30 <= c as u32 <= 0x39
}

/// The number that the digit `c` stands for.
pub open spec fn digit_value(c: char) -> nat {
    (c as u32 - 0x30) as nat
}

/// The digit that stands for `d`, for `d` below ten.
pub open spec fn digit_char(d: nat) -> char {
    ((0x30 + d) as u32) as char
}

/// Whether every character of `s` is a digit.
pub open spec fn all_digits(s: Seq<char>) -> bool {
    forall|i: int| 0 <= i < s.len() ==> is_digit(#[trigger] s[i])
}

/// The number that the digits `s` spell in base ten; zero for no digits.
pub open spec fn decimal_value(s: Seq<char>) -> nat
    decreases s.len(),
{
    if s.len() == 0 {
        0
    } else {
        decimal_value(s.drop_last()) * 10 + digit_value(s.last())
    }
}

/// `s` without one leading plus sign, if it has one.
pub open spec fn without_plus(s: Seq<char>) -> Seq<char> {
    if s.len() > 0 && s[0] == '+' {
        s.drop_first()
    } else {
        s
    }
}

/// The number that `s` denotes: an optional plus sign, then one or more
/// digits whose value fits in 64 bits. Anything else denotes no number.
pub open spec fn parse_u64_spec(s: Seq<char>) -> Option<u64> {
    let digits = without_plus(s);
    if digits.len() > 0 && all_digits(digits) && decimal_value(digits) <= u64::MAX {
        Some(decimal_value(digits) as u64)
    } else {
        None
    }
}

/// The shortest decimal numeral of `n`.
pub open spec fn decimal_text(n: nat) -> Seq<char>
    decreases n,
{
    if n < 10 {
        seq![digit_char(n)]
    } else {
        decimal_text(n / 10).push(digit_char(n % 10))
    }
}

/// A numeral is worth at least as much as each of its prefixes.
pub proof fn lemma_prefix_value(s: Seq<char>, k: int)
    requires
        0 <= k <= s.len(),
    ensures
        decimal_value(s.take(k)) <= decimal_value(s),
    decreases s.len(),
{
    if k == s.len() {
        assert(s.take(k) == s);
    } else {
        lemma_prefix_value(s.drop_last(), k);
        assert(s.drop_last().take(k) == s.take(k));
    }
}

/// Reading a written number gives the number back: `decimal_text(n)` is
/// made of digits only and its value is `n`.
pub proof fn lemma_text_round_trip(n: nat)
    ensures
        decimal_text(n).len() > 0,
        all_digits(decimal_text(n)),
        decimal_value(decimal_text(n)) == n,
    decreases n,
{
    if n < 10 {
        let s = decimal_text(n);
        assert(s.drop_last() == Seq::<char>::empty());
        assert(decimal_value(s.drop_last()) == 0);
    } else {
        lemma_text_round_trip(n / 10);
        let s = decimal_text(n);
        assert(s.drop_last() == decimal_text(n / 10));
    }
}

/// Reads an unsigned decimal number, as [`parse_u64_spec`] says.
pub fn parse_u64(s: &Vec<char>) -> (r: Option<u64>)
    ensures
        r == parse_u64_spec(s@),
{
    let start: usize = if s.len() > 0 && s[0] == '+' {
        1
    } else {
        0
    };
    let ghost digits = without_plus(s@);
    assert(digits == s@.skip(start as int));
    if start == s.len() {
        return None;
    }
    let mut value: u64 = 0;
    let mut i: usize = start;
    while i < s.len()
        invariant
            start <= i <= s.len(),
            start < s.len(),
            digits == without_plus(s@),
            digits == s@.skip(start as int),
            all_digits(digits.take(i - start)),
            value == decimal_value(digits.take(i - start)),
        decreases s.len() - i,
    {
        let c = s[i];
        let u: u32 = c as u32;
        proof {
            let t = digits.take(i + 1 - start);
            assert(t.drop_last() == digits.take(i - start));
            assert(t.last() == c);
            lemma_prefix_value(digits, i + 1 - start);
            assert(decimal_value(t) == value * 10 + digit_value(c));
        }
        if u < 0x30 || u > 0x39 {
            assert(!is_digit(digits[i - start]));
            return None;
        }
        let d: u64 = (u - 0x30) as u64;
        let scaled = match value.checked_mul(10) {
            Some(x) => x,
            None => {
                return None;
            },
        };
        value = match scaled.checked_add(d) {
            Some(x) => x,
            None => {
                return None;
            },
        };
        i += 1;
    }
    assert(digits.take(s.len() - start) == digits);
    Some(value)
}

/// Writes `n` in base ten, as [`decimal_text`] says.
pub fn write_u64(n: u64) -> (text: Vec<char>)
    ensures
        text@ == decimal_text(n as nat),
{
    write_number(n as u128)
}

/// The numeral of `h` hundredths with two decimal places: the whole part,
/// a point, and two digits.
pub open spec fn hundredths_text(h: nat) -> Seq<char> {
    decimal_text(h / 100).push('.').push(digit_char(h % 100 / 10)).push(digit_char(h % 10))
}

/// Writes `h` hundredths with two decimal places, as [`hundredths_text`]
/// says.
pub fn write_hundredths(h: u128) -> (text: Vec<char>)
    ensures
        text@ == hundredths_text(h as nat),
{
    let mut text = write_number(h / 100);
    text.push('.');
    text.push(digit_of((h % 100 / 10) as u32));
    text.push(digit_of((h % 10) as u32));
    text
}

/// Writes `n` in base ten, as [`decimal_text`] says.
pub fn write_number(n: u128) -> (text: Vec<char>)
    ensures
        text@ == decimal_text(n as nat),
{
    let mut reversed: Vec<char> = Vec::new();
    let mut rest: u128 = n;
    while rest >= 10
        invariant
            decimal_text(n as nat) == decimal_text(rest as nat) + reversed@.reverse(),
        decreases rest,
    {
        let d: u32 = (rest % 10) as u32;
        let c = digit_of(d);
        let ghost before = reversed@;
        reversed.push(c);
        proof {
            assert(reversed@.reverse() == seq![c] + before.reverse());
            assert(decimal_text(rest as nat) == decimal_text((rest / 10) as nat).push(c));
        }
        rest = rest / 10;
    }
    let c = digit_of(rest as u32);
    let mut text: Vec<char> = Vec::new();
    text.push(c);
    assert(text@ == decimal_text(rest as nat));
    let mut i: usize = reversed.len();
    while i > 0
        invariant
            i <= reversed.len(),
            text@ == decimal_text(rest as nat) + reversed@.reverse().take(reversed.len() - i),
        decreases i,
    {
        i -= 1;
        text.push(reversed[i]);
        proof {
            let r = reversed@.reverse();
            let k = reversed.len() - i;
            assert(r.take(k) == r.take(k - 1).push(r[k - 1]));
        }
    }
    assert(reversed@.reverse().take(reversed.len() as int) == reversed@.reverse());
    text
}

/// The digit for a number below ten.
fn digit_of(d: u32) -> (c: char)
    requires
        d < 10,
    ensures
        c == digit_char(d as nat),
{
    if d == 0 {
        '0'
    } else if d == 1 {
        '1'
    } else if d == 2 {
        '2'
    } else if d == 3 {
        '3'
    } else if d == 4 {
        '4'
    } else if d == 5 {
        '5'
    } else if d == 6 {
        '6'
    } else if d == 7 {
        '7'
    } else if d == 8 {
        '8'
    } else {
        '9'
    }
}

} // verus!
