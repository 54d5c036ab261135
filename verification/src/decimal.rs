//! Decimal numbers with a fraction, as sizes are written: `1.5mb` is one
//! and a half times 1024 * 1024 bytes.
//!
//! A size is computed as double-precision arithmetic computes it: the
//! decimal is taken to the nearest double-precision number, multiplied
//! by the unit, and cut down to its whole part. The digits may be any
//! number: no digit is left out of the rounding.

use vstd::prelude::*;
use crate::double::{
    bits_of, double_floor, double_step, lemma_double_floor_large, lemma_double_step,
    lemma_pow2_positive, lemma_pow2_values, lemma_round_known, pow2, round_half_even, step_of,
    two_to,
};
use crate::text::{
    all_digits, decimal_value, digit_to_char, digit_value, is_digit, range_of, read_digits,
};

verus! {

/// Ten to the power `n`.
pub open spec fn pow10(n: nat) -> nat
    decreases n,
{
    if n == 0 {
        1
    } else {
        10 * pow10((n - 1) as nat)
    }
}

pub proof fn lemma_pow10_positive(n: nat)
    ensures
        pow10(n) > 0,
    decreases n,
{
    if n > 0 {
        lemma_pow10_positive((n - 1) as nat);
    }
}

/// The value of a digit string is that of its head, shifted, plus that of
/// its tail.
pub proof fn lemma_decimal_value_concat(a: Seq<char>, b: Seq<char>)
    ensures
        decimal_value(a + b) == decimal_value(a) * pow10(b.len()) + decimal_value(b),
    decreases b.len(),
{
    if b.len() == 0 {
        assert(a + b =~= a);
        assert(pow10(b.len()) == 1);
        assert(decimal_value(a) * 1 == decimal_value(a));
    } else {
        lemma_decimal_value_concat(a, b.drop_last());
        assert((a + b).drop_last() =~= a + b.drop_last());
        assert((a + b).last() == b.last());
        let x = decimal_value(a);
        let p = pow10(b.drop_last().len());
        assert((b.len() - 1) as nat == b.drop_last().len());
        assert(pow10(b.len()) == 10 * p);
        assert(10 * (x * p) == x * (10 * p)) by (nonlinear_arith);
    }
}

/// A string of `n` digits writes a number below ten to the `n`.
pub proof fn lemma_decimal_value_bound(s: Seq<char>)
    requires
        all_digits(s),
    ensures
        decimal_value(s) < pow10(s.len()),
    decreases s.len(),
{
    if s.len() > 0 {
        assert forall|i: int| 0 <= i < s.drop_last().len() implies is_digit(
            #[trigger] s.drop_last()[i],
        ) by {
            assert(s.drop_last()[i] == s[i]);
        }
        lemma_decimal_value_bound(s.drop_last());
        assert(is_digit(s[s.len() - 1]));
    }
}

/// A binary multiple of the byte.
#[derive(Debug, Clone, Copy, PartialEq, Eq, Structural)]
pub enum SizeUnit {
    Bytes,
    Kilobytes,
    Megabytes,
    Gigabytes,
}

impl SizeUnit {
    /// How many bytes the unit has.
    pub open spec fn factor(self) -> nat {
        match self {
            SizeUnit::Bytes => 1,
            SizeUnit::Kilobytes => 1024,
            SizeUnit::Megabytes => 1024 * 1024,
            SizeUnit::Gigabytes => 1024 * 1024 * 1024,
        }
    }
}

/// The whole number of bytes that the decimal `whole.fraction` of a unit
/// holds, as double-precision arithmetic gives it: the whole part of the
/// double-precision number nearest to the decimal times `factor`.
pub open spec fn scaled_value(whole: Seq<char>, fraction: Seq<char>, factor: nat) -> nat {
    double_floor(decimal_value(whole + fraction) * factor, pow10(fraction.len()))
}

/// `n`, or the largest `u64` where `n` is above it.
pub open spec fn saturated(n: nat) -> u64 {
    if n > u64::MAX {
        u64::MAX
    } else {
        n as u64
    }
}

/// Whether `n` is read as itself when it is written as a whole number of
/// bytes: it is a double-precision number, or the largest `u64`.
pub open spec fn reads_back(n: u64) -> bool {
    saturated(double_floor(n as nat, 1)) == n
}

/// Every size that is computed is read as itself.
pub proof fn lemma_sizes_read_back(a: nat, b: nat)
    requires
        b > 0,
    ensures
        reads_back(saturated(double_floor(a, b))),
{
    crate::double::lemma_double_floor_settles(a, b);
    crate::double::lemma_largest_rounds_up();
}

/// Digits write zero exactly if each is `0`.
pub proof fn lemma_zero_digits(s: Seq<char>)
    requires
        all_digits(s),
    ensures
        decimal_value(s) == 0 <==> forall|i: int| 0 <= i < s.len() ==> #[trigger] s[i] == '0',
    decreases s.len(),
{
    if s.len() > 0 {
        let head = s.drop_last();
        assert forall|i: int| 0 <= i < head.len() implies is_digit(#[trigger] head[i]) by {
            assert(head[i] == s[i]);
        }
        lemma_zero_digits(head);
        assert(is_digit(s[s.len() - 1]));
        if decimal_value(s) == 0 {
            assert forall|i: int| 0 <= i < s.len() implies #[trigger] s[i] == '0' by {
                if i < s.len() - 1 {
                    assert(head[i] == '0');
                }
            }
        }
        if forall|i: int| 0 <= i < s.len() ==> #[trigger] s[i] == '0' {
            assert forall|i: int| 0 <= i < head.len() implies #[trigger] head[i] == '0' by {
                assert(s[i] == '0');
            }
            assert(s[s.len() - 1] == '0');
        }
    }
}

/// Whether the digits write zero.
fn is_zero(rem: &Vec<char>) -> (zero: bool)
    requires
        all_digits(rem@),
    ensures
        zero == (decimal_value(rem@) == 0),
{
    proof {
        lemma_zero_digits(rem@);
    }
    let mut i: usize = 0;
    while i < rem.len()
        invariant
            i <= rem.len(),
            all_digits(rem@),
            forall|k: int| 0 <= k < i ==> #[trigger] rem@[k] == '0',
        decreases rem.len() - i,
    {
        if rem[i] != '0' {
            proof {
                lemma_zero_digits(rem@);
                assert(rem@[i as int] != '0');
            }
            return false;
        }
        i += 1;
    }
    true
}

/// The value of a digit in front of digits.
proof fn lemma_leading_digit(s: Seq<char>, i: int)
    requires
        0 <= i < s.len(),
    ensures
        decimal_value(s.skip(i)) == digit_value(s[i]) * pow10((s.len() - i - 1) as nat)
            + decimal_value(s.skip(i + 1)),
{
    let head = seq![s[i]];
    let tail = s.skip(i + 1);
    assert(head + tail =~= s.skip(i));
    lemma_decimal_value_concat(head, tail);
    assert(head.drop_last() =~= Seq::<char>::empty());
    assert(decimal_value(head.drop_last()) == 0);
    assert(head.last() == s[i]);
    assert(decimal_value(head) == digit_value(s[i]));
}

/// Doubles the number that the digits write, in place, and says whether
/// a one is carried out of the first digit: the digits are those of a
/// fraction, and the carry is the whole part of its double.
fn double_digits(rem: &mut Vec<char>) -> (carry: bool)
    requires
        all_digits(old(rem)@),
    ensures
        all_digits(final(rem)@),
        final(rem)@.len() == old(rem)@.len(),
        2 * decimal_value(old(rem)@) == (if carry {
            pow10(old(rem)@.len())
        } else {
            0
        }) + decimal_value(final(rem)@),
        decimal_value(final(rem)@) < pow10(old(rem)@.len()),
{
    let ghost before = rem@;
    let n = rem.len();
    let mut carry: u8 = 0;
    let mut i: usize = n;
    assert(before.skip(n as int) =~= Seq::<char>::empty());
    assert(pow10(0) == 1);
    while i > 0
        invariant
            i <= n,
            n == before.len(),
            rem@.len() == n,
            all_digits(before),
            all_digits(rem@),
            carry <= 1,
            forall|k: int| 0 <= k < i ==> #[trigger] rem@[k] == before[k],
            2 * decimal_value(before.skip(i as int)) == carry * pow10((n - i) as nat)
                + decimal_value(rem@.skip(i as int)),
        decreases i,
    {
        let ghost prev = rem@;
        let c = rem[i - 1];
        assert(c == before[i - 1]);
        assert(is_digit(c));
        let d: u8 = (c as u32 - '0' as u32) as u8;
        let x: u8 = 2 * d + carry;
        let next = digit_to_char(x % 10);
        rem.set(i - 1, next);
        proof {
            let p = pow10((n - i) as nat);
            lemma_leading_digit(before, i - 1);
            lemma_leading_digit(rem@, i - 1);
            assert(rem@.skip(i as int) =~= prev.skip(i as int));
            assert(pow10((n - i + 1) as nat) == 10 * p);
            assert(2 * (d * p + decimal_value(before.skip(i as int))) == (x / 10) * (10 * p) + ((x
                % 10) * p + decimal_value(prev.skip(i as int)))) by (nonlinear_arith)
                requires
                    2 * decimal_value(before.skip(i as int)) == carry * p + decimal_value(
                        prev.skip(i as int),
                    ),
                    x == 2 * d + carry,
            ;
            assert forall|k: int| 0 <= k < rem@.len() implies is_digit(#[trigger] rem@[k]) by {
                if k != i - 1 {
                    assert(rem@[k] == prev[k]);
                }
            }
        }
        carry = x / 10;
        i -= 1;
    }
    proof {
        assert(before.skip(0) =~= before);
        assert(rem@.skip(0) =~= rem@);
        lemma_decimal_value_bound(rem@);
    }
    carry == 1
}

/// Doubles the fraction that the digits write `count` times, in place,
/// and returns what is carried out of it: the whole part of the fraction
/// times two to the power `count`.
fn shift_digits(rem: &mut Vec<char>, count: usize) -> (whole: u128)
    requires
        all_digits(old(rem)@),
        count <= 54,
    ensures
        all_digits(final(rem)@),
        final(rem)@.len() == old(rem)@.len(),
        decimal_value(old(rem)@) * pow2(count as nat) == whole * pow10(old(rem)@.len())
            + decimal_value(final(rem)@),
        decimal_value(final(rem)@) < pow10(old(rem)@.len()),
        whole < pow2(count as nat),
{
    let ghost before = rem@;
    let ghost t = pow10(before.len());
    let ghost start = decimal_value(before);
    let mut whole: u128 = 0;
    let mut i: usize = 0;
    proof {
        lemma_decimal_value_bound(before);
        assert(start * 1 == 0 * t + start) by (nonlinear_arith);
    }
    while i < count
        invariant
            i <= count <= 54,
            rem@.len() == before.len(),
            t == pow10(before.len()),
            start == decimal_value(before),
            all_digits(rem@),
            start * pow2(i as nat) == whole * t + decimal_value(rem@),
            decimal_value(rem@) < t,
            whole < pow2(i as nat),
        decreases count - i,
    {
        let ghost rho = decimal_value(rem@);
        let ghost g = whole as nat;
        let carry = double_digits(rem);
        let bit: u128 = if carry {
            1
        } else {
            0
        };
        proof {
            lemma_pow2_values();
            crate::double::lemma_pow2_grows((i + 1) as nat, 54);
            let p = pow2(i as nat);
            let rho2 = decimal_value(rem@);
            assert(start * (2 * p) == (2 * g + bit) * t + rho2) by (nonlinear_arith)
                requires
                    start * p == g * t + rho,
                    2 * rho == bit * t + rho2,
            ;
        }
        whole = 2 * whole + bit;
        i += 1;
    }
    whole
}

/// A number with a fraction, split into its whole part times the unit and
/// what the fraction adds.
proof fn lemma_split_scaled(i: nat, fv: nat, t: nat, tw: nat, g: nat, rho: nat)
    requires
        t > 0,
        fv * tw == g * t + rho,
        rho < t,
    ensures
        ((i * t + fv) * tw) / t == i * tw + g,
        ((i * t + fv) * tw) % t == rho,
        (i * t + fv) * tw == (i * tw + g) * t + rho,
{
    let a = (i * t + fv) * tw;
    let w = i * tw + g;
    assert(a == w * t + rho) by (nonlinear_arith)
        requires
            a == (i * t + fv) * tw,
            w == i * tw + g,
            fv * tw == g * t + rho,
    ;
    lemma_round_known(a, t, w, rho);
}

/// Rounding at a spacing of `p = 2 * h`, when the whole part `w` of the
/// quotient is known as `q * p + r`.
proof fn lemma_round_wide(a: nat, t: nat, w: nat, rho: nat, p: nat, h: nat, q: nat, r: nat)
    requires
        t > 0,
        a == w * t + rho,
        rho < t,
        p == 2 * h,
        h >= 1,
        w == q * p + r,
        r < p,
    ensures
        round_half_even(a, t * p) == (if r < h || (r == h && rho == 0 && q % 2 == 0) {
            q
        } else {
            q + 1
        }),
{
    let rest = r * t + rho;
    assert(a == q * (t * p) + rest) by (nonlinear_arith)
        requires
            a == w * t + rho,
            w == q * p + r,
            rest == r * t + rho,
    ;
    assert(rest < t * p) by (nonlinear_arith)
        requires
            rest == r * t + rho,
            rho < t,
            r < p,
            t > 0,
    ;
    assert(t * p > 0) by (nonlinear_arith)
        requires
            t > 0,
            p >= 2,
    ;
    lemma_round_known(a, t * p, q, rest);
    assert((2 * rest < t * p) == (r < h)) by (nonlinear_arith)
        requires
            rest == r * t + rho,
            rho < t,
            p == 2 * h,
            t > 0,
    ;
    assert((2 * rest == t * p) == (r == h && rho == 0)) by (nonlinear_arith)
        requires
            rest == r * t + rho,
            rho < t,
            p == 2 * h,
            t > 0,
    ;
}

/// Whether a quotient lies within one part in two to the `j` below the
/// next whole number, read off the first `j` bits of its fraction.
proof fn lemma_near_next(a: nat, t: nat, w: nat, rho: nat, j: nat, high: nat, rho2: nat)
    requires
        t > 0,
        a == w * t + rho,
        rho < t,
        rho * pow2(j) == high * t + rho2,
        rho2 < t,
    ensures
        (((w + 1) * t - a) * pow2(j) <= t) == (high + 1 == pow2(j)),
        high < pow2(j),
{
    let p = pow2(j);
    lemma_pow2_positive(j);
    assert(high < p) by (nonlinear_arith)
        requires
            rho * p == high * t + rho2,
            rho < t,
            t > 0,
            p >= 1,
    ;
    assert((w + 1) * t - a == t - rho) by (nonlinear_arith)
        requires
            a == w * t + rho,
    ;
    assert(((t - rho) * p <= t) == (high + 1 == p)) by (nonlinear_arith)
        requires
            rho * p == high * t + rho2,
            rho < t,
            rho2 < t,
            high < p,
            t > 0,
    ;
}

/// The decimal `whole.fraction` in units of `unit`, in whole bytes as
/// double-precision arithmetic gives them, and cut off at the largest
/// `u64`. Both ranges of `v` hold digits only, and `whole` holds at least
/// one.
pub(crate) fn scale_decimal(
    v: &Vec<char>,
    whole_from: usize,
    whole_to: usize,
    frac_from: usize,
    frac_to: usize,
    unit: SizeUnit,
) -> (bytes: u64)
    requires
        whole_from < whole_to <= v.len(),
        frac_from <= frac_to <= v.len(),
        all_digits(v@.subrange(whole_from as int, whole_to as int)),
        all_digits(v@.subrange(frac_from as int, frac_to as int)),
    ensures
        bytes == saturated(
            scaled_value(
                v@.subrange(whole_from as int, whole_to as int),
                v@.subrange(frac_from as int, frac_to as int),
                unit.factor(),
            ),
        ),
{
    let ghost whole = v@.subrange(whole_from as int, whole_to as int);
    let ghost fraction = v@.subrange(frac_from as int, frac_to as int);
    let ghost t = pow10(fraction.len());
    let ghost iv = decimal_value(whole);
    let ghost fv = decimal_value(fraction);
    let ghost tw = unit.factor();
    let ghost a = decimal_value(whole + fraction) * tw;
    let (steps, two): (usize, u128) = match unit {
        SizeUnit::Bytes => (0, 1),
        SizeUnit::Kilobytes => (10, 1024),
        SizeUnit::Megabytes => (20, 1024 * 1024),
        SizeUnit::Gigabytes => (30, 1024 * 1024 * 1024),
    };
    proof {
        lemma_pow2_values();
        lemma_pow10_positive(fraction.len());
        lemma_decimal_value_concat(whole, fraction);
        assert(two == tw && tw == pow2(steps as nat));
    }
    let mut rem = range_of(v, frac_from, frac_to);
    let part = shift_digits(&mut rem, steps);
    let ghost rho = decimal_value(rem@);
    proof {
        lemma_split_scaled(iv, fv, t, tw, part as nat, rho);
    }
    let whole_value: u64 = match read_digits(v, whole_from, whole_to, u64::MAX) {
        Some(n) => n,
        None => {
            proof {
                assert(iv * tw + part >= 0x1_0000_0000_0000_0000) by (nonlinear_arith)
                    requires
                        iv >= 0x1_0000_0000_0000_0000,
                        tw >= 1,
                        part >= 0,
                ;
                lemma_double_floor_large(a, t);
            }
            return u64::MAX;
        },
    };
    assert(whole_value * two <= 0xffff_ffff_ffff_ffff * 0x4000_0000) by (nonlinear_arith)
        requires
            whole_value <= 0xffff_ffff_ffff_ffff,
            two <= 0x4000_0000,
    ;
    let w: u128 = (whole_value as u128) * two + part;
    assert(a / t == w && a % t == rho && a == w * t + rho);
    let near: u128 = if w >= 0x20_0000_0000_0000 {
        let p = step_of(w);
        proof {
            lemma_double_step(w as nat);
        }
        let h = p / 2;
        let q = w / p;
        let r = w % p;
        let exact = is_zero(&rem);
        let up = !(r < h || (r == h && exact && q % 2 == 0));
        let m = if up {
            q + 1
        } else {
            q
        };
        proof {
            assert(p == 2 * h) by {
                assert(p == 2 * double_step((w / 2) as nat));
            }
            vstd::arithmetic::div_mod::lemma_fundamental_div_mod(w as int, p as int);
            assert(w == q * p + r) by (nonlinear_arith)
                requires
                    w == p * q + r,
            ;
            lemma_round_wide(a, t, w as nat, rho, p as nat, h as nat, q as nat, r as nat);
            assert(t * p == t * double_step(w as nat));
        }
        assert(m * p <= 0x20_0000_0000_0000 * 0x1_0000_0000_0000) by (nonlinear_arith)
            requires
                m <= 0x20_0000_0000_0000,
                p <= 0x1_0000_0000_0000,
        ;
        m * p
    } else if w >= 0x10_0000_0000_0000 {
        let carry = double_digits(&mut rem);
        let exact = is_zero(&rem);
        if carry && (!exact || w % 2 == 1) {
            w + 1
        } else {
            w
        }
    } else {
        let len = bits_of(w);
        let count = 54 - len;
        let high = shift_digits(&mut rem, count);
        let full = two_to(count);
        proof {
            lemma_near_next(a, t, w as nat, rho, count as nat, high as nat, decimal_value(rem@));
        }
        if high + 1 == full {
            w + 1
        } else {
            w
        }
    };
    if near > u64::MAX as u128 {
        u64::MAX
    } else {
        near as u64
    }
}

} // verus!
