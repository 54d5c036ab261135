//! Double-precision rounding, stated in whole numbers.
//!
//! Sizes are computed as double-precision arithmetic computes them. A
//! double-precision number has 53 significant bits; a number that needs
//! more is taken to the nearest one that does not, and to the one with an
//! even last bit where two are equally near. This module says what that
//! gives for the quotient of two whole numbers.

use vstd::prelude::*;
use vstd::arithmetic::div_mod::{lemma_div_denominator, lemma_fundamental_div_mod_converse};

verus! {

/// Two to the power `n`.
pub open spec fn pow2(n: nat) -> nat
    decreases n,
{
    if n == 0 {
        1
    } else {
        2 * pow2((n - 1) as nat)
    }
}

/// How many bits `n` takes.
pub open spec fn bit_length(n: nat) -> nat
    decreases n,
{
    if n == 0 {
        0
    } else {
        1 + bit_length(n / 2)
    }
}

/// `a / b` rounded to the nearest whole number, and to the even one of
/// the two where it lies halfway.
pub open spec fn round_half_even(a: nat, b: nat) -> nat {
    let q = a / b;
    let r = a % b;
    if 2 * r < b || (2 * r == b && q % 2 == 0) {
        q
    } else {
        q + 1
    }
}

/// The spacing of the double-precision numbers around `n`: the power of
/// two `p` for which `n / p` has 53 bits, and 1 for a smaller `n`.
pub open spec fn double_step(n: nat) -> nat
    decreases n,
{
    if n < 0x20_0000_0000_0000 {
        1
    } else {
        2 * double_step(n / 2)
    }
}

/// The whole number that is nearest to `n` among the double-precision
/// numbers.
pub open spec fn nearest_double(n: nat) -> nat {
    round_half_even(n, double_step(n)) * double_step(n)
}

/// The whole part of the double-precision number nearest to `a / b`.
///
/// With `w` the whole part of `a / b`: from two to the 53rd on, the
/// double-precision numbers are whole and `double_step(w)` apart, and the
/// nearest is found by rounding. Between two to the 52nd and two to the
/// 53rd they are the whole numbers. Below, they lie closer than the whole
/// numbers: the whole part of the nearest is `w`, unless `a / b` lies
/// within half their spacing below `w + 1`, and that spacing is two to
/// the power `bit_length(w) - 53`.
pub open spec fn double_floor(a: nat, b: nat) -> nat {
    let w = a / b;
    if w >= 0x20_0000_0000_0000 {
        round_half_even(a, b * double_step(w)) * double_step(w)
    } else if w >= 0x10_0000_0000_0000 {
        round_half_even(a, b)
    } else if ((w + 1) * b - a) * pow2((54 - bit_length(w)) as nat) <= b {
        w + 1
    } else {
        w
    }
}

pub proof fn lemma_pow2_positive(n: nat)
    ensures
        pow2(n) >= 1,
    decreases n,
{
    if n > 0 {
        lemma_pow2_positive((n - 1) as nat);
    }
}

/// A number takes fewer bits than `n` exactly if it is below two to the
/// `n`.
pub proof fn lemma_bit_length_bound(w: nat, n: nat)
    ensures
        bit_length(w) <= n <==> w < pow2(n),
    decreases n,
{
    if n > 0 {
        lemma_bit_length_bound(w / 2, (n - 1) as nat);
    }
}

/// The spacing is at least 1, it is even from two to the 53rd on, and what
/// is left of `n` after division by it has 53 bits.
pub proof fn lemma_double_step(n: nat)
    ensures
        double_step(n) >= 1,
        n < 0x20_0000_0000_0000 ==> double_step(n) == 1,
        n >= 0x20_0000_0000_0000 ==> double_step(n) == 2 * double_step(n / 2) && double_step(n)
            >= 2 && 0x10_0000_0000_0000 <= n / double_step(n) < 0x20_0000_0000_0000,
    decreases n,
{
    if n >= 0x20_0000_0000_0000 {
        lemma_double_step(n / 2);
        let p = double_step(n / 2);
        lemma_div_denominator(n as int, 2, p as int);
    }
}

/// From two to the 64th on the spacing is at least two to the 12th.
pub proof fn lemma_double_step_large(n: nat)
    requires
        n >= 0x1_0000_0000_0000_0000,
    ensures
        double_step(n) >= 0x1000,
{
    reveal_with_fuel(double_step, 13);
    let n1 = n / 2;
    let n2 = n1 / 2;
    let n3 = n2 / 2;
    let n4 = n3 / 2;
    let n5 = n4 / 2;
    let n6 = n5 / 2;
    let n7 = n6 / 2;
    let n8 = n7 / 2;
    let n9 = n8 / 2;
    let n10 = n9 / 2;
    let n11 = n10 / 2;
    let n12 = n11 / 2;
    assert(n11 >= 0x20_0000_0000_0000);
    lemma_double_step(n12);
}

/// Rounding gives the quotient or the next whole number.
pub proof fn lemma_round_bounds(a: nat, b: nat)
    requires
        b > 0,
    ensures
        a / b <= round_half_even(a, b) <= a / b + 1,
{
}

/// Rounding, when the quotient and the remainder are known.
pub proof fn lemma_round_known(a: nat, b: nat, q: nat, r: nat)
    requires
        b > 0,
        a == q * b + r,
        r < b,
    ensures
        a / b == q,
        a % b == r,
        round_half_even(a, b) == (if 2 * r < b || (2 * r == b && q % 2 == 0) {
            q
        } else {
            q + 1
        }),
{
    assert(q * b == b * q) by (nonlinear_arith);
    lemma_fundamental_div_mod_converse(a as int, b as int, q as int, r as int);
}

/// From two to the 64th on, the whole part of the nearest double is at
/// least two to the 64th.
pub proof fn lemma_double_floor_large(a: nat, b: nat)
    requires
        b > 0,
        a / b >= 0x1_0000_0000_0000_0000,
    ensures
        double_floor(a, b) >= 0x1_0000_0000_0000_0000,
{
    let w = a / b;
    let p = double_step(w);
    lemma_double_step(w);
    lemma_double_step_large(w);
    assert(b * p > 0) by (nonlinear_arith)
        requires
            b > 0,
            p > 0,
    ;
    lemma_div_denominator(a as int, b as int, p as int);
    let q = a / (b * p);
    assert(q == w / p);
    assert(q * p >= 0x1_0000_0000_0000_0000) by (nonlinear_arith)
        requires
            q >= 0x10_0000_0000_0000,
            p >= 0x1000,
    ;
    assert(round_half_even(a, b * p) * p >= q * p) by (nonlinear_arith)
        requires
            round_half_even(a, b * p) >= q,
            p >= 1,
    ;
}

pub proof fn lemma_pow2_adds(a: nat, b: nat)
    ensures
        pow2(a + b) == pow2(a) * pow2(b),
    decreases b,
{
    if b > 0 {
        let b1 = (b - 1) as nat;
        lemma_pow2_adds(a, b1);
        assert((a + b - 1) as nat == a + b1);
        assert(pow2(a + b) == 2 * pow2(a + b1));
        assert(pow2(b) == 2 * pow2(b1));
        assert(2 * (pow2(a) * pow2(b1)) == pow2(a) * (2 * pow2(b1))) by (nonlinear_arith);
    } else {
        assert(pow2(b) == 1);
        assert(pow2(a) * 1 == pow2(a));
    }
}

pub proof fn lemma_pow2_grows(a: nat, b: nat)
    requires
        a <= b,
    ensures
        pow2(a) <= pow2(b),
    decreases b - a,
{
    if a < b {
        lemma_pow2_grows(a + 1, b);
        lemma_pow2_positive(a);
    }
}

/// Some powers of two.
pub proof fn lemma_pow2_values()
    ensures
        pow2(0) == 1,
        pow2(1) == 2,
        pow2(2) == 4,
        pow2(10) == 0x400,
        pow2(20) == 0x10_0000,
        pow2(30) == 0x4000_0000,
        pow2(52) == 0x10_0000_0000_0000,
        pow2(53) == 0x20_0000_0000_0000,
        pow2(54) == 0x40_0000_0000_0000,
{
    reveal_with_fuel(pow2, 11);
    assert(pow2(10) == 0x400);
    lemma_pow2_adds(10, 10);
    assert(pow2(20) == 0x400 * 0x400);
    lemma_pow2_adds(20, 10);
    assert(pow2(30) == 0x10_0000 * 0x400);
    lemma_pow2_adds(30, 20);
    assert(pow2(50) == 0x4000_0000 * 0x10_0000);
    lemma_pow2_adds(50, 2);
    assert(pow2(52) == 0x4_0000_0000_0000 * 4);
    lemma_pow2_adds(52, 1);
    assert(pow2(53) == 0x10_0000_0000_0000 * 2);
    lemma_pow2_adds(53, 1);
    assert(pow2(54) == 0x20_0000_0000_0000 * 2);
}

/// Two to the power `n`, for `n` up to 54.
pub fn two_to(n: usize) -> (p: u128)
    requires
        n <= 54,
    ensures
        p == pow2(n as nat),
        1 <= p <= 0x40_0000_0000_0000,
{
    let mut p: u128 = 1;
    let mut i: usize = 0;
    while i < n
        invariant
            i <= n <= 54,
            p == pow2(i as nat),
        decreases n - i,
    {
        proof {
            lemma_pow2_values();
            lemma_pow2_grows((i + 1) as nat, 54);
        }
        p = p * 2;
        i += 1;
    }
    proof {
        lemma_pow2_values();
        lemma_pow2_grows(n as nat, 54);
        lemma_pow2_positive(n as nat);
    }
    p
}

/// How many bits a number below two to the 52nd takes.
pub fn bits_of(w: u128) -> (len: usize)
    requires
        w < 0x10_0000_0000_0000,
    ensures
        len == bit_length(w as nat),
        len <= 52,
{
    proof {
        lemma_pow2_values();
        lemma_bit_length_bound(w as nat, 52);
    }
    let mut m: u128 = w;
    let mut len: usize = 0;
    while m > 0
        invariant
            bit_length(w as nat) == len + bit_length(m as nat),
            bit_length(w as nat) <= 52,
        decreases m,
    {
        m = m / 2;
        len += 1;
    }
    len
}

/// Finds `double_step` for a number below two to the 100th.
pub fn step_of(n: u128) -> (p: u128)
    requires
        n < 0x10_0000_0000_0000_0000_0000_0000,
    ensures
        p == double_step(n as nat),
        1 <= p <= 0x1_0000_0000_0000,
        p * 0x10_0000_0000_0000 <= n || p == 1,
{
    let mut p: u128 = 1;
    let mut m: u128 = n;
    while m >= 0x20_0000_0000_0000
        invariant
            double_step(n as nat) == p * double_step(m as nat),
            1 <= p <= 0x1_0000_0000_0000,
            p * m <= n,
            n < 0x10_0000_0000_0000_0000_0000_0000,
            p == 1 || p * 0x10_0000_0000_0000 <= n,
        decreases m,
    {
        assert(p < 0x8000_0000_0000) by (nonlinear_arith)
            requires
                p * m <= n,
                n < 0x10_0000_0000_0000_0000_0000_0000,
                m >= 0x20_0000_0000_0000,
                p >= 1,
        ;
        assert((p * 2) * (m / 2) <= p * m) by (nonlinear_arith)
            requires
                p >= 1,
                m >= 0,
        ;
        assert((p * 2) * 0x10_0000_0000_0000 <= (p * 2) * (m / 2)) by (nonlinear_arith)
            requires
                p >= 1,
                m / 2 >= 0x10_0000_0000_0000,
        ;
        assert(double_step(m as nat) == 2 * double_step((m / 2) as nat));
        assert(p * (2 * double_step((m / 2) as nat)) == (p * 2) * double_step((m / 2) as nat))
            by (nonlinear_arith);
        m = m / 2;
        p = p * 2;
    }
    assert(double_step(m as nat) == 1);
    assert(p * 1 == p);
    p
}

/// Finds `round_half_even`.
pub fn rounded_quotient(a: u128, b: u128) -> (q: u128)
    requires
        0 < b <= 0x1_0000_0000_0000_0000,
        a < 0x1_0000_0000_0000_0000_0000_0000,
    ensures
        q == round_half_even(a as nat, b as nat),
        a / b <= q <= a / b + 1,
{
    let q = a / b;
    let r = a % b;
    if 2 * r < b || (2 * r == b && q % 2 == 0) {
        q
    } else {
        q + 1
    }
}

/// Whether `p` is a power of two.
pub open spec fn is_step(p: nat) -> bool
    decreases p,
{
    p == 1 || (p >= 2 && p % 2 == 0 && is_step(p / 2))
}

/// The spacing is a power of two.
pub proof fn lemma_step_is_step(n: nat)
    ensures
        is_step(double_step(n)),
    decreases n,
{
    if n >= 0x20_0000_0000_0000 {
        lemma_step_is_step(n / 2);
        lemma_double_step(n / 2);
    }
}

/// The spacing around a number of 53 bits times a power of two is that
/// power of two.
pub proof fn lemma_step_of_product(m: nat, p: nat)
    requires
        is_step(p),
        0x10_0000_0000_0000 <= m < 0x20_0000_0000_0000,
    ensures
        double_step(m * p) == p,
    decreases p,
{
    if p == 1 {
        assert(m * 1 == m);
    } else {
        let h = p / 2;
        lemma_step_of_product(m, h);
        assert(m * p == 2 * (m * h)) by (nonlinear_arith)
            requires
                p == 2 * h,
        ;
        assert(m * h >= 0x10_0000_0000_0000) by (nonlinear_arith)
            requires
                m >= 0x10_0000_0000_0000,
                h >= 1,
        ;
        assert((m * p) / 2 == m * h);
    }
}

/// A whole number that is a double-precision number is the whole part of
/// the double nearest to itself.
pub proof fn lemma_small_settles(x: nat)
    requires
        x < 0x20_0000_0000_0000,
    ensures
        double_floor(x, 1) == x,
{
    assert(x / 1 == x);
    assert(x % 1 == 0);
    if x < 0x10_0000_0000_0000 {
        lemma_pow2_values();
        lemma_bit_length_bound(x, 52);
        let j = (54 - bit_length(x)) as nat;
        lemma_pow2_grows(2, j);
        assert(((x + 1) * 1 - x) * pow2(j) == pow2(j)) by (nonlinear_arith);
    }
}

/// A number of 53 bits times a power of two, and two to the 53rd times a
/// power of two, are double-precision numbers.
pub proof fn lemma_product_settles(m: nat, p: nat)
    requires
        is_step(p),
        0x10_0000_0000_0000 <= m <= 0x20_0000_0000_0000,
    ensures
        double_floor(m * p, 1) == m * p,
{
    let x = m * p;
    assert(x / 1 == x);
    if x < 0x20_0000_0000_0000 {
        lemma_small_settles(x);
    } else {
        // The number as 53 bits times a power of two.
        let (m2, p2): (nat, nat) = if m < 0x20_0000_0000_0000 {
            (m, p)
        } else {
            (0x10_0000_0000_0000nat, 2 * p)
        };
        assert(is_step(p2)) by {
            if m >= 0x20_0000_0000_0000 {
                assert((2 * p) / 2 == p);
            }
        }
        assert(x == m2 * p2) by (nonlinear_arith)
            requires
                x == m * p,
                (m2 == m && p2 == p) || (m == 0x20_0000_0000_0000 && m2 == 0x10_0000_0000_0000
                    && p2 == 2 * p),
        ;
        lemma_step_of_product(m2, p2);
        assert(1 * p2 == p2);
        assert(x == m2 * p2 + 0);
        assert(p2 >= 1) by {
            if p2 != 1 {
            }
        }
        lemma_round_known(x, p2, m2, 0);
    }
}

/// The whole part of the nearest double is itself a double-precision
/// number: rounding it again changes nothing.
pub proof fn lemma_double_floor_settles(a: nat, b: nat)
    requires
        b > 0,
    ensures
        double_floor(double_floor(a, b), 1) == double_floor(a, b),
{
    let w = a / b;
    if w >= 0x20_0000_0000_0000 {
        let p = double_step(w);
        lemma_double_step(w);
        lemma_step_is_step(w);
        assert(b * p > 0) by (nonlinear_arith)
            requires
                b > 0,
                p > 0,
        ;
        lemma_div_denominator(a as int, b as int, p as int);
        lemma_round_bounds(a, b * p);
        lemma_product_settles(round_half_even(a, b * p), p);
    } else if w >= 0x10_0000_0000_0000 {
        lemma_round_bounds(a, b);
        let x = round_half_even(a, b);
        if x < 0x20_0000_0000_0000 {
            lemma_small_settles(x);
        } else {
            assert(is_step(1));
            assert(x * 1 == x);
            lemma_product_settles(x, 1);
        }
    } else {
        lemma_small_settles(double_floor(a, b));
    }
}

/// The largest `u64` is taken up to two to the 64th.
pub proof fn lemma_largest_rounds_up()
    ensures
        double_floor(0xffff_ffff_ffff_ffff, 1) == 0x1_0000_0000_0000_0000,
{
    reveal_with_fuel(double_step, 13);
    let n: nat = 0xffff_ffff_ffff_ffff;
    assert(n / 1 == n);
    assert(double_step(n) == 0x800);
    assert(1 * 0x800 == 0x800);
    assert(n == 0x1f_ffff_ffff_ffff * 0x800 + 0x7ff);
    lemma_round_known(n, 0x800, 0x1f_ffff_ffff_ffff, 0x7ff);
}

} // verus!
