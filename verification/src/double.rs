//! Double-precision numbers, exactly.
//!
//! Every finite nonnegative double is a whole multiple of the smallest
//! positive one, 2^-1074. Here a double is that multiple, a natural number of
//! ticks, and each operation is the one of IEEE 754: the exact result,
//! rounded to the nearest double, to the one with the even last bit on a tie.
//! There is no largest double here: what would round to infinity stays
//! finite.

use vstd::prelude::*;

use crate::natural;
use crate::natural::Natural;
use crate::text;

verus! {

/// Natural numbers below this one have at most 53 bits: 2^53.
pub const EXACT: u64 = 0x20_0000_0000_0000;

/// Number of bits of a double below the point.
pub const FRACTION_BITS: u32 = 1074;

/// Ticks in the number one.
pub open spec fn one() -> nat {
    natural::two_to(FRACTION_BITS as nat)
}

/// `n / d` rounded to the nearest integer, to the even one on a tie.
pub open spec fn rounded(n: nat, d: nat) -> nat {
    let q = n / d;
    let r = n % d;
    if 2 * r < d || (2 * r == d && q % 2 == 0) {
        q
    } else {
        q + 1
    }
}

/// The spacing of the numbers with 53 significant bits around `n`: the
/// smallest power of two of which `n` takes less than 2^53.
pub open spec fn spacing(n: nat) -> nat
    decreases n,
{
    if n < EXACT {
        1
    } else {
        2 * spacing(n / 2)
    }
}

/// The double nearest to `p / q` ticks.
pub open spec fn nearest(p: nat, q: nat) -> nat {
    rounded(p, q * spacing(p / q)) * spacing(p / q)
}

/// The double nearest to the integer `n`.
pub open spec fn of_integer(n: nat) -> nat {
    nearest(n * one(), 1)
}

/// The product of a double and an integer that is a double too.
pub open spec fn product(x: nat, n: nat) -> nat {
    nearest(x * n, 1)
}

/// The sum of two doubles.
pub open spec fn sum(x: nat, y: nat) -> nat {
    nearest(x + y, 1)
}

/// The quotient of two doubles.
pub open spec fn quotient(x: nat, y: nat) -> nat {
    nearest(x * one(), y)
}

/// The integer nearest to a double, the larger one on a tie.
pub open spec fn to_integer(x: nat) -> nat {
    (2 * x + one()) / (2 * one())
}

/// Ten to the power of `k`.
pub open spec fn ten_to(k: nat) -> nat
    decreases k,
{
    if k == 0 {
        1
    } else {
        10 * ten_to((k - 1) as nat)
    }
}

/// The digits of a decimal number, without its point.
pub open spec fn digits_of(s: Seq<char>) -> Seq<char>
    decreases s.len(),
{
    if s.len() == 0 {
        seq![]
    } else if text::decimal_digit(s.last()) {
        digits_of(s.drop_last()).push(s.last())
    } else {
        digits_of(s.drop_last())
    }
}

/// How many digits of a decimal number stand behind its point.
pub open spec fn decimals_of(s: Seq<char>) -> nat
    decreases s.len(),
{
    if s.len() == 0 || !s.contains('.') || s.last() == '.' {
        0
    } else {
        1 + decimals_of(s.drop_last())
    }
}

/// The double nearest to a decimal number.
pub open spec fn of_decimal(s: Seq<char>) -> nat {
    nearest(text::number(digits_of(s)) * one(), ten_to(decimals_of(s)))
}

/// A double in units of which `n` make one, rounded to a whole number of
/// them.
pub open spec fn in_parts(x: nat, n: nat) -> nat {
    rounded(x * n, one())
}

/// A double with one decimal.
pub open spec fn with_one_decimal(x: nat) -> Seq<char> {
    let tenths = in_parts(x, 10);
    text::decimal(tenths / 10) + seq!['.', text::digit(tenths % 10)]
}

/// A double with two decimals.
pub open spec fn with_two_decimals(x: nat) -> Seq<char> {
    let hundredths = in_parts(x, 100);
    text::decimal(hundredths / 100) + seq![
        '.',
        text::digit(hundredths / 10 % 10),
        text::digit(hundredths % 10),
    ]
}

/// The spacing divides every power of two that is as large.
pub proof fn lemma_spacing_divides(n: nat, k: nat) -> (t: nat)
    requires
        n < EXACT * natural::two_to(k),
    ensures
        spacing(n) * t == natural::two_to(k),
        1 <= spacing(n) <= natural::two_to(k),
    decreases k,
{
    if n < EXACT {
        let t = natural::two_to(k);
        natural::lemma_two_to_is_positive(k);
        assert(1 * t == t);
        t
    } else {
        let t = lemma_spacing_divides(n / 2, (k - 1) as nat);
        assert((2 * spacing(n / 2)) * t == 2 * (spacing(n / 2) * t)) by (nonlinear_arith);
        t
    }
}

/// The spacing is at least one.
pub proof fn lemma_spacing_is_positive(n: nat)
    ensures
        spacing(n) >= 1,
    decreases n,
{
    if n >= EXACT {
        lemma_spacing_is_positive(n / 2);
    }
}

/// Rounding a multiple of `d` changes nothing.
pub proof fn lemma_rounded_multiple(k: nat, d: nat)
    requires
        d > 0,
    ensures
        rounded(d * k, d) == k,
{
    assert(d * k == k * d) by (nonlinear_arith);
    vstd::arithmetic::div_mod::lemma_fundamental_div_mod_converse(
        (d * k) as int,
        d as int,
        k as int,
        0,
    );
}

/// A number with at most 53 bits, times a power of two, is exact.
pub proof fn lemma_exact(m: nat, k: nat)
    requires
        m < EXACT,
    ensures
        nearest(m * natural::two_to(k), 1) == m * natural::two_to(k),
{
    let n = m * natural::two_to(k);
    natural::lemma_two_to_is_positive(k);
    assert(n < EXACT * natural::two_to(k)) by (nonlinear_arith)
        requires
            n == m * natural::two_to(k),
            m < EXACT,
            natural::two_to(k) >= 1,
    ;
    let t = lemma_spacing_divides(n, k);
    let s = spacing(n);
    assert(n == s * (m * t)) by (nonlinear_arith)
        requires
            n == m * natural::two_to(k),
            s * t == natural::two_to(k),
    ;
    assert(n / 1 == n);
    assert(1 * s == s);
    lemma_rounded_multiple(m * t, s);
    assert((m * t) * s == s * (m * t)) by (nonlinear_arith);
}

/// The spacing around a number is not larger than the number.
proof fn lemma_spacing_is_small(n: nat)
    requires
        n >= 1,
    ensures
        1 <= spacing(n) <= n,
    decreases n,
{
    if n >= EXACT {
        lemma_spacing_is_small(n / 2);
    }
}

/// The double nearest to a positive integer is positive.
pub proof fn lemma_of_integer_is_positive(n: nat)
    requires
        n >= 1,
    ensures
        of_integer(n) > 0,
{
    let p = n * one();
    natural::lemma_two_to_is_positive(FRACTION_BITS as nat);
    assert(p >= 1) by (nonlinear_arith)
        requires
            p == n * one(),
            n >= 1,
            one() >= 1,
    ;
    lemma_spacing_is_small(p);
    let s = spacing(p);
    lemma_floor(p, s, 1);
    assert(s * 1 == s);
    assert(p / 1 == p);
    assert(1 * s == s);
    assert(rounded(p, s) * s > 0) by (nonlinear_arith)
        requires
            rounded(p, s) >= 1,
            s >= 1,
    ;
}

/// A common factor of numerator and denominator makes no difference.
pub proof fn lemma_common_factor(a: nat, q: nat)
    requires
        q > 0,
    ensures
        nearest(a * q, q) == nearest(a, 1),
{
    vstd::arithmetic::div_mod::lemma_div_by_multiple(a as int, q as int);
    lemma_spacing_is_positive(a);
    let s = spacing(a);
    let u = a / s;
    let v = a % s;
    vstd::arithmetic::div_mod::lemma_fundamental_div_mod(a as int, s as int);
    assert(a * q == u * (q * s) + q * v) by (nonlinear_arith)
        requires
            a == s * u + v,
    ;
    assert(0 <= q * v < q * s) by (nonlinear_arith)
        requires
            0 <= v < s,
            q > 0,
    ;
    vstd::arithmetic::div_mod::lemma_fundamental_div_mod_converse(
        (a * q) as int,
        (q * s) as int,
        u as int,
        (q * v) as int,
    );
    assert(1 * s == s);
    assert(2 * (q * v) == q * (2 * v)) by (nonlinear_arith);
    if 2 * v < s {
        assert(q * (2 * v) < q * s) by (nonlinear_arith)
            requires
                2 * v < s,
                q > 0,
        ;
    } else if 2 * v > s {
        assert(q * (2 * v) > q * s) by (nonlinear_arith)
            requires
                2 * v > s,
                q > 0,
        ;
    }
}

/// What the spacing is, by how large the number is.
proof fn lemma_spacing_is(n: nat, k: nat)
    requires
        n < EXACT * natural::two_to(k),
        k > 0 ==> n >= EXACT * natural::two_to((k - 1) as nat),
    ensures
        spacing(n) == natural::two_to(k),
    decreases k,
{
    if k > 0 {
        natural::lemma_two_to_is_positive((k - 1) as nat);
        if k > 1 {
            assert(natural::two_to((k - 1) as nat) == 2 * natural::two_to((k - 2) as nat));
        }
        lemma_spacing_is(n / 2, (k - 1) as nat);
    }
}

/// How large the number is, by what the spacing is.
proof fn lemma_spacing_bounds(n: nat) -> (k: nat)
    ensures
        spacing(n) == natural::two_to(k),
        n < EXACT * natural::two_to(k),
        k > 0 ==> n >= EXACT * natural::two_to((k - 1) as nat),
    decreases n,
{
    if n < EXACT {
        0
    } else {
        let k = lemma_spacing_bounds(n / 2);
        if k > 0 {
            assert(natural::two_to(k) == 2 * natural::two_to((k - 1) as nat));
        }
        k + 1
    }
}

/// Larger exponents give larger powers of two.
proof fn lemma_two_to_grows(a: nat, b: nat)
    requires
        a <= b,
    ensures
        natural::two_to(a) <= natural::two_to(b),
    decreases b,
{
    if a < b {
        lemma_two_to_grows(a, (b - 1) as nat);
    }
}

/// A larger numerator is not rounded to less.
pub proof fn lemma_rounded_grows(a: nat, b: nat, d: nat)
    requires
        a <= b,
        d > 0,
    ensures
        rounded(a, d) <= rounded(b, d),
{
    vstd::arithmetic::div_mod::lemma_fundamental_div_mod(a as int, d as int);
    vstd::arithmetic::div_mod::lemma_fundamental_div_mod(b as int, d as int);
    vstd::arithmetic::div_mod::lemma_div_is_ordered(a as int, b as int, d as int);
    let p = a / d;
    let q = b / d;
    if p == q {
        assert(d * p == d * q);
    }
}

/// A larger integer does not have a smaller double nearest to it.
pub proof fn lemma_nearest_grows(a: nat, b: nat)
    requires
        a <= b,
    ensures
        nearest(a, 1) <= nearest(b, 1),
{
    let j = lemma_spacing_bounds(a);
    let k = lemma_spacing_bounds(b);
    let s = natural::two_to(j) as int;
    let t = natural::two_to(k) as int;
    natural::lemma_two_to_is_positive(j);
    natural::lemma_two_to_is_positive(k);
    assert(1 * spacing(a) == spacing(a) && 1 * spacing(b) == spacing(b));
    assert(a / 1 == a && b / 1 == b);
    let x = rounded(a, s as nat) as int;
    let y = rounded(b, t as nat) as int;
    if j == k {
        lemma_rounded_grows(a, b, s as nat);
        assert(x * s <= y * s) by (nonlinear_arith)
            requires
                x <= y,
                s >= 1,
        ;
    } else if j < k {
        lemma_two_to_grows(j, (k - 1) as nat);
        let h = natural::two_to((k - 1) as nat) as int;
        lemma_rounded_grows(a, (s * EXACT) as nat, s as nat);
        lemma_rounded_multiple(EXACT as nat, s as nat);
        let half = (EXACT / 2) as int;
        assert(t * half == EXACT * h) by (nonlinear_arith)
            requires
                t == 2 * h,
                2 * half == EXACT,
        ;
        lemma_rounded_grows((t * half) as nat, b, t as nat);
        lemma_rounded_multiple(half as nat, t as nat);
        assert(x * s <= y * t) by (nonlinear_arith)
            requires
                x <= EXACT,
                y >= half,
                2 * half == EXACT,
                t == 2 * h,
                1 <= s <= h,
                x >= 0,
        ;
    } else {
        lemma_two_to_grows(k, (j - 1) as nat);
        let h = natural::two_to((j - 1) as nat) as int;
        assert(EXACT * t <= EXACT * h) by (nonlinear_arith)
            requires
                t <= h,
                EXACT >= 0,
        ;
    }
}

/// `p / q` is below `m` just where `p` is below `q * m`.
proof fn lemma_floor(p: nat, q: nat, m: nat)
    requires
        q > 0,
    ensures
        p < q * m <==> p / q < m,
{
    vstd::arithmetic::div_mod::lemma_fundamental_div_mod(p as int, q as int);
    let n = p / q;
    let r = p % q;
    if n < m {
        assert(q * n + q <= q * m) by (nonlinear_arith)
            requires
                n + 1 <= m,
                q > 0,
        ;
    } else {
        assert(q * n >= q * m) by (nonlinear_arith)
            requires
                n >= m,
                q > 0,
        ;
    }
}

proof fn lemma_exact_is_a_power()
    ensures
        natural::two_to(53) == EXACT,
{
    reveal_with_fuel(natural::two_to, 54);
}

/// The spacing around `p / q` is the power of two of which it takes less than
/// 2^53, but not less than half as many.
proof fn lemma_spacing_found(p: nat, q: nat, k: nat)
    requires
        q > 0,
        p < q * (EXACT * natural::two_to(k)),
        k > 0 ==> p >= q * (EXACT * natural::two_to((k - 1) as nat)),
    ensures
        spacing(p / q) == natural::two_to(k),
        q * natural::two_to(k) > 0,
        p < (q * natural::two_to(k)) * natural::two_to(53),
{
    let s = natural::two_to(k) as int;
    lemma_floor(p, q, EXACT as nat * natural::two_to(k));
    if k > 0 {
        lemma_floor(p, q, EXACT as nat * natural::two_to((k - 1) as nat));
    }
    lemma_spacing_is(p / q, k);
    natural::lemma_two_to_is_positive(k);
    lemma_exact_is_a_power();
    assert(q * (EXACT * s) == (q * s) * EXACT) by (nonlinear_arith);
    assert(q * s > 0) by (nonlinear_arith)
        requires
            q > 0,
            s >= 1,
    ;
}

/// Whether `x` is `p / q` up to a relative error of `e` units of 2^-53.
pub open spec fn near(x: nat, p: nat, q: nat, e: nat) -> bool {
    -(e * p) <= 0x20_0000_0000_0000 * (x * q - p) <= e * p
}

/// A rounded quotient is off by at most one half.
pub proof fn law_rounded_is_within_half(n: nat, d: nat)
    requires
        d > 0,
    ensures
        -(d as int) <= 2 * (rounded(n, d) * d - n) <= d,
{
    vstd::arithmetic::div_mod::lemma_fundamental_div_mod(n as int, d as int);
    let q = n / d;
    let r = n % d;
    assert(rounded(n, d) * d == q * d || rounded(n, d) * d == q * d + d) by (nonlinear_arith)
        requires
            rounded(n, d) == q || rounded(n, d) == q + 1,
    ;
    assert(q * d == d * q) by (nonlinear_arith);
    assert((q + 1) * d == q * d + d) by (nonlinear_arith);
}

/// Half way between two integers, the even one is taken.
pub proof fn law_ties_go_to_the_even_integer(n: nat, d: nat)
    requires
        d > 0,
        2 * (rounded(n, d) * d - n) == d || 2 * (n - rounded(n, d) * d) == d,
    ensures
        rounded(n, d) % 2 == 0,
{
    vstd::arithmetic::div_mod::lemma_fundamental_div_mod(n as int, d as int);
    let q = n / d;
    assert(q * d == d * q) by (nonlinear_arith);
    assert((q + 1) * d == q * d + d) by (nonlinear_arith);
}

/// A double has at most 53 significant bits, `m` of them in `m * 2^k`: no
/// number with as many is nearer to `p / q`, and of two that are equally near
/// it is the one with the even last bit.
pub proof fn law_double_has_53_bits(p: nat, q: nat) -> (r: (nat, nat))
    requires
        q > 0,
    ensures
        ({
            let (m, k) = r;
            let s = natural::two_to(k) as int;
            let x = nearest(p, q) as int;
            &&& x == m * s
            &&& m <= 0x20_0000_0000_0000
            &&& k > 0 ==> m >= 0x10_0000_0000_0000
            &&& -(q * s) <= 2 * (x * q - p) <= q * s
            &&& 2 * (x * q - p) == q * s || 2 * (p - x * q) == q * s ==> m % 2 == 0
        }),
{
    let n = p / q;
    let k = lemma_spacing_bounds(n);
    let s = spacing(n);
    natural::lemma_two_to_is_positive(k);
    let d = q * s;
    assert(d > 0) by (nonlinear_arith)
        requires
            q > 0,
            s >= 1,
            d == q * s,
    ;
    law_rounded_is_within_half(p, d);
    let m = rounded(p, d);
    assert((m * s) * q == m * d) by (nonlinear_arith)
        requires
            d == q * s,
    ;
    lemma_floor(p, q, EXACT as nat * s);
    assert(q * (EXACT * s) == d * EXACT) by (nonlinear_arith)
        requires
            d == q * s,
    ;
    lemma_rounded_grows(p, (d * EXACT) as nat, d);
    lemma_rounded_multiple(EXACT as nat, d);
    if k > 0 {
        let h = natural::two_to((k - 1) as nat);
        lemma_floor(p, q, EXACT as nat * h);
        let half = (EXACT / 2) as nat;
        assert(q * (EXACT * h) == d * half) by (nonlinear_arith)
            requires
                d == q * s,
                s == 2 * h,
                2 * half == EXACT,
        ;
        lemma_rounded_grows((d * half) as nat, p, d);
        lemma_rounded_multiple(half, d);
    }
    if 2 * (m * d - p) == d || 2 * (p - m * d) == d {
        law_ties_go_to_the_even_integer(p, d);
    }
    (m, k)
}

/// The integer nearest to a double is off by at most one half, and where it
/// is off by that much it is the larger one.
pub proof fn law_nearest_integer(x: nat)
    ensures
        -(one() as int) < 2 * (to_integer(x) * one() - x) <= one(),
{
    let o = one();
    natural::lemma_two_to_is_positive(FRACTION_BITS as nat);
    vstd::arithmetic::div_mod::lemma_fundamental_div_mod((2 * x + o) as int, (2 * o) as int);
    let d = to_integer(x);
    assert((2 * o) * d == 2 * (d * o)) by (nonlinear_arith);
}

/// A double is off by at most half the spacing: one unit of 2^-53 of the
/// number it stands for, where that takes 53 bits or more.
pub proof fn law_nearest_is_near(p: nat, q: nat)
    requires
        q > 0,
        p >= q * 0x10_0000_0000_0000 || p == 0,
    ensures
        near(nearest(p, q), p, q, 1),
{
    let n = p / q;
    let k = lemma_spacing_bounds(n);
    let s = spacing(n);
    natural::lemma_two_to_is_positive(k);
    let d = q * s;
    assert(d > 0) by (nonlinear_arith)
        requires
            q > 0,
            s >= 1,
            d == q * s,
    ;
    law_rounded_is_within_half(p, d);
    let m = rounded(p, d);
    assert((m * s) * q == m * d) by (nonlinear_arith)
        requires
            d == q * s,
    ;
    if p == 0 {
        assert(0nat / d == 0 && 0nat % d == 0) by {
            vstd::arithmetic::div_mod::lemma_small_mod(0, d);
            vstd::arithmetic::div_mod::lemma_basic_div(0, d as int);
        }
        assert(m == 0);
        assert(0 * d == 0);
        assert(1 * p == 0);
    } else {
        lemma_floor(p, q, 0x10_0000_0000_0000);
        assert(s * 0x10_0000_0000_0000 <= n) by {
            if k > 0 {
                assert(s == 2 * natural::two_to((k - 1) as nat));
            }
        }
        vstd::arithmetic::div_mod::lemma_fundamental_div_mod(p as int, q as int);
        assert(d * 0x10_0000_0000_0000 <= p) by (nonlinear_arith)
            requires
                d == q * s,
                s * 0x10_0000_0000_0000 <= n,
                p >= q * n,
                q > 0,
        ;
        assert(1 * p == p);
    }
}

/// What is near is more than half as large, and less than twice.
pub proof fn lemma_near_bounds(x: nat, p: nat, q: nat, e: nat)
    requires
        near(x, p, q, e),
        e <= 64,
    ensures
        2 * (x * q) >= p,
        x * q <= 2 * p,
{
    assert(e * p <= 64 * p) by (nonlinear_arith)
        requires
            e <= 64,
    ;
}

/// An operation adds two units to the error.
pub proof fn lemma_near_step(x: nat, p: nat, q: nat, e: nat, a: nat, b: nat)
    requires
        near(x, p, q, e),
        e <= 62,
        b > 0,
        x * a >= b * 0x10_0000_0000_0000 || x * a == 0,
    ensures
        near(nearest(x * a, b), p * a, q * b, e + 2),
{
    let y = nearest(x * a, b);
    law_nearest_is_near(x * a, b);
    lemma_near_bounds(x, p, q, e);
    let u = y * b - x * a;
    let v = x * q - p;
    assert(y * (q * b) - p * a == q * u + a * v) by (nonlinear_arith)
        requires
            u == y * b - x * a,
            v == x * q - p,
    ;
    let xa = (x * a) as int;
    assert(-(q * xa) <= 0x20_0000_0000_0000 * (q * u) <= q * xa) by (nonlinear_arith)
        requires
            -(1 * xa) <= 0x20_0000_0000_0000 * u <= 1 * xa,
            q >= 0,
    ;
    let ep = e * p;
    assert(-(a * ep) <= 0x20_0000_0000_0000 * (a * v) <= a * ep) by (nonlinear_arith)
        requires
            -ep <= 0x20_0000_0000_0000 * v <= ep,
            a >= 0,
    ;
    assert(q * xa <= 2 * (p * a)) by (nonlinear_arith)
        requires
            xa == x * a,
            x * q <= 2 * p,
            a >= 0,
    ;
    assert(a * ep == e * (p * a)) by (nonlinear_arith)
        requires
            ep == e * p,
    ;
    assert((e + 2) * (p * a) == e * (p * a) + 2 * (p * a)) by (nonlinear_arith);
}

/// A divisor that is itself rounded adds four units to the error.
pub proof fn lemma_near_divisor(y: nat, p: nat, q: nat, z: nat, w: nat, e: nat)
    requires
        near(y, p, q * z, e),
        near(z, w, 1, 1),
        e <= 60,
    ensures
        near(y, p, q * w, e + 4),
{
    lemma_near_bounds(y, p, q * z, e);
    let t = y * q;
    assert(y * (q * z) == t * z && y * (q * w) == t * w) by (nonlinear_arith)
        requires
            t == y * q,
    ;
    assert(z * 1 == z && 1 * w == w);
    let d = z - w;
    assert(t * w == t * z - t * d) by (nonlinear_arith)
        requires
            d == z - w,
    ;
    assert(-(t * w) <= 0x20_0000_0000_0000 * (t * d) <= t * w) by (nonlinear_arith)
        requires
            -w <= 0x20_0000_0000_0000 * d <= w,
            t >= 0,
    ;
    assert((e + 4) * p == e * p + 4 * p) by (nonlinear_arith);
}

/// A common factor makes no difference to how near a number is.
pub proof fn lemma_near_cancel(x: nat, p: nat, q: nat, f: nat, e: nat)
    requires
        near(x, p * f, q * f, e),
        f > 0,
    ensures
        near(x, p, q, e),
{
    let u = x * q - p;
    let ep = e * p;
    assert(x * (q * f) - p * f == u * f) by (nonlinear_arith)
        requires
            u == x * q - p,
    ;
    assert(e * (p * f) == ep * f) by (nonlinear_arith)
        requires
            ep == e * p,
    ;
    assert(-ep <= 0x20_0000_0000_0000 * u <= ep) by (nonlinear_arith)
        requires
            -(ep * f) <= 0x20_0000_0000_0000 * (u * f) <= ep * f,
            f > 0,
    ;
}

/// Numbers of up to 240 bits are small against the ticks in one.
pub proof fn lemma_one_is_large()
    ensures
        one() >= 0x1_0000_0000_0000_0000_0000_0000_0000_0000_0000_0000_0000_0000_0000_0000_0000int,
{
    lemma_two_to_grows(240, FRACTION_BITS as nat);
    let a = natural::two_to(30);
    assert(a == 0x4000_0000) by {
        reveal_with_fuel(natural::two_to, 31);
    }
    natural::lemma_two_to_adds(30, 30);
    assert(a * a == 0x1000_0000_0000_0000int) by (nonlinear_arith)
        requires
            a == 0x4000_0000,
    ;
    let b = natural::two_to(60);
    natural::lemma_two_to_adds(60, 60);
    assert(b * b == 0x1_0000_0000_0000_0000_0000_0000_0000_00int) by (nonlinear_arith)
        requires
            b == 0x1000_0000_0000_0000int,
    ;
    let c = natural::two_to(120);
    natural::lemma_two_to_adds(120, 120);
    assert(c * c
        == 0x1_0000_0000_0000_0000_0000_0000_0000_0000_0000_0000_0000_0000_0000_0000_0000int)
        by (nonlinear_arith)
        requires
            c == 0x1_0000_0000_0000_0000_0000_0000_0000_00int,
    ;
}

/// The double nearest to an integer is near it.
pub proof fn lemma_of_integer_is_near(n: nat)
    ensures
        near(of_integer(n), n * one(), 1, 1),
{
    lemma_one_is_large();
    let p = n * one();
    if n == 0 {
        assert(0 * one() == 0);
    } else {
        assert(p >= one()) by (nonlinear_arith)
            requires
                p == n * one(),
                n >= 1,
        ;
    }
    law_nearest_is_near(p, 1);
}

/// The quotient of two numbers that stand for `p / q` and for the integer `w`.
pub proof fn lemma_near_quotient(x: nat, p: nat, q: nat, w: nat, e: nat)
    requires
        near(x, p, q, e),
        e <= 50,
        q > 0,
        w > 0,
        p == 0 || p >= 2 * (q * (2 * w)) * 0x10_0000_0000_0000,
    ensures
        near(quotient(x, of_integer(w)), p, q * w, e + 6),
        p == 0 || 2 * (quotient(x, of_integer(w)) * (q * w)) >= p,
{
    let z = of_integer(w);
    let o = one();
    lemma_one_is_large();
    lemma_of_integer_is_near(w);
    lemma_of_integer_is_positive(w);
    lemma_near_bounds(x, p, q, e);
    lemma_near_bounds(z, w * o, 1, 1);
    assert(z * 1 == z);
    if p == 0 {
        assert(x * q == 0);
        assert(x == 0) by (nonlinear_arith)
            requires
                x * q == 0,
                q > 0,
                x >= 0,
        ;
        assert(0 * o == 0);
    } else {
        // x >= p / 2q >= 2w * 2^52, and z <= 2w * one.
        assert(x >= (2 * w) * 0x10_0000_0000_0000) by (nonlinear_arith)
            requires
                2 * (x * q) >= p,
                p >= 2 * (q * (2 * w)) * 0x10_0000_0000_0000,
                q > 0,
        ;
        assert(x * o >= z * 0x10_0000_0000_0000) by (nonlinear_arith)
            requires
                x >= (2 * w) * 0x10_0000_0000_0000,
                z <= 2 * (w * o),
                o > 0,
        ;
    }
    lemma_near_step(x, p, q, e, o, z);
    let y = quotient(x, z);
    lemma_near_divisor(y, p * o, q, z, w * o, e + 2);
    assert(q * (w * o) == (q * w) * o) by (nonlinear_arith);
    lemma_near_cancel(y, p, q * w, o, e + 6);
    lemma_near_bounds(y, p, q * w, e + 6);
}

/// With one decimal, a double is written to the nearest tenth.
pub proof fn law_one_decimal(x: nat) -> (tenths: nat)
    ensures
        text::writes(with_one_decimal(x), 1, tenths),
        -(one() as int) <= 2 * (tenths * one() - 10 * x) <= one(),
{
    let t = in_parts(x, 10);
    natural::lemma_two_to_is_positive(FRACTION_BITS as nat);
    law_rounded_is_within_half(x * 10, one());
    let w = text::decimal(t / 10);
    let c = text::digit(t % 10);
    text::law_decimal_is_read_back(t / 10);
    text::law_number_grows_by_a_digit(w, c);
    assert(w + seq![c] =~= w.push(c));
    text::lemma_writes(t, 1, w, seq![c]);
    assert(w + seq!['.'] + seq![c] =~= with_one_decimal(x));
    t
}

/// With two decimals, a double is written to the nearest hundredth.
pub proof fn law_two_decimals(x: nat) -> (hundredths: nat)
    ensures
        text::writes(with_two_decimals(x), 2, hundredths),
        -(one() as int) <= 2 * (hundredths * one() - 100 * x) <= one(),
{
    let h = in_parts(x, 100);
    natural::lemma_two_to_is_positive(FRACTION_BITS as nat);
    law_rounded_is_within_half(x * 100, one());
    lemma_two_places(h);
    assert(with_two_decimals(x) =~= text::decimal(h / 100) + seq!['.'] + seq![
        text::digit(h / 10 % 10),
        text::digit(h % 10),
    ]);
    h
}

/// Hundredths with a point.
pub proof fn lemma_two_places(h: nat)
    ensures
        text::writes(
            text::decimal(h / 100) + seq!['.'] + seq![
                text::digit(h / 10 % 10),
                text::digit(h % 10),
            ],
            2,
            h,
        ),
{
    let w = text::decimal(h / 100);
    let a = text::digit(h / 10 % 10);
    let b = text::digit(h % 10);
    text::law_decimal_is_read_back(h / 100);
    text::law_number_grows_by_a_digit(w, a);
    text::law_number_grows_by_a_digit(w.push(a), b);
    assert(w + seq![a, b] =~= w.push(a).push(b));
    text::lemma_writes(h, 2, w, seq![a, b]);
}

/// A nonnegative double-precision number.
#[derive(Debug)]
pub struct Double {
    ticks: Natural,
}

impl View for Double {
    type V = nat;

    closed spec fn view(&self) -> nat {
        self.ticks@
    }
}

impl Clone for Double {
    /// The same number.
    fn clone(&self) -> (r: Double)
        ensures
            r@ == self@,
    {
        Double { ticks: self.ticks.copy() }
    }
}

impl Double {
    /// The number zero.
    pub fn zero() -> (r: Double)
        ensures
            r@ == 0,
    {
        Double { ticks: Natural::from_u32(0) }
    }

    /// The spacing around `p / q`, and `q` times that.
    fn spacing_around(p: &Natural, q: &Natural) -> (r: (Natural, Natural))
        requires
            q@ > 0,
        ensures
            r.0@ == spacing(p@ / q@),
            r.1@ == q@ * r.0@,
            r.1@ > 0,
            p@ < r.1@ * natural::two_to(53),
    {
        let mut s = Natural::from_u32(1);
        let mut d = q.copy();
        let mut limit = q.shifted(53);
        let ghost mut k: nat = 0;
        proof {
            lemma_exact_is_a_power();
        }
        assert(q@ * 1 == q@);
        assert(q@ * EXACT > 0) by (nonlinear_arith)
            requires
                q@ > 0,
                EXACT > 0,
        ;
        let mut far = limit.times_plus(natural::LEAP_FACTOR, 0);
        while !p.less(&far)
            invariant
                q@ > 0,
                s@ == natural::two_to(k),
                d@ == q@ * s@,
                limit@ == q@ * (EXACT * s@),
                k > 0 ==> p@ >= q@ * (EXACT * natural::two_to((k - 1) as nat)),
                limit@ > 0,
                far@ == limit@ * natural::LEAP_FACTOR,
            decreases
                    if p@ >= far@ {
                        p@ - far@ + 1
                    } else {
                        0
                    },
        {
            proof {
                let x = q@ as int;
                let y = s@ as int;
                let f = natural::LEAP_FACTOR as int;
                let last = natural::two_to((k + natural::LEAP - 1) as nat) as int;
                natural::lemma_leap(k);
                assert((x * y) * f == x * (y * f)) by (nonlinear_arith);
                assert((x * (EXACT * y)) * f == x * (EXACT * (y * f))) by (nonlinear_arith);
                assert(x * (EXACT * last) <= x * (EXACT * (y * f))) by (nonlinear_arith)
                    requires
                        y * f == 2 * last,
                        last >= 0,
                        x > 0,
                        EXACT > 0,
                ;
                k = k + natural::LEAP as nat;
            }
            s = s.times_plus(natural::LEAP_FACTOR, 0);
            d = d.times_plus(natural::LEAP_FACTOR, 0);
            limit = far;
            far = limit.times_plus(natural::LEAP_FACTOR, 0);
        }
        while !p.less(&limit)
            invariant
                q@ > 0,
                s@ == natural::two_to(k),
                d@ == q@ * s@,
                limit@ == q@ * (EXACT * s@),
                k > 0 ==> p@ >= q@ * (EXACT * natural::two_to((k - 1) as nat)),
                limit@ > 0,
            decreases
                    if p@ >= limit@ {
                        p@ - limit@ + 1
                    } else {
                        0
                    },
        {
            proof {
                let x = q@ as int;
                let y = s@ as int;
                assert((x * y) * 2 == x * (2 * y)) by (nonlinear_arith);
                assert((x * (EXACT * y)) * 2 == x * (EXACT * (2 * y))) by (nonlinear_arith);
                k = k + 1;
            }
            s = s.double();
            d = d.double();
            limit = limit.double();
        }
        proof {
            lemma_spacing_found(p@, q@, k);
        }
        (s, d)
    }

    /// The double nearest to `p / q` ticks.
    fn nearest_to(p: &Natural, q: &Natural) -> (r: Double)
        requires
            q@ > 0,
        ensures
            r@ == nearest(p@, q@),
    {
        let (s, d) = Double::spacing_around(p, q);
        proof {
            lemma_exact_is_a_power();
        }
        let (m, rest) = p.divided(&d, 53);
        proof {
            vstd::arithmetic::div_mod::lemma_fundamental_div_mod_converse(
                p@ as int,
                d@ as int,
                m as int,
                rest@ as int,
            );
            assert(m * d@ == d@ * m) by (nonlinear_arith);
        }
        let twice = rest.double();
        let up: bool = d.less(&twice) || (!twice.less(&d) && m % 2 == 1);
        let whole: u64 = if up {
            m + 1
        } else {
            m
        };
        assert(s@ * whole == whole * s@) by (nonlinear_arith);
        Double { ticks: s.times(whole) }
    }

    /// Whether two doubles are the same number.
    pub fn same(&self, other: &Double) -> (b: bool)
        ensures
            b == (self@ == other@),
    {
        !self.ticks.less(&other.ticks) && !other.ticks.less(&self.ticks)
    }

    /// The double nearest to the integer `n`.
    pub fn from_integer(n: u128) -> (r: Double)
        ensures
            r@ == of_integer(n as nat),
    {
        let p = Natural::from_u128(n).shifted(FRACTION_BITS);
        Double::nearest_to(&p, &Natural::from_u32(1))
    }

    /// The product of this double and an integer that is a double too.
    pub fn times(&self, n: u64) -> (r: Double)
        ensures
            r@ == product(self@, n as nat),
    {
        let p = self.ticks.times(n);
        Double::nearest_to(&p, &Natural::from_u32(1))
    }

    /// The sum of two doubles.
    pub fn plus(&self, other: &Double) -> (r: Double)
        ensures
            r@ == sum(self@, other@),
    {
        let p = self.ticks.plus(&other.ticks);
        Double::nearest_to(&p, &Natural::from_u32(1))
    }

    /// The quotient of two doubles.
    pub fn over(&self, other: &Double) -> (r: Double)
        requires
            other@ > 0,
        ensures
            r@ == quotient(self@, other@),
    {
        let p = self.ticks.shifted(FRACTION_BITS);
        Double::nearest_to(&p, &other.ticks)
    }

    /// The integer nearest to this double, the larger one on a tie; `None`
    /// where the double is larger than 2^63.
    pub fn round(&self) -> (r: Option<u64>)
        ensures
            r == (if self@ <= natural::two_to(63) * one() {
                Some(to_integer(self@) as u64)
            } else {
                None
            }),
            r matches Some(n) ==> n == to_integer(self@),
    {
        let unit = Natural::from_u32(1).shifted(FRACTION_BITS);
        assert(1 * one() == one());
        let limit = unit.shifted(63);
        assert(one() * natural::two_to(63) == natural::two_to(63) * one()) by (nonlinear_arith);
        if limit.less(&self.ticks) {
            return None;
        }
        let p = self.ticks.double().plus(&unit);
        let q = unit.double();
        proof {
            natural::lemma_two_to_is_positive(FRACTION_BITS as nat);
            assert(natural::two_to(64) == 2 * natural::two_to(63));
            natural::lemma_two_to_is_positive(63);
            let u = one() as int;
            let h = natural::two_to(63) as int;
            assert(p@ < q@ * natural::two_to(64)) by (nonlinear_arith)
                requires
                    p@ == self@ * 2 + u,
                    q@ == u * 2,
                    self@ <= h * u,
                    natural::two_to(64) == 2 * h,
                    h >= 1,
                    u >= 1,
            ;
        }
        let (n, rest) = p.divided(&q, 64);
        proof {
            vstd::arithmetic::div_mod::lemma_fundamental_div_mod_converse(
                p@ as int,
                q@ as int,
                n as int,
                rest@ as int,
            );
            assert(n * q@ == q@ * n) by (nonlinear_arith);
        }
        Some(n)
    }

    /// The double nearest to a decimal number: digits, with a point among
    /// them or not.
    pub fn from_decimal(cs: &[char]) -> (r: Double)
        ensures
            r@ == of_decimal(cs@),
    {
        let mut p = Natural::from_u32(0);
        let mut q = Natural::from_u32(1);
        let mut point: bool = false;
        let mut i: usize = 0;
        while i < cs.len()
            invariant
                i <= cs@.len(),
                p@ == text::number(digits_of(cs@.take(i as int))),
                q@ == ten_to(decimals_of(cs@.take(i as int))),
                q@ > 0,
                point == cs@.take(i as int).contains('.'),
            decreases cs@.len() - i,
        {
            let c: char = cs[i];
            proof {
                let t = cs@.take(i as int);
                let u = cs@.take(i + 1);
                assert(u.drop_last() =~= t);
                assert(u.contains('.') == (t.contains('.') || c == '.')) by {
                    if t.contains('.') {
                        let j = choose|j: int| 0 <= j < t.len() && t[j] == '.';
                        assert(u[j] == '.');
                    }
                    if c == '.' {
                        assert(u[i as int] == '.');
                    }
                }
                assert(digits_of(t).push(c).drop_last() =~= digits_of(t));
                if !t.contains('.') {
                    assert(decimals_of(t) == 0);
                }
            }
            if text::is_digit(c) {
                p = p.times_plus(10, c as u32 - 48);
            }
            if c == '.' {
                q = Natural::from_u32(1);
                point = true;
            } else if point {
                q = q.times_plus(10, 0);
            }
            i = i + 1;
        }
        assert(cs@.take(i as int) =~= cs@);
        let p = p.shifted(FRACTION_BITS);
        Double::nearest_to(&p, &q)
    }

    /// This double in units of which `n` make one, rounded to a whole number
    /// of them.
    fn parts(&self, n: u64) -> (r: Natural)
        ensures
            r@ == in_parts(self@, n as nat),
    {
        let unit = Natural::from_u32(1).shifted(FRACTION_BITS);
        assert(1 * one() == one());
        proof {
            natural::lemma_two_to_is_positive(FRACTION_BITS as nat);
        }
        let p = self.ticks.times(n);
        let (q, rest) = p.div_rem(&unit);
        let twice = rest.double();
        let odd: bool = q.divided_by(2).1 == 1;
        let up: bool = unit.less(&twice) || (!twice.less(&unit) && odd);
        if up {
            q.times_plus(1, 1)
        } else {
            q
        }
    }

    /// Appends the number with one decimal to `s`.
    pub fn push_one_decimal(&self, s: &mut String)
        ensures
            final(s)@ == old(s)@ + with_one_decimal(self@),
    {
        let (whole, digit) = self.parts(10).divided_by(10);
        whole.push_decimal(s);
        s.push('.');
        s.push((48 + digit as u8) as char);
    }

    /// Appends the number with two decimals to `s`.
    pub fn push_two_decimals(&self, s: &mut String)
        ensures
            final(s)@ == old(s)@ + with_two_decimals(self@),
    {
        let (tenths, last) = self.parts(100).divided_by(10);
        let (whole, first) = tenths.divided_by(10);
        whole.push_decimal(s);
        s.push('.');
        s.push((48 + first as u8) as char);
        s.push((48 + last as u8) as char);
    }
}

} // verus!
