//! Byte counts as people read them.

use vstd::prelude::*;

use crate::double;
use crate::double::EXACT;
use crate::natural;
use crate::text;

verus! {

/// One mebibyte.
pub const MB: u64 = 0x10_0000;

/// One gibibyte.
pub const GB: u64 = 0x4000_0000;

/// The double-precision number nearest to the integer `n`.
pub open spec fn nearest_double(n: nat) -> nat {
    double::nearest(n, 1)
}

/// `b` bytes in hundredths of a gibibyte, as double-precision arithmetic gives
/// them: the nearest double, divided by a power of two (which is exact) and
/// rounded to two decimals.
pub open spec fn hundredths(b: nat) -> nat {
    double::rounded(nearest_double(b) * 100, GB as nat)
}

/// `b` bytes in words: whole mebibytes below one gibibyte, otherwise
/// gibibytes with two decimals.
pub open spec fn formatted(b: nat) -> Seq<char> {
    if b < GB {
        text::decimal(b / MB as nat) + " MB"@
    } else {
        let h = hundredths(b);
        text::decimal(h / 100) + seq![
            '.',
            text::digit(h % 100 / 10),
            text::digit(h % 10),
        ] + " GB"@
    }
}

/// Whole numbers that fit in 53 bits are their own nearest double, and so are
/// multiples of 2048.
proof fn lemma_exact(n: nat)
    requires
        n <= u64::MAX,
        n < EXACT || n % 2048 == 0,
    ensures
        nearest_double(n) == n,
{
    if n < EXACT {
        double::lemma_exact(n, 0);
        assert(n * natural::two_to(0) == n) by (nonlinear_arith)
            requires
                natural::two_to(0) == 1,
        ;
    } else {
        assert(natural::two_to(11) == 2048) by {
            reveal_with_fuel(natural::two_to, 12);
        }
        double::lemma_exact(n / 2048, 11);
    }
}

/// Whole gibibytes are shown as such.
pub proof fn law_whole_gigabytes(g: nat)
    requires
        g >= 1,
        g * GB <= u64::MAX,
    ensures
        formatted(g * GB as nat) == text::decimal(g) + ".00 GB"@,
{
    let b = g * GB as nat;
    assert(b % 2048 == 0) by {
        assert(b == 2048 * (0x8_0000 * g));
    }
    lemma_exact(b);
    let h = hundredths(b);
    assert(h == g * 100) by {
        assert(b * 100 == GB as nat * (g * 100));
        double::lemma_rounded_multiple(g * 100, GB as nat);
    }
    assert(h / 100 == g && h % 100 == 0 && h % 10 == 0);
    reveal_strlit(".00 GB");
    reveal_strlit(" GB");
    assert(seq!['.', text::digit(0), text::digit(0)] + " GB"@ =~= ".00 GB"@);
    assert(formatted(b) =~= text::decimal(g) + (seq!['.', text::digit(0), text::digit(0)]
        + " GB"@));
}

/// Up to 2^53 bytes, the gibibytes shown are the nearest to `b` that two
/// decimals can write.
pub proof fn law_two_decimals_are_nearest(b: nat)
    requires
        b < EXACT,
    ensures
        -(GB as int) <= 2 * (hundredths(b) * GB - b * 100) <= GB,
{
    lemma_exact(b);
}

/// Below one gibibyte, whole mebibytes are shown. From there on the number
/// shown, read in hundredths of a gibibyte, is the one nearest to `b` up to
/// 2^53 bytes, and off by two parts in 2^53 more above.
pub proof fn law_bytes_in_words(b: nat) -> (r: (Seq<char>, nat))
    requires
        b <= u64::MAX,
    ensures
        b < 0x4000_0000 ==> formatted(b) == text::decimal(b / 0x10_0000) + " MB"@,
        b >= 0x4000_0000 ==> {
            &&& formatted(b) == r.0 + " GB"@
            &&& text::writes(r.0, 2, r.1)
            &&& b < 0x20_0000_0000_0000 ==> -0x4000_0000 <= 2 * (r.1 * 0x4000_0000 - b * 100)
                <= 0x4000_0000
            &&& -(0x4000_0000 + b / 0x2000_0000_0000) <= 2 * (r.1 * 0x4000_0000 - b * 100)
                <= 0x4000_0000 + b / 0x2000_0000_0000
        },
{
    let h = hundredths(b);
    let num = text::decimal(h / 100) + seq!['.'] + seq![
        text::digit(h / 10 % 10),
        text::digit(h % 10),
    ];
    double::lemma_two_places(h);
    assert(h % 100 / 10 == h / 10 % 10);
    assert(b >= 0x4000_0000 ==> formatted(b) =~= num + " GB"@);
    let x = nearest_double(b);
    double::law_rounded_is_within_half(x * 100, GB as nat);
    if b < 0x20_0000_0000_0000 {
        lemma_exact(b);
    } else {
        double::law_nearest_is_near(b, 1);
        assert(x * 1 == x && 1 * b == b);
    }
    (num, h)
}

/// More bytes are never shown as fewer hundredths of a gibibyte.
pub proof fn law_more_is_not_shown_as_less(a: nat, b: nat)
    requires
        a <= b,
    ensures
        hundredths(a) <= hundredths(b),
{
    double::lemma_nearest_grows(a, b);
    double::lemma_rounded_grows(nearest_double(a) * 100, nearest_double(b) * 100, GB as nat);
}

/// The nearest double-precision number.
fn to_nearest_double(b: u64) -> (r: u128)
    ensures
        r == nearest_double(b as nat),
        r <= 0x1_0000_0000_0000_1000,
{
    let mut m: u64 = b;
    let mut s: u64 = 1;
    while m >= EXACT
        invariant
            1 <= s <= 4096,
            m * s <= b,
            s * double::spacing(m as nat) == double::spacing(b as nat),
        decreases m,
    {
        proof {
            let x = double::spacing((m / 2) as nat) as int;
            assert(s * (2 * x) == (2 * s) * x) by (nonlinear_arith);
            assert((m / 2) * (2 * s) <= m * s) by (nonlinear_arith);
            assert(s <= 2048) by (nonlinear_arith)
                requires
                    m * s <= b,
                    m >= 0x20_0000_0000_0000,
                    b < 0x1_0000_0000_0000_0000,
            ;
        }
        m = m / 2;
        s = s * 2;
    }
    assert(double::spacing(m as nat) == 1);
    assert(s * double::spacing(m as nat) == s) by (nonlinear_arith)
        requires
            double::spacing(m as nat) == 1,
    ;
    let q: u64 = b / s;
    let r: u64 = b % s;
    let up: bool = 2 * r > s || (2 * r == s && q % 2 == 1);
    let n: u128 = if up {
        q as u128 + 1
    } else {
        q as u128
    };
    proof {
        vstd::arithmetic::div_mod::lemma_fundamental_div_mod(b as int, s as int);
        assert(n * s <= b + s) by (nonlinear_arith)
            requires
                n <= q + 1,
                b == s * q + r,
                r >= 0,
                s >= 0,
        ;
    }
    n * (s as u128)
}

/// `768 MB` below 1 GiB, otherwise `5.40 GB` (binary units, two decimals).
pub fn format_bytes(b: u64) -> (r: String)
    ensures
        r@ == formatted(b as nat),
{
    let mut r = String::new();
    if b < GB {
        text::push_decimal(&mut r, b / MB);
        text::push_str(&mut r, " MB");
    } else {
        let n: u128 = to_nearest_double(b) * 100;
        let q: u128 = n / (GB as u128);
        let rest: u128 = n % (GB as u128);
        let up: bool = 2 * rest > GB as u128 || (2 * rest == GB as u128 && q % 2 == 1);
        let h: u64 = if up {
            (q + 1) as u64
        } else {
            q as u64
        };
        text::push_decimal(&mut r, h / 100);
        r.push('.');
        r.push((48 + (h % 100 / 10) as u8) as char);
        r.push((48 + (h % 10) as u8) as char);
        text::push_str(&mut r, " GB");
        assert(h == hundredths(b as nat));
    }
    r
}

} // verus!
