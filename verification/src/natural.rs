//! Natural numbers of any size.

use vstd::prelude::*;

use crate::text;

verus! {

/// One more than the largest limb.
pub const BASE: u64 = 0x1_0000_0000;

/// How many bits are shifted at once.
pub const LEAP: u32 = 31;

/// What a shift by [`LEAP`] bits multiplies by.
pub const LEAP_FACTOR: u32 = 0x8000_0000;

/// `BASE` to the power of `n`.
pub open spec fn base_to(n: nat) -> nat
    decreases n,
{
    if n == 0 {
        1
    } else {
        BASE as nat * base_to((n - 1) as nat)
    }
}

/// Two to the power of `k`.
pub open spec fn two_to(k: nat) -> nat
    decreases k,
{
    if k == 0 {
        1
    } else {
        2 * two_to((k - 1) as nat)
    }
}

/// The number that the limbs write, the lowest limb first.
pub open spec fn value(limbs: Seq<u32>) -> nat
    decreases limbs.len(),
{
    if limbs.len() == 0 {
        0
    } else {
        value(limbs.drop_last()) + limbs.last() as nat * base_to((limbs.len() - 1) as nat)
    }
}

/// A natural number.
#[derive(Debug)]
pub struct Natural {
    limbs: Vec<u32>,
}

impl View for Natural {
    type V = nat;

    closed spec fn view(&self) -> nat {
        value(self.limbs@)
    }
}

proof fn lemma_push(limbs: Seq<u32>, x: u32)
    ensures
        value(limbs.push(x)) == value(limbs) + x as nat * base_to(limbs.len()),
{
    assert(limbs.push(x).drop_last() =~= limbs);
}

proof fn lemma_take(limbs: Seq<u32>, i: int)
    requires
        0 <= i < limbs.len(),
    ensures
        value(limbs.take(i + 1)) == value(limbs.take(i)) + limbs[i] as nat * base_to(i as nat),
{
    assert(limbs.take(i + 1).drop_last() =~= limbs.take(i));
}

/// A limb put below the others.
proof fn lemma_front(x: u32, limbs: Seq<u32>)
    ensures
        value(seq![x] + limbs) == x + BASE * value(limbs),
    decreases limbs.len(),
{
    let all = seq![x] + limbs;
    if limbs.len() == 0 {
        assert(all.drop_last() =~= seq![]);
        assert(value(all.drop_last()) == 0);
        assert(x as nat * base_to(0) == x) by (nonlinear_arith)
            requires
                base_to(0) == 1,
        ;
    } else {
        assert(all.drop_last() =~= seq![x] + limbs.drop_last());
        lemma_front(x, limbs.drop_last());
        let p = base_to((limbs.len() - 1) as nat) as int;
        let top = limbs.last() as int;
        assert(base_to(limbs.len()) == BASE * p);
        assert(top * (BASE * p) == BASE * (top * p)) by (nonlinear_arith);
    }
}

/// `n` limbs write less than `BASE` to the power of `n`.
proof fn lemma_bound(limbs: Seq<u32>)
    ensures
        value(limbs) < base_to(limbs.len()),
    decreases limbs.len(),
{
    if limbs.len() > 0 {
        let n = (limbs.len() - 1) as nat;
        lemma_bound(limbs.drop_last());
        assert(value(limbs) < BASE * base_to(n)) by (nonlinear_arith)
            requires
                value(limbs) == value(limbs.drop_last()) + limbs.last() as nat * base_to(n),
                value(limbs.drop_last()) < base_to(n),
                limbs.last() < BASE,
        ;
    }
}

pub proof fn lemma_two_to_is_positive(k: nat)
    ensures
        two_to(k) >= 1,
    decreases k,
{
    if k > 0 {
        lemma_two_to_is_positive((k - 1) as nat);
    }
}

/// Powers of two multiply by adding their exponents.
pub proof fn lemma_two_to_adds(a: nat, b: nat)
    ensures
        two_to(a + b) == two_to(a) * two_to(b),
    decreases b,
{
    if b == 0 {
        assert(two_to(a) * 1 == two_to(a));
    } else {
        lemma_two_to_adds(a, (b - 1) as nat);
        assert(a + b - 1 == (a + (b - 1) as nat) as int);
        let x = two_to(a) as int;
        let y = two_to((b - 1) as nat) as int;
        assert(2 * (x * y) == x * (2 * y)) by (nonlinear_arith);
    }
}

/// A leap raises a power of two by so much.
pub proof fn lemma_leap(k: nat)
    ensures
        two_to(k + LEAP as nat) == two_to(k) * LEAP_FACTOR as nat,
        two_to(k + LEAP as nat) == 2 * two_to((k + LEAP - 1) as nat),
{
    assert(two_to(LEAP as nat) == LEAP_FACTOR) by {
        reveal_with_fuel(two_to, 32);
    }
    lemma_two_to_adds(k, LEAP as nat);
}

impl Natural {
    /// The number `n`.
    pub fn from_u32(n: u32) -> (r: Natural)
        ensures
            r@ == n,
    {
        let mut limbs: Vec<u32> = Vec::new();
        limbs.push(n);
        proof {
            lemma_push(seq![], n);
            assert(limbs@ =~= Seq::<u32>::empty().push(n));
            assert(n as nat * base_to(0) == n) by (nonlinear_arith)
                requires
                    base_to(0) == 1,
            ;
        }
        Natural { limbs }
    }

    /// The number `n`.
    pub fn from_u64(n: u64) -> (r: Natural)
        ensures
            r@ == n,
    {
        let high = Natural::from_u32((n / BASE) as u32);
        let shifted = high.times_plus(0x1_0000, 0);
        shifted.times_plus(0x1_0000, (n % BASE) as u32)
    }

    /// The number `n`.
    pub fn from_u128(n: u128) -> (r: Natural)
        ensures
            r@ == n,
    {
        let high = Natural::from_u64((n / 0x1_0000_0000_0000_0000) as u64);
        let low: u64 = (n % 0x1_0000_0000_0000_0000) as u64;
        let a = high.times_plus(0x1_0000, 0);
        let b = a.times_plus(0x1_0000, (low / BASE) as u32);
        let c = b.times_plus(0x1_0000, 0);
        c.times_plus(0x1_0000, (low % BASE) as u32)
    }

    /// The same number.
    pub fn copy(&self) -> (r: Natural)
        ensures
            r@ == self@,
    {
        self.padded(self.limbs.len())
    }

    /// The same number in at least `n` limbs.
    fn padded(&self, n: usize) -> (r: Natural)
        ensures
            r@ == self@,
            r.limbs@.len() == (if n >= self.limbs@.len() {
                n as nat
            } else {
                self.limbs@.len()
            }),
    {
        let mut limbs: Vec<u32> = Vec::new();
        while limbs.len() < self.limbs.len()
            invariant
                limbs@.len() <= self.limbs@.len(),
                limbs@ == self.limbs@.take(limbs@.len() as int),
            decreases self.limbs@.len() - limbs@.len(),
        {
            let i: usize = limbs.len();
            limbs.push(self.limbs[i]);
        }
        assert(limbs@ =~= self.limbs@);
        while limbs.len() < n
            invariant
                limbs@.len() >= self.limbs@.len(),
                limbs@.len() <= n || limbs@.len() == self.limbs@.len(),
                value(limbs@) == value(self.limbs@),
            decreases n - limbs@.len(),
        {
            proof {
                lemma_push(limbs@, 0);
            }
            limbs.push(0);
        }
        Natural { limbs }
    }

    /// `self * m + c`.
    pub fn times_plus(&self, m: u32, c: u32) -> (r: Natural)
        ensures
            r@ == self@ * m + c,
    {
        let mut out: Vec<u32> = Vec::new();
        let mut carry: u64 = c as u64;
        let mut i: usize = 0;
        proof {
            assert(value(self.limbs@.take(0)) == 0);
            assert(carry as nat * base_to(0) == carry) by (nonlinear_arith)
                requires
                    base_to(0) == 1,
            ;
            assert(0 * m as int == 0);
        }
        while i < self.limbs.len()
            invariant
                i <= self.limbs@.len(),
                out@.len() == i,
                carry < BASE,
                value(out@) + carry as nat * base_to(i as nat) == value(self.limbs@.take(i as int))
                    * m + c,
            decreases self.limbs@.len() - i,
        {
            let limb: u32 = self.limbs[i];
            assert(limb as u64 * m as u64 + carry <= u64::MAX) by (nonlinear_arith)
                requires
                    limb <= u32::MAX,
                    m <= u32::MAX,
                    carry < 0x1_0000_0000,
            ;
            assert(limb as u64 * m as u64 <= u64::MAX) by (nonlinear_arith)
                requires
                    limb <= u32::MAX,
                    m <= u32::MAX,
            ;
            let t: u64 = limb as u64 * m as u64 + carry;
            let d: u32 = (t % BASE) as u32;
            let next: u64 = t / BASE;
            proof {
                lemma_push(out@, d);
                lemma_take(self.limbs@, i as int);
                let p = base_to(i as nat) as int;
                let before = value(out@) as int;
                let low = value(self.limbs@.take(i as int)) as int;
                assert(base_to((i + 1) as nat) == BASE * p);
                assert(before + d * p + next * (BASE * p) == (low + limb * p) * m + c)
                    by (nonlinear_arith)
                    requires
                        before + carry * p == low * m + c,
                        d + next * BASE == limb * m + carry,
                ;
            }
            out.push(d);
            carry = next;
            i = i + 1;
        }
        assert(self.limbs@.take(i as int) =~= self.limbs@);
        if carry != 0 {
            proof {
                lemma_push(out@, carry as u32);
            }
            out.push(carry as u32);
        }
        Natural { limbs: out }
    }

    /// `self * m`.
    pub fn times(&self, m: u64) -> (r: Natural)
        ensures
            r@ == self@ * m,
    {
        let high: u32 = (m / BASE) as u32;
        let low: u32 = (m % BASE) as u32;
        let a = self.times_plus(high, 0).times_plus(0x1_0000, 0).times_plus(0x1_0000, 0);
        let b = self.times_plus(low, 0);
        proof {
            let x = self@ as int;
            assert(((x * high) * 0x1_0000) * 0x1_0000 + x * low == x * m) by (nonlinear_arith)
                requires
                    m == high * 0x1_0000_0000 + low,
            ;
        }
        a.plus(&b)
    }

    /// Quotient and remainder of `self` by `m`.
    pub fn divided_by(&self, m: u32) -> (r: (Natural, u32))
        requires
            m > 0,
        ensures
            r.0@ == self@ / m as nat,
            r.1 == self@ % m as nat,
    {
        let mut quotient: Vec<u32> = Vec::new();
        let mut rest: u64 = 0;
        let mut i: usize = self.limbs.len();
        assert(self.limbs@.skip(i as int) =~= seq![]);
        assert(value(quotient@) * m == 0) by (nonlinear_arith)
            requires
                value(quotient@) == 0,
        ;
        while i > 0
            invariant
                m > 0,
                i <= self.limbs@.len(),
                rest < m,
                value(self.limbs@.skip(i as int)) == value(quotient@) * m + rest,
            decreases i,
        {
            i = i - 1;
            let limb: u32 = self.limbs[i];
            let t: u64 = rest * BASE + limb as u64;
            assert(t / m as u64 <= u32::MAX) by (nonlinear_arith)
                requires
                    rest < m,
                    t == rest * 0x1_0000_0000 + limb,
                    limb <= u32::MAX,
                    m > 0,
            ;
            let d: u32 = (t / m as u64) as u32;
            let next: u64 = t % m as u64;
            proof {
                vstd::arithmetic::div_mod::lemma_fundamental_div_mod(t as int, m as int);
                assert(d * m == m * d) by (nonlinear_arith);
                let upper = self.limbs@.skip(i + 1);
                assert(self.limbs@.skip(i as int) =~= seq![limb] + upper);
                lemma_front(limb, upper);
                lemma_front(d, quotient@);
                let q = value(quotient@) as int;
                assert(limb + BASE * (q * m + rest) == (d + BASE * q) * m + next)
                    by (nonlinear_arith)
                    requires
                        d * m + next == rest * BASE + limb,
                ;
            }
            let ghost before = quotient@;
            quotient.insert(0, d);
            assert(quotient@ =~= seq![d] + before);
            rest = next;
        }
        assert(self.limbs@.skip(0) =~= self.limbs@);
        proof {
            vstd::arithmetic::div_mod::lemma_fundamental_div_mod_converse(
                self@ as int,
                m as int,
                value(quotient@) as int,
                rest as int,
            );
            assert(value(quotient@) * m == m * value(quotient@)) by (nonlinear_arith);
        }
        (Natural { limbs: quotient }, rest as u32)
    }

    /// Appends the number in decimal to `s`.
    pub fn push_decimal(&self, s: &mut String)
        ensures
            final(s)@ == old(s)@ + text::decimal(self@),
        decreases self@,
    {
        let (q, d) = self.divided_by(10);
        if !self.less(&Natural::from_u32(10)) {
            q.push_decimal(s);
        }
        s.push((48 + d as u8) as char);
    }

    /// `self * 2`.
    pub fn double(&self) -> (r: Natural)
        ensures
            r@ == self@ * 2,
    {
        self.times_plus(2, 0)
    }

    /// `self` times two to the power of `k`.
    pub fn shifted(&self, k: u32) -> (r: Natural)
        ensures
            r@ == self@ * two_to(k as nat),
    {
        let mut r = self.copy();
        let mut i: u32 = 0;
        assert(self@ * 1 == self@);
        while i < k
            invariant
                i <= k,
                r@ == self@ * two_to(i as nat),
            decreases k - i,
        {
            let ghost x = self@ as int;
            let ghost y = two_to(i as nat) as int;
            if k - i >= LEAP {
                proof {
                    lemma_leap(i as nat);
                    assert((x * y) * LEAP_FACTOR == x * (y * LEAP_FACTOR)) by (nonlinear_arith);
                }
                r = r.times_plus(LEAP_FACTOR, 0);
                i = i + LEAP;
            } else {
                assert((x * y) * 2 == x * (2 * y)) by (nonlinear_arith);
                r = r.double();
                i = i + 1;
            }
        }
        r
    }

    /// `self + other`.
    pub fn plus(&self, other: &Natural) -> (r: Natural)
        ensures
            r@ == self@ + other@,
    {
        let a = self.padded(other.limbs.len());
        let b = other.padded(self.limbs.len());
        let mut out: Vec<u32> = Vec::new();
        let mut carry: u64 = 0;
        let mut i: usize = 0;
        assert(value(a.limbs@.take(0)) == 0 && value(b.limbs@.take(0)) == 0);
        while i < a.limbs.len()
            invariant
                a.limbs@.len() == b.limbs@.len(),
                i <= a.limbs@.len(),
                out@.len() == i,
                carry <= 1,
                value(out@) + carry as nat * base_to(i as nat) == value(a.limbs@.take(i as int))
                    + value(b.limbs@.take(i as int)),
            decreases a.limbs@.len() - i,
        {
            let x: u32 = a.limbs[i];
            let y: u32 = b.limbs[i];
            let t: u64 = x as u64 + y as u64 + carry;
            let d: u32 = (t % BASE) as u32;
            let next: u64 = t / BASE;
            proof {
                lemma_push(out@, d);
                lemma_take(a.limbs@, i as int);
                lemma_take(b.limbs@, i as int);
                let p = base_to(i as nat) as int;
                assert(base_to((i + 1) as nat) == BASE * p);
                assert(d * p + next * (BASE * p) == x * p + y * p + carry * p) by (nonlinear_arith)
                    requires
                        d + next * BASE == x + y + carry,
                ;
            }
            out.push(d);
            carry = next;
            i = i + 1;
        }
        assert(a.limbs@.take(i as int) =~= a.limbs@);
        assert(b.limbs@.take(i as int) =~= b.limbs@);
        if carry != 0 {
            proof {
                lemma_push(out@, carry as u32);
            }
            out.push(carry as u32);
        }
        Natural { limbs: out }
    }

    /// `self - other`.
    pub fn minus(&self, other: &Natural) -> (r: Natural)
        requires
            self@ >= other@,
        ensures
            r@ == self@ - other@,
    {
        let a = self.padded(other.limbs.len());
        let b = other.padded(self.limbs.len());
        let mut out: Vec<u32> = Vec::new();
        let mut borrow: u64 = 0;
        let mut i: usize = 0;
        assert(value(a.limbs@.take(0)) == 0 && value(b.limbs@.take(0)) == 0);
        while i < a.limbs.len()
            invariant
                a.limbs@.len() == b.limbs@.len(),
                i <= a.limbs@.len(),
                out@.len() == i,
                borrow <= 1,
                value(out@) + value(b.limbs@.take(i as int)) == value(a.limbs@.take(i as int))
                    + borrow as nat * base_to(i as nat),
            decreases a.limbs@.len() - i,
        {
            let x: u32 = a.limbs[i];
            let y: u32 = b.limbs[i];
            let t: u64 = BASE + x as u64 - y as u64 - borrow;
            let d: u32 = (t % BASE) as u32;
            let next: u64 = 1 - t / BASE;
            proof {
                lemma_push(out@, d);
                lemma_take(a.limbs@, i as int);
                lemma_take(b.limbs@, i as int);
                let p = base_to(i as nat) as int;
                assert(base_to((i + 1) as nat) == BASE * p);
                assert(d * p + y * p + borrow * p == x * p + next * (BASE * p))
                    by (nonlinear_arith)
                    requires
                        d + y + borrow == x + next * BASE,
                ;
            }
            out.push(d);
            borrow = next;
            i = i + 1;
        }
        assert(a.limbs@.take(i as int) =~= a.limbs@);
        assert(b.limbs@.take(i as int) =~= b.limbs@);
        proof {
            lemma_bound(out@);
            if borrow == 1 {
                assert(borrow as nat * base_to(i as nat) == base_to(i as nat));
            } else {
                assert(borrow as nat * base_to(i as nat) == 0);
            }
        }
        Natural { limbs: out }
    }

    /// Whether `self < other`.
    pub fn less(&self, other: &Natural) -> (r: bool)
        ensures
            r == (self@ < other@),
    {
        let a = self.padded(other.limbs.len());
        let b = other.padded(self.limbs.len());
        let mut i: usize = a.limbs.len();
        assert(a.limbs@.take(i as int) =~= a.limbs@);
        assert(b.limbs@.take(i as int) =~= b.limbs@);
        while i > 0
            invariant
                a.limbs@.len() == b.limbs@.len(),
                i <= a.limbs@.len(),
                a@ == self@,
                b@ == other@,
                a@ - b@ == value(a.limbs@.take(i as int)) - value(b.limbs@.take(i as int)),
            decreases i,
        {
            i = i - 1;
            let x: u32 = a.limbs[i];
            let y: u32 = b.limbs[i];
            proof {
                lemma_take(a.limbs@, i as int);
                lemma_take(b.limbs@, i as int);
                lemma_bound(a.limbs@.take(i as int));
                lemma_bound(b.limbs@.take(i as int));
            }
            if x != y {
                proof {
                    let p = base_to(i as nat) as int;
                    if x < y {
                        assert((x + 1) * p <= y * p) by (nonlinear_arith)
                            requires
                                x + 1 <= y,
                                p >= 0,
                        ;
                        assert((x + 1) * p == x * p + p) by (nonlinear_arith);
                    } else {
                        assert((y + 1) * p <= x * p) by (nonlinear_arith)
                            requires
                                y + 1 <= x,
                                p >= 0,
                        ;
                        assert((y + 1) * p == y * p + p) by (nonlinear_arith);
                    }
                }
                return x < y;
            }
        }
        assert(value(a.limbs@.take(0)) == 0 && value(b.limbs@.take(0)) == 0);
        false
    }

    /// Quotient and remainder of `self` by `d`.
    pub fn div_rem(&self, d: &Natural) -> (r: (Natural, Natural))
        requires
            d@ > 0,
        ensures
            r.0@ == self@ / d@,
            r.1@ == self@ % d@,
        decreases
            if self@ >= d@ {
                self@ - d@ + 1
            } else {
                0
            },
    {
        if self.less(d) {
            proof {
                vstd::arithmetic::div_mod::lemma_small_mod(self@, d@);
                vstd::arithmetic::div_mod::lemma_basic_div(self@ as int, d@ as int);
            }
            return (Natural::from_u32(0), self.copy());
        }
        let twice = d.double();
        let (q, rest) = self.div_rem(&twice);
        proof {
            vstd::arithmetic::div_mod::lemma_fundamental_div_mod(self@ as int, twice@ as int);
            assert(twice@ * q@ == (2 * q@) * d@) by (nonlinear_arith)
                requires
                    twice@ == d@ * 2,
            ;
            assert((2 * q@ + 1) * d@ == (2 * q@) * d@ + d@) by (nonlinear_arith);
        }
        if rest.less(d) {
            proof {
                vstd::arithmetic::div_mod::lemma_fundamental_div_mod_converse(
                    self@ as int,
                    d@ as int,
                    (2 * q@) as int,
                    rest@ as int,
                );
            }
            (q.double(), rest)
        } else {
            proof {
                vstd::arithmetic::div_mod::lemma_fundamental_div_mod_converse(
                    self@ as int,
                    d@ as int,
                    (2 * q@ + 1) as int,
                    rest@ - d@,
                );
            }
            (q.times_plus(2, 1), rest.minus(d))
        }
    }

    /// Quotient and remainder of `self` by `d`, where the quotient takes at
    /// most `k` bits.
    pub fn divided(&self, d: &Natural, k: u32) -> (r: (u64, Natural))
        requires
            k <= 64,
            self@ < d@ * two_to(k as nat),
        ensures
            self@ == r.0 * d@ + r.1@,
            r.1@ < d@,
            r.0 < two_to(k as nat),
        decreases k,
    {
        if k == 0 {
            assert(d@ * 1 == d@);
            assert(0 * d@ == 0);
            return (0, self.copy());
        }
        let twice = d.double();
        proof {
            let x = d@ as int;
            let y = two_to((k - 1) as nat) as int;
            assert(x * (2 * y) == (x * 2) * y) by (nonlinear_arith);
            lemma_fits((k - 1) as nat);
        }
        let (q, rest) = self.divided(&twice, k - 1);
        assert(q * (d@ * 2) == (2 * q) * d@) by (nonlinear_arith);
        if rest.less(d) {
            (2 * q, rest)
        } else {
            assert((2 * q + 1) * d@ == (2 * q) * d@ + d@) by (nonlinear_arith);
            (2 * q + 1, rest.minus(d))
        }
    }
}

/// Small powers of two fit in 64 bits.
proof fn lemma_fits(k: nat)
    requires
        k <= 63,
    ensures
        two_to(k) <= 0x8000_0000_0000_0000,
    decreases 63 - k,
{
    if k < 63 {
        lemma_fits(k + 1);
    } else {
        reveal_with_fuel(two_to, 64);
    }
}

} // verus!
