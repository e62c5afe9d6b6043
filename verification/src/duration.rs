//! Durations on the command line: `"0"`, or a sequence of `<number><unit>`
//! terms such as `"1m30s"` or `"1.5h"`, with the units ns/us/µs/ms/s/m/h. A
//! number without a unit, other than 0, is an error, and so is a negative one.

use vstd::prelude::*;

use crate::double;
use crate::double::Double;
use crate::natural;
use crate::text;

verus! {

/// One `<number><unit>` term.
#[derive(Debug)]
pub struct Term {
    /// The number: decimal digits, with at most one point among them.
    pub numeral: String,
    /// What the unit stands for, in nanoseconds.
    pub scale: u64,
}

/// The values of a [`Term`].
#[verifier::ext_equal]
pub struct TermView {
    pub numeral: Seq<char>,
    pub scale: u64,
}

impl View for Term {
    type V = TermView;

    open spec fn view(&self) -> TermView {
        TermView { numeral: self.numeral@, scale: self.scale }
    }
}

/// The values of the terms in `ts`.
pub open spec fn views(ts: Seq<Term>) -> Seq<TermView> {
    ts.map_values(|t: Term| t@)
}

/// Whether `c` can stand in a number.
pub open spec fn number_char(c: char) -> bool {
    text::decimal_digit(c) || c == '.'
}

/// [`number_char`] as a predicate.
pub open spec fn in_number() -> spec_fn(char) -> bool {
    |c: char| number_char(c)
}

/// The opposite of [`number_char`] as a predicate.
pub open spec fn in_unit() -> spec_fn(char) -> bool {
    |c: char| !number_char(c)
}

/// Whether `s`, which holds digits and points only, is a number: it has a
/// digit and not more than one point.
pub open spec fn numeral(s: Seq<char>) -> bool {
    &&& exists|i: int| 0 <= i < s.len() && text::decimal_digit(#[trigger] s[i])
    &&& forall|i: int, j: int| 0 <= i < j < s.len() ==> !(s[i] == '.' && s[j] == '.')
}

/// What a unit stands for, in nanoseconds.
pub open spec fn scale_of(unit: Seq<char>) -> Option<u64> {
    if unit == seq!['n', 's'] {
        Some(1)
    } else if unit == seq!['u', 's'] || unit == seq!['\u{b5}', 's'] || unit == seq!['\u{3bc}', 's'] {
        Some(1_000)
    } else if unit == seq!['m', 's'] {
        Some(1_000_000)
    } else if unit == seq!['s'] {
        Some(1_000_000_000)
    } else if unit == seq!['m'] {
        Some(60_000_000_000)
    } else if unit == seq!['h'] {
        Some(3_600_000_000_000)
    } else {
        None
    }
}

/// The number that `s` starts with.
pub open spec fn head_number(s: Seq<char>) -> Seq<char> {
    s.take(text::span(s, in_number()) as int)
}

/// What follows the number that `s` starts with.
pub open spec fn after_number(s: Seq<char>) -> Seq<char> {
    s.skip(text::span(s, in_number()) as int)
}

/// The unit that follows the number that `s` starts with.
pub open spec fn head_unit(s: Seq<char>) -> Seq<char> {
    after_number(s).take(text::span(after_number(s), in_unit()) as int)
}

/// What follows the first term of `s`.
pub open spec fn after_term(s: Seq<char>) -> Seq<char> {
    after_number(s).skip(text::span(after_number(s), in_unit()) as int)
}

/// The terms of `s`, if it is made of terms.
pub open spec fn terms(s: Seq<char>) -> Option<Seq<TermView>>
    decreases s.len(),
{
    if s.len() == 0 {
        Some(seq![])
    } else if !numeral(head_number(s)) {
        None
    } else {
        proof {
            lemma_after_term(s);
        }
        match (scale_of(head_unit(s)), terms(after_term(s))) {
            (Some(scale), Some(ts)) => Some(
                seq![TermView { numeral: head_number(s), scale }] + ts,
            ),
            _ => None,
        }
    }
}

/// `s` without the plus sign it starts with, if it does.
pub open spec fn without_plus(s: Seq<char>) -> Seq<char> {
    if s.len() > 0 && s[0] == '+' {
        s.skip(1)
    } else {
        s
    }
}

/// The terms of a duration, if `s` is written like one. A bare zero has none.
pub open spec fn duration_terms(s: Seq<char>) -> Option<Seq<TermView>> {
    let t = without_plus(s);
    if t == seq!['0'] {
        Some(seq![])
    } else if t.len() == 0 {
        None
    } else {
        terms(t)
    }
}

/// The sum of the terms in nanoseconds, in double precision.
pub open spec fn nanoseconds(ts: Seq<TermView>) -> nat
    decreases ts.len(),
{
    if ts.len() == 0 {
        0
    } else {
        double::sum(
            nanoseconds(ts.drop_last()),
            double::product(double::of_decimal(ts.last().numeral), ts.last().scale as nat),
        )
    }
}

/// The duration that `s` writes, in whole nanoseconds, if it does and if it
/// is not longer than 2^63 of them.
pub open spec fn duration(s: Seq<char>) -> Option<u64> {
    match duration_terms(s) {
        Some(ts) => if nanoseconds(ts) <= natural::two_to(63) * double::one() {
            Some(double::to_integer(nanoseconds(ts)) as u64)
        } else {
            None
        },
        None => None,
    }
}

/// The sum of terms that are whole numbers.
pub open spec fn whole_nanoseconds(ts: Seq<TermView>) -> nat
    decreases ts.len(),
{
    if ts.len() == 0 {
        0
    } else {
        whole_nanoseconds(ts.drop_last()) + text::number(ts.last().numeral) * ts.last().scale as nat
    }
}

/// A term takes up at least one character.
pub proof fn lemma_after_term(s: Seq<char>)
    ensures
        after_term(s).len() <= s.len(),
        numeral(head_number(s)) ==> after_term(s).len() < s.len(),
        text::span(s, in_number()) <= s.len(),
        text::span(after_number(s), in_unit()) <= after_number(s).len(),
{
    text::lemma_span_bounds(s, in_number());
    text::lemma_span_bounds(after_number(s), in_unit());
}

/// A duration never starts with a minus sign.
pub proof fn law_negative_is_rejected(s: Seq<char>)
    requires
        s.len() > 0,
        s[0] == '-',
    ensures
        duration(s) is None,
{
    assert(text::span(s, in_number()) == 0);
    assert(head_number(s) =~= seq![]);
}

/// A number without a unit is no duration, unless it is the bare zero.
pub proof fn law_unit_is_required(s: Seq<char>)
    requires
        forall|i: int| 0 <= i < s.len() ==> number_char(#[trigger] s[i]),
        s != seq!['0'],
    ensures
        duration(s) is None,
{
    if s.len() > 0 {
        assert(number_char(s[0]));
        assert forall|i: int| 0 <= i < s.len() implies in_number()(#[trigger] s[i]) by {}
        text::lemma_span(s, in_number(), s.len());
        assert(after_number(s) =~= seq![]);
        assert(head_unit(s) =~= seq![]);
    }
}

/// A leading plus sign makes no difference.
pub proof fn law_plus_is_ignored(s: Seq<char>)
    requires
        s.len() == 0 || s[0] != '+',
    ensures
        duration_terms(seq!['+'] + s) == duration_terms(s),
        duration(seq!['+'] + s) == duration(s),
{
    assert((seq!['+'] + s).skip(1) =~= s);
}

/// One plus sign is ignored, not two, and it needs something behind it.
pub proof fn law_one_plus_only(s: Seq<char>)
    ensures
        duration(seq!['+', '+'] + s) is None,
        duration(seq!['+']) is None,
        duration(seq![]) is None,
{
    let two = seq!['+', '+'] + s;
    let t = two.skip(1);
    assert(t[0] == '+');
    assert(text::span(t, in_number()) == 0);
    assert(head_number(t) =~= seq![]);
    assert(seq!['0'][0] == '0');
    assert(seq!['+'].skip(1) =~= seq![]);
}

/// Two runs of terms written one after the other are the terms of the first
/// and then those of the second.
pub proof fn law_terms_follow_each_other(a: Seq<char>, b: Seq<char>)
    requires
        terms(a) is Some,
        b.len() > 0,
        number_char(b[0]),
    ensures
        terms(a + b) == (match terms(b) {
            Some(tb) => Some(terms(a)->0 + tb),
            None => None,
        }),
    decreases a.len(),
{
    if a.len() == 0 {
        assert(a + b =~= b);
        if terms(b) is Some {
            assert(terms(a)->0 + terms(b)->0 =~= terms(b)->0);
        }
    } else {
        let s = a + b;
        lemma_after_term(a);
        let n = text::span(a, in_number()) as int;
        let tail = after_number(a);
        let u = text::span(tail, in_unit()) as int;
        text::lemma_span_bounds(a, in_number());
        text::lemma_span_bounds(tail, in_unit());
        assert(n < a.len()) by {
            if n == a.len() {
                assert(head_unit(a) =~= seq![]);
            }
        }
        assert forall|i: int| 0 <= i < n implies in_number()(#[trigger] s[i]) by {
            assert(s[i] == a[i]);
        }
        assert(s[n] == a[n]);
        text::lemma_span(s, in_number(), n as nat);
        assert(head_number(s) =~= head_number(a));
        let stail = after_number(s);
        assert(stail =~= tail + b);
        assert forall|i: int| 0 <= i < u implies in_unit()(#[trigger] stail[i]) by {
            assert(stail[i] == tail[i]);
        }
        if u < tail.len() {
            assert(stail[u] == tail[u]);
        } else {
            assert(stail[u] == b[0]);
        }
        text::lemma_span(stail, in_unit(), u as nat);
        assert(head_unit(s) =~= head_unit(a));
        assert(after_term(s) =~= after_term(a) + b);
        law_terms_follow_each_other(after_term(a), b);
        if terms(b) is Some {
            assert(terms(s)->0 =~= terms(a)->0 + terms(b)->0);
        }
    }
}

proof fn lemma_whole_numeral(s: Seq<char>)
    requires
        forall|i: int| 0 <= i < s.len() ==> text::decimal_digit(#[trigger] s[i]),
    ensures
        double::digits_of(s) == s,
        double::decimals_of(s) == 0,
    decreases s.len(),
{
    if s.len() > 0 {
        let t = s.drop_last();
        assert forall|i: int| 0 <= i < t.len() implies text::decimal_digit(#[trigger] t[i]) by {
            assert(t[i] == s[i]);
        }
        lemma_whole_numeral(t);
        assert(text::decimal_digit(s[s.len() - 1]));
        assert(t.push(s.last()) =~= s);
        assert(!s.contains('.'));
    }
}

/// Terms that are whole numbers add up exactly, as long as the sum takes no
/// more than 53 bits.
pub proof fn law_whole_terms_are_exact(ts: Seq<TermView>)
    requires
        forall|i: int| 0 <= i < ts.len() ==> text::digits((#[trigger] ts[i]).numeral),
        forall|i: int| 0 <= i < ts.len() ==> (#[trigger] ts[i]).scale >= 1,
        whole_nanoseconds(ts) < double::EXACT,
    ensures
        nanoseconds(ts) == whole_nanoseconds(ts) * double::one(),
        double::to_integer(nanoseconds(ts)) == whole_nanoseconds(ts),
    decreases ts.len(),
{
    let one = double::one() as int;
    natural::lemma_two_to_is_positive(double::FRACTION_BITS as nat);
    if ts.len() == 0 {
        assert(0 * one == 0);
    } else {
        let init = ts.drop_last();
        let last = ts.last();
        assert(last == ts[ts.len() - 1]);
        assert forall|i: int| 0 <= i < init.len() implies text::digits(
            (#[trigger] init[i]).numeral,
        ) && init[i].scale >= 1 by {
            assert(init[i] == ts[i]);
        }
        let n = text::number(last.numeral);
        let scale = last.scale as nat;
        let before = whole_nanoseconds(init);
        assert(n <= n * scale) by (nonlinear_arith)
            requires
                scale >= 1,
        ;
        law_whole_terms_are_exact(init);
        lemma_whole_numeral(last.numeral);
        assert(double::ten_to(0) == 1);
        double::lemma_exact(n, double::FRACTION_BITS as nat);
        assert((n * one) * scale == (n * scale) * one) by (nonlinear_arith);
        double::lemma_exact(n * scale, double::FRACTION_BITS as nat);
        assert(before * one + (n * scale) * one == (before + n * scale) * one)
            by (nonlinear_arith);
        double::lemma_exact(before + n * scale, double::FRACTION_BITS as nat);
    }
    let w = whole_nanoseconds(ts);
    assert(2 * (w * one) + one == w * (2 * one) + one) by (nonlinear_arith);
    vstd::arithmetic::div_mod::lemma_fundamental_div_mod_converse(
        2 * (w * one) + one,
        2 * one,
        w as int,
        one,
    );
}

/// Whether `unit` is one of the units and stands for `scale` nanoseconds.
pub open spec fn unit_of(unit: Seq<char>, scale: nat) -> bool {
    ||| unit == seq!['n', 's'] && scale == 1
    ||| unit == seq!['u', 's'] && scale == 1_000
    ||| unit == seq!['\u{b5}', 's'] && scale == 1_000
    ||| unit == seq!['\u{3bc}', 's'] && scale == 1_000
    ||| unit == seq!['m', 's'] && scale == 1_000_000
    ||| unit == seq!['s'] && scale == 1_000_000_000
    ||| unit == seq!['m'] && scale == 60_000_000_000
    ||| unit == seq!['h'] && scale == 3_600_000_000_000
}

/// Whether `s` is made of digits and points.
pub open spec fn number_chars(s: Seq<char>) -> bool {
    forall|i: int| 0 <= i < s.len() ==> number_char(#[trigger] s[i])
}

/// Whether `s` holds neither digits nor points.
pub open spec fn unit_chars(s: Seq<char>) -> bool {
    forall|i: int| 0 <= i < s.len() ==> !number_char(#[trigger] s[i])
}

/// How a number and what follows it up to the next one are taken apart.
proof fn lemma_head(n: Seq<char>, u: Seq<char>, rest: Seq<char>)
    requires
        number_chars(n),
        u.len() > 0,
        unit_chars(u),
        rest.len() == 0 || number_char(rest[0]),
    ensures
        head_number(n + u + rest) == n,
        head_unit(n + u + rest) == u,
        after_term(n + u + rest) == rest,
{
    let s = n + u + rest;
    assert forall|i: int| 0 <= i < n.len() implies in_number()(#[trigger] s[i]) by {
        assert(s[i] == n[i]);
    }
    assert(s[n.len() as int] == u[0]);
    text::lemma_span(s, in_number(), n.len());
    assert(head_number(s) =~= n);
    let tail = after_number(s);
    assert(tail =~= u + rest);
    assert forall|i: int| 0 <= i < u.len() implies in_unit()(#[trigger] tail[i]) by {
        assert(tail[i] == u[i]);
    }
    if rest.len() > 0 {
        assert(tail[u.len() as int] == rest[0]);
    }
    text::lemma_span(tail, in_unit(), u.len());
    assert(head_unit(s) =~= u);
    assert(after_term(s) =~= rest);
}

/// The units are written without digits and points.
proof fn lemma_unit(unit: Seq<char>, scale: nat)
    requires
        unit_of(unit, scale),
    ensures
        unit.len() > 0,
        unit_chars(unit),
        scale_of(unit) matches Some(n) && n == scale,
        1 <= scale <= 3_600_000_000_000,
{
    assert(seq!['n', 's'][0] == 'n' && seq!['m', 's'][0] == 'm' && seq!['u', 's'][0] == 'u');
    assert(seq!['\u{b5}', 's'][0] == '\u{b5}' && seq!['\u{3bc}', 's'][0] == '\u{3bc}');
    assert(seq!['s'][0] == 's' && seq!['m'][0] == 'm' && seq!['h'][0] == 'h');
    assert(seq!['s'].len() == 1 && seq!['m'].len() == 1 && seq!['h'].len() == 1);
    assert(seq!['m', 's'].len() == 2 && seq!['n', 's'].len() == 2 && seq!['u', 's'].len() == 2);
    assert(seq!['\u{b5}', 's'].len() == 2 && seq!['\u{3bc}', 's'].len() == 2);
}

/// The terms of a number and a unit.
proof fn lemma_single(n: Seq<char>, unit: Seq<char>, scale: nat)
    requires
        number_chars(n),
        numeral(n),
        unit_of(unit, scale),
    ensures
        terms(n + unit) == Some(seq![TermView { numeral: n, scale: scale as u64 }]),
        duration_terms(n + unit) == terms(n + unit),
{
    lemma_unit(unit, scale);
    let empty: Seq<char> = seq![];
    lemma_head(n, unit, empty);
    assert(n + unit + empty =~= n + unit);
    let s = n + unit;
    let t = TermView { numeral: n, scale: scale as u64 };
    assert(terms(empty) == Some(Seq::<TermView>::empty()));
    assert(seq![t] + Seq::<TermView>::empty() =~= seq![t]);
    assert(n.len() > 0);
    assert(number_char(n[0]));
    assert(s[0] == n[0]);
    assert(s.len() >= 2);
    assert(s != seq!['0']) by {
        assert(seq!['0'].len() == 1);
    }
}

/// A run of digits is a number.
proof fn lemma_digits_are_a_number(d: Seq<char>)
    requires
        text::digits(d),
    ensures
        number_chars(d),
        numeral(d),
{
    assert(text::decimal_digit(d[0]));
    assert forall|i: int| 0 <= i < d.len() implies number_char(#[trigger] d[i]) by {
        assert(text::decimal_digit(d[i]));
    }
    assert forall|i: int, j: int| 0 <= i < j < d.len() implies !(d[i] == '.' && d[j] == '.') by {
        assert(text::decimal_digit(d[i]));
    }
}

/// A whole number and a unit are that many of the unit, exactly, as long as
/// it takes no more than 53 bits.
pub proof fn law_whole_number_of_a_unit(d: Seq<char>, unit: Seq<char>, scale: nat)
    requires
        text::digits(d),
        unit_of(unit, scale),
        text::number(d) * scale < 0x20_0000_0000_0000,
    ensures
        duration(d + unit) == Some((text::number(d) * scale) as u64),
        duration(seq!['+'] + d + unit) == Some((text::number(d) * scale) as u64),
{
    lemma_digits_are_a_number(d);
    lemma_single(d, unit, scale);
    lemma_unit(unit, scale);
    let t = TermView { numeral: d, scale: scale as u64 };
    let ts = seq![t];
    assert(ts.drop_last() =~= seq![]);
    assert(whole_nanoseconds(seq![]) == 0);
    assert(whole_nanoseconds(ts) == text::number(d) * scale);
    law_whole_terms_are_exact(ts);
    lemma_in_range(whole_nanoseconds(ts));
    assert(text::decimal_digit(d[0]));
    law_plus_is_ignored(d + unit);
    assert(seq!['+'] + (d + unit) =~= seq!['+'] + d + unit);
}

/// How many nanoseconds a duration can have.
proof fn lemma_longest()
    ensures
        natural::two_to(63) == 0x8000_0000_0000_0000int,
{
    let a = natural::two_to(31);
    let b = natural::two_to(32);
    assert(a == 0x8000_0000) by {
        reveal_with_fuel(natural::two_to, 32);
    }
    assert(b == 2 * a);
    natural::lemma_two_to_adds(31, 32);
    assert(a * b == 0x8000_0000_0000_0000int) by (nonlinear_arith)
        requires
            a == 0x8000_0000,
            b == 0x1_0000_0000int,
    ;
}

/// Up to 2^53 nanoseconds are within what a duration can be.
proof fn lemma_in_range(w: nat)
    requires
        w < 0x20_0000_0000_0000,
    ensures
        w * double::one() <= natural::two_to(63) * double::one(),
{
    lemma_longest();
    assert(w * double::one() <= natural::two_to(63) * double::one()) by (nonlinear_arith)
        requires
            w <= natural::two_to(63),
    ;
}

/// Whether `s` is made of terms that are whole numbers.
pub open spec fn whole_terms(s: Seq<char>) -> bool {
    terms(s) matches Some(ts) && forall|i: int|
        0 <= i < ts.len() ==> text::digits((#[trigger] ts[i]).numeral) && ts[i].scale >= 1
}

/// A further term adds its nanoseconds to those before it.
pub proof fn law_terms_add_up(a: Seq<char>, d: Seq<char>, unit: Seq<char>, scale: nat)
    requires
        a.len() > 0,
        a[0] != '+',
        whole_terms(a),
        text::digits(d),
        unit_of(unit, scale),
        whole_nanoseconds(terms(a)->0) + text::number(d) * scale < 0x20_0000_0000_0000,
    ensures
        duration(a) is Some,
        duration(a + (d + unit)) == Some((duration(a)->0 + text::number(d) * scale) as u64),
{
    lemma_digits_are_a_number(d);
    lemma_single(d, unit, scale);
    lemma_unit(unit, scale);
    assert(text::decimal_digit(d[0]));
    law_terms_follow_each_other(a, d + unit);
    let t = TermView { numeral: d, scale: scale as u64 };
    let ta = terms(a)->0;
    let all = ta + seq![t];
    assert(all.drop_last() =~= ta);
    assert forall|i: int| 0 <= i < all.len() implies text::digits((#[trigger] all[i]).numeral)
        && all[i].scale >= 1 by {
        if i < ta.len() {
            assert(all[i] == ta[i]);
        }
    }
    law_whole_terms_are_exact(ta);
    law_whole_terms_are_exact(all);
    lemma_in_range(whole_nanoseconds(ta));
    lemma_in_range(whole_nanoseconds(all));
    // A term is two characters or more, so this is no bare zero.
    assert(a != seq!['0']) by {
        if a == seq!['0'] {
            assert(number_char(a[0]));
            lemma_unit_needed(a);
        }
    }
    let s = a + (d + unit);
    assert(s[0] == a[0]);
    assert(s.len() >= 2 && seq!['0'].len() == 1);
}

/// Digits and points alone are no terms.
proof fn lemma_unit_needed(s: Seq<char>)
    requires
        s.len() > 0,
        number_chars(s),
    ensures
        terms(s) is None,
{
    assert forall|i: int| 0 <= i < s.len() implies in_number()(#[trigger] s[i]) by {
        assert(number_char(s[i]));
    }
    text::lemma_span(s, in_number(), s.len());
    assert(after_number(s) =~= seq![]);
    assert(head_unit(s) =~= seq![]);
}

/// A duration starts with a number: with a digit in it, and not more than one
/// point.
pub proof fn law_number_is_required(n: Seq<char>, u: Seq<char>, rest: Seq<char>)
    requires
        number_chars(n),
        u.len() > 0,
        unit_chars(u),
        rest.len() == 0 || number_char(rest[0]),
        n.len() > 0 || u[0] != '+',
        !numeral(n),
    ensures
        duration(n + u + rest) is None,
{
    lemma_head(n, u, rest);
    let s = n + u + rest;
    if n.len() > 0 {
        assert(number_char(n[0]));
        assert(s[0] == n[0]);
    } else {
        assert(s[0] == u[0]);
    }
    assert(s.len() > 0);
    if s == seq!['0'] {
        assert(s.len() == 1);
        assert(!number_char(u[0]));
        assert(u[0] == s[n.len() as int]);
    }
}

/// Only the units are units.
pub proof fn law_unknown_unit_is_rejected(n: Seq<char>, u: Seq<char>, rest: Seq<char>)
    requires
        n.len() > 0,
        number_chars(n),
        u.len() > 0,
        unit_chars(u),
        rest.len() == 0 || number_char(rest[0]),
        forall|scale: nat| !unit_of(u, scale),
    ensures
        duration(n + u + rest) is None,
{
    lemma_head(n, u, rest);
    let s = n + u + rest;
    assert(number_char(n[0]));
    assert(s[0] == n[0]);
    assert(s.len() >= 2 && seq!['0'].len() == 1);
    assert(!unit_of(u, 1));
    assert(!unit_of(u, 1_000));
    assert(!unit_of(u, 1_000_000));
    assert(!unit_of(u, 1_000_000_000));
    assert(!unit_of(u, 60_000_000_000));
    assert(!unit_of(u, 3_600_000_000_000));
    assert(scale_of(u) is None);
}

/// One bad term spoils a duration, wherever it stands.
pub proof fn law_one_bad_term_spoils_it(a: Seq<char>, b: Seq<char>)
    requires
        a.len() > 0,
        a[0] != '+',
        terms(a) is Some,
        b.len() > 0,
        number_char(b[0]),
        terms(b) is None,
    ensures
        duration(a + b) is None,
{
    law_terms_follow_each_other(a, b);
    assert((a + b)[0] == a[0]);
    assert((a + b).len() >= 2 && seq!['0'].len() == 1);
}

/// What a single term comes to, before it is rounded to whole nanoseconds.
proof fn lemma_term_value(n: Seq<char>, scale: u64)
    requires
        scale >= 1,
        ({
            let p = text::number(double::digits_of(n)) * double::one();
            p == 0 || p >= double::ten_to(double::decimals_of(n)) * 0x20_0000_0000_0000
        }),
        double::ten_to(double::decimals_of(n)) > 0,
    ensures
        double::near(
            nanoseconds(seq![TermView { numeral: n, scale }]),
            text::number(double::digits_of(n)) * scale as nat * double::one(),
            double::ten_to(double::decimals_of(n)),
            5,
        ),
{
    let o = double::one();
    let m = text::number(double::digits_of(n));
    let p = m * o;
    let q = double::ten_to(double::decimals_of(n));
    let x = double::of_decimal(n);
    let y = double::product(x, scale as nat);
    let t = TermView { numeral: n, scale };
    let ts = seq![t];
    assert(ts.drop_last() =~= seq![]);
    assert(nanoseconds(seq![]) == 0);
    assert(nanoseconds(ts) == double::sum(0, y));
    assert(q * 0x10_0000_0000_0000 <= q * 0x20_0000_0000_0000);
    double::law_nearest_is_near(p, q);
    lemma_product_is_near(x, p, q, scale as nat);
    let p2 = p * scale as nat;
    assert(q * 1 == q);
    assert(y * 1 == y);
    assert(p2 * 1 == p2) by (nonlinear_arith);
    double::lemma_near_step(y, p2, q, 3, 1, 1);
    assert(0 + y == y);
    assert(p2 == m * scale as nat * o) by (nonlinear_arith)
        requires
            p2 == p * scale as nat,
            p == m * o,
    ;
}

/// Each term adds its number times its unit, as it is and up to 5 units of
/// 2^-53 of the sum; nothing is rounded to whole nanoseconds on the way.
pub proof fn law_each_term_adds_its_value(ts: Seq<TermView>, t: TermView)
    requires
        t.scale >= 1,
        ({
            let p = text::number(double::digits_of(t.numeral)) * double::one();
            p == 0 || p >= double::ten_to(double::decimals_of(t.numeral)) * 0x20_0000_0000_0000
        }),
        nanoseconds(ts) == 0 || nanoseconds(ts) >= 0x10_0000_0000_0000,
    ensures
        ({
            let q = double::ten_to(double::decimals_of(t.numeral));
            double::near(
                nanoseconds(ts.push(t)),
                nanoseconds(ts) * q + text::number(double::digits_of(t.numeral)) * t.scale as nat
                    * double::one(),
                q,
                5,
            )
        }),
{
    let o = double::one();
    let m = text::number(double::digits_of(t.numeral));
    let p = m * o;
    let q = double::ten_to(double::decimals_of(t.numeral));
    lemma_ten_to_is_positive(double::decimals_of(t.numeral));
    let scale = t.scale as nat;
    let a = nanoseconds(ts);
    let x = double::of_decimal(t.numeral);
    let y = double::product(x, scale);
    assert(ts.push(t).drop_last() =~= ts);
    assert(nanoseconds(ts.push(t)) == double::sum(a, y));
    assert(q * 0x10_0000_0000_0000 <= q * 0x20_0000_0000_0000);
    double::law_nearest_is_near(p, q);
    double::lemma_near_bounds(x, p, q, 1);
    lemma_product_is_near(x, p, q, scale);
    let p2 = p * scale;
    assert(p2 == m * scale * o) by (nonlinear_arith)
        requires
            p2 == p * scale,
            p == m * o,
    ;
    // The sum of a number and one that is near another.
    let v = y * q - p2;
    let z = a + y;
    let w = a * q + p2;
    assert(z * q - w == v) by (nonlinear_arith)
        requires
            z == a + y,
            w == a * q + p2,
            v == y * q - p2,
    ;
    assert(3 * p2 <= 3 * w);
    assert(double::near(z, w, q, 3));
    assert(z * 1 == z && q * 1 == q);
    assert(w * 1 == w) by (nonlinear_arith);
    double::lemma_near_step(z, w, q, 3, 1, 1);
}

/// A number times an integer that is not zero.
proof fn lemma_product_is_near(x: nat, p: nat, q: nat, scale: nat)
    requires
        q > 0,
        scale >= 1,
        double::near(x, p, q, 1),
        p == 0 || p >= q * 0x20_0000_0000_0000,
    ensures
        double::near(double::product(x, scale), p * scale, q, 3),
        double::product(x, scale) == 0 || double::product(x, scale) >= 0x10_0000_0000_0000,
{
    double::lemma_near_bounds(x, p, q, 1);
    if p > 0 {
        assert(x >= 0x10_0000_0000_0000) by (nonlinear_arith)
            requires
                2 * (x * q) >= p,
                p >= q * 0x20_0000_0000_0000,
                q > 0,
        ;
        assert(x * scale >= x) by (nonlinear_arith)
            requires
                scale >= 1,
                x >= 0,
        ;
    } else {
        assert(x == 0) by (nonlinear_arith)
            requires
                x * q <= 2 * p,
                p == 0,
                q > 0,
                x >= 0,
        ;
        assert(0 * scale == 0);
    }
    double::lemma_near_step(x, p, q, 1, scale, 1);
    assert(q * 1 == q);
    let y = double::product(x, scale);
    let p2 = p * scale;
    double::lemma_near_bounds(y, p2, q, 3);
    if p > 0 {
        assert(p2 >= p) by (nonlinear_arith)
            requires
                p2 == p * scale,
                scale >= 1,
        ;
        assert(y >= 0x10_0000_0000_0000) by (nonlinear_arith)
            requires
                2 * (y * q) >= p2,
                p2 >= q * 0x20_0000_0000_0000,
                q > 0,
        ;
    } else {
        assert(p2 == 0) by (nonlinear_arith)
            requires
                p2 == p * scale,
                p == 0,
        ;
        assert(y == 0) by (nonlinear_arith)
            requires
                y * q <= 2 * p2,
                p2 == 0,
                q > 0,
                y >= 0,
        ;
    }
}

/// A duration is the whole number of nanoseconds nearest to the sum of its
/// terms, the larger one half way between two. It is none just where it is
/// not written like one or the sum is larger than 2^63.
pub proof fn law_duration_is_the_nearest_nanosecond(s: Seq<char>)
    ensures
        duration_terms(s) is None ==> duration(s) is None,
        duration_terms(s) matches Some(ts) ==> {
            let sum = nanoseconds(ts) as int;
            let one = double::one() as int;
            &&& sum <= 0x8000_0000_0000_0000 * one ==> duration(s) is Some && -one < 2 * (duration(
                s,
            )->0 * one - sum) <= one
            &&& sum > 0x8000_0000_0000_0000 * one ==> duration(s) is None
        },
{
    lemma_longest();
    if let Some(ts) = duration_terms(s) {
        let sum = nanoseconds(ts);
        let one = double::one();
        assert(natural::two_to(63) * one == 0x8000_0000_0000_0000int * one);
        double::law_nearest_integer(sum);
        if sum <= natural::two_to(63) * one {
            lemma_rounds_to_u64(sum);
            assert(duration(s) == Some(double::to_integer(sum) as u64));
        }
    }
}

/// The whole nanoseconds of what is near `m / q` nanoseconds.
proof fn lemma_whole_of_near(z: nat, m: nat, q: nat)
    requires
        double::near(z, m * double::one(), q, 5),
        q > 0,
    ensures
        ({
            let d = double::to_integer(z);
            let unit = 0x20_0000_0000_0000int;
            -(unit * q + 10 * m) <= 2 * unit * (d * q - m) <= unit * q + 10 * m
        }),
        m <= q * 0x4000_0000_0000_0000int ==> z <= natural::two_to(63) * double::one(),
        m >= q * 0x8000_0000_0000_8000int ==> z > natural::two_to(63) * double::one(),
{
    let o = double::one();
    let unit = 0x20_0000_0000_0000int;
    let d = double::to_integer(z) as int;
    natural::lemma_two_to_is_positive(double::FRACTION_BITS as nat);
    vstd::arithmetic::div_mod::lemma_fundamental_div_mod((2 * z + o) as int, (2 * o) as int);
    let a = d * o - z;
    assert((2 * o) * d == 2 * (d * o)) by (nonlinear_arith);
    assert(-o <= 2 * a <= o);
    let b = z * q - m * o;
    let c = d * q - m;
    assert(c * o == q * a + b) by (nonlinear_arith)
        requires
            a == d * o - z,
            b == z * q - m * o,
            c == d * q - m,
    ;
    assert(-(q * o) <= 2 * (q * a) <= q * o) by (nonlinear_arith)
        requires
            -o <= 2 * a <= o,
            q > 0,
    ;
    let mo = m * o;
    assert(5 * mo == 5 * m * o) by (nonlinear_arith)
        requires
            mo == m * o,
    ;
    let bound = unit * q + 10 * m;
    assert(unit * (q * o) + 10 * mo == bound * o) by (nonlinear_arith)
        requires
            bound == unit * q + 10 * m,
            mo == m * o,
    ;
    assert(-(bound * o) <= 2 * unit * (c * o) <= bound * o);
    assert(-bound <= 2 * unit * c <= bound) by (nonlinear_arith)
        requires
            -(bound * o) <= 2 * unit * (c * o) <= bound * o,
            o > 0,
    ;
    let h = natural::two_to(63) as int;
    lemma_longest();
    double::lemma_near_bounds(z, mo, q, 5);
    if m <= q * 0x4000_0000_0000_0000int {
        assert(z <= h * o) by (nonlinear_arith)
            requires
                z * q <= 2 * (m * o),
                m <= q * 0x4000_0000_0000_0000int,
                h == 0x8000_0000_0000_0000int,
                q > 0,
                o > 0,
        ;
    }
    if m >= q * 0x8000_0000_0000_8000int {
        // (1 - 5 / 2^53) * (2^63 + 2^15) > 2^63
        assert(unit * (z * q) >= (unit - 5) * mo);
        assert((unit - 5) * mo >= (unit - 5) * (0x8000_0000_0000_8000int * (q * o)))
            by (nonlinear_arith)
            requires
                mo == m * o,
                m >= q * 0x8000_0000_0000_8000int,
                o > 0,
                unit > 5,
        ;
        assert(z > h * o) by (nonlinear_arith)
            requires
                unit * (z * q) >= (unit - 5) * (0x8000_0000_0000_8000int * (q * o)),
                unit == 0x20_0000_0000_0000int,
                h == 0x8000_0000_0000_0000int,
                q > 0,
                o > 0,
        ;
    }
}

/// Powers of ten are positive.
proof fn lemma_ten_to_is_positive(k: nat)
    ensures
        double::ten_to(k) >= 1,
    decreases k,
{
    if k > 0 {
        lemma_ten_to_is_positive((k - 1) as nat);
    }
}

/// A whole number and a unit, however large: up to 2^62 nanoseconds it is a
/// duration that is off by less than a nanosecond and 5 units of 2^-53, and
/// from 2^63 + 2^15 nanoseconds on it is too long.
pub proof fn law_long_durations(d: Seq<char>, unit: Seq<char>, scale: nat)
    requires
        text::digits(d),
        unit_of(unit, scale),
    ensures
        ({
            let m = text::number(d) * scale;
            let one = 0x20_0000_0000_0000int;
            &&& m <= 0x4000_0000_0000_0000int ==> duration(d + unit) is Some && -(one + 10 * m) <= 2
                * one * (duration(d + unit)->0 - m) <= one + 10 * m
            &&& m >= 0x8000_0000_0000_8000int ==> duration(d + unit) is None
        }),
{
    lemma_digits_are_a_number(d);
    lemma_single(d, unit, scale);
    lemma_unit(unit, scale);
    lemma_whole_numeral(d);
    assert(double::ten_to(0) == 1);
    double::lemma_one_is_large();
    let o = double::one();
    let m = text::number(d);
    assert(m * o == 0 || m * o >= o) by (nonlinear_arith)
        requires
            m >= 0,
            o > 0,
    ;
    lemma_term_value(d, scale as u64);
    let z = nanoseconds(seq![TermView { numeral: d, scale: scale as u64 }]);
    lemma_whole_of_near(z, m * scale, 1);
    if m * scale <= 0x4000_0000_0000_0000int {
        lemma_rounds_to_u64(z);
    }
}

/// What is within the range of durations is a number of 64 bits.
proof fn lemma_rounds_to_u64(z: nat)
    requires
        z <= natural::two_to(63) * double::one(),
    ensures
        double::to_integer(z) <= 0x8000_0000_0000_0000int,
{
    let o = double::one();
    natural::lemma_two_to_is_positive(double::FRACTION_BITS as nat);
    let h = natural::two_to(63) as int;
    lemma_longest();
    let d = double::to_integer(z) as int;
    vstd::arithmetic::div_mod::lemma_fundamental_div_mod((2 * z + o) as int, (2 * o) as int);
    assert(d <= h) by (nonlinear_arith)
        requires
            (2 * o) * d <= 2 * z + o,
            z <= h * o,
            o > 0,
    ;
}

/// The digits of a number with a point are those on both sides of it, and its
/// decimals are as many as stand behind it.
pub proof fn law_digits_and_decimals(a: Seq<char>, b: Seq<char>)
    requires
        forall|i: int| 0 <= i < a.len() ==> text::decimal_digit(#[trigger] a[i]),
        forall|i: int| 0 <= i < b.len() ==> text::decimal_digit(#[trigger] b[i]),
    ensures
        double::digits_of(a + seq!['.'] + b) == a + b,
        double::decimals_of(a + seq!['.'] + b) == b.len(),
    decreases b.len(),
{
    let s = a + seq!['.'] + b;
    assert(s[a.len() as int] == '.');
    assert(s.contains('.'));
    if b.len() == 0 {
        assert(s.drop_last() =~= a);
        lemma_whole_numeral(a);
        assert(a + b =~= a);
    } else {
        let c = b.drop_last();
        assert forall|i: int| 0 <= i < c.len() implies text::decimal_digit(#[trigger] c[i]) by {
            assert(c[i] == b[i]);
        }
        assert(text::decimal_digit(b[b.len() - 1]));
        assert(s.drop_last() =~= a + seq!['.'] + c);
        law_digits_and_decimals(a, c);
        assert((a + c).push(b.last()) =~= a + b);
    }
}

/// A number with a point and a unit: the digits behind the point count as
/// tenths, hundredths and so on of the unit, up to rounding to a whole
/// nanosecond and 5 units of 2^-53.
pub proof fn law_decimals_of_a_unit(
    a: Seq<char>,
    b: Seq<char>,
    unit: Seq<char>,
    scale: nat,
)
    requires
        forall|i: int| 0 <= i < a.len() ==> text::decimal_digit(#[trigger] a[i]),
        forall|i: int| 0 <= i < b.len() ==> text::decimal_digit(#[trigger] b[i]),
        a.len() + b.len() > 0,
        unit_of(unit, scale),
        double::ten_to(b.len()) * 0x20_0000_0000_0000 <= double::one(),
        text::number(a + b) * scale <= double::ten_to(b.len()) * 0x4000_0000_0000_0000,
    ensures
        ({
            let s = a + seq!['.'] + b + unit;
            let m = text::number(a + b) * scale;
            let q = double::ten_to(b.len()) as int;
            let one = 0x20_0000_0000_0000int;
            &&& duration(s) is Some
            &&& -(one * q + 10 * m) <= 2 * one * (duration(s)->0 * q - m) <= one * q + 10 * m
        }),
{
    let n = a + seq!['.'] + b;
    law_digits_and_decimals(a, b);
    lemma_ten_to_is_positive(b.len());
    assert forall|i: int| 0 <= i < n.len() implies number_char(#[trigger] n[i]) && (n[i] == '.'
        <==> i == a.len()) by {
        if i < a.len() {
            assert(n[i] == a[i]);
            assert(text::decimal_digit(a[i]));
        } else if i > a.len() {
            assert(n[i] == b[i - a.len() - 1]);
            assert(text::decimal_digit(b[i - a.len() - 1]));
        }
    }
    assert(numeral(n)) by {
        if a.len() > 0 {
            assert(text::decimal_digit(a[0]));
            assert(text::decimal_digit(n[0]));
        } else {
            assert(text::decimal_digit(b[0]));
            assert(text::decimal_digit(n[a.len() as int + 1]));
        }
    }
    lemma_single(n, unit, scale);
    lemma_unit(unit, scale);
    let o = double::one();
    let m = text::number(a + b);
    natural::lemma_two_to_is_positive(double::FRACTION_BITS as nat);
    assert(m * o == 0 || m * o >= o) by (nonlinear_arith)
        requires
            m >= 0,
            o > 0,
    ;
    lemma_term_value(n, scale as u64);
    let z = nanoseconds(seq![TermView { numeral: n, scale: scale as u64 }]);
    lemma_whole_of_near(z, m * scale, double::ten_to(b.len()));
    lemma_rounds_to_u64(z);
}

/// Whether `c` can stand in a number.
fn is_number_char(c: char) -> (b: bool)
    ensures
        b == number_char(c),
{
    text::is_digit(c) || c == '.'
}

/// Whether `cs` has a digit and not more than one point.
fn is_numeral(cs: &[char]) -> (b: bool)
    requires
        forall|i: int| 0 <= i < cs@.len() ==> number_char(#[trigger] cs@[i]),
    ensures
        b == numeral(cs@),
{
    let mut digit: bool = false;
    let mut point: bool = false;
    let ghost mut at: int = 0;
    let mut i: usize = 0;
    while i < cs.len()
        invariant
            forall|k: int| 0 <= k < cs@.len() ==> number_char(#[trigger] cs@[k]),
            i <= cs@.len(),
            digit == exists|k: int| 0 <= k < i && text::decimal_digit(#[trigger] cs@[k]),
            point ==> 0 <= at < i && cs@[at] == '.',
            !point ==> forall|k: int| 0 <= k < i ==> cs@[k] != '.',
            forall|k: int, l: int| 0 <= k < l < i ==> !(cs@[k] == '.' && cs@[l] == '.'),
        decreases cs@.len() - i,
    {
        if cs[i] == '.' {
            if point {
                assert(cs@[at] == '.' && cs@[i as int] == '.');
                return false;
            }
            point = true;
            proof {
                at = i as int;
            }
        } else {
            assert(text::decimal_digit(cs@[i as int]));
            digit = true;
        }
        i = i + 1;
    }
    digit
}

/// What a unit stands for, in nanoseconds.
fn unit_scale(unit: &[char]) -> (r: Option<u64>)
    ensures
        r == scale_of(unit@),
{
    if unit.len() == 1 {
        assert(unit@ =~= seq![unit@[0]]);
        match unit[0] {
            's' => Some(1_000_000_000),
            'm' => Some(60_000_000_000),
            'h' => Some(3_600_000_000_000),
            _ => None,
        }
    } else if unit.len() == 2 && unit[1] == 's' {
        assert(unit@ =~= seq![unit@[0], 's']);
        match unit[0] {
            'n' => Some(1),
            'u' | '\u{b5}' | '\u{3bc}' => Some(1_000),
            'm' => Some(1_000_000),
            _ => None,
        }
    } else {
        None
    }
}

/// Splits a duration into its terms; `None` if it is none.
fn split_terms(s: &str) -> (r: Option<Vec<Term>>)
    ensures
        match r {
            Some(ts) => duration_terms(s@) == Some(views(ts@)),
            None => duration_terms(s@) is None,
        },
{
    let cs = text::chars_of(s);
    let mut rest: &[char] = cs.as_slice();
    if rest.len() > 0 && rest[0] == '+' {
        rest = &rest[1..rest.len()];
    }
    assert(rest@ =~= without_plus(s@));
    let mut ts: Vec<Term> = Vec::new();
    if rest.len() == 1 && rest[0] == '0' {
        assert(rest@ =~= seq!['0']);
        assert(views(ts@) =~= seq![]);
        return Some(ts);
    }
    if rest.len() == 0 {
        return None;
    }
    let ghost whole = rest@;
    assert(views(ts@) =~= seq![]);
    assert(terms(whole) matches Some(more) ==> views(ts@) + more =~= more);
    while rest.len() > 0
        invariant
            duration_terms(s@) == terms(whole),
            terms(whole) is Some <==> terms(rest@) is Some,
            terms(rest@) matches Some(more) ==> terms(whole) == Some(views(ts@) + more),
        decreases rest@.len(),
    {
        proof {
            lemma_after_term(rest@);
        }
        let mut i: usize = 0;
        while i < rest.len() && is_number_char(rest[i])
            invariant
                i <= rest@.len(),
                forall|k: int| 0 <= k < i ==> in_number()(#[trigger] rest@[k]),
            decreases rest@.len() - i,
        {
            i = i + 1;
        }
        proof {
            text::lemma_span(rest@, in_number(), i as nat);
        }
        let num = &rest[0..i];
        let tail = &rest[i..rest.len()];
        let mut j: usize = 0;
        while j < tail.len() && !is_number_char(tail[j])
            invariant
                j <= tail@.len(),
                forall|k: int| 0 <= k < j ==> in_unit()(#[trigger] tail@[k]),
            decreases tail@.len() - j,
        {
            j = j + 1;
        }
        proof {
            text::lemma_span(tail@, in_unit(), j as nat);
            assert forall|k: int| 0 <= k < num@.len() implies number_char(#[trigger] num@[k]) by {
                assert(in_number()(rest@[k]));
            }
        }
        if !is_numeral(num) {
            return None;
        }
        let scale: u64 = match unit_scale(&tail[0..j]) {
            Some(scale) => scale,
            None => {
                return None;
            },
        };
        let ghost before = views(ts@);
        let term = Term { numeral: text::string_of(num), scale };
        let ghost head = term@;
        ts.push(term);
        assert(views(ts@) =~= before.push(head));
        let ghost at = rest@;
        rest = &tail[j..tail.len()];
        proof {
            assert(rest@ =~= after_term(at));
            assert(head =~= TermView { numeral: head_number(at), scale });
            if terms(rest@) is Some {
                let more = terms(rest@)->0;
                assert(before + (seq![head] + more) =~= views(ts@) + more);
            }
        }
    }
    assert(views(ts@) + seq![] =~= views(ts@));
    Some(ts)
}

/// Parses a duration into nanoseconds, rounded to a whole number of them.
/// `None` for anything else, and for more than 2^63 nanoseconds.
pub fn parse_duration(s: &str) -> (r: Option<u64>)
    ensures
        r == duration(s@),
{
    let ts = match split_terms(s) {
        Some(ts) => ts,
        None => {
            return None;
        },
    };
    let mut ns = Double::zero();
    let mut i: usize = 0;
    assert(views(ts@).take(0) =~= seq![]);
    while i < ts.len()
        invariant
            i <= ts@.len(),
            ns@ == nanoseconds(views(ts@).take(i as int)),
        decreases ts@.len() - i,
    {
        let numeral = text::chars_of(ts[i].numeral.as_str());
        let n = Double::from_decimal(numeral.as_slice());
        ns = ns.plus(&n.times(ts[i].scale));
        i = i + 1;
        assert(views(ts@).take(i as int).drop_last() =~= views(ts@).take(i - 1));
    }
    assert(views(ts@).take(i as int) =~= views(ts@));
    ns.round()
}

} // verus!
