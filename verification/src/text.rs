//! Text as sequences of characters: the scanning, trimming, splitting and
//! number formatting that the rest of the library is built from.

use vstd::prelude::*;

verus! {

/// `String::push`: appends one character to the end of the string.
pub assume_specification[ String::push ](s: &mut String, c: char)
    ensures
        final(s)@ == old(s)@.push(c),
;

/// The Unicode `White_Space` property.
pub open spec fn whitespace(c: char) -> bool {
    ||| '\u{9}' <= c <= '\u{d}'
    ||| c == ' '
    ||| c == '\u{85}'
    ||| c == '\u{a0}'
    ||| c == '\u{1680}'
    ||| '\u{2000}' <= c <= '\u{200a}'
    ||| c == '\u{2028}'
    ||| c == '\u{2029}'
    ||| c == '\u{202f}'
    ||| c == '\u{205f}'
    ||| c == '\u{3000}'
}

/// `whitespace` as a predicate that can be handed to [`span`].
pub open spec fn is_white() -> spec_fn(char) -> bool {
    |c: char| whitespace(c)
}

/// The predicate "differs from `c`".
pub open spec fn differs_from(c: char) -> spec_fn(char) -> bool {
    |x: char| x != c
}

/// Length of the longest prefix of `s` all of whose characters satisfy `f`.
pub open spec fn span(s: Seq<char>, f: spec_fn(char) -> bool) -> nat
    decreases s.len(),
{
    if s.len() == 0 || !f(s[0]) {
        0
    } else {
        1 + span(s.drop_first(), f)
    }
}

/// Length of the longest suffix of `s` all of whose characters satisfy `f`.
pub open spec fn span_back(s: Seq<char>, f: spec_fn(char) -> bool) -> nat
    decreases s.len(),
{
    if s.len() == 0 || !f(s.last()) {
        0
    } else {
        1 + span_back(s.drop_last(), f)
    }
}

/// `s` without the white space at its start.
pub open spec fn trimmed_start(s: Seq<char>) -> Seq<char> {
    s.skip(span(s, is_white()) as int)
}

/// `s` without the white space at its end.
pub open spec fn trimmed_end(s: Seq<char>) -> Seq<char> {
    s.take(s.len() - span_back(s, is_white()))
}

/// `s` without the white space around it.
pub open spec fn trimmed(s: Seq<char>) -> Seq<char> {
    trimmed_end(trimmed_start(s))
}

/// What stands before and after the first `c` in `s`, if there is one.
pub open spec fn cut(s: Seq<char>, c: char) -> Option<(Seq<char>, Seq<char>)> {
    let n = span(s, differs_from(c)) as int;
    if n == s.len() {
        None
    } else {
        Some((s.take(n), s.skip(n + 1)))
    }
}

/// What stands behind `p` in `s`, if `s` starts with `p`.
pub open spec fn after_prefix(s: Seq<char>, p: Seq<char>) -> Option<Seq<char>> {
    if p.len() <= s.len() && s.take(p.len() as int) == p {
        Some(s.skip(p.len() as int))
    } else {
        None
    }
}

/// The texts that strings hold.
pub open spec fn texts(v: Seq<String>) -> Seq<Seq<char>> {
    v.map_values(|s: String| s@)
}

/// Maps `A`..=`Z` to `a`..=`z` and keeps every other character.
pub open spec fn lower_ascii(c: char) -> char {
    if 'A' <= c <= 'Z' {
        (c as u32 + 32) as char
    } else {
        c
    }
}

/// `s` with its ASCII letters in lower case.
pub open spec fn lowered_ascii(s: Seq<char>) -> Seq<char> {
    s.map_values(|c: char| lower_ascii(c))
}

/// The decimal digit `0`..=`9` as a character.
pub open spec fn digit(d: nat) -> char {
    (48 + d) as char
}

/// `n` in decimal, without leading zeros.
pub open spec fn decimal(n: nat) -> Seq<char>
    decreases n,
{
    if n < 10 {
        seq![digit(n)]
    } else {
        decimal(n / 10).push(digit(n % 10))
    }
}

/// `n` in decimal, with a minus sign if it is negative.
pub open spec fn decimal_signed(n: int) -> Seq<char> {
    if n < 0 {
        seq!['-'] + decimal((-n) as nat)
    } else {
        decimal(n as nat)
    }
}

/// The lines of `s`: each ends at a line feed, or at the end of `s` where the
/// last one has none. The line feed does not belong to the line, nor does a
/// carriage return right before it.
pub open spec fn lines(s: Seq<char>) -> Seq<Seq<char>>
    decreases s.len(),
{
    let n = span(s, differs_from('\n')) as int;
    if s.len() == 0 {
        seq![]
    } else if n >= s.len() {
        seq![s]
    } else {
        seq![without_return(s.take(n))] + lines(s.skip(n + 1))
    }
}

/// `s` without the carriage return at its end, if it has one.
pub open spec fn without_return(s: Seq<char>) -> Seq<char> {
    if s.len() > 0 && s.last() == '\r' {
        s.drop_last()
    } else {
        s
    }
}

/// Whether `c` is one of `0`..=`9`.
pub open spec fn decimal_digit(c: char) -> bool {
    '0' <= c <= '9'
}

/// Whether `s` is one or more decimal digits.
pub open spec fn digits(s: Seq<char>) -> bool {
    s.len() > 0 && forall|i: int| 0 <= i < s.len() ==> decimal_digit(#[trigger] s[i])
}

/// The number that the digits `s` write in decimal.
pub open spec fn number(s: Seq<char>) -> nat
    decreases s.len(),
{
    if s.len() == 0 {
        0
    } else {
        number(s.drop_last()) * 10 + (s.last() as u32 - 48) as nat
    }
}

/// The `u32` that `s` writes: digits, with a plus sign before them or not.
pub open spec fn parsed_u32(s: Seq<char>) -> Option<u32> {
    let t = if s.len() > 0 && s[0] == '+' {
        s.skip(1)
    } else {
        s
    };
    if digits(t) && number(t) <= u32::MAX {
        Some(number(t) as u32)
    } else {
        None
    }
}

/// More digits never make a smaller number.
proof fn lemma_number_grows(s: Seq<char>, n: int)
    requires
        0 <= n <= s.len(),
        forall|i: int| 0 <= i < s.len() ==> decimal_digit(#[trigger] s[i]),
    ensures
        number(s.take(n)) <= number(s),
    decreases s.len(),
{
    if n == s.len() {
        assert(s.take(n) == s);
    } else {
        let t = s.drop_last();
        assert forall|i: int| 0 <= i < t.len() implies decimal_digit(#[trigger] t[i]) by {
            assert(t[i] == s[i]);
        }
        lemma_number_grows(t, n);
        assert(t.take(n) == s.take(n));
    }
}

pub proof fn lemma_span(s: Seq<char>, f: spec_fn(char) -> bool, n: nat)
    requires
        n <= s.len(),
        forall|i: int| 0 <= i < n ==> f(#[trigger] s[i]),
        n < s.len() ==> !f(s[n as int]),
    ensures
        span(s, f) == n,
    decreases s.len(),
{
    if n > 0 {
        assert(f(s[0]));
        let t = s.drop_first();
        assert forall|i: int| 0 <= i < n - 1 implies f(#[trigger] t[i]) by {
            assert(t[i] == s[i + 1]);
        }
        lemma_span(t, f, (n - 1) as nat);
    }
}

/// [`span`] is the length of such a prefix, and of the longest.
pub proof fn lemma_span_bounds(s: Seq<char>, f: spec_fn(char) -> bool)
    ensures
        span(s, f) <= s.len(),
        forall|i: int| 0 <= i < span(s, f) ==> f(#[trigger] s[i]),
        span(s, f) < s.len() ==> !f(s[span(s, f) as int]),
    decreases s.len(),
{
    if s.len() == 0 || !f(s[0]) {
    } else {
        let t = s.drop_first();
        lemma_span_bounds(t, f);
        assert forall|i: int| 0 <= i < span(s, f) implies f(#[trigger] s[i]) by {
            if i > 0 {
                assert(s[i] == t[i - 1]);
            }
        }
    }
}

pub proof fn lemma_span_back(s: Seq<char>, f: spec_fn(char) -> bool, n: nat)
    requires
        n <= s.len(),
        forall|i: int| s.len() - n <= i < s.len() ==> f(#[trigger] s[i]),
        n < s.len() ==> !f(s[s.len() - n - 1]),
    ensures
        span_back(s, f) == n,
    decreases s.len(),
{
    if n > 0 {
        assert(f(s[s.len() - 1]));
        let t = s.drop_last();
        assert forall|i: int| t.len() - (n - 1) <= i < t.len() implies f(#[trigger] t[i]) by {
            assert(t[i] == s[i]);
        }
        lemma_span_back(t, f, (n - 1) as nat);
    }
}

/// Whether `s` is white space throughout.
pub open spec fn all_white(s: Seq<char>) -> bool {
    forall|i: int| 0 <= i < s.len() ==> whitespace(#[trigger] s[i])
}

pub proof fn lemma_span_back_bounds(s: Seq<char>, f: spec_fn(char) -> bool)
    ensures
        span_back(s, f) <= s.len(),
        forall|i: int| s.len() - span_back(s, f) <= i < s.len() ==> f(#[trigger] s[i]),
        span_back(s, f) < s.len() ==> !f(s[s.len() - span_back(s, f) - 1]),
    decreases s.len(),
{
    if s.len() == 0 || !f(s.last()) {
    } else {
        let t = s.drop_last();
        lemma_span_back_bounds(t, f);
        assert forall|i: int| s.len() - span_back(s, f) <= i < s.len() implies f(
            #[trigger] s[i],
        ) by {
            if i < s.len() - 1 {
                assert(s[i] == t[i]);
            }
        }
    }
}

/// White space before and after a text is trimmed away with the rest.
pub proof fn lemma_trimmed_around(w1: Seq<char>, s: Seq<char>, w2: Seq<char>)
    requires
        all_white(w1),
        all_white(w2),
    ensures
        trimmed(w1 + s + w2) == trimmed(s),
{
    let whole = w1 + s + w2;
    lemma_span_bounds(s, is_white());
    let a = span(s, is_white());
    let start = trimmed_start(s);
    if a == s.len() {
        assert forall|i: int| 0 <= i < whole.len() implies is_white()(#[trigger] whole[i]) by {
            if i < w1.len() {
                assert(whole[i] == w1[i]);
            } else if i < w1.len() + s.len() {
                assert(whole[i] == s[i - w1.len()]);
                assert(is_white()(s[i - w1.len()]));
            } else {
                assert(whole[i] == w2[i - w1.len() - s.len()]);
            }
        }
        lemma_span(whole, is_white(), whole.len());
        assert(trimmed_start(whole) =~= seq![]);
        assert(start =~= seq![]);
    } else {
        assert forall|i: int| 0 <= i < w1.len() + a implies is_white()(#[trigger] whole[i]) by {
            if i < w1.len() {
                assert(whole[i] == w1[i]);
            } else {
                assert(whole[i] == s[i - w1.len()]);
                assert(is_white()(s[i - w1.len()]));
            }
        }
        assert(whole[w1.len() + a as int] == s[a as int]);
        lemma_span(whole, is_white(), w1.len() + a);
        let long = trimmed_start(whole);
        assert(long =~= start + w2);
        lemma_span_back_bounds(start, is_white());
        let b = span_back(start, is_white());
        assert(!is_white()(start[0]));
        assert(b < start.len());
        assert forall|i: int| long.len() - (b + w2.len()) <= i < long.len() implies is_white()(
            #[trigger] long[i],
        ) by {
            if i < start.len() {
                assert(long[i] == start[i]);
            } else {
                assert(long[i] == w2[i - start.len()]);
            }
        }
        assert(long[start.len() - b - 1] == start[start.len() - b - 1]);
        lemma_span_back(long, is_white(), b + w2.len());
        assert(trimmed_end(long) =~= trimmed_end(start));
    }
}

/// Trimming the start first changes nothing about what [`trimmed`] gives, nor
/// does trimming the end first.
pub proof fn lemma_trimmed_in_part(s: Seq<char>)
    ensures
        trimmed(trimmed_start(s)) == trimmed(s),
        trimmed(trimmed_end(s)) == trimmed(s),
{
    lemma_span_bounds(s, is_white());
    lemma_span_back_bounds(s, is_white());
    let a = span(s, is_white()) as int;
    let b = s.len() - span_back(s, is_white());
    let empty: Seq<char> = seq![];
    assert(s =~= s.take(a) + trimmed_start(s) + empty);
    assert forall|i: int| 0 <= i < s.take(a).len() implies whitespace(#[trigger] s.take(a)[i]) by {
        assert(is_white()(s[i]));
    }
    lemma_trimmed_around(s.take(a), trimmed_start(s), empty);
    assert(s =~= empty + trimmed_end(s) + s.skip(b));
    assert forall|i: int| 0 <= i < s.skip(b).len() implies whitespace(#[trigger] s.skip(b)[i]) by {
        assert(is_white()(s[i + b]));
    }
    lemma_trimmed_around(empty, trimmed_end(s), s.skip(b));
}

/// Which characters are white space, by number.
pub proof fn law_white_space(c: char)
    ensures
        ({
            let n = c as int;
            whitespace(c) <==> {
                ||| n == 0x20
                ||| n == 0x85
                ||| n == 0xa0
                ||| n == 0x1680
                ||| n == 0x3000
                ||| n == 0x205f
                ||| n == 0x202f
                ||| 0x2028 <= n <= 0x2029
                ||| 0x2000 <= n <= 0x200a
                ||| 9 <= n <= 13
            }
        }),
{
}

/// Whether `s` writes a number with a point and `places` digits behind it,
/// and the number without its point is `n`.
pub open spec fn writes(s: Seq<char>, places: nat, n: nat) -> bool {
    let p = s.len() - places - 1;
    &&& p > 0
    &&& s[p] == '.'
    &&& digits(s.take(p) + s.skip(p + 1))
    &&& number(s.take(p) + s.skip(p + 1)) == n
    &&& s[0] == '0' ==> p == 1
}

/// Digits, a point and further digits.
pub proof fn lemma_writes(n: nat, places: nat, w: Seq<char>, f: Seq<char>)
    requires
        digits(w),
        w[0] == '0' ==> w.len() == 1,
        f.len() == places,
        digits(w + f),
        number(w + f) == n,
    ensures
        writes(w + seq!['.'] + f, places, n),
{
    let s = w + seq!['.'] + f;
    let p = w.len() as int;
    assert(s.take(p) =~= w);
    assert(s.skip(p + 1) =~= f);
    assert(s[p] == '.');
    assert(s[0] == w[0]);
}

/// A digit behind others makes ten times their number, and itself.
pub proof fn law_number_grows_by_a_digit(s: Seq<char>, c: char)
    requires
        '0' <= c <= '9',
    ensures
        number(s.push(c)) == 10 * number(s) + (c as int - '0' as int),
        number(seq![c]) == c as int - '0' as int,
        number(seq![]) == 0,
{
    assert(s.push(c).drop_last() =~= s);
    assert(seq![c].drop_last() =~= seq![]);
    assert(number(seq![]) == 0);
}

/// A number in decimal is read back as that number, and has no zero before
/// its other digits.
pub proof fn law_decimal_is_read_back(n: nat)
    ensures
        digits(decimal(n)),
        number(decimal(n)) == n,
        decimal(n)[0] == '0' ==> n == 0 && decimal(n).len() == 1,
    decreases n,
{
    if n < 10 {
        assert(seq![digit(n)].drop_last() =~= seq![]);
        assert(number(seq![]) == 0);
        assert(number(decimal(n)) == n);
        assert(decimal_digit(decimal(n)[0]));
    } else {
        law_decimal_is_read_back(n / 10);
        let t = decimal(n / 10);
        let c = digit(n % 10);
        assert(decimal(n) == t.push(c));
        assert('0' <= c <= '9');
        law_number_grows_by_a_digit(t, c);
        assert forall|i: int| 0 <= i < t.push(c).len() implies decimal_digit(
            #[trigger] t.push(c)[i],
        ) by {
            if i < t.len() {
                assert(decimal_digit(t[i]));
            }
        }
        assert(decimal(n)[0] == t[0]);
    }
}

/// A number with a sign is its size in decimal, behind a minus where it is
/// negative.
pub proof fn law_sign_stands_before_the_number(n: int)
    ensures
        n >= 0 ==> number(decimal_signed(n)) == n,
        n < 0 ==> decimal_signed(n)[0] == '-' && number(decimal_signed(n).skip(1)) == -n,
{
    if n >= 0 {
        law_decimal_is_read_back(n as nat);
    } else {
        law_decimal_is_read_back((-n) as nat);
        assert(decimal_signed(n).skip(1) =~= decimal((-n) as nat));
    }
}

/// Trimming takes away the white space around a text, and nothing of a text
/// that neither starts nor ends with white space.
pub proof fn law_trimming(w1: Seq<char>, s: Seq<char>, w2: Seq<char>)
    requires
        all_white(w1),
        all_white(w2),
        s.len() > 0 ==> !whitespace(s[0]) && !whitespace(s.last()),
    ensures
        trimmed(w1 + s + w2) == s,
{
    lemma_trimmed_around(w1, s, w2);
    if s.len() > 0 {
        lemma_span(s, is_white(), 0);
        assert(trimmed_start(s) =~= s);
        lemma_span_back(s, is_white(), 0);
    }
    assert(trimmed(s) =~= s);
}

/// A text is cut at the first `c`, which is left out; one without it is not
/// cut.
pub proof fn law_cut_at_the_first(a: Seq<char>, b: Seq<char>, c: char)
    requires
        !a.contains(c),
    ensures
        cut(a + seq![c] + b, c) == Some((a, b)),
        cut(a, c) is None,
{
    let s = a + seq![c] + b;
    let f = differs_from(c);
    assert forall|i: int| 0 <= i < a.len() implies f(#[trigger] s[i]) && f(a[i]) by {
        assert(s[i] == a[i]);
        assert(a.contains(a[i]));
    }
    lemma_span(s, f, a.len());
    assert forall|i: int| 0 <= i < a.len() implies f(#[trigger] a[i]) by {
        assert(f(s[i]));
    }
    lemma_span(a, f, a.len());
    assert(s.take(a.len() as int) =~= a);
    assert(s.skip(a.len() as int + 1) =~= b);
}

/// What stands behind a prefix is found behind that prefix only.
pub proof fn law_prefix(s: Seq<char>, p: Seq<char>, rest: Seq<char>)
    ensures
        after_prefix(s, p) == Some(rest) <==> s == p + rest,
{
    if s == p + rest {
        assert(s.take(p.len() as int) =~= p);
        assert(s.skip(p.len() as int) =~= rest);
    }
    if after_prefix(s, p) == Some(rest) {
        assert(s =~= s.take(p.len() as int) + s.skip(p.len() as int));
    }
}

/// Lower case changes the letters `A` to `Z`, each to the letter 32 places
/// further, and nothing else.
pub proof fn law_only_ascii_letters_are_lowered(s: Seq<char>, i: int)
    requires
        0 <= i < s.len(),
    ensures
        lowered_ascii(s).len() == s.len(),
        'A' <= s[i] <= 'Z' ==> lowered_ascii(s)[i] as int == s[i] as int + 32,
        !('A' <= s[i] <= 'Z') ==> lowered_ascii(s)[i] == s[i],
{
}

/// A text is split at its line feeds. A line loses the carriage return before
/// its line feed, and the end of the text is the end of its last line.
pub proof fn law_lines(a: Seq<char>, b: Seq<char>)
    requires
        !a.contains('\n'),
    ensures
        lines(seq![]) == Seq::<Seq<char>>::empty(),
        a.len() > 0 ==> lines(a) == seq![a],
        lines(a + seq!['\n'] + b) == seq![without_return(a)] + lines(b),
        lines(a + seq!['\r', '\n'] + b) == seq![a] + lines(b),
        a.len() > 0 && a.last() == '\r' || without_return(a) == a,
{
    let f = differs_from('\n');
    assert forall|i: int| 0 <= i < a.len() implies f(#[trigger] a[i]) by {
        assert(a.contains(a[i]));
    }
    lemma_span(a, f, a.len());
    lemma_first_line(a, b);
    let r = a.push('\r');
    assert(!r.contains('\n')) by {
        if r.contains('\n') {
            let i = choose|i: int| 0 <= i < r.len() && r[i] == '\n';
            assert(a[i] == '\n');
        }
    }
    lemma_first_line(r, b);
    assert(r + seq!['\n'] + b =~= a + seq!['\r', '\n'] + b);
    assert(r.drop_last() =~= a);
}

/// The first line of a text ends at its first line feed.
proof fn lemma_first_line(a: Seq<char>, b: Seq<char>)
    requires
        !a.contains('\n'),
    ensures
        lines(a + seq!['\n'] + b) == seq![without_return(a)] + lines(b),
{
    let f = differs_from('\n');
    let s = a + seq!['\n'] + b;
    assert forall|i: int| 0 <= i < a.len() implies f(#[trigger] s[i]) by {
        assert(s[i] == a[i]);
        assert(a.contains(a[i]));
    }
    lemma_span(s, f, a.len());
    assert(s.take(a.len() as int) =~= a);
    assert(s.skip(a.len() as int + 1) =~= b);
}

/// A number of 32 bits is read from its digits, with a plus before them or
/// without; anything else, and any larger number, is not.
pub proof fn law_small_numbers_are_read(s: Seq<char>)
    ensures
        digits(s) && number(s) <= 0xffff_ffff ==> parsed_u32(s) == Some(number(s) as u32),
        digits(s) && number(s) <= 0xffff_ffff ==> parsed_u32(seq!['+'] + s) == Some(
            number(s) as u32,
        ),
        digits(s) && number(s) > 0xffff_ffff ==> parsed_u32(s) is None,
        !digits(s) && (s.len() == 0 || s[0] != '+') ==> parsed_u32(s) is None,
        !digits(s) ==> parsed_u32(seq!['+'] + s) is None,
{
    assert((seq!['+'] + s).skip(1) =~= s);
    if digits(s) {
        assert(decimal_digit(s[0]));
    }
}

/// The characters of `s`.
pub fn chars_of(s: &str) -> (cs: Vec<char>)
    ensures
        cs@ == s@,
{
    let mut cs: Vec<char> = Vec::new();
    for c in it: s.chars()
        invariant
            cs@ == it.seq().take(it.index() as int),
            it.seq() == s@,
    {
        cs.push(c);
    }
    cs
}

/// The string made of the characters `cs`.
pub fn string_of(cs: &[char]) -> (s: String)
    ensures
        s@ == cs@,
{
    let mut s = String::new();
    push_chars(&mut s, cs);
    s
}

/// Appends the characters `cs` to `s`.
pub fn push_chars(s: &mut String, cs: &[char])
    ensures
        final(s)@ == old(s)@ + cs@,
{
    let mut i: usize = 0;
    while i < cs.len()
        invariant
            i <= cs@.len(),
            s@ == old(s)@ + cs@.take(i as int),
        decreases cs@.len() - i,
    {
        s.push(cs[i]);
        i = i + 1;
    }
    assert(cs@.take(i as int) == cs@);
}

/// Appends `t` to `s`.
pub fn push_str(s: &mut String, t: &str)
    ensures
        final(s)@ == old(s)@ + t@,
{
    let cs = chars_of(t);
    push_chars(s, cs.as_slice());
}

/// Whether the characters `cs` spell `t`.
pub fn eq_str(cs: &[char], t: &str) -> (b: bool)
    ensures
        b == (cs@ == t@),
{
    let ts = chars_of(t);
    if cs.len() != ts.len() {
        return false;
    }
    let mut i: usize = 0;
    while i < cs.len()
        invariant
            i <= cs@.len(),
            cs@.len() == ts@.len(),
            ts@ == t@,
            cs@.take(i as int) == ts@.take(i as int),
        decreases cs@.len() - i,
    {
        if cs[i] != ts[i] {
            assert(cs@[i as int] != ts@[i as int]);
            return false;
        }
        i = i + 1;
        assert(cs@.take(i as int) =~= ts@.take(i as int)) by {
            assert(cs@.take(i as int) =~= cs@.take(i - 1).push(cs@[i - 1]));
            assert(ts@.take(i as int) =~= ts@.take(i - 1).push(ts@[i - 1]));
        }
    }
    assert(cs@.take(i as int) == cs@);
    assert(ts@.take(i as int) == ts@);
    true
}

/// Whether `c` has the Unicode `White_Space` property.
pub fn is_whitespace(c: char) -> (b: bool)
    ensures
        b == whitespace(c),
{
    ('\u{9}' <= c && c <= '\u{d}') || c == ' ' || c == '\u{85}' || c == '\u{a0}' || c == '\u{1680}'
        || ('\u{2000}' <= c && c <= '\u{200a}') || c == '\u{2028}' || c == '\u{2029}' || c
        == '\u{202f}' || c == '\u{205f}' || c == '\u{3000}'
}

/// `cs` without the white space around it.
pub fn trim(cs: &[char]) -> (r: &[char])
    ensures
        r@ == trimmed(cs@),
{
    let mut a: usize = 0;
    while a < cs.len() && is_whitespace(cs[a])
        invariant
            a <= cs@.len(),
            forall|i: int| 0 <= i < a ==> is_white()(#[trigger] cs@[i]),
        decreases cs@.len() - a,
    {
        a = a + 1;
    }
    proof {
        lemma_span(cs@, is_white(), a as nat);
    }
    let t = &cs[a..cs.len()];
    assert(t@ == trimmed_start(cs@));
    let mut b: usize = t.len();
    while b > 0 && is_whitespace(t[b - 1])
        invariant
            b <= t@.len(),
            forall|i: int| b <= i < t@.len() ==> is_white()(#[trigger] t@[i]),
        decreases b,
    {
        b = b - 1;
    }
    proof {
        lemma_span_back(t@, is_white(), (t@.len() - b) as nat);
    }
    &t[0..b]
}

/// Index of the first `c` in `cs`, or the length of `cs` if there is none.
pub fn find_char(cs: &[char], c: char) -> (n: usize)
    ensures
        n == span(cs@, differs_from(c)),
        n <= cs@.len(),
{
    let mut n: usize = 0;
    while n < cs.len() && cs[n] != c
        invariant
            n <= cs@.len(),
            forall|i: int| 0 <= i < n ==> differs_from(c)(#[trigger] cs@[i]),
        decreases cs@.len() - n,
    {
        n = n + 1;
    }
    proof {
        lemma_span(cs@, differs_from(c), n as nat);
    }
    n
}

/// What stands before and after the first `c` in `cs`, if there is one.
pub fn split_once(cs: &[char], c: char) -> (r: Option<(&[char], &[char])>)
    ensures
        match r {
            Some((a, b)) => cut(cs@, c) == Some((a@, b@)),
            None => cut(cs@, c) is None,
        },
{
    let n = find_char(cs, c);
    if n == cs.len() {
        None
    } else {
        Some((&cs[0..n], &cs[n + 1..cs.len()]))
    }
}

/// What stands behind `p` in `cs`, if `cs` starts with `p`.
pub fn strip_prefix<'a>(cs: &'a [char], p: &str) -> (r: Option<&'a [char]>)
    ensures
        match r {
            Some(rest) => after_prefix(cs@, p@) == Some(rest@),
            None => after_prefix(cs@, p@) is None,
        },
{
    let prefix = chars_of(p);
    let n: usize = prefix.len();
    if n > cs.len() {
        return None;
    }
    let mut i: usize = 0;
    while i < n
        invariant
            n <= cs@.len(),
            n == prefix@.len(),
            prefix@ == p@,
            i <= n,
            forall|j: int| 0 <= j < i ==> cs@[j] == prefix@[j],
        decreases n - i,
    {
        if cs[i] != prefix[i] {
            assert(cs@.take(n as int)[i as int] != p@[i as int]);
            return None;
        }
        i = i + 1;
    }
    assert(cs@.take(n as int) =~= p@);
    Some(&cs[n..cs.len()])
}

/// Maps `A`..=`Z` to `a`..=`z` and keeps every other character.
pub fn to_lower_ascii(c: char) -> (r: char)
    ensures
        r == lower_ascii(c),
{
    if 'A' <= c && c <= 'Z' {
        (c as u8 + 32) as char
    } else {
        c
    }
}

/// `cs` with its ASCII letters in lower case.
pub fn to_ascii_lowercase(cs: &[char]) -> (r: Vec<char>)
    ensures
        r@ == lowered_ascii(cs@),
{
    let mut r: Vec<char> = Vec::new();
    while r.len() < cs.len()
        invariant
            r@.len() <= cs@.len(),
            r@ == lowered_ascii(cs@.take(r@.len() as int)),
        decreases cs@.len() - r@.len(),
    {
        let i: usize = r.len();
        r.push(to_lower_ascii(cs[i]));
    }
    assert(cs@.take(r@.len() as int) == cs@);
    r
}

/// Whether `c` is one of `0`..=`9`.
pub fn is_digit(c: char) -> (b: bool)
    ensures
        b == decimal_digit(c),
{
    '0' <= c && c <= '9'
}

/// The `u32` that `cs` writes in decimal: digits, with a plus sign before
/// them or not. `None` for anything else and for a number that is too large.
pub fn parse_u32(cs: &[char]) -> (r: Option<u32>)
    ensures
        r == parsed_u32(cs@),
{
    let t = if cs.len() > 0 && cs[0] == '+' {
        &cs[1..cs.len()]
    } else {
        cs
    };
    if t.len() == 0 {
        return None;
    }
    let mut value: u64 = 0;
    let mut i: usize = 0;
    while i < t.len()
        invariant
            t@ == (if cs@.len() > 0 && cs@[0] == '+' {
                cs@.skip(1)
            } else {
                cs@
            }),
            i <= t@.len(),
            value <= u32::MAX,
            value == number(t@.take(i as int)),
            forall|j: int| 0 <= j < i ==> decimal_digit(#[trigger] t@[j]),
        decreases t@.len() - i,
    {
        if !is_digit(t[i]) {
            assert(!decimal_digit(t@[i as int]));
            return None;
        }
        value = value * 10 + (t[i] as u64 - 48);
        i = i + 1;
        assert(t@.take(i as int).drop_last() == t@.take(i - 1));
        if value > u32::MAX as u64 {
            proof {
                if digits(t@) {
                    lemma_number_grows(t@, i as int);
                }
            }
            return None;
        }
    }
    assert(t@.take(i as int) == t@);
    Some(value as u32)
}

/// Appends `n` in decimal to `s`.
pub fn push_decimal(s: &mut String, n: u64)
    ensures
        final(s)@ == old(s)@ + decimal(n as nat),
    decreases n,
{
    if n >= 10 {
        push_decimal(s, n / 10);
    }
    let d: u8 = (n % 10) as u8;
    s.push((48 + d) as char);
}

/// Appends `n` in decimal to `s`, with a minus sign if it is negative.
pub fn push_decimal_signed(s: &mut String, n: i64)
    ensures
        final(s)@ == old(s)@ + decimal_signed(n as int),
{
    if n < 0 {
        s.push('-');
        push_decimal(s, (-(n + 1)) as u64 + 1);
    } else {
        push_decimal(s, n as u64);
    }
}

} // verus!
