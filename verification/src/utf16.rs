//! UTF-16, the encoding of the strings that Windows takes and gives.

use vstd::prelude::*;

use crate::text;

verus! {

/// Length of the tooltip buffer of a tray icon, in UTF-16 units.
pub const TIP_UNITS: usize = 128;

/// Whether `n` is a Unicode scalar value.
pub open spec fn scalar(n: int) -> bool {
    0 <= n < 0xd800 || 0xe000 <= n <= 0x10ffff
}

/// `char::from_u32`: the character with that scalar value, or `None` where
/// the number is none.
pub assume_specification[ char::from_u32 ](n: u32) -> (c: Option<char>)
    ensures
        c == (if scalar(n as int) {
            Some(n as char)
        } else {
            None
        }),
;

/// Whether `u` is the first unit of a surrogate pair.
pub open spec fn high_surrogate(u: u16) -> bool {
    0xd800 <= u <= 0xdbff
}

/// Whether `u` is the second unit of a surrogate pair.
pub open spec fn low_surrogate(u: u16) -> bool {
    0xdc00 <= u <= 0xdfff
}

/// The units of one character.
pub open spec fn units(c: char) -> Seq<u16> {
    let n = c as int;
    if n < 0x10000 {
        seq![n as u16]
    } else {
        seq![
            (0xd800 + (n - 0x10000) / 0x400) as u16,
            (0xdc00 + (n - 0x10000) % 0x400) as u16,
        ]
    }
}

/// The units of a text.
pub open spec fn encoded(s: Seq<char>) -> Seq<u16>
    decreases s.len(),
{
    if s.len() == 0 {
        seq![]
    } else {
        units(s[0]) + encoded(s.drop_first())
    }
}

/// The character that a surrogate pair stands for.
pub open spec fn pair(high: u16, low: u16) -> char {
    (0x10000 + (high - 0xd800) * 0x400 + (low - 0xdc00)) as char
}

/// The text that the units stand for, with U+FFFD for each surrogate that
/// has no partner.
pub open spec fn decoded(u: Seq<u16>) -> Seq<char>
    decreases u.len(),
{
    if u.len() == 0 {
        seq![]
    } else if !high_surrogate(u[0]) && !low_surrogate(u[0]) {
        seq![u[0] as char] + decoded(u.skip(1))
    } else if high_surrogate(u[0]) && u.len() > 1 && low_surrogate(u[1]) {
        seq![pair(u[0], u[1])] + decoded(u.skip(2))
    } else {
        seq!['\u{fffd}'] + decoded(u.skip(1))
    }
}

/// The contents of a tooltip buffer: as much of `s` as leaves room for a
/// terminator, then zeros.
pub open spec fn tip(s: Seq<char>) -> Seq<u16> {
    Seq::new(
        TIP_UNITS as nat,
        |i: int|
            if i < encoded(s).len() && i < TIP_UNITS - 1 {
                encoded(s)[i]
            } else {
                0
            },
    )
}

/// Every character is a scalar value.
pub proof fn lemma_char_is_scalar(c: char)
    ensures
        scalar(c as int),
{
}

/// Decoding gives back every text that was encoded.
pub proof fn law_decode_encode(s: Seq<char>)
    ensures
        decoded(encoded(s)) == s,
    decreases s.len(),
{
    if s.len() > 0 {
        let u = encoded(s);
        let rest = encoded(s.drop_first());
        law_decode_encode(s.drop_first());
        let n = s[0] as int;
        lemma_char_is_scalar(s[0]);
        if n < 0x10000 {
            assert(u.skip(1) =~= rest);
            assert(u[0] == n);
            assert(decoded(u) =~= seq![s[0]] + s.drop_first());
        } else {
            assert(u.skip(2) =~= rest);
            assert(0 <= (n - 0x10000) / 0x400 < 0x400);
            assert(pair(u[0], u[1]) == s[0]);
            assert(decoded(u) =~= seq![s[0]] + s.drop_first());
        }
        assert(seq![s[0]] + s.drop_first() =~= s);
    }
}

/// A tooltip buffer always ends in a terminator.
pub proof fn law_tip_is_terminated(s: Seq<char>)
    ensures
        tip(s).len() == TIP_UNITS,
        tip(s).last() == 0,
{
}

/// A text that fits stands in the tooltip buffer as a whole, and the zero
/// after it ends it.
pub proof fn law_short_tip_is_whole(s: Seq<char>)
    requires
        encoded(s).len() < TIP_UNITS,
    ensures
        tip(s).take(encoded(s).len() as int) == encoded(s),
        tip(s)[encoded(s).len() as int] == 0,
{
}

/// Texts one after the other are encoded one after the other. A character
/// below U+10000 is one unit, with its own number; any other is two units,
/// each of which carries ten bits of what its number exceeds 0x10000 by.
pub proof fn law_units_of_a_text(a: Seq<char>, b: Seq<char>, c: char)
    ensures
        encoded(seq![]) == Seq::<u16>::empty(),
        encoded(a + b) == encoded(a) + encoded(b),
        (c as int) < 0x1_0000 ==> encoded(seq![c]) == seq![c as u16] && c as u16 == c as int,
        (c as int) >= 0x1_0000 ==> {
            let u = encoded(seq![c]);
            &&& u.len() == 2
            &&& 0xd800 <= u[0] < 0xdc00
            &&& 0xdc00 <= u[1] < 0xe000
            &&& c as int == 0x1_0000 + 0x400 * (u[0] - 0xd800) + (u[1] - 0xdc00)
        },
{
    lemma_encoded_adds(a, b);
    lemma_char_is_scalar(c);
    let s = seq![c];
    assert(s.drop_first() =~= seq![]);
    assert(encoded(s.drop_first()) == Seq::<u16>::empty());
    assert(units(c) + Seq::<u16>::empty() =~= units(c));
    assert(encoded(s) == units(c));
}

proof fn lemma_encoded_adds(a: Seq<char>, b: Seq<char>)
    ensures
        encoded(a + b) == encoded(a) + encoded(b),
    decreases a.len(),
{
    if a.len() == 0 {
        assert(a + b =~= b);
        assert(encoded(a) + encoded(b) =~= encoded(b));
    } else {
        assert((a + b).drop_first() =~= a.drop_first() + b);
        lemma_encoded_adds(a.drop_first(), b);
        assert(units(a[0]) + (encoded(a.drop_first()) + encoded(b)) =~= units(a[0]) + encoded(
            a.drop_first(),
        ) + encoded(b));
    }
}

/// Decoding goes from unit to unit. A unit that is no surrogate is its own
/// character, a high surrogate and a low one behind it are one character, and
/// any other surrogate becomes U+FFFD, alone.
pub proof fn law_decoding_goes_from_unit_to_unit(x: u16, y: u16, rest: Seq<u16>)
    ensures
        decoded(seq![]) == Seq::<char>::empty(),
        x < 0xd800 || x >= 0xe000 ==> {
            let d = decoded(seq![x] + rest);
            d.len() > 0 && d[0] as int == x && d.skip(1) == decoded(rest)
        },
        0xd800 <= x < 0xdc00 && 0xdc00 <= y < 0xe000 ==> {
            let d = decoded(seq![x, y] + rest);
            &&& d.len() > 0
            &&& d[0] as int == 0x1_0000 + 0x400 * (x - 0xd800) + (y - 0xdc00)
            &&& d.skip(1) == decoded(rest)
        },
        0xdc00 <= x < 0xe000 ==> decoded(seq![x] + rest) == seq!['\u{fffd}'] + decoded(rest),
        0xd800 <= x < 0xdc00 && !(0xdc00 <= y < 0xe000) ==> decoded(seq![x, y] + rest) == seq![
            '\u{fffd}',
        ] + decoded(seq![y] + rest),
        0xd800 <= x < 0xdc00 ==> decoded(seq![x]) == seq!['\u{fffd}'],
{
    let one = seq![x] + rest;
    let two = seq![x, y] + rest;
    assert(one.skip(1) =~= rest);
    assert(two.skip(1) =~= seq![y] + rest);
    assert(two.skip(2) =~= rest);
    assert(one[0] == x && two[0] == x && two[1] == y);
    assert(seq![x].skip(1) =~= seq![]);
    assert(decoded(seq![]) == Seq::<char>::empty());
    assert(seq!['\u{fffd}'] + Seq::<char>::empty() =~= seq!['\u{fffd}']);
    if x < 0xd800 || x >= 0xe000 {
        assert(decoded(one).skip(1) =~= decoded(rest));
    } else if x < 0xdc00 && 0xdc00 <= y < 0xe000 {
        assert(0x1_0000 <= 0x10000 + (x - 0xd800) * 0x400 + (y - 0xdc00) <= 0x10_ffff);
        assert(decoded(two).skip(1) =~= decoded(rest));
    }
}

/// A tooltip buffer holds 128 units: the first 127 of the text, and zeros
/// behind.
pub proof fn law_tip_is_cut_off(s: Seq<char>, i: int)
    requires
        0 <= i < 128,
    ensures
        tip(s).len() == 128,
        i < 127 && i < encoded(s).len() ==> tip(s)[i] == encoded(s)[i],
        i == 127 || i >= encoded(s).len() ==> tip(s)[i] == 0,
{
}

/// Encodes `s` as UTF-16.
pub fn encode_utf16(s: &str) -> (u: Vec<u16>)
    ensures
        u@ == encoded(s@),
{
    let cs = text::chars_of(s);
    let mut u: Vec<u16> = Vec::new();
    let mut i: usize = 0;
    assert(cs@.skip(0) =~= cs@);
    while i < cs.len()
        invariant
            i <= cs@.len(),
            u@ + encoded(cs@.skip(i as int)) == encoded(cs@),
        decreases cs@.len() - i,
    {
        let ghost before = u@;
        let n: u32 = cs[i] as u32;
        proof {
            lemma_char_is_scalar(cs@[i as int]);
        }
        if n < 0x10000 {
            u.push(n as u16);
        } else {
            u.push((0xd800 + (n - 0x10000) / 0x400) as u16);
            u.push((0xdc00 + (n - 0x10000) % 0x400) as u16);
        }
        proof {
            let rest = cs@.skip(i as int);
            assert(u@ =~= before + units(rest[0]));
            assert(rest.drop_first() =~= cs@.skip(i + 1));
            assert(before + (units(rest[0]) + encoded(rest.drop_first())) =~= u@ + encoded(
                rest.drop_first(),
            ));
        }
        i = i + 1;
    }
    assert(cs@.skip(i as int) =~= seq![]);
    assert(u@ + encoded(cs@.skip(i as int)) =~= u@);
    u
}

/// Encodes a string as NUL-terminated UTF-16 for the `*W` Win32 functions.
pub fn wide(s: &str) -> (u: Vec<u16>)
    ensures
        u@ == encoded(s@).push(0),
{
    let mut u = encode_utf16(s);
    u.push(0);
    u
}

/// Decodes UTF-16, with U+FFFD for each surrogate that has no partner.
pub fn decode_utf16(u: &[u16]) -> (cs: Vec<char>)
    ensures
        cs@ == decoded(u@),
{
    let mut cs: Vec<char> = Vec::new();
    let mut i: usize = 0;
    assert(u@.skip(0) =~= u@);
    while i < u.len()
        invariant
            i <= u@.len(),
            cs@ + decoded(u@.skip(i as int)) == decoded(u@),
        decreases u@.len() - i,
    {
        let ghost before = cs@;
        let ghost rest = u@.skip(i as int);
        let a: u16 = u[i];
        let mut n: u32 = 0xfffd;
        let mut used: usize = 1;
        if a < 0xd800 || a > 0xdfff {
            n = a as u32;
        } else if a <= 0xdbff && i + 1 < u.len() {
            let b: u16 = u[i + 1];
            if 0xdc00 <= b && b <= 0xdfff {
                n = 0x10000 + (a as u32 - 0xd800) * 0x400 + (b as u32 - 0xdc00);
                used = 2;
            }
        }
        cs.push(char::from_u32(n).unwrap());
        proof {
            assert(rest.skip(used as int) =~= u@.skip(i + used));
            let tail = decoded(rest.skip(used as int));
            assert(decoded(rest) =~= seq![n as char] + tail);
            assert(before + (seq![n as char] + tail) =~= cs@ + tail);
        }
        i = i + used;
    }
    assert(u@.skip(i as int) =~= seq![]);
    assert(cs@ + decoded(u@.skip(i as int)) =~= cs@);
    cs
}

/// Decodes UTF-16 into a string, with U+FFFD for each surrogate that has no
/// partner.
pub fn from_utf16_lossy(u: &[u16]) -> (s: String)
    ensures
        s@ == decoded(u@),
{
    let cs = decode_utf16(u);
    text::string_of(cs.as_slice())
}

/// The contents of a tooltip buffer that shows `s`, cut off where it does
/// not fit.
pub fn set_tip(s: &str) -> (u: Vec<u16>)
    ensures
        u@ == tip(s@),
{
    let mut u = encode_utf16(s);
    u.truncate(TIP_UNITS - 1);
    while u.len() < TIP_UNITS
        invariant
            u@.len() <= TIP_UNITS,
            encoded(s@).len() < TIP_UNITS ==> u@.len() >= encoded(s@).len(),
            encoded(s@).len() >= TIP_UNITS ==> u@.len() >= TIP_UNITS - 1,
            u@ == tip(s@).take(u@.len() as int),
        decreases TIP_UNITS - u@.len(),
    {
        u.push(0);
    }
    assert(tip(s@).take(u@.len() as int) =~= tip(s@));
    u
}

} // verus!
