//! Full Unicode lower case, for matching process names whatever their case.
//!
//! Each character has its full lower case mapping, whatever stands around it.
//! That is one character for all but U+0130, the capital I with a dot, which
//! becomes `i` and a combining dot; it is not shortened to `i`. Both sides of
//! a comparison are mapped by this one rule, so every name matches itself, and
//! a name with that letter does not match one with a plain `i`.

use vstd::prelude::*;

use crate::text;
use crate::utf16;

verus! {

/// The lower case mapping of one character.
pub uninterp spec fn char_lowercase(c: char) -> Seq<char>;

/// `char::to_lowercase`: the characters of the lower case mapping of `c`,
/// which depends on nothing but `c`. Which characters these are is left to
/// the Unicode tables.
#[verifier::external_body]
fn lower_char(c: char) -> (r: Vec<char>)
    ensures
        r@ == char_lowercase(c),
{
    c.to_lowercase().collect()
}

/// The parts of `m`, one after the other.
pub open spec fn joined(m: Seq<Seq<char>>) -> Seq<char>
    decreases m.len(),
{
    if m.len() == 0 {
        seq![]
    } else {
        joined(m.drop_last()) + m.last()
    }
}

/// The lower case mappings of the characters of `s`.
pub open spec fn lower_parts(s: Seq<char>) -> Seq<Seq<char>> {
    s.map_values(|c: char| char_lowercase(c))
}

/// `s` in lower case.
pub open spec fn lowercase(s: Seq<char>) -> Seq<char> {
    joined(lower_parts(s))
}

/// The contents of the vectors in `m`.
pub open spec fn parts(m: Seq<Vec<char>>) -> Seq<Seq<char>> {
    m.map_values(|v: Vec<char>| v@)
}

/// The image name of a process matches a process name in any case: what is
/// compared are their lower case forms.
pub proof fn law_match_ignores_case(image: Seq<char>, name: Seq<char>)
    ensures
        lowercase(utf16::decoded(utf16::encoded(image))) == lowercase(name) <==> lowercase(image)
            == lowercase(name),
{
    utf16::law_decode_encode(image);
}

/// Parts one after the other are joined one after the other, and one part
/// alone is kept.
pub proof fn law_joining_keeps_every_part(a: Seq<Seq<char>>, p: Seq<char>, b: Seq<Seq<char>>)
    ensures
        joined(a + seq![p] + b) == joined(a) + p + joined(b),
        joined(seq![]) == Seq::<char>::empty(),
    decreases b.len(),
{
    let m = a + seq![p] + b;
    if b.len() == 0 {
        assert(m.drop_last() =~= a);
        assert(m.last() == p);
        assert(joined(a) + p + joined(b) =~= joined(a) + p);
    } else {
        assert(m.drop_last() =~= a + seq![p] + b.drop_last());
        assert(m.last() == b.last());
        law_joining_keeps_every_part(a, p, b.drop_last());
        assert(joined(a) + p + joined(b.drop_last()) + b.last() =~= joined(a) + p + (joined(
            b.drop_last(),
        ) + b.last()));
    }
}

/// Every character of a text is lowered, each by itself, and stays in its
/// place.
pub proof fn law_every_character_is_lowered(a: Seq<char>, c: char, b: Seq<char>)
    ensures
        lowercase(a + seq![c] + b) == lowercase(a) + char_lowercase(c) + lowercase(b),
        lowercase(seq![]) == Seq::<char>::empty(),
{
    law_joining_keeps_every_part(lower_parts(a), char_lowercase(c), lower_parts(b));
    assert(lower_parts(a + seq![c] + b) =~= lower_parts(a) + seq![char_lowercase(c)] + lower_parts(
        b,
    ));
    assert(lower_parts(seq![]) =~= seq![]);
}

/// The parts of `m`, one after the other.
pub fn join(m: &Vec<Vec<char>>) -> (r: Vec<char>)
    ensures
        r@ == joined(parts(m@)),
{
    let mut r: Vec<char> = Vec::new();
    let mut i: usize = 0;
    while i < m.len()
        invariant
            i <= m@.len(),
            r@ == joined(parts(m@).take(i as int)),
        decreases m@.len() - i,
    {
        let ghost before = r@;
        let part = &m[i];
        let mut j: usize = 0;
        while j < part.len()
            invariant
                j <= part@.len(),
                r@ == before + part@.take(j as int),
            decreases part@.len() - j,
        {
            r.push(part[j]);
            j = j + 1;
        }
        assert(part@.take(j as int) =~= part@);
        i = i + 1;
        assert(parts(m@).take(i as int).drop_last() =~= parts(m@).take(i - 1));
    }
    assert(parts(m@).take(i as int) =~= parts(m@));
    r
}

/// The lower case mappings of the characters `cs`.
fn lower_each(cs: &[char]) -> (m: Vec<Vec<char>>)
    ensures
        parts(m@) == lower_parts(cs@),
{
    let mut m: Vec<Vec<char>> = Vec::new();
    while m.len() < cs.len()
        invariant
            m@.len() <= cs@.len(),
            parts(m@) == lower_parts(cs@.take(m@.len() as int)),
        decreases cs@.len() - m@.len(),
    {
        let i: usize = m.len();
        let ghost before = parts(m@);
        let part = lower_char(cs[i]);
        m.push(part);
        proof {
            assert(parts(m@) =~= before.push(part@));
            assert(lower_parts(cs@.take(i + 1)) =~= before.push(char_lowercase(cs@[i as int])));
        }
    }
    assert(cs@.take(m@.len() as int) =~= cs@);
    m
}

/// `s` in lower case, every character (not just A-Z).
pub fn to_lowercase(s: &str) -> (r: String)
    ensures
        r@ == lowercase(s@),
{
    let cs = text::chars_of(s);
    let m = lower_each(cs.as_slice());
    let r = join(&m);
    text::string_of(r.as_slice())
}

/// Compares a UTF-16 image name against a name that is in lower case already,
/// lowering every character (not just A-Z).
pub fn eq_lowercase_utf16(name: &[u16], lower: &str) -> (b: bool)
    ensures
        b == (lowercase(utf16::decoded(name@)) == lower@),
{
    let cs = utf16::decode_utf16(name);
    let m = lower_each(cs.as_slice());
    eq_joined(&m, lower)
}

/// Whether the parts of `m`, one after the other, spell `lower`.
pub fn eq_joined(m: &Vec<Vec<char>>, lower: &str) -> (b: bool)
    ensures
        b == (joined(parts(m@)) == lower@),
{
    let r = join(m);
    text::eq_str(r.as_slice(), lower)
}

} // verus!
