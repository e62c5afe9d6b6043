//! Paths as Explorer records them.

use vstd::prelude::*;

use crate::text;

verus! {

/// Whether a path starts with a drive: one ASCII character and a colon.
pub open spec fn has_drive(s: Seq<char>) -> bool {
    s.len() >= 2 && s[0] < '\u{80}' && s[1] == ':'
}

/// The Win32 form of a path in extended-length syntax; any other path as it
/// is.
pub open spec fn win32(p: Seq<char>) -> Seq<char> {
    match text::after_prefix(p, "\\\\?\\UNC\\"@) {
        Some(rest) => "\\\\"@ + rest,
        None => match text::after_prefix(p, "\\\\?\\"@) {
            Some(rest) => if has_drive(rest) {
                rest
            } else {
                p
            },
            None => p,
        },
    }
}

/// The two prefixes, character by character.
proof fn lemma_prefixes()
    ensures
        "\\\\?\\"@ == seq!['\\', '\\', '?', '\\'],
        "\\\\?\\UNC\\"@ == "\\\\?\\"@ + seq!['U', 'N', 'C', '\\'],
        "\\\\"@ == seq!['\\', '\\'],
{
    reveal_strlit("\\\\?\\");
    reveal_strlit("\\\\?\\UNC\\");
    reveal_strlit("\\\\");
    assert("\\\\?\\"@ =~= seq!['\\', '\\', '?', '\\']);
    assert("\\\\?\\UNC\\"@ =~= "\\\\?\\"@ + seq!['U', 'N', 'C', '\\']);
    assert("\\\\"@ =~= seq!['\\', '\\']);
}

/// The extended-length form of a path on a drive is mapped back to that path.
pub proof fn law_drive_path(p: Seq<char>)
    requires
        has_drive(p),
    ensures
        win32("\\\\?\\"@ + p) == p,
        win32(p) == p,
{
    lemma_prefixes();
    let long = "\\\\?\\"@ + p;
    assert(long.take(4) =~= "\\\\?\\"@);
    assert(long.skip(4) =~= p);
    if text::after_prefix(long, "\\\\?\\UNC\\"@) is Some {
        assert(long.take(8)[5] == 'N');
        assert(long[5] == ':');
    }
    if text::after_prefix(p, "\\\\?\\"@) is Some {
        assert(p.take(4)[1] == '\\');
    }
    if text::after_prefix(p, "\\\\?\\UNC\\"@) is Some {
        assert(p.take(8)[1] == '\\');
    }
}

/// The extended-length form of a path on a server is mapped back to that
/// path.
pub proof fn law_server_path(rest: Seq<char>)
    ensures
        win32("\\\\?\\UNC\\"@ + rest) == "\\\\"@ + rest,
{
    lemma_prefixes();
    let long = "\\\\?\\UNC\\"@ + rest;
    assert(long.take(8) =~= "\\\\?\\UNC\\"@);
    assert(long.skip(8) =~= rest);
}

/// A path in any other syntax is kept.
pub proof fn law_other_path(p: Seq<char>)
    requires
        text::after_prefix(p, "\\\\?\\"@) is None,
    ensures
        win32(p) == p,
{
    lemma_prefixes();
    if text::after_prefix(p, "\\\\?\\UNC\\"@) is Some {
        assert(p.take(4) =~= p.take(8).take(4));
        assert(p.take(4) =~= "\\\\?\\"@);
    }
}

/// Of the paths that start with `\\?\`, those with a drive behind it lose it,
/// those with `UNC\` behind it lose that as well but for two backslashes, and
/// all others are kept.
pub proof fn law_which_paths_are_mapped(rest: Seq<char>)
    ensures
        ({
            let p = seq!['\\', '\\', '?', '\\'] + rest;
            let unc = rest.len() >= 4 && rest[0] == 'U' && rest[1] == 'N' && rest[2] == 'C'
                && rest[3] == '\\';
            let drive = rest.len() >= 2 && (rest[0] as int) < 128 && rest[1] == ':';
            &&& unc ==> win32(p) == seq!['\\', '\\'] + rest.skip(4)
            &&& !unc && drive ==> win32(p) == rest
            &&& !unc && !drive ==> win32(p) == p
        }),
{
    lemma_prefixes();
    let p = seq!['\\', '\\', '?', '\\'] + rest;
    assert(p.take(4) =~= "\\\\?\\"@);
    assert(p.skip(4) =~= rest);
    let unc = rest.len() >= 4 && rest[0] == 'U' && rest[1] == 'N' && rest[2] == 'C' && rest[3]
        == '\\';
    let long = "\\\\?\\UNC\\"@;
    assert(long[4] == 'U' && long[5] == 'N' && long[6] == 'C' && long[7] == '\\');
    if unc {
        assert(p.take(8) =~= long);
        assert(p.skip(8) =~= rest.skip(4));
    } else if p.len() >= 8 && p.take(8) == long {
        assert(p.take(8)[4] == rest[0] && p.take(8)[5] == rest[1]);
        assert(p.take(8)[6] == rest[2] && p.take(8)[7] == rest[3]);
    }
}

/// Maps the extended-length syntax of a resolved path back to the Win32 form:
/// `\\?\C:\x` -> `C:\x`, `\\?\UNC\server\share\x` -> `\\server\share\x`.
/// Anything else is kept.
pub fn win32_path(p: &str) -> (r: String)
    ensures
        r@ == win32(p@),
{
    let cs = text::chars_of(p);
    if let Some(rest) = text::strip_prefix(cs.as_slice(), "\\\\?\\UNC\\") {
        let mut r = "\\\\".to_string();
        text::push_chars(&mut r, rest);
        return r;
    }
    if let Some(rest) = text::strip_prefix(cs.as_slice(), "\\\\?\\") {
        if rest.len() >= 2 && rest[0] < '\u{80}' && rest[1] == ':' {
            return text::string_of(rest);
        }
    }
    p.to_string()
}

} // verus!
