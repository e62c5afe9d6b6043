//! Registry values, and the search for the entry of the tray icon.
//!
//! Windows 11 hides new tray icons in the overflow flyout by default. The
//! choice for each icon lives under `HKCU\Control Panel\NotifyIconSettings`,
//! in a subkey where Explorer records `ExecutablePath` and (once the user has
//! decided) `IsPromoted`. Setting `IsPromoted` to 1 shows the icon next to
//! the clock. Only an absent value is written: if the user has already hidden
//! or shown the icon, that choice stands.

use vstd::prelude::*;

use crate::text;
use crate::utf16;

verus! {

/// Type of a string value.
pub const REG_SZ: u32 = 1;

/// Type of a string value with references to environment variables.
pub const REG_EXPAND_SZ: u32 = 2;

/// Type of a 32-bit number.
pub const REG_DWORD: u32 = 4;

/// Units before the first NUL.
pub open spec fn until_nul(u: Seq<u16>) -> Seq<u16>
    decreases u.len(),
{
    if u.len() == 0 || u[0] == 0 {
        seq![]
    } else {
        seq![u[0]] + until_nul(u.skip(1))
    }
}

/// The text of a string value, where a query ended with `status` and left
/// `len` bytes of type `typ` in `buf`. `None` if there is no such value or it
/// is of another type.
pub open spec fn string_value(status: u32, typ: u32, buf: Seq<u16>, len: u32) -> Option<Seq<char>> {
    if status != 0 || (typ != REG_SZ && typ != REG_EXPAND_SZ) {
        None
    } else {
        let n = if len / 2 < buf.len() {
            (len / 2) as int
        } else {
            buf.len() as int
        };
        Some(utf16::decoded(until_nul(buf.take(n))))
    }
}

/// A subkey of the icon settings, as far as the search looks at it.
pub struct Entry {
    /// It can be opened for reading and writing.
    pub opens: bool,
    /// Path of the program that the icon belongs to.
    pub path: Option<Seq<char>>,
    /// What has been decided about the icon.
    pub promoted: Option<u32>,
}

/// Whether two paths are the same but for the case of ASCII letters.
pub open spec fn same_path(a: Seq<char>, b: Seq<char>) -> bool {
    text::lowered_ascii(a) == text::lowered_ascii(b)
}

/// Whether an entry is the one of the program `exe`.
pub open spec fn belongs_to(e: Entry, exe: Seq<char>) -> bool {
    e.opens && (match e.path {
        Some(p) => same_path(p, exe),
        None => false,
    })
}

/// The first entry of the program `exe` from `from` on.
pub open spec fn first_of(entries: Seq<Entry>, exe: Seq<char>, from: int) -> Option<int>
    decreases entries.len() - from,
{
    if from < 0 || from >= entries.len() {
        None
    } else if belongs_to(entries[from], exe) {
        Some(from)
    } else {
        first_of(entries, exe, from + 1)
    }
}

/// What a search comes to: whether the matter is settled, and the entry that
/// is written to, if any. Without icon settings there is nothing to do.
pub open spec fn outcome(settings: Option<Seq<Entry>>, exe: Seq<char>) -> (bool, Option<int>) {
    match settings {
        None => (true, None),
        Some(entries) => match first_of(entries, exe, 0) {
            None => (false, None),
            Some(k) => (
                true,
                if entries[k].promoted is None {
                    Some(k)
                } else {
                    None
                },
            ),
        },
    }
}

/// What a search does next.
#[derive(Clone, Copy, Debug, PartialEq, Eq, Structural)]
pub enum Stage {
    /// Open the icon settings.
    Root,
    /// Ask for the name of the next subkey.
    Name,
    /// Open the subkey.
    Key,
    /// Read its `ExecutablePath`.
    Path,
    /// Read its `IsPromoted`.
    Flag,
    /// Set its `IsPromoted` to 1.
    Write,
    /// Nothing more; `true` if the matter is settled, `false` if the entry
    /// was not found (yet).
    Done(bool),
}

/// How far a search is.
pub struct Progress {
    /// How many subkeys have been named.
    pub index: int,
    pub stage: Stage,
}

/// After the attempt to open the icon settings.
pub open spec fn after_root(s: Progress, opened: bool) -> Progress {
    Progress {
        stage: if opened {
            Stage::Name
        } else {
            Stage::Done(true)
        },
        ..s
    }
}

/// After asking for the next subkey.
pub open spec fn after_name(s: Progress, exists_one: bool) -> Progress {
    if exists_one {
        Progress { index: s.index + 1, stage: Stage::Key }
    } else {
        Progress { stage: Stage::Done(false), ..s }
    }
}

/// After the attempt to open the subkey.
pub open spec fn after_key(s: Progress, opened: bool) -> Progress {
    Progress {
        stage: if opened {
            Stage::Path
        } else {
            Stage::Name
        },
        ..s
    }
}

/// After reading the path.
pub open spec fn after_path(s: Progress, path: Option<Seq<char>>, exe: Seq<char>) -> Progress {
    Progress {
        stage: if path is Some && same_path(path->0, exe) {
            Stage::Flag
        } else {
            Stage::Name
        },
        ..s
    }
}

/// After reading what has been decided.
pub open spec fn after_flag(s: Progress, promoted: Option<u32>) -> Progress {
    Progress {
        stage: if promoted is None {
            Stage::Write
        } else {
            Stage::Done(true)
        },
        ..s
    }
}

/// After writing.
pub open spec fn after_write(s: Progress) -> Progress {
    Progress { stage: Stage::Done(true), ..s }
}

/// The next step of a search in given settings.
pub open spec fn step(s: Progress, entries: Seq<Entry>, exe: Seq<char>) -> Progress {
    let e = entries[s.index - 1];
    match s.stage {
        Stage::Root => after_root(s, true),
        Stage::Name => after_name(s, s.index < entries.len()),
        Stage::Key => after_key(s, e.opens),
        Stage::Path => after_path(s, e.path, exe),
        Stage::Flag => after_flag(s, e.promoted),
        Stage::Write => after_write(s),
        Stage::Done(_) => s,
    }
}

/// The steps that a stage can still take before the next subkey.
pub open spec fn rank(stage: Stage) -> nat {
    match stage {
        Stage::Root => 6,
        Stage::Key => 5,
        Stage::Path => 4,
        Stage::Flag => 3,
        Stage::Write => 2,
        Stage::Name => 1,
        Stage::Done(_) => 0,
    }
}

/// What a search that is as far as `s` comes to, step by step.
pub open spec fn run(s: Progress, entries: Seq<Entry>, exe: Seq<char>) -> (bool, Option<int>)
    decreases
            (if s.index <= entries.len() {
                entries.len() - s.index
            } else {
                0
            }),
            rank(s.stage),
{
    match s.stage {
        Stage::Done(settled) => (settled, None),
        Stage::Write => (run(step(s, entries, exe), entries, exe).0, Some(s.index - 1)),
        _ => run(step(s, entries, exe), entries, exe),
    }
}

/// A search comes from subkey to subkey to the first entry of the program.
proof fn lemma_run(entries: Seq<Entry>, exe: Seq<char>, from: int)
    requires
        0 <= from <= entries.len(),
    ensures
        run(Progress { index: from, stage: Stage::Name }, entries, exe) == (match first_of(
            entries,
            exe,
            from,
        ) {
            None => (false, None),
            Some(k) => (
                true,
                if entries[k].promoted is None {
                    Some(k)
                } else {
                    None
                },
            ),
        }),
    decreases entries.len() - from,
{
    let named = Progress { index: from + 1, stage: Stage::Key };
    if from < entries.len() {
        let e = entries[from];
        let s = Progress { index: from, stage: Stage::Name };
        assert(step(s, entries, exe) == named);
        lemma_run(entries, exe, from + 1);
        if e.opens {
            let opened = Progress { stage: Stage::Path, ..named };
            assert(step(named, entries, exe) == opened);
            if belongs_to(e, exe) {
                let found = Progress { stage: Stage::Flag, ..named };
                assert(step(opened, entries, exe) == found);
                let done = Progress { stage: Stage::Done(true), ..named };
                assert(run(done, entries, exe) == (true, None::<int>));
                if e.promoted is None {
                    let write = Progress { stage: Stage::Write, ..named };
                    assert(step(found, entries, exe) == write);
                    assert(step(write, entries, exe) == done);
                    assert(run(write, entries, exe) == (true, Some(from)));
                } else {
                    assert(step(found, entries, exe) == done);
                }
                assert(run(found, entries, exe) == run(step(found, entries, exe), entries, exe));
            }
            assert(run(opened, entries, exe) == run(step(opened, entries, exe), entries, exe));
        }
        assert(run(named, entries, exe) == run(step(named, entries, exe), entries, exe));
    } else {
        let s = Progress { index: from, stage: Stage::Name };
        let done = Progress { stage: Stage::Done(false), ..s };
        assert(step(s, entries, exe) == done);
        assert(run(done, entries, exe) == (false, None::<int>));
    }
}

/// A search comes to [`outcome`], whatever the icon settings hold.
pub proof fn law_search_finds_the_first_entry(settings: Option<Seq<Entry>>, exe: Seq<char>)
    ensures
        ({
            let start = Progress { index: 0, stage: Stage::Root };
            match settings {
                None => after_root(start, false).stage == Stage::Done(
                    outcome(settings, exe).0,
                ),
                Some(entries) => run(start, entries, exe) == outcome(settings, exe),
            }
        }),
{
    if let Some(entries) = settings {
        lemma_run(entries, exe, 0);
        let start = Progress { index: 0, stage: Stage::Root };
        assert(step(start, entries, exe) == (Progress { index: 0, stage: Stage::Name }));
    }
}

/// What the user decided stands: only an entry of the program where nothing
/// has been decided is written to.
pub proof fn law_decision_of_the_user_stands(settings: Option<Seq<Entry>>, exe: Seq<char>)
    ensures
        outcome(settings, exe).1 matches Some(k) ==> settings matches Some(entries) && 0 <= k
            < entries.len() && belongs_to(entries[k], exe) && entries[k].promoted is None,
{
    if let Some(entries) = settings {
        lemma_first_of(entries, exe, 0);
    }
}

proof fn lemma_first_of(entries: Seq<Entry>, exe: Seq<char>, from: int)
    requires
        0 <= from,
    ensures
        first_of(entries, exe, from) matches Some(k) ==> from <= k < entries.len() && belongs_to(
            entries[k],
            exe,
        ),
    decreases entries.len() - from,
{
    if from < entries.len() && !belongs_to(entries[from], exe) {
        lemma_first_of(entries, exe, from + 1);
    }
}

proof fn lemma_until_nul(u: Seq<u16>, rest: Seq<u16>)
    requires
        !u.contains(0),
    ensures
        until_nul(u + seq![0u16] + rest) == u,
    decreases u.len(),
{
    let whole = u + seq![0u16] + rest;
    if u.len() > 0 {
        assert(u.contains(u[0]));
        assert(whole.skip(1) =~= u.skip(1) + seq![0u16] + rest);
        assert(!u.skip(1).contains(0)) by {
            if u.skip(1).contains(0) {
                let j = choose|j: int| 0 <= j < u.skip(1).len() && u.skip(1)[j] == 0;
                assert(u[j + 1] == 0);
            }
        }
        lemma_until_nul(u.skip(1), rest);
        assert(seq![u[0]] + u.skip(1) =~= u);
    } else {
        assert(whole[0] == 0);
    }
}

/// Where a NUL is encoded, there was one.
proof fn lemma_nul(s: Seq<char>, j: int)
    requires
        0 <= j < utf16::encoded(s).len(),
        utf16::encoded(s)[j] == 0,
    ensures
        s.contains('\0'),
    decreases s.len(),
{
    let first = utf16::units(s[0]);
    utf16::lemma_char_is_scalar(s[0]);
    if j < first.len() {
        assert(first[j] == 0);
        assert(s[0] == '\0');
    } else {
        let t = s.drop_first();
        lemma_nul(t, j - first.len());
        let k = choose|k: int| 0 <= k < t.len() && t[k] == '\0';
        assert(s[k + 1] == '\0');
    }
}

/// A string that was written is read back, if there is room for it and no NUL
/// in it.
pub proof fn law_written_string_is_read_back(value: Seq<char>, rest: Seq<u16>, typ: u32)
    requires
        !value.contains('\0'),
        typ == REG_SZ || typ == REG_EXPAND_SZ,
        (utf16::encoded(value).len() + 1) * 2 <= u32::MAX,
    ensures
        string_value(
            0,
            typ,
            utf16::encoded(value).push(0) + rest,
            ((utf16::encoded(value).len() + 1) * 2) as u32,
        ) == Some(value),
{
    let u = utf16::encoded(value);
    if u.contains(0) {
        let j = choose|j: int| 0 <= j < u.len() && u[j] == 0;
        lemma_nul(value, j);
    }
    lemma_until_nul(u, seq![]);
    let buf = u.push(0) + rest;
    assert(buf.take(u.len() as int + 1) =~= u + seq![0u16] + Seq::<u16>::empty());
    utf16::law_decode_encode(value);
}

/// What stands before the first NUL is the start of the units, up to a NUL or
/// the end, and holds none.
pub proof fn law_text_ends_at_the_first_nul(u: Seq<u16>)
    ensures
        until_nul(u).len() <= u.len(),
        forall|i: int|
            0 <= i < until_nul(u).len() ==> #[trigger] until_nul(u)[i] == u[i] && u[i] != 0,
        until_nul(u).len() < u.len() ==> u[until_nul(u).len() as int] == 0,
    decreases u.len(),
{
    if u.len() > 0 && u[0] != 0 {
        let t = u.skip(1);
        law_text_ends_at_the_first_nul(t);
        assert forall|i: int| 0 <= i < until_nul(u).len() implies #[trigger] until_nul(u)[i] == u[i]
            && u[i] != 0 by {
            if i > 0 {
                assert(until_nul(u)[i] == until_nul(t)[i - 1]);
                assert(t[i - 1] == u[i]);
            }
        }
    }
}

/// A query gives a text just where it succeeded and the value is of one of
/// the two types of text. The text is what the first `k` units of the buffer
/// stand for, where `k` is as far as no NUL comes, the value goes on (a unit is
/// two bytes), and the buffer reaches.
pub proof fn law_string_values(status: u32, typ: u32, buf: Seq<u16>, len: u32, k: int)
    requires
        0 <= k <= buf.len(),
        2 * k <= len,
        forall|i: int| 0 <= i < k ==> #[trigger] buf[i] != 0,
        k == buf.len() || 2 * (k + 1) > len || buf[k] == 0,
    ensures
        status == 0 && (typ == 1 || typ == 2) ==> string_value(status, typ, buf, len) == Some(
            utf16::decoded(buf.take(k)),
        ),
        status != 0 || (typ != 1 && typ != 2) ==> string_value(status, typ, buf, len) is None,
{
    let n = if len / 2 < buf.len() {
        (len / 2) as int
    } else {
        buf.len() as int
    };
    let u = buf.take(n);
    law_text_ends_at_the_first_nul(u);
    let t = until_nul(u);
    if t.len() < k {
        assert(u[t.len() as int] == buf[t.len() as int]);
    }
    if t.len() > k {
        assert(t[k] == u[k]);
        assert(u[k] == buf[k]);
    }
    assert(t =~= buf.take(k));
}

/// Two paths are the same just where they are as long, and every two
/// characters are the same, or are the capital and the small form of one of
/// the letters A to Z.
pub proof fn law_paths_differ_in_case_only(a: Seq<char>, b: Seq<char>)
    ensures
        same_path(a, b) <==> a.len() == b.len() && forall|i: int|
            0 <= i < a.len() ==> {
                let x = (#[trigger] a[i]) as int;
                let y = b[i] as int;
                ||| x == y
                ||| 0x41 <= x <= 0x5a && y == x + 0x20
                ||| 0x41 <= y <= 0x5a && x == y + 0x20
            },
{
    let s = text::lowered_ascii(a);
    let t = text::lowered_ascii(b);
    if same_path(a, b) {
        assert(s.len() == a.len() && t.len() == b.len());
        assert forall|i: int| 0 <= i < a.len() implies {
            let x = (#[trigger] a[i]) as int;
            let y = b[i] as int;
            ||| x == y
            ||| 0x41 <= x <= 0x5a && y == x + 0x20
            ||| 0x41 <= y <= 0x5a && x == y + 0x20
        } by {
            assert(s[i] == text::lower_ascii(a[i]));
            assert(t[i] == text::lower_ascii(b[i]));
        }
    }
    if a.len() == b.len() && forall|i: int|
        0 <= i < a.len() ==> {
            let x = (#[trigger] a[i]) as int;
            let y = b[i] as int;
            ||| x == y
            ||| 0x41 <= x <= 0x5a && y == x + 0x20
            ||| 0x41 <= y <= 0x5a && x == y + 0x20
        } {
        assert forall|i: int| 0 <= i < a.len() implies s[i] == t[i] by {
            let x = a[i];
        }
        assert(s =~= t);
    }
}

/// Without icon settings the matter is settled. Where no entry that can be
/// opened has the path of the program, it is not.
pub proof fn law_search_without_an_entry(entries: Seq<Entry>, exe: Seq<char>)
    requires
        forall|i: int|
            0 <= i < entries.len() ==> !((#[trigger] entries[i]).opens && entries[i].path is Some
                && same_path(entries[i].path->0, exe)),
    ensures
        outcome(None, exe) == (true, None::<int>),
        outcome(Some(entries), exe) == (false, None::<int>),
{
    lemma_first_of(entries, exe, 0);
}

/// The first entry that can be opened and has the path of the program settles
/// the matter, and is written to just where nothing has been decided.
pub proof fn law_search_with_an_entry(entries: Seq<Entry>, exe: Seq<char>, k: int)
    requires
        0 <= k < entries.len(),
        entries[k].opens,
        entries[k].path is Some,
        same_path(entries[k].path->0, exe),
        forall|i: int|
            0 <= i < k ==> !((#[trigger] entries[i]).opens && entries[i].path is Some && same_path(
                entries[i].path->0,
                exe,
            )),
    ensures
        entries[k].promoted is None ==> outcome(Some(entries), exe) == (true, Some(k)),
        entries[k].promoted is Some ==> outcome(Some(entries), exe) == (true, None::<int>),
{
    lemma_first_is(entries, exe, 0, k);
}

proof fn lemma_first_is(entries: Seq<Entry>, exe: Seq<char>, from: int, k: int)
    requires
        0 <= from <= k < entries.len(),
        belongs_to(entries[k], exe),
        forall|i: int| from <= i < k ==> !belongs_to(#[trigger] entries[i], exe),
    ensures
        first_of(entries, exe, from) == Some(k),
    decreases k - from,
{
    if from < k {
        lemma_first_is(entries, exe, from + 1, k);
    }
}

/// The number of a query that left `value` of type `typ`, if it ended well.
pub open spec fn dword_value(status: u32, typ: u32, value: u32) -> Option<u32> {
    if status == 0 && typ == REG_DWORD {
        Some(value)
    } else {
        None
    }
}

/// A query gives the number as it is, just where it succeeded and the value
/// is a number.
pub proof fn law_number_values(status: u32, typ: u32, value: u32)
    ensures
        dword_value(status, typ, value) is Some <==> status == 0 && typ == 4,
        dword_value(status, typ, value) matches Some(n) ==> n == value,
{
}

/// Says that a key could not be opened.
pub open spec fn open_error(sub: Seq<char>, code: nat) -> Seq<char> {
    "cannot open "@ + sub + " ("@ + text::decimal(code) + ")"@
}

/// Says that the autostart value could not be written.
pub open spec fn write_error(code: nat) -> Seq<char> {
    "cannot write Run value ("@ + text::decimal(code) + ")"@
}

/// Both reports hold the code as a number in brackets at their end.
pub proof fn law_errors_hold_the_code(sub: Seq<char>, code: nat)
    ensures
        ({
            let e = open_error(sub, code);
            let n = 12 + sub.len() as int + 2;
            &&& e.take(12) == "cannot open "@
            &&& e.subrange(12, n - 2) == sub
            &&& e.subrange(n - 2, n) == " ("@
            &&& text::digits(e.subrange(n, e.len() - 1))
            &&& text::number(e.subrange(n, e.len() - 1)) == code
            &&& e.last() == ')'
        }),
        ({
            let e = write_error(code);
            &&& e.take(24) == "cannot write Run value ("@
            &&& text::digits(e.subrange(24, e.len() - 1))
            &&& text::number(e.subrange(24, e.len() - 1)) == code
            &&& e.last() == ')'
        }),
{
    reveal_strlit("cannot open ");
    reveal_strlit(" (");
    reveal_strlit(")");
    reveal_strlit("cannot write Run value (");
    text::law_decimal_is_read_back(code);
    let d = text::decimal(code);
    let e = open_error(sub, code);
    let n = 12 + sub.len() as int + 2;
    assert(e.subrange(12, n - 2) =~= sub);
    assert(e.subrange(n, e.len() - 1) =~= d);
    let w = write_error(code);
    assert(w.take(24) =~= "cannot write Run value ("@);
    assert(w.subrange(24, w.len() - 1) =~= d);
}

/// Units before the first NUL.
fn before_nul(u: &[u16]) -> (r: &[u16])
    ensures
        r@ == until_nul(u@),
{
    let mut i: usize = 0;
    assert(u@.skip(0) =~= u@);
    assert(u@.take(0) + until_nul(u@) =~= until_nul(u@));
    while i < u.len() && u[i] != 0
        invariant
            i <= u@.len(),
            until_nul(u@) == u@.take(i as int) + until_nul(u@.skip(i as int)),
        decreases u@.len() - i,
    {
        proof {
            let left = u@.skip(i as int);
            assert(left.skip(1) =~= u@.skip(i + 1));
            assert(u@.take(i as int) + (seq![left[0]] + until_nul(left.skip(1))) =~= u@.take(
                i + 1,
            ) + until_nul(u@.skip(i + 1)));
        }
        i = i + 1;
    }
    assert(until_nul(u@.skip(i as int)) =~= seq![]);
    assert(u@.take(i as int) =~= until_nul(u@));
    &u[0..i]
}

/// The text of a `REG_SZ` / `REG_EXPAND_SZ` value (unexpanded), where a query
/// ended with `status` and left `len` bytes of type `typ` in `buf`. `None` if
/// absent or of another type.
pub fn read_string(status: u32, typ: u32, buf: &[u16], len: u32) -> (r: Option<String>)
    ensures
        match r {
            Some(s) => string_value(status, typ, buf@, len) == Some(s@),
            None => string_value(status, typ, buf@, len) is None,
        },
{
    if status != 0 || (typ != REG_SZ && typ != REG_EXPAND_SZ) {
        return None;
    }
    let size: usize = buf.len();
    let half: usize = len as usize / 2;
    let n: usize = if half < size {
        half
    } else {
        size
    };
    Some(utf16::from_utf16_lossy(before_nul(&buf[0..n])))
}

/// The number of a `REG_DWORD` value, where a query ended with `status` and
/// left `value` of type `typ`. `None` if absent or of another type.
pub fn read_dword(status: u32, typ: u32, value: u32) -> (r: Option<u32>)
    ensures
        r == dword_value(status, typ, value),
{
    if status == 0 && typ == REG_DWORD {
        Some(value)
    } else {
        None
    }
}

/// Name of a subkey, where the enumeration ended with `status` and left `n`
/// units in `name`. `None` past the end.
pub fn subkey_name(status: u32, name: &[u16], n: u32) -> (r: Option<String>)
    requires
        status == 0 ==> n <= name@.len(),
    ensures
        match r {
            Some(s) => status == 0 && s@ == utf16::decoded(name@.take(n as int)),
            None => status != 0,
        },
{
    if status == 0 {
        Some(utf16::from_utf16_lossy(&name[0..n as usize]))
    } else {
        None
    }
}

/// Says that the key `sub` could not be opened, for the reason `code`.
pub fn cannot_open(sub: &str, code: u32) -> (r: String)
    ensures
        r@ == open_error(sub@, code as nat),
{
    let mut r = "cannot open ".to_string();
    text::push_str(&mut r, sub);
    text::push_str(&mut r, " (");
    text::push_decimal(&mut r, code as u64);
    text::push_str(&mut r, ")");
    r
}

/// Says that the autostart value could not be written, for the reason `code`.
pub fn cannot_write_run_value(code: u32) -> (r: String)
    ensures
        r@ == write_error(code as nat),
{
    let mut r = "cannot write Run value (".to_string();
    text::push_decimal(&mut r, code as u64);
    text::push_str(&mut r, ")");
    r
}

/// Path of the icon settings below `HKCU`.
pub fn icon_settings() -> (r: &'static str)
    ensures
        r@ == "Control Panel\\NotifyIconSettings"@,
{
    "Control Panel\\NotifyIconSettings"
}

/// Path of the subkey `name` of the icon settings.
pub fn icon_entry(name: &str) -> (r: String)
    ensures
        r@ == "Control Panel\\NotifyIconSettings"@ + "\\"@ + name@,
{
    let mut r = icon_settings().to_string();
    text::push_str(&mut r, "\\");
    text::push_str(&mut r, name);
    r
}

/// Whether two paths are the same but for the case of ASCII letters.
fn eq_ignore_ascii_case(a: &str, b: &str) -> (r: bool)
    ensures
        r == same_path(a@, b@),
{
    let x = text::chars_of(a);
    let y = text::chars_of(b);
    let lower_x = text::to_ascii_lowercase(x.as_slice());
    let lower_y = text::to_ascii_lowercase(y.as_slice());
    let other = text::string_of(lower_y.as_slice());
    text::eq_str(lower_x.as_slice(), other.as_str())
}

/// A search for the entry of the tray icon. Its owner does what
/// [`stage`](Self::stage) asks for and hands the result to the method for
/// that stage, until it is done.
#[derive(Debug)]
pub struct Promotion {
    /// Path of the program that the icon belongs to.
    pub exe: String,
    /// How many subkeys have been named.
    pub index: u32,
    /// What to do next.
    pub stage: Stage,
}

/// [`Promotion`] with the views of its parts.
pub struct PromotionView {
    pub exe: Seq<char>,
    pub progress: Progress,
}

impl View for Promotion {
    type V = PromotionView;

    open spec fn view(&self) -> PromotionView {
        PromotionView {
            exe: self.exe@,
            progress: Progress { index: self.index as int, stage: self.stage },
        }
    }
}

impl Promotion {
    /// A search for the icon of the program `exe`.
    pub fn new(exe: &str) -> (p: Promotion)
        ensures
            p@ == (PromotionView {
                exe: exe@,
                progress: Progress { index: 0, stage: Stage::Root },
            }),
    {
        Promotion { exe: exe.to_string(), index: 0, stage: Stage::Root }
    }

    /// The icon settings could be opened, or this version of Windows has
    /// none.
    pub fn root_opened(&mut self, opened: bool)
        requires
            old(self).stage == Stage::Root,
        ensures
            final(self)@ == (PromotionView {
                progress: after_root(old(self)@.progress, opened),
                ..old(self)@
            }),
    {
        self.stage = if opened {
            Stage::Name
        } else {
            Stage::Done(true)
        };
    }

    /// There is a subkey [`index`](Self::index), or there is none any more.
    pub fn named(&mut self, exists_one: bool)
        requires
            old(self).stage == Stage::Name,
            exists_one ==> old(self).index < u32::MAX,
        ensures
            final(self)@ == (PromotionView {
                progress: after_name(old(self)@.progress, exists_one),
                ..old(self)@
            }),
    {
        if exists_one {
            self.index = self.index + 1;
            self.stage = Stage::Key;
        } else {
            self.stage = Stage::Done(false);
        }
    }

    /// The subkey could be opened, or it could not.
    pub fn key_opened(&mut self, opened: bool)
        requires
            old(self).stage == Stage::Key,
        ensures
            final(self)@ == (PromotionView {
                progress: after_key(old(self)@.progress, opened),
                ..old(self)@
            }),
    {
        self.stage = if opened {
            Stage::Path
        } else {
            Stage::Name
        };
    }

    /// The `ExecutablePath` of the subkey, if it has one.
    pub fn path_read(&mut self, path: Option<&str>)
        requires
            old(self).stage == Stage::Path,
        ensures
            final(self)@ == (PromotionView {
                progress: after_path(
                    old(self)@.progress,
                    match path {
                        Some(p) => Some(p@),
                        None => None,
                    },
                    old(self)@.exe,
                ),
                ..old(self)@
            }),
    {
        let same: bool = match path {
            Some(p) => eq_ignore_ascii_case(p, self.exe.as_str()),
            None => false,
        };
        self.stage = if same {
            Stage::Flag
        } else {
            Stage::Name
        };
    }

    /// The `IsPromoted` of the subkey, if it has one.
    pub fn flag_read(&mut self, promoted: Option<u32>)
        requires
            old(self).stage == Stage::Flag,
        ensures
            final(self)@ == (PromotionView {
                progress: after_flag(old(self)@.progress, promoted),
                ..old(self)@
            }),
    {
        self.stage = if promoted.is_none() {
            Stage::Write
        } else {
            Stage::Done(true)
        };
    }

    /// The `IsPromoted` of the subkey has been set.
    pub fn flag_written(&mut self)
        requires
            old(self).stage == Stage::Write,
        ensures
            final(self)@ == (PromotionView {
                progress: after_write(old(self)@.progress),
                ..old(self)@
            }),
    {
        self.stage = Stage::Done(true);
    }
}

} // verus!
