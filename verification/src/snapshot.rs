//! Walking a snapshot of the process list, as
//! `NtQuerySystemInformation(SystemSessionProcessInformation)` fills it in.
//!
//! A snapshot is a chain of `SYSTEM_PROCESS_INFORMATION` entries (x64
//! layout). Each says how far behind it the next one starts; each is followed
//! by its thread array and the image-name string, to which it points by
//! address.

use vstd::prelude::*;

use crate::bytes;
use crate::lowercase;
use crate::utf16;

verus! {

/// Size of the fixed part of an entry.
pub const ENTRY_SIZE: usize = 152;

/// Offsets of the fields in an entry.
pub const NEXT_ENTRY_OFFSET: usize = 0;

pub const USER_TIME: usize = 40;

pub const KERNEL_TIME: usize = 48;

pub const IMAGE_NAME_LENGTH: usize = 56;

pub const IMAGE_NAME: usize = 64;

pub const UNIQUE_PROCESS_ID: usize = 80;

pub const WORKING_SET_SIZE: usize = 144;

/// CPU time of a process since it started, in 100 ns units.
#[derive(Clone, Copy, Debug, PartialEq, Eq, Structural)]
pub struct CpuTime {
    pub user: i64,
    pub kernel: i64,
}

impl CpuTime {
    /// Kernel and user time together.
    pub open spec fn total(&self) -> int {
        self.user + self.kernel
    }
}

/// What a snapshot says about the process that was looked for.
#[derive(Clone, Copy, Debug, PartialEq, Eq, Structural)]
pub struct Found {
    /// Process id.
    pub pid: u64,
    /// CPU time so far.
    pub cpu: CpuTime,
    /// Working set in bytes.
    pub mem: u64,
}

/// One entry of a snapshot.
#[derive(Debug)]
pub struct Process {
    /// The image name in UTF-16; `None` where the entry has none, or one that
    /// does not lie in the snapshot.
    pub name: Option<Vec<u16>>,
    /// The measurements.
    pub found: Found,
}

/// The values of a [`Process`].
pub struct ProcessView {
    pub name: Option<Seq<u16>>,
    pub found: Found,
}

impl View for Process {
    type V = ProcessView;

    open spec fn view(&self) -> ProcessView {
        ProcessView {
            name: match self.name {
                Some(u) => Some(u@),
                None => None,
            },
            found: self.found,
        }
    }
}

/// The integer in the field of `n` bytes at `offset` of the entry at `at`.
pub open spec fn field(buf: Seq<u8>, at: int, offset: usize, n: nat) -> nat {
    bytes::le(buf, at + offset, n)
}

/// The image name of the entry at `at`, in a snapshot at the address `base`.
pub open spec fn image_name(buf: Seq<u8>, base: u64, at: int) -> Option<Seq<u16>> {
    let address = field(buf, at, IMAGE_NAME, 8);
    let length = field(buf, at, IMAGE_NAME_LENGTH, 2);
    let start = address - base;
    if address == 0 || length == 0 || start < 0 || start + length / 2 * 2 > buf.len() {
        None
    } else {
        Some(units_at(buf, start, length / 2))
    }
}

/// The `n` UTF-16 units from `start` on.
pub open spec fn units_at(buf: Seq<u8>, start: int, n: nat) -> Seq<u16> {
    Seq::new(n, |i: int| bytes::le(buf, start + 2 * i, 2) as u16)
}

/// The entry at `at`.
pub open spec fn entry(buf: Seq<u8>, base: u64, at: int) -> ProcessView {
    ProcessView {
        name: image_name(buf, base, at),
        found: Found {
            pid: field(buf, at, UNIQUE_PROCESS_ID, 8) as u64,
            cpu: CpuTime {
                user: bytes::signed(field(buf, at, USER_TIME, 8) as u64) as i64,
                kernel: bytes::signed(field(buf, at, KERNEL_TIME, 8) as u64) as i64,
            },
            mem: field(buf, at, WORKING_SET_SIZE, 8) as u64,
        },
    }
}

/// The entries from `at` on. The chain ends at an entry that says that none
/// follows it, and before one that does not lie in the snapshot as a whole.
pub open spec fn chain(buf: Seq<u8>, base: u64, at: int) -> Seq<ProcessView>
    decreases buf.len() - at,
{
    if at < 0 || at + ENTRY_SIZE > buf.len() {
        seq![]
    } else {
        let next = field(buf, at, NEXT_ENTRY_OFFSET, 4);
        if next == 0 || at + next > buf.len() {
            seq![entry(buf, base, at)]
        } else {
            seq![entry(buf, base, at)] + chain(buf, base, at + next)
        }
    }
}

/// Whether the image name of `p` is `lower` in some case.
pub open spec fn named(p: ProcessView, lower: Seq<char>) -> bool {
    match p.name {
        Some(u) => lowercase::lowercase(utf16::decoded(u)) == lower,
        None => false,
    }
}

/// For each process whether its image name is `lower` in some case.
pub open spec fn marks_of(ps: Seq<ProcessView>, lower: Seq<char>) -> Seq<bool> {
    ps.map_values(|p: ProcessView| named(p, lower))
}

/// The first process that is marked.
pub open spec fn first_marked(ps: Seq<ProcessView>, marks: Seq<bool>) -> Option<Found>
    decreases ps.len(),
{
    if ps.len() == 0 || marks.len() == 0 {
        None
    } else if marks[0] {
        Some(ps[0].found)
    } else {
        first_marked(ps.drop_first(), marks.drop_first())
    }
}

/// The values of the processes in `ps`.
pub open spec fn views(ps: Seq<Process>) -> Seq<ProcessView> {
    ps.map_values(|p: Process| p@)
}

/// The measurements of the first process called `lower` in some case.
pub open spec fn found_in(buf: Seq<u8>, base: u64, lower: Seq<char>) -> Option<Found> {
    let ps = chain(buf, base, 0);
    first_marked(ps, marks_of(ps, lower))
}

proof fn lemma_first_marked(ps: Seq<ProcessView>, marks: Seq<bool>)
    requires
        ps.len() == marks.len(),
    ensures
        match first_marked(ps, marks) {
            Some(f) => exists|k: int|
                #![trigger marks[k]]
                0 <= k < ps.len() && marks[k] && ps[k].found == f && forall|j: int|
                    0 <= j < k ==> !marks[j],
            None => forall|j: int| 0 <= j < ps.len() ==> !marks[j],
        },
    decreases ps.len(),
{
    if ps.len() > 0 && !marks[0] {
        let qs = ps.drop_first();
        let rest = marks.drop_first();
        lemma_first_marked(qs, rest);
        match first_marked(qs, rest) {
            Some(f) => {
                let k = choose|k: int|
                    #![trigger rest[k]]
                    0 <= k < qs.len() && rest[k] && qs[k].found == f && forall|j: int|
                        0 <= j < k ==> !rest[j];
                assert forall|j: int| 0 <= j < k + 1 implies !marks[j] by {
                    if j > 0 {
                        assert(marks[j] == rest[j - 1]);
                    }
                }
                assert(marks[k + 1] && ps[k + 1].found == f);
            },
            None => {
                assert forall|j: int| 0 <= j < ps.len() implies !marks[j] by {
                    if j > 0 {
                        assert(marks[j] == rest[j - 1]);
                    }
                }
            },
        }
    }
}

/// What is found is the first process in the list with that name, and
/// nothing is found only where none has it.
pub proof fn law_first_of_that_name(buf: Seq<u8>, base: u64, lower: Seq<char>)
    ensures
        ({
            let ps = chain(buf, base, 0);
            match found_in(buf, base, lower) {
                Some(f) => exists|k: int|
                    #![trigger ps[k]]
                    0 <= k < ps.len() && named(ps[k], lower) && ps[k].found == f && forall|j: int|
                        #![trigger ps[j]]
                        0 <= j < k ==> !named(ps[j], lower),
                None => forall|j: int|
                    #![trigger ps[j]]
                    0 <= j < ps.len() ==> !named(ps[j], lower),
            }
        }),
{
    let ps = chain(buf, base, 0);
    let marks = marks_of(ps, lower);
    lemma_first_marked(ps, marks);
    match found_in(buf, base, lower) {
        Some(f) => {
            let k = choose|k: int|
                #![trigger marks[k]]
                0 <= k < ps.len() && marks[k] && ps[k].found == f && forall|j: int|
                    0 <= j < k ==> !marks[j];
            assert(named(ps[k], lower));
            assert forall|j: int| 0 <= j < k implies !named(#[trigger] ps[j], lower) by {
                assert(!marks[j]);
            }
        },
        None => {
            assert forall|j: int| 0 <= j < ps.len() implies !named(#[trigger] ps[j], lower) by {
                assert(!marks[j]);
            }
        },
    }
}

/// Where the fields of an entry lie, each with its lowest byte first: the
/// process id at 80, the user time at 40, the kernel time at 48, the working
/// set at 144.
pub proof fn law_fields_of_an_entry(buf: Seq<u8>, base: u64, at: int)
    ensures
        ({
            let found = entry(buf, base, at).found;
            &&& found.pid == bytes::le(buf, at + 80, 8)
            &&& found.mem == bytes::le(buf, at + 144, 8)
            &&& found.cpu.user == bytes::signed(bytes::le(buf, at + 40, 8) as u64)
            &&& found.cpu.kernel == bytes::signed(bytes::le(buf, at + 48, 8) as u64)
        }),
{
    lemma_eight_bytes(buf, at + 80);
    lemma_eight_bytes(buf, at + 144);
    lemma_eight_bytes(buf, at + 40);
    lemma_eight_bytes(buf, at + 48);
}

/// Eight bytes hold a number of 64 bits.
proof fn lemma_eight_bytes(buf: Seq<u8>, at: int)
    ensures
        bytes::le(buf, at, 8) <= u64::MAX,
{
    bytes::law_lowest_byte_comes_first(buf, at);
    lemma_byte(buf[at]);
    lemma_byte(buf[at + 1]);
    lemma_byte(buf[at + 2]);
    lemma_byte(buf[at + 3]);
    lemma_byte(buf[at + 4]);
    lemma_byte(buf[at + 5]);
    lemma_byte(buf[at + 6]);
    lemma_byte(buf[at + 7]);
}

proof fn lemma_byte(b: u8)
    ensures
        0 <= b <= 255,
{
}

/// The name of an entry: it lies where the address at 64 says, and takes as
/// many bytes as the two bytes at 56 say, two for each unit. One that is not
/// there, or does not lie in the snapshot as a whole, is none.
pub proof fn law_name_of_an_entry(buf: Seq<u8>, base: u64, at: int)
    ensures
        ({
            let address = bytes::le(buf, at + 64, 8) as int;
            let length = bytes::le(buf, at + 56, 2) as int;
            let name = entry(buf, base, at).name;
            &&& address == 0 || length == 0 ==> name is None
            &&& address < base || address - base + length / 2 * 2 > buf.len() ==> name is None
            &&& address != 0 && length != 0 && base <= address && address - base + length / 2 * 2
                <= buf.len() ==> name is Some && name->0.len() == length / 2 && forall|i: int|
                0 <= i < length / 2 ==> #[trigger] name->0[i] == buf[address - base + 2 * i] + 0x100
                    * buf[address - base + 2 * i + 1]
        }),
{
    let address = bytes::le(buf, at + 64, 8) as int;
    let length = bytes::le(buf, at + 56, 2) as int;
    bytes::law_lowest_byte_comes_first(buf, at + 56);
    if address != 0 && length != 0 && base <= address && address - base + length / 2 * 2
        <= buf.len() {
        let start = address - base;
        let u = units_at(buf, start, (length / 2) as nat);
        assert(entry(buf, base, at).name == Some(u));
        assert forall|i: int| 0 <= i < length / 2 implies #[trigger] u[i] == buf[start + 2 * i]
            + 0x100 * buf[start + 2 * i + 1] by {
            bytes::law_lowest_byte_comes_first(buf, start + 2 * i);
            lemma_byte(buf[start + 2 * i]);
            lemma_byte(buf[start + 2 * i + 1]);
        }
    }
}

/// Whether the entries of a snapshot lie at `offsets`: the first at the
/// start, each next one as far behind the one before as that one says in its
/// first four bytes, and all of them, 152 bytes each, in the snapshot.
pub open spec fn linked(buf: Seq<u8>, offsets: Seq<int>) -> bool {
    &&& offsets.len() > 0 ==> offsets[0] == 0
    &&& forall|i: int|
        0 <= i < offsets.len() ==> 0 <= #[trigger] offsets[i] && offsets[i] + 152 <= buf.len()
    &&& forall|i: int|
        0 <= i < offsets.len() - 1 ==> bytes::le(buf, #[trigger] offsets[i], 4) > 0 && offsets[i
            + 1] == offsets[i] + bytes::le(buf, offsets[i], 4)
}

/// The walk from the entry at `offsets[k]` on.
proof fn lemma_linked(buf: Seq<u8>, base: u64, offsets: Seq<int>, k: int, i: int)
    requires
        linked(buf, offsets),
        0 <= k <= i < offsets.len(),
    ensures
        chain(buf, base, offsets[k]).len() > i - k,
        chain(buf, base, offsets[k])[i - k] == entry(buf, base, offsets[i]),
    decreases i - k,
{
    let here = offsets[k];
    if k < i {
        assert(offsets[k + 1] == here + bytes::le(buf, here, 4));
        assert(here + field(buf, here, NEXT_ENTRY_OFFSET, 4) == offsets[k + 1]);
        lemma_linked(buf, base, offsets, k + 1, i);
        let rest = chain(buf, base, offsets[k + 1]);
        assert(chain(buf, base, here) == seq![entry(buf, base, here)] + rest);
        assert((seq![entry(buf, base, here)] + rest)[i - k] == rest[i - k - 1]);
    }
}

/// The walk reaches every entry of a snapshot, however many there are and
/// wherever they lie, and lists them in their order.
pub proof fn law_walk_reaches_every_entry(buf: Seq<u8>, base: u64, offsets: Seq<int>)
    requires
        linked(buf, offsets),
    ensures
        chain(buf, base, 0).len() >= offsets.len(),
        forall|i: int|
            0 <= i < offsets.len() ==> chain(buf, base, 0)[i] == entry(
                buf,
                base,
                #[trigger] offsets[i],
            ),
{
    if offsets.len() > 0 {
        lemma_linked(buf, base, offsets, 0, offsets.len() - 1);
        assert forall|i: int| 0 <= i < offsets.len() implies chain(buf, base, 0)[i] == entry(
            buf,
            base,
            #[trigger] offsets[i],
        ) by {
            lemma_linked(buf, base, offsets, 0, i);
        }
    }
}

/// The walk ends at an entry that says that none follows it, and at one behind
/// which none lies in the snapshot as a whole, and lists nothing else.
pub proof fn law_walk_ends_at_the_last_entry(buf: Seq<u8>, base: u64, offsets: Seq<int>)
    requires
        linked(buf, offsets),
        offsets.len() > 0,
        bytes::le(buf, offsets.last(), 4) == 0 || offsets.last() + bytes::le(
            buf,
            offsets.last(),
            4,
        ) + 152 > buf.len(),
    ensures
        chain(buf, base, 0).len() == offsets.len(),
{
    lemma_ends(buf, base, offsets, 0);
}

/// Where there is no room for an entry, there is none.
pub proof fn law_short_snapshot_is_empty(buf: Seq<u8>, base: u64, lower: Seq<char>)
    requires
        buf.len() < 152,
    ensures
        chain(buf, base, 0).len() == 0,
        found_in(buf, base, lower) is None,
{
}

proof fn lemma_ends(buf: Seq<u8>, base: u64, offsets: Seq<int>, k: int)
    requires
        linked(buf, offsets),
        0 <= k < offsets.len(),
        bytes::le(buf, offsets.last(), 4) == 0 || offsets.last() + bytes::le(
            buf,
            offsets.last(),
            4,
        ) + 152 > buf.len(),
    ensures
        chain(buf, base, offsets[k]).len() == offsets.len() - k,
    decreases offsets.len() - k,
{
    let here = offsets[k];
    if k < offsets.len() - 1 {
        assert(offsets[k + 1] == here + bytes::le(buf, here, 4));
        assert(here + field(buf, here, NEXT_ENTRY_OFFSET, 4) == offsets[k + 1]);
        lemma_ends(buf, base, offsets, k + 1);
    } else {
        let next = field(buf, here, NEXT_ENTRY_OFFSET, 4);
        assert(next == bytes::le(buf, here, 4));
        assert(next == 0 || chain(buf, base, here + next).len() == 0);
    }
}

/// A process is found wherever its entry lies: of the entries at `offsets`,
/// the first with a name that is `lower` in lower case gives the answer.
pub proof fn law_process_is_found_anywhere(
    buf: Seq<u8>,
    base: u64,
    offsets: Seq<int>,
    k: int,
    lower: Seq<char>,
)
    requires
        linked(buf, offsets),
        0 <= k < offsets.len(),
        entry(buf, base, offsets[k]).name matches Some(u) && lowercase::lowercase(
            utf16::decoded(u),
        ) == lower,
        forall|j: int|
            0 <= j < k ==> (entry(buf, base, #[trigger] offsets[j]).name matches Some(u)
                ==> lowercase::lowercase(utf16::decoded(u)) != lower),
    ensures
        found_in(buf, base, lower) == Some(entry(buf, base, offsets[k]).found),
{
    law_walk_reaches_every_entry(buf, base, offsets);
    law_first_of_that_name(buf, base, lower);
    let ps = chain(buf, base, 0);
    assert(named(ps[k], lower)) by {
        assert(ps[k] == entry(buf, base, offsets[k]));
    }
    let f = found_in(buf, base, lower)->0;
    let m = choose|m: int|
        #![trigger ps[m]]
        0 <= m < ps.len() && named(ps[m], lower) && ps[m].found == f && forall|j: int|
            #![trigger ps[j]]
            0 <= j < m ==> !named(ps[j], lower);
    if m < k {
        assert(ps[m] == entry(buf, base, offsets[m]));
    }
}

/// A process whose name is in none of the entries is not found.
pub proof fn law_missing_process_is_not_found(
    buf: Seq<u8>,
    base: u64,
    offsets: Seq<int>,
    lower: Seq<char>,
)
    requires
        linked(buf, offsets),
        offsets.len() > 0,
        bytes::le(buf, offsets.last(), 4) == 0 || offsets.last() + bytes::le(
            buf,
            offsets.last(),
            4,
        ) + 152 > buf.len(),
        forall|j: int|
            0 <= j < offsets.len() ==> (entry(buf, base, #[trigger] offsets[j]).name matches Some(u)
                ==> lowercase::lowercase(utf16::decoded(u)) != lower),
    ensures
        found_in(buf, base, lower) is None,
{
    law_walk_reaches_every_entry(buf, base, offsets);
    law_walk_ends_at_the_last_entry(buf, base, offsets);
    law_first_of_that_name(buf, base, lower);
    let ps = chain(buf, base, 0);
    assert forall|j: int| 0 <= j < ps.len() implies !named(#[trigger] ps[j], lower) by {
        assert(ps[j] == entry(buf, base, offsets[j]));
    }
}

/// Reads the `n` UTF-16 units from `start` on.
fn read_units(buf: &[u8], start: usize, n: usize) -> (u: Vec<u16>)
    requires
        start + 2 * n <= buf@.len(),
    ensures
        u@ == units_at(buf@, start as int, n as nat),
{
    let size: usize = buf.len();
    let mut u: Vec<u16> = Vec::new();
    while u.len() < n
        invariant
            size == buf@.len(),
            u@.len() <= n,
            start + 2 * n <= size,
            u@ == units_at(buf@, start as int, u@.len()),
        decreases n - u@.len(),
    {
        let i: usize = u.len();
        u.push(bytes::read_u16(buf, start + 2 * i).unwrap());
    }
    u
}

/// Reads the 8-byte field at `offset` of the entry at `at`.
fn read_field(buf: &[u8], at: usize, offset: usize) -> (v: u64)
    requires
        at + ENTRY_SIZE <= buf@.len(),
        offset + 8 <= ENTRY_SIZE,
    ensures
        v == field(buf@, at as int, offset, 8),
{
    let size: usize = buf.len();
    bytes::read_u64(buf, at + offset).unwrap()
}

/// Reads the image name of the entry at `at`.
fn read_name(buf: &[u8], base: u64, at: usize) -> (name: Option<Vec<u16>>)
    requires
        at + ENTRY_SIZE <= buf@.len(),
    ensures
        match name {
            Some(u) => image_name(buf@, base, at as int) == Some(u@),
            None => image_name(buf@, base, at as int) is None,
        },
{
    let size: usize = buf.len();
    let address: u64 = read_field(buf, at, IMAGE_NAME);
    let length: u16 = bytes::read_u16(buf, at + IMAGE_NAME_LENGTH).unwrap();
    if address == 0 || length == 0 || address < base {
        return None;
    }
    let start: u64 = address - base;
    let n: usize = (length / 2) as usize;
    if start > size as u64 || size - (start as usize) < 2 * n {
        return None;
    }
    Some(read_units(buf, start as usize, n))
}

/// Reads the entry at `at`.
pub fn read_entry(buf: &[u8], base: u64, at: usize) -> (p: Process)
    requires
        at + ENTRY_SIZE <= buf@.len(),
    ensures
        p@ == entry(buf@, base, at as int),
{
    let name = read_name(buf, base, at);
    let user: i64 = bytes::to_signed(read_field(buf, at, USER_TIME));
    let kernel: i64 = bytes::to_signed(read_field(buf, at, KERNEL_TIME));
    Process {
        name,
        found: Found {
            pid: read_field(buf, at, UNIQUE_PROCESS_ID),
            cpu: CpuTime { user, kernel },
            mem: read_field(buf, at, WORKING_SET_SIZE),
        },
    }
}

/// The entries of a snapshot that lies at the address `base`.
pub fn walk(buf: &[u8], base: u64) -> (ps: Vec<Process>)
    ensures
        views(ps@) == chain(buf@, base, 0),
{
    let size: usize = buf.len();
    let mut ps: Vec<Process> = Vec::new();
    let mut at: usize = 0;
    let mut more: bool = true;
    while more && size >= ENTRY_SIZE && at <= size - ENTRY_SIZE
        invariant
            size == buf@.len(),
            at <= size,
            views(ps@) + (if more {
                chain(buf@, base, at as int)
            } else {
                seq![]
            }) == chain(buf@, base, 0),
        decreases more as int, size - at,
    {
        let ghost before = views(ps@);
        let p = read_entry(buf, base, at);
        let ghost head = p@;
        ps.push(p);
        assert(views(ps@) =~= before.push(head));
        let next: u32 = bytes::read_u32(buf, at + NEXT_ENTRY_OFFSET).unwrap();
        if next == 0 || next as u64 > (size - at) as u64 {
            more = false;
            assert(before + seq![head] =~= views(ps@) + Seq::<ProcessView>::empty());
        } else {
            proof {
                let rest = chain(buf@, base, at + next);
                assert(before + (seq![head] + rest) =~= views(ps@) + rest);
            }
            at = at + next as usize;
        }
    }
    assert(views(ps@) + Seq::<ProcessView>::empty() =~= views(ps@));
    ps
}

/// The measurements of the first process that is marked.
pub fn pick(ps: &Vec<Process>, marks: &Vec<bool>) -> (r: Option<Found>)
    ensures
        r == first_marked(views(ps@), marks@),
{
    let mut i: usize = 0;
    assert(views(ps@).skip(0) =~= views(ps@));
    assert(marks@.skip(0) =~= marks@);
    while i < ps.len() && i < marks.len()
        invariant
            i <= ps@.len(),
            i <= marks@.len(),
            first_marked(views(ps@).skip(i as int), marks@.skip(i as int)) == first_marked(
                views(ps@),
                marks@,
            ),
        decreases ps@.len() - i,
    {
        if marks[i] {
            return Some(ps[i].found);
        }
        assert(views(ps@).skip(i as int).drop_first() =~= views(ps@).skip(i + 1));
        assert(marks@.skip(i as int).drop_first() =~= marks@.skip(i + 1));
        i = i + 1;
    }
    None
}

/// Walks the entries of a snapshot that lies at the address `base` and
/// returns the measurements of the first process whose image name, in lower
/// case, is `proc_name`.
pub fn find_process(buf: &[u8], base: u64, proc_name: &str) -> (r: Option<Found>)
    ensures
        r == found_in(buf@, base, proc_name@),
{
    let ps = walk(buf, base);
    let mut marks: Vec<bool> = Vec::new();
    while marks.len() < ps.len()
        invariant
            marks@.len() <= ps@.len(),
            marks@ == marks_of(views(ps@).take(marks@.len() as int), proc_name@),
        decreases ps@.len() - marks@.len(),
    {
        let i: usize = marks.len();
        let mark = match &ps[i].name {
            Some(name) => lowercase::eq_lowercase_utf16(name.as_slice(), proc_name),
            None => false,
        };
        marks.push(mark);
        assert(views(ps@).take(i + 1) =~= views(ps@).take(i as int).push(ps@[i as int]@));
    }
    assert(views(ps@).take(marks@.len() as int) =~= views(ps@));
    pick(&ps, &marks)
}

} // verus!
