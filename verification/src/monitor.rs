//! Measures the WSL2 utility VM from one snapshot of the process list to the
//! next.
//!
//! WSL2 runs all distributions inside one lightweight VM whose memory and CPU
//! time Windows accounts to a placeholder process, `vmmemWSL` (`vmmem` on
//! Windows 10). Its existence is the "is WSL2 on" signal.
//!
//! * CPU: the increase of the process's kernel+user time between two samples,
//!   divided by the wall-clock time between them and by the number of logical
//!   cores, in percent. It is not known until a second sample exists.
//! * Memory: the process working set, also as a percentage of physical RAM.

use vstd::prelude::*;

use crate::double;
use crate::double::Double;
use crate::lowercase;
use crate::natural;
use crate::snapshot;
use crate::snapshot::CpuTime;
use crate::snapshot::Found;

verus! {

/// Shortest time between two samples that gives a CPU figure, in nanoseconds.
pub const MIN_WINDOW: u128 = 1_000_000_000;

/// Size of the first snapshot buffer.
pub const FIRST_SNAPSHOT_SIZE: usize = 262_144;

/// Slack added to the size the last snapshot needed, for processes started
/// since; a snapshot that still does not fit is retried with the new size.
pub const SNAPSHOT_SLACK: usize = 65_536;

/// `NTSTATUS` of a query whose buffer was too small.
pub const STATUS_INFO_LENGTH_MISMATCH: i32 = -0x3fff_fffc;

/// One observation of the VM, as shown to the user.
#[derive(Debug)]
pub struct Status {
    /// The VM process exists.
    pub running: bool,
    /// Process id of the VM (0 when not running). A changed pid means the VM
    /// was restarted, which resets the CPU baseline.
    pub pid: u64,
    /// Percent of all logical cores of the host; `None` = not measured yet.
    pub cpu: Option<Double>,
    /// Working set of the VM process, bytes.
    pub mem: u64,
    /// `mem` as a percentage of the physical RAM of the host.
    pub mem_pct: Double,
}

/// A [`Status`] with its percentages in ticks.
pub struct StatusView {
    pub running: bool,
    pub pid: u64,
    pub cpu: Option<nat>,
    pub mem: u64,
    pub mem_pct: nat,
}

impl View for Status {
    type V = StatusView;

    open spec fn view(&self) -> StatusView {
        StatusView {
            running: self.running,
            pid: self.pid,
            cpu: match self.cpu {
                Some(c) => Some(c@),
                None => None,
            },
            mem: self.mem,
            mem_pct: self.mem_pct@,
        }
    }
}

/// The status of a VM that does not run.
pub open spec fn stopped() -> StatusView {
    StatusView { running: false, pid: 0, cpu: None, mem: 0, mem_pct: 0 }
}

/// The size of the host.
#[derive(Clone, Copy, Debug, PartialEq, Eq, Structural)]
pub struct Host {
    /// Logical cores, the denominator of the CPU percentage.
    pub ncpu: u32,
    /// Physical RAM in bytes, the denominator of the memory percentage; 0 if
    /// it could not be read.
    pub total_mem: u64,
}

/// What is remembered from one poll to the next.
pub struct Sample {
    /// Last published status.
    pub cur: StatusView,
    /// When `last_cpu` was read, in nanoseconds.
    pub last_t: u128,
    /// CPU time of the VM at `last_t`: the CPU baseline.
    pub last_cpu: CpuTime,
    /// Pid the baseline belongs to; a different pid invalidates it.
    pub last_pid: u64,
}

/// The host with `cores` logical cores, taken as one if that is unknown, and
/// `total_mem` bytes of RAM.
pub open spec fn host_of(cores: u32, total_mem: u64) -> Host {
    Host {
        ncpu: if cores >= 1 {
            cores
        } else {
            1
        },
        total_mem,
    }
}

/// The size of the host is taken as it is reported, and there is always a
/// core.
pub proof fn law_host_is_as_reported(cores: u32, total_mem: u64)
    ensures
        host_of(cores, total_mem).total_mem == total_mem,
        host_of(cores, total_mem).ncpu >= 1,
        cores != 0 ==> host_of(cores, total_mem).ncpu == cores,
{
}

/// Time from `then` to `now`, zero where `now` is the earlier one.
pub open spec fn elapsed(then: u128, now: u128) -> nat {
    if now >= then {
        (now - then) as nat
    } else {
        0
    }
}

/// CPU time used from one reading to the next, zero where the second is the
/// smaller one.
pub open spec fn used(before: CpuTime, after: CpuTime) -> nat {
    if after.total() >= before.total() {
        (after.total() - before.total()) as nat
    } else {
        0
    }
}

/// `busy` 100 ns units of CPU time as a percentage of what `ncpu` cores have
/// in `window` nanoseconds.
pub open spec fn cpu_percent(busy: nat, window: nat, ncpu: nat) -> nat {
    let ns = double::product(double::of_integer(busy), 100);
    let cores = double::quotient(ns, double::of_integer(window));
    double::product(double::quotient(cores, double::of_integer(ncpu)), 100)
}

/// `bytes` as a percentage of physical RAM (0 if RAM could not be read).
pub open spec fn mem_percent(bytes: nat, total_mem: nat) -> nat {
    if total_mem == 0 {
        0
    } else {
        double::product(
            double::quotient(double::of_integer(bytes), double::of_integer(total_mem)),
            100,
        )
    }
}

/// What one poll at `now` makes of what is remembered, where the snapshot
/// holds `found`.
///
/// * VM not found: it is stopped.
/// * VM newly found, or a different pid than last time: memory is known
///   immediately, the CPU time becomes the baseline, CPU use is not known.
/// * VM known: memory is always refreshed; CPU use is too, unless the window
///   since the baseline is shorter than one second, which would give a
///   meaningless rate.
pub open spec fn sampled(host: Host, s: Sample, now: u128, found: Option<Found>) -> Sample {
    match found {
        None => Sample { cur: stopped(), last_pid: 0, ..s },
        Some(f) => {
            let mem_pct = mem_percent(f.mem as nat, host.total_mem as nat);
            if !s.cur.running || f.pid != s.last_pid {
                Sample {
                    cur: StatusView { running: true, pid: f.pid, cpu: None, mem: f.mem, mem_pct },
                    last_t: now,
                    last_cpu: f.cpu,
                    last_pid: f.pid,
                }
            } else if elapsed(s.last_t, now) >= MIN_WINDOW {
                let pct = cpu_percent(
                    used(s.last_cpu, f.cpu),
                    elapsed(s.last_t, now),
                    host.ncpu as nat,
                );
                Sample {
                    cur: StatusView { cpu: Some(pct), mem: f.mem, mem_pct, ..s.cur },
                    last_t: now,
                    last_cpu: f.cpu,
                    ..s
                }
            } else {
                Sample { cur: StatusView { mem: f.mem, mem_pct, ..s.cur }, ..s }
            }
        },
    }
}

/// What one poll makes of what is remembered, and whether anything visible
/// changed: the status is another one than before.
pub open spec fn polled(host: Host, s: Sample, now: u128, found: Option<Found>) -> (Sample, bool) {
    let next = sampled(host, s, now, found);
    (next, next.cur != s.cur)
}

/// What every poll keeps: a stopped VM has no numbers, and the status of a
/// running one is that of the process the baseline belongs to, with its
/// memory as a percentage of the RAM of the host.
pub open spec fn consistent(host: Host, s: Sample) -> bool {
    if s.cur.running {
        &&& s.cur.pid == s.last_pid
        &&& s.cur.mem_pct == mem_percent(s.cur.mem as nat, host.total_mem as nat)
    } else {
        s.cur == stopped()
    }
}

/// What to do after a snapshot query.
#[derive(Clone, Copy, Debug, PartialEq, Eq, Structural)]
pub enum SnapshotStep {
    /// The buffer holds the snapshot.
    Filled,
    /// There will be no snapshot.
    Failed,
    /// Query again with a buffer of this size.
    Retry(usize),
}

/// Size of the buffer to retry with: at least what would have fitted, plus
/// slack, and at least double the size that was too small.
pub open spec fn grown(len: usize, needed: u32) -> int {
    if needed + SNAPSHOT_SLACK >= len * 2 {
        needed + SNAPSHOT_SLACK
    } else {
        len * 2
    }
}

/// What to do after a query with a buffer of `len` bytes that ended with
/// `status` and said that it would need `needed` bytes.
pub open spec fn step_after(status: i32, needed: u32, len: usize) -> SnapshotStep {
    if status == 0 {
        SnapshotStep::Filled
    } else if status != STATUS_INFO_LENGTH_MISMATCH {
        SnapshotStep::Failed
    } else {
        SnapshotStep::Retry(grown(len, needed) as usize)
    }
}

/// Every poll keeps [`consistent`].
pub proof fn law_poll_keeps_consistent(host: Host, s: Sample, now: u128, found: Option<Found>)
    requires
        consistent(host, s),
    ensures
        consistent(host, polled(host, s, now, found).0),
{
}

/// After any poll the status says whether the VM was found, and if so shows
/// its pid and its current memory.
pub proof fn law_status_is_current(host: Host, s: Sample, now: u128, found: Option<Found>)
    requires
        consistent(host, s),
    ensures
        ({
            let cur = polled(host, s, now, found).0.cur;
            match found {
                None => cur == stopped(),
                Some(f) => cur.running && cur.pid == f.pid && cur.mem == f.mem && cur.mem_pct
                    == mem_percent(f.mem as nat, host.total_mem as nat),
            }
        }),
{
}

/// CPU use is never known right after the VM appeared, nor after it was
/// restarted under another pid.
pub proof fn law_baseline_has_no_cpu(host: Host, s: Sample, now: u128, f: Found)
    requires
        consistent(host, s),
        !s.cur.running || f.pid != s.last_pid,
    ensures
        polled(host, s, now, Some(f)).0.cur.cpu is None,
        polled(host, s, now, Some(f)).1,
{
}

/// The poll after a baseline, at least one second later, gives the CPU use
/// since the baseline.
pub proof fn law_second_sample_measures(
    host: Host,
    s: Sample,
    now1: u128,
    f1: Found,
    now2: u128,
    f2: Found,
)
    requires
        !s.cur.running || f1.pid != s.last_pid,
        f2.pid == f1.pid,
        now2 >= now1 + MIN_WINDOW,
    ensures
        polled(host, polled(host, s, now1, Some(f1)).0, now2, Some(f2)).0.cur.cpu == Some(
            cpu_percent(used(f1.cpu, f2.cpu), (now2 - now1) as nat, host.ncpu as nat),
        ),
{
}

/// A poll less than a second after the last measurement leaves the CPU figure
/// and its baseline alone.
pub proof fn law_short_window_keeps_cpu(host: Host, s: Sample, now: u128, f: Found)
    requires
        s.cur.running,
        f.pid == s.last_pid,
        elapsed(s.last_t, now) < MIN_WINDOW,
    ensures
        polled(host, s, now, Some(f)).0 == (Sample {
            cur: StatusView {
                mem: f.mem,
                mem_pct: mem_percent(f.mem as nat, host.total_mem as nat),
                ..s.cur
            },
            ..s
        }),
{
}

/// Something visible changed just where the status is another one. It is
/// where the VM appeared, was restarted or stopped, where its memory is not
/// what it was, and where its CPU use became known; it is not where the VM
/// stays stopped, nor where a VM with the same memory is looked at again
/// within a second of the last measurement.
pub proof fn law_changed_where_the_status_differs(
    host: Host,
    s: Sample,
    now: u128,
    found: Option<Found>,
)
    requires
        consistent(host, s),
    ensures
        ({
            let (next, changed) = polled(host, s, now, found);
            &&& changed <==> next.cur != s.cur
            &&& s.cur.running != (found is Some) ==> changed
            &&& !s.cur.running && found is None ==> !changed
            &&& found matches Some(f) ==> {
                &&& s.cur.running && f.pid != s.cur.pid ==> changed
                &&& s.cur.mem != f.mem ==> changed
                &&& next.cur.cpu != s.cur.cpu ==> changed
                &&& s.cur.running && f.pid == s.cur.pid && s.cur.mem == f.mem && elapsed(
                    s.last_t,
                    now,
                ) < MIN_WINDOW ==> !changed
            }
        }),
{
}

/// 100 % means that every core was busy throughout the window, and 0 % that
/// none was at all; as long as the times take no more than 53 bits.
pub proof fn law_all_cores_busy(busy: nat, window: nat, ncpu: nat)
    requires
        busy * 100 == window * ncpu,
        busy * 100 < double::EXACT,
        window >= 1,
        ncpu >= 1,
    ensures
        cpu_percent(busy, window, ncpu) == double::of_integer(100),
        cpu_percent(0, window, ncpu) == 0,
{
    let k = double::FRACTION_BITS as nat;
    let one = double::one();
    natural::lemma_two_to_is_positive(k);
    assert(window <= window * ncpu && ncpu <= window * ncpu) by (nonlinear_arith)
        requires
            window >= 1,
            ncpu >= 1,
    ;
    double::lemma_exact(busy, k);
    double::lemma_exact(window, k);
    double::lemma_exact(ncpu, k);
    assert((busy * one) * 100 == (busy * 100) * one) by (nonlinear_arith);
    double::lemma_exact(busy * 100, k);
    let w = window * one;
    let n = ncpu * one;
    assert(w > 0 && n > 0) by (nonlinear_arith)
        requires
            w == window * one,
            n == ncpu * one,
            window >= 1,
            ncpu >= 1,
            one >= 1,
    ;
    assert(((window * ncpu) * one) * one == n * w) by (nonlinear_arith)
        requires
            w == window * one,
            n == ncpu * one,
    ;
    double::lemma_common_factor(n, w);
    assert(n * one == one * n) by (nonlinear_arith);
    double::lemma_common_factor(one, n);
    assert(1 * one == one);
    double::lemma_exact(1, k);
    double::lemma_exact(100, k);
    assert(one * 100 == 100 * one);
    double::lemma_exact(0, k);
    assert(0 * one == 0);
    assert(0 * w == 0 && 0 * n == 0);
    double::lemma_common_factor(0, w);
    double::lemma_common_factor(0, n);
}

/// The CPU percentage is the busy time over the wall-clock time and the
/// cores: `busy * 100` ns of `window * ncpu` ns, times 100, up to an error of
/// 17 units of 2^-53.
pub proof fn law_cpu_percent_is_accurate(busy: nat, window: u128, ncpu: u32)
    requires
        window >= 1,
        ncpu >= 1,
    ensures
        double::near(
            cpu_percent(busy, window as nat, ncpu as nat),
            busy * 10_000 * double::one(),
            window as nat * ncpu as nat,
            17,
        ),
{
    let o = double::one();
    let w = window as nat;
    let n = ncpu as nat;
    let p = busy * o * 100;
    let b0 = double::of_integer(busy);
    let ns = double::product(b0, 100);
    let cores = double::quotient(ns, double::of_integer(w));
    let share = double::quotient(cores, double::of_integer(n));
    double::lemma_one_is_large();
    double::lemma_of_integer_is_near(busy);
    assert(busy * o == 0 || busy * o >= o) by (nonlinear_arith)
        requires
            busy >= 0,
            o > 0,
    ;
    assert(b0 * 1 == b0 && 1 * (busy * o) == busy * o);
    double::lemma_near_step(b0, busy * o, 1, 1, 100, 1);
    assert(1 * (2 * w) == 2 * w && 1 * w == w && 1nat * 1nat == 1nat);
    double::lemma_near_quotient(ns, p, 1, w, 3);
    assert(w * (2 * n) <= 0x1_0000_0000_0000_0000_0000_0000_0000_0000int * 0x2_0000_0000int)
        by (nonlinear_arith)
        requires
            w <= 0x1_0000_0000_0000_0000_0000_0000_0000_0000int,
            2 * n <= 0x2_0000_0000int,
    ;
    double::lemma_near_quotient(cores, p, w, n, 9);
    let wn = w * n;
    assert(wn <= 0x1_0000_0000_0000_0000_0000_0000_0000_0000int * 0x1_0000_0000int)
        by (nonlinear_arith)
        requires
            w <= 0x1_0000_0000_0000_0000_0000_0000_0000_0000int,
            n <= 0x1_0000_0000int,
            wn == w * n,
    ;
    assert(wn >= 1) by (nonlinear_arith)
        requires
            wn == w * n,
            w >= 1,
            n >= 1,
    ;
    if p > 0 {
        assert(share >= 0x10_0000_0000_0000) by (nonlinear_arith)
            requires
                2 * (share * wn) >= p,
                p
                    >= 0x1_0000_0000_0000_0000_0000_0000_0000_0000_0000_0000_0000_0000_0000_0000_0000int,
                0 < wn <= 0x1_0000_0000_0000_0000_0000_0000_0000_0000int * 0x1_0000_0000int,
        ;
    } else {
        assert(17 * p == 0 && 15 * p == 0);
        assert(share * wn == 0);
        assert(share == 0) by (nonlinear_arith)
            requires
                share * wn == 0,
                wn >= 1,
        ;
    }
    double::lemma_near_step(share, p, wn, 15, 100, 1);
    assert(wn * 1 == wn);
    assert(p * 100 == busy * 10_000 * o) by (nonlinear_arith)
        requires
            p == busy * o * 100,
    ;
}

/// The memory percentage is `bytes` of `total_mem`, times 100, up to an error
/// of 9 units of 2^-53.
pub proof fn law_mem_percent_is_accurate(bytes: nat, total_mem: u64)
    requires
        total_mem >= 1,
    ensures
        double::near(
            mem_percent(bytes, total_mem as nat),
            bytes * 100 * double::one(),
            total_mem as nat,
            9,
        ),
{
    let o = double::one();
    let t = total_mem as nat;
    let p = bytes * o;
    let b0 = double::of_integer(bytes);
    let share = double::quotient(b0, double::of_integer(t));
    double::lemma_one_is_large();
    double::lemma_of_integer_is_near(bytes);
    assert(p == 0 || p >= o) by (nonlinear_arith)
        requires
            p == bytes * o,
            bytes >= 0,
            o > 0,
    ;
    assert(1 * (2 * t) == 2 * t && 1 * t == t);
    double::lemma_near_quotient(b0, p, 1, t, 1);
    if p > 0 {
        assert(share >= 0x10_0000_0000_0000) by (nonlinear_arith)
            requires
                2 * (share * t) >= p,
                p
                    >= 0x1_0000_0000_0000_0000_0000_0000_0000_0000_0000_0000_0000_0000_0000_0000_0000int,
                0 < t <= 0x1_0000_0000_0000_0000int,
        ;
    } else {
        assert(7 * p == 0);
        assert(share * t == 0);
        assert(share == 0) by (nonlinear_arith)
            requires
                share * t == 0,
                t >= 1,
        ;
    }
    double::lemma_near_step(share, p, t, 7, 100, 1);
    assert(t * 1 == t);
    assert(p * 100 == bytes * 100 * o) by (nonlinear_arith)
        requires
            p == bytes * o,
    ;
}

/// The CPU time between two readings counts kernel time and user time alike.
pub proof fn law_kernel_and_user_time_count_alike(before: CpuTime, after: CpuTime)
    ensures
        after.user + after.kernel >= before.user + before.kernel ==> used(before, after) == (
        after.user - before.user) + (after.kernel - before.kernel),
        after.user + after.kernel <= before.user + before.kernel ==> used(before, after) == 0,
{
}

/// Time that moves from user to kernel in a reading changes nothing about
/// what a poll publishes, now or later.
pub proof fn law_only_the_sum_of_times_counts(
    host: Host,
    s: Sample,
    now: u128,
    f: Found,
    moved: Found,
    now2: u128,
    f2: Found,
)
    requires
        moved.pid == f.pid,
        moved.mem == f.mem,
        moved.cpu.user + moved.cpu.kernel == f.cpu.user + f.cpu.kernel,
    ensures
        polled(host, s, now, Some(f)).0.cur == polled(host, s, now, Some(moved)).0.cur,
        polled(host, s, now, Some(f)).1 == polled(host, s, now, Some(moved)).1,
        polled(host, polled(host, s, now, Some(f)).0, now2, Some(f2)).0.cur == polled(
            host,
            polled(host, s, now, Some(moved)).0,
            now2,
            Some(f2),
        ).0.cur,
{
}

/// What a poll of a known VM publishes, a second or more after the last
/// measurement: the kernel and user time since then, over the wall-clock time
/// since then and the cores of the host, in percent; and its memory over the
/// RAM of the host, in percent.
pub proof fn law_poll_measures(host: Host, s: Sample, now: u128, f: Found)
    requires
        host.ncpu >= 1,
        s.cur.running,
        f.pid == s.last_pid,
        now >= s.last_t + 1_000_000_000,
        f.cpu.user + f.cpu.kernel >= s.last_cpu.user + s.last_cpu.kernel,
    ensures
        ({
            let next = polled(host, s, now, Some(f)).0;
            let busy = ((f.cpu.user - s.last_cpu.user) + (f.cpu.kernel - s.last_cpu.kernel)) as nat;
            &&& next.cur.cpu is Some
            &&& double::near(
                next.cur.cpu->0,
                busy * 10_000 * double::one(),
                (now - s.last_t) as nat * host.ncpu as nat,
                17,
            )
            &&& next.cur.mem == f.mem
            &&& host.total_mem >= 1 ==> double::near(
                next.cur.mem_pct,
                f.mem as nat * 100 * double::one(),
                host.total_mem as nat,
                9,
            )
            &&& host.total_mem == 0 ==> next.cur.mem_pct == 0
            &&& next.cur.running && next.cur.pid == s.cur.pid
            &&& next.last_t == now && next.last_cpu == f.cpu && next.last_pid == s.last_pid
        }),
{
    let busy = ((f.cpu.user - s.last_cpu.user) + (f.cpu.kernel - s.last_cpu.kernel)) as nat;
    law_kernel_and_user_time_count_alike(s.last_cpu, f.cpu);
    law_cpu_percent_is_accurate(busy, (now - s.last_t) as u128, host.ncpu);
    if host.total_mem >= 1 {
        law_mem_percent_is_accurate(f.mem as nat, host.total_mem);
    }
}

/// A poll less than a second after the last measurement measures nothing new:
/// the next one that does reaches back past it.
pub proof fn law_short_poll_is_passed_over(
    host: Host,
    s: Sample,
    now: u128,
    f: Found,
    now2: u128,
    f2: Found,
)
    requires
        s.cur.running,
        f.pid == s.last_pid,
        f2.pid == s.last_pid,
        now < s.last_t + 1_000_000_000,
    ensures
        polled(host, polled(host, s, now, Some(f)).0, now2, Some(f2)).0 == polled(
            host,
            s,
            now2,
            Some(f2),
        ).0,
        polled(host, s, now, Some(f)).0.cur.cpu == s.cur.cpu,
        polled(host, s, now, Some(f)).0.cur.mem == f.mem,
{
}

/// What a poll remembers of a VM that it sees for the first time, or under
/// another pid: nothing of what was before.
pub proof fn law_new_vm_starts_over(host: Host, s: Sample, t: Sample, now: u128, f: Found)
    requires
        !s.cur.running || f.pid != s.last_pid,
        !t.cur.running || f.pid != t.last_pid,
    ensures
        ({
            let next = polled(host, s, now, Some(f)).0;
            &&& next == polled(host, t, now, Some(f)).0
            &&& next.cur.running && next.cur.pid == f.pid && next.cur.mem == f.mem
            &&& next.cur.cpu is None
            &&& next.last_t == now && next.last_cpu == f.cpu && next.last_pid == f.pid
        }),
{
}

/// A VM that is not there is stopped, whatever was known of it, and its
/// return starts over.
pub proof fn law_missing_vm_is_stopped(host: Host, s: Sample, now: u128, now2: u128, f: Found)
    ensures
        ({
            let gone = polled(host, s, now, None).0;
            &&& !gone.cur.running && gone.cur.pid == 0 && gone.cur.cpu is None
            &&& gone.cur.mem == 0 && gone.cur.mem_pct == 0
            &&& polled(host, gone, now2, Some(f)).0.cur.cpu is None
            &&& polled(host, gone, now2, Some(f)).0.last_cpu == f.cpu
        }),
{
}

/// A VM that holds all of the RAM holds 100 % of it, and one that holds none
/// holds 0 %.
pub proof fn law_all_memory(total_mem: nat)
    requires
        total_mem >= 1,
    ensures
        mem_percent(total_mem, total_mem) == double::of_integer(100),
        mem_percent(0, total_mem) == 0,
{
    let k = double::FRACTION_BITS as nat;
    let one = double::one();
    let t = double::of_integer(total_mem);
    double::lemma_of_integer_is_positive(total_mem);
    assert(t * one == one * t) by (nonlinear_arith);
    double::lemma_common_factor(one, t);
    assert(1 * one == one);
    double::lemma_exact(1, k);
    double::lemma_exact(100, k);
    assert(one * 100 == 100 * one);
    double::lemma_exact(0, k);
    assert(0 * one == 0);
    assert(0 * t == 0);
    double::lemma_common_factor(0, t);
}

/// What the system answers to a query with a buffer of `len` bytes, where the
/// process list takes `needed` bytes.
pub open spec fn answer(len: usize, needed: u32) -> i32 {
    if len >= needed {
        0
    } else {
        STATUS_INFO_LENGTH_MISMATCH
    }
}

/// The size of the buffer that holds the snapshot in the end, where the first
/// one tried has `len` bytes.
pub open spec fn filled_size(len: usize, needed: u32) -> usize {
    match step_after(answer(len, needed), needed, len) {
        SnapshotStep::Retry(n) => n,
        _ => len,
    }
}

/// A buffer that is too small is grown once and then fits; one that has
/// fitted is not grown again, as long as the process list takes no more room
/// than there is. Wherever the process is in the list, it is found each time.
pub proof fn law_buffer_grows_once(
    size: usize,
    needed: u32,
    later: u32,
    buf1: Seq<u8>,
    base1: u64,
    k1: int,
    buf2: Seq<u8>,
    base2: u64,
    k2: int,
    lower: Seq<char>,
)
    requires
        size < needed ==> size * 2 <= usize::MAX && needed + SNAPSHOT_SLACK <= usize::MAX,
        later <= filled_size(size, needed),
        0 <= k1 < snapshot::chain(buf1, base1, 0).len(),
        snapshot::named(snapshot::chain(buf1, base1, 0)[k1], lower),
        0 <= k2 < snapshot::chain(buf2, base2, 0).len(),
        snapshot::named(snapshot::chain(buf2, base2, 0)[k2], lower),
    ensures
        ({
            let first = filled_size(size, needed);
            &&& step_after(answer(first, needed), needed, first) is Filled
            &&& size < needed ==> first > size
            &&& size >= needed ==> first == size
            &&& step_after(answer(first, later), later, first) is Filled
            &&& filled_size(first, later) == first
        }),
        snapshot::found_in(buf1, base1, lower) is Some,
        snapshot::found_in(buf2, base2, lower) is Some,
{
    snapshot::law_first_of_that_name(buf1, base1, lower);
    snapshot::law_first_of_that_name(buf2, base2, lower);
}

/// A query is over when it succeeded, and is tried again only where the
/// buffer was too short (status 0xC0000004).
pub proof fn law_only_a_short_buffer_is_retried(status: i32, needed: u32, len: usize)
    ensures
        step_after(status, needed, len) is Filled <==> status == 0,
        step_after(status, needed, len) is Retry <==> status == -1_073_741_820,
{
}

/// A retried query has a larger buffer, even if the size it needs was left
/// at zero.
pub proof fn law_retry_grows(len: usize, needed: u32)
    ensures
        grown(len, needed) > len,
        grown(len, needed) >= needed + SNAPSHOT_SLACK,
{
}

/// A query whose buffer was too short is tried again with twice its size or
/// with what it needs and 64 KiB more, whichever is larger.
pub proof fn law_size_of_the_next_buffer(status: i32, len: usize, needed: u32)
    requires
        status == -1_073_741_820,
        len * 2 <= usize::MAX,
        needed + 0x1_0000 <= usize::MAX,
    ensures
        step_after(status, needed, len) matches SnapshotStep::Retry(n) && {
            &&& n >= 2 * len
            &&& n >= needed + 0x1_0000
            &&& n == 2 * len || n == needed + 0x1_0000
        },
{
}

/// Where the time that a process has used went down between two readings, it
/// counts as none at all.
pub proof fn law_time_that_went_down_is_none(host: Host, s: Sample, now: u128, f: Found)
    requires
        host.ncpu >= 1,
        s.cur.running,
        f.pid == s.last_pid,
        now >= s.last_t + 1_000_000_000,
        f.cpu.user + f.cpu.kernel < s.last_cpu.user + s.last_cpu.kernel,
    ensures
        polled(host, s, now, Some(f)).0.cur.cpu == Some(0nat),
        polled(host, s, now, Some(f)).0.last_cpu == f.cpu,
        polled(host, s, now, Some(f)).0.last_t == now,
{
    let window = (now - s.last_t) as u128;
    law_cpu_percent_is_accurate(0, window, host.ncpu);
    let x = cpu_percent(0, window as nat, host.ncpu as nat);
    let d = window as nat * host.ncpu as nat;
    assert(d >= 1) by (nonlinear_arith)
        requires
            d == window as nat * host.ncpu as nat,
            window >= 1,
            host.ncpu >= 1,
    ;
    assert(0 * 10_000 * double::one() == 0);
    assert(x * d == 0);
    assert(x == 0) by (nonlinear_arith)
        requires
            x * d == 0,
            d >= 1,
    ;
}

impl Default for Status {
    /// The status of a VM that does not run.
    fn default() -> (r: Status)
        ensures
            r@ == stopped(),
    {
        Status { running: false, pid: 0, cpu: None, mem: 0, mem_pct: Double::zero() }
    }
}

impl Clone for Status {
    /// The same observation.
    fn clone(&self) -> (r: Status)
        ensures
            r@ == self@,
    {
        let cpu = match &self.cpu {
            Some(c) => Some(c.clone()),
            None => None,
        };
        Status {
            running: self.running,
            pid: self.pid,
            cpu,
            mem: self.mem,
            mem_pct: self.mem_pct.clone(),
        }
    }
}

impl Status {
    /// Whether two observations are the same.
    pub fn same(&self, other: &Status) -> (b: bool)
        ensures
            b == (self@ == other@),
    {
        let same_cpu: bool = match (&self.cpu, &other.cpu) {
            (Some(a), Some(b)) => a.same(b),
            (None, None) => true,
            _ => false,
        };
        self.running == other.running && self.pid == other.pid && same_cpu && self.mem == other.mem
            && self.mem_pct.same(&other.mem_pct)
    }
}

/// Sampler: remembers the previous CPU reading so the next one can be turned
/// into a rate, and how large the last process snapshot was.
pub struct Monitor {
    /// Image name to look for, in lower case.
    pub proc_name: String,
    /// The size of the host.
    pub host: Host,
    /// Last published status.
    pub cur: Status,
    /// When `last_cpu` was read, in nanoseconds.
    pub last_t: u128,
    /// CPU time of the VM at `last_t`: the CPU baseline.
    pub last_cpu: CpuTime,
    /// Pid the baseline belongs to; a different pid invalidates it.
    pub last_pid: u64,
    /// Size of the next snapshot buffer: that of the last one that fitted.
    pub snapshot_size: usize,
}

/// [`Monitor`] with the views of its parts.
pub struct MonitorView {
    pub proc_name: Seq<char>,
    pub host: Host,
    pub sample: Sample,
    pub snapshot_size: usize,
}

impl View for Monitor {
    type V = MonitorView;

    open spec fn view(&self) -> MonitorView {
        MonitorView {
            proc_name: self.proc_name@,
            host: self.host,
            sample: Sample {
                cur: self.cur@,
                last_t: self.last_t,
                last_cpu: self.last_cpu,
                last_pid: self.last_pid,
            },
            snapshot_size: self.snapshot_size,
        }
    }
}

impl Monitor {
    /// The host has a core, and the numbers belong together and to the host.
    pub open spec fn well_formed(&self) -> bool {
        self@.host.ncpu >= 1 && consistent(self@.host, self@.sample)
    }

    /// Creates a sampler for the process called `proc_name`, at the time
    /// `now`, on a host with `cores` logical cores (taken as one if that is
    /// unknown) and `total_mem` bytes of RAM.
    pub fn new(proc_name: &str, cores: u32, total_mem: u64, now: u128) -> (m: Monitor)
        ensures
            m.well_formed(),
            m@ == (MonitorView {
                proc_name: lowercase::lowercase(proc_name@),
                host: host_of(cores, total_mem),
                sample: Sample {
                    cur: stopped(),
                    last_t: now,
                    last_cpu: CpuTime { user: 0, kernel: 0 },
                    last_pid: 0,
                },
                snapshot_size: FIRST_SNAPSHOT_SIZE,
            }),
    {
        let ncpu: u32 = if cores >= 1 {
            cores
        } else {
            1
        };
        Monitor {
            proc_name: lowercase::to_lowercase(proc_name),
            host: Host { ncpu, total_mem },
            cur: Status::default(),
            last_t: now,
            last_cpu: CpuTime { user: 0, kernel: 0 },
            last_pid: 0,
            snapshot_size: FIRST_SNAPSHOT_SIZE,
        }
    }

    /// The status published by the last [`poll`](Self::poll).
    pub fn current(&self) -> (r: Status)
        ensures
            r@ == self@.sample.cur,
    {
        self.cur.clone()
    }

    /// Takes over what a process snapshot at the time `now` says about the
    /// VM. Returns the status and whether anything visible changed, so the
    /// caller can skip redrawing.
    pub fn poll(&mut self, now: u128, found: Option<Found>) -> (r: (Status, bool))
        requires
            old(self).well_formed(),
        ensures
            final(self).well_formed(),
            (final(self)@.sample, r.1) == polled(
                old(self)@.host,
                old(self)@.sample,
                now,
                found,
            ),
            r.0@ == final(self)@.sample.cur,
            final(self)@ == (MonitorView { sample: final(self)@.sample, ..old(self)@ }),
    {
        let before = self.cur.clone();
        self.sample(now, found);
        let changed = !before.same(&self.cur);
        (self.cur.clone(), changed)
    }

    /// Updates the status from what a process snapshot says.
    fn sample(&mut self, now: u128, found: Option<Found>)
        requires
            old(self).well_formed(),
        ensures
            final(self).well_formed(),
            final(self)@ == (MonitorView {
                sample: sampled(old(self)@.host, old(self)@.sample, now, found),
                ..old(self)@
            }),
    {
        let f: Found = match found {
            Some(f) => f,
            None => {
                self.cur = Status::default();
                self.last_pid = 0;
                return;
            },
        };
        let mem_pct = self.mem_pct(f.mem);
        // Newly started (or restarted) VM: establish a CPU baseline, show
        // memory now.
        if !self.cur.running || f.pid != self.last_pid {
            self.cur = Status { running: true, pid: f.pid, cpu: None, mem: f.mem, mem_pct };
            self.last_t = now;
            self.last_cpu = f.cpu;
            self.last_pid = f.pid;
            return;
        }
        let window: u128 = if now >= self.last_t {
            now - self.last_t
        } else {
            0
        };
        if window >= MIN_WINDOW {
            let busy: u128 = cpu_used(self.last_cpu, f.cpu);
            self.cur.cpu = Some(percent_of_cores(busy, window, self.host.ncpu));
            self.last_t = now;
            self.last_cpu = f.cpu;
        }
        self.cur.mem = f.mem;
        self.cur.mem_pct = mem_pct;
    }

    /// `bytes` as a percentage of physical RAM (0 if RAM could not be read).
    fn mem_pct(&self, bytes: u64) -> (r: Double)
        ensures
            r@ == mem_percent(bytes as nat, self.host.total_mem as nat),
    {
        if self.host.total_mem == 0 {
            return Double::zero();
        }
        let total = Double::from_integer(self.host.total_mem as u128);
        proof {
            double::lemma_of_integer_is_positive(self.host.total_mem as nat);
        }
        Double::from_integer(bytes as u128).over(&total).times(100)
    }

    /// Says what to do after a snapshot query with a buffer of `len` bytes
    /// that ended with `status`, and remembers the size of a buffer that was
    /// large enough.
    pub fn snapshot_step(&mut self, status: i32, needed: u32, len: usize) -> (r: SnapshotStep)
        requires
            status == STATUS_INFO_LENGTH_MISMATCH ==> len * 2 <= usize::MAX && needed
                + SNAPSHOT_SLACK <= usize::MAX,
        ensures
            r == step_after(status, needed, len),
            final(self)@ == (MonitorView {
                snapshot_size: if r is Filled {
                    len
                } else {
                    old(self)@.snapshot_size
                },
                ..old(self)@
            }),
    {
        if status == 0 {
            self.snapshot_size = len;
            return SnapshotStep::Filled;
        }
        if status != STATUS_INFO_LENGTH_MISMATCH {
            return SnapshotStep::Failed;
        }
        let fitting: usize = needed as usize + SNAPSHOT_SLACK;
        let double: usize = len * 2;
        if fitting >= double {
            SnapshotStep::Retry(fitting)
        } else {
            SnapshotStep::Retry(double)
        }
    }

    /// Looks for the process in a snapshot that lies at the address `base`.
    pub fn find(&self, buf: &[u8], base: u64) -> (r: Option<Found>)
        ensures
            r == snapshot::found_in(buf@, base, self@.proc_name),
    {
        snapshot::find_process(buf, base, self.proc_name.as_str())
    }
}

/// CPU time used from one reading to the next, zero where the second is the
/// smaller one.
fn cpu_used(before: CpuTime, after: CpuTime) -> (r: u128)
    ensures
        r == used(before, after),
{
    let a: i128 = after.user as i128 + after.kernel as i128;
    let b: i128 = before.user as i128 + before.kernel as i128;
    if a >= b {
        (a - b) as u128
    } else {
        0
    }
}

/// `busy` 100 ns units of CPU time as a percentage of what `ncpu` cores have
/// in `window` nanoseconds.
fn percent_of_cores(busy: u128, window: u128, ncpu: u32) -> (r: Double)
    requires
        window >= 1,
        ncpu >= 1,
    ensures
        r@ == cpu_percent(busy as nat, window as nat, ncpu as nat),
{
    proof {
        double::lemma_of_integer_is_positive(window as nat);
        double::lemma_of_integer_is_positive(ncpu as nat);
    }
    let ns = Double::from_integer(busy).times(100);
    let cores = ns.over(&Double::from_integer(window));
    cores.over(&Double::from_integer(ncpu as u128)).times(100)
}

} // verus!
