//! Snapshots of the process list, and what the sampler makes of them.

use wsltray::double::Double;
use wsltray::lowercase::{eq_lowercase_utf16, to_lowercase};
use wsltray::monitor::{
    Monitor, SnapshotStep, Status, FIRST_SNAPSHOT_SIZE, SNAPSHOT_SLACK,
    STATUS_INFO_LENGTH_MISMATCH,
};
use wsltray::snapshot::{find_process, read_entry, walk, CpuTime, Found, ENTRY_SIZE};

const SECOND: u128 = 1_000_000_000;
const BASE: u64 = 0x1_0000;

struct Row {
    name: &'static str,
    pid: u64,
    user: i64,
    kernel: i64,
    mem: u64,
}

fn put(buf: &mut [u8], at: usize, bytes: &[u8]) {
    buf[at..at + bytes.len()].copy_from_slice(bytes);
}

/// A snapshot that lies at the address `BASE`.
fn snapshot(rows: &[Row]) -> Vec<u8> {
    let mut buf = Vec::new();
    for (i, row) in rows.iter().enumerate() {
        let at = buf.len();
        let name: Vec<u8> = row.name.encode_utf16().flat_map(|u| u.to_le_bytes()).collect();
        let size = (ENTRY_SIZE + name.len() + 7) / 8 * 8;
        buf.resize(at + size, 0);
        let next = if i + 1 < rows.len() { size as u32 } else { 0 };
        put(&mut buf, at, &next.to_le_bytes());
        put(&mut buf, at + 40, &row.user.to_le_bytes());
        put(&mut buf, at + 48, &row.kernel.to_le_bytes());
        put(&mut buf, at + 56, &(name.len() as u16).to_le_bytes());
        if !name.is_empty() {
            put(&mut buf, at + 64, &(BASE + (at + ENTRY_SIZE) as u64).to_le_bytes());
        }
        put(&mut buf, at + 80, &row.pid.to_le_bytes());
        put(&mut buf, at + 144, &row.mem.to_le_bytes());
        put(&mut buf, at + ENTRY_SIZE, &name);
    }
    buf
}

fn three() -> Vec<u8> {
    snapshot(&[
        Row { name: "", pid: 0, user: 1, kernel: 2, mem: 3 },
        Row { name: "services.exe", pid: 700, user: 4, kernel: 5, mem: 6 },
        Row { name: "vmmemWSL", pid: 4242, user: 70, kernel: -8, mem: 5 << 30 },
    ])
}

fn found(pid: u64, ticks: i64, mem: u64) -> Option<Found> {
    Some(Found { pid, cpu: CpuTime { user: ticks, kernel: 0 }, mem })
}

fn text(x: &Double) -> String {
    let mut s = String::new();
    x.push_one_decimal(&mut s);
    s
}

fn cpu(st: &Status) -> Option<String> {
    st.cpu.as_ref().map(text)
}

#[test]
fn utf16_compare() {
    let u16s = |s: &str| s.encode_utf16().collect::<Vec<u16>>();
    assert!(eq_lowercase_utf16(&u16s("vmmemWSL"), "vmmemwsl"));
    assert!(!eq_lowercase_utf16(&u16s("vmmem"), "vmmemwsl"));
    assert!(!eq_lowercase_utf16(&u16s("vmmemWSLx"), "vmmemwsl"));
    // Non-ASCII letters fold too.
    assert!(eq_lowercase_utf16(&u16s("ÄBC.exe"), "äbc.exe"));
    assert!(eq_lowercase_utf16(&u16s("ZOË.EXE"), "zoë.exe"));
    assert!(!eq_lowercase_utf16(&u16s("ABC.exe"), "äbc.exe"));
}

#[test]
fn lower_case_of_single_characters() {
    assert_eq!(to_lowercase("VMMEMwsl"), "vmmemwsl");
    assert_eq!(to_lowercase("İ"), "i\u{307}");
    assert_eq!(to_lowercase("ΑΣ"), "ας".replace('ς', "σ"));
    for c in '\0'..=char::MAX {
        if (c as u32) % 37 == 0 || (c as u32) < 0x600 {
            let expected: String = c.to_lowercase().collect();
            assert_eq!(to_lowercase(&c.to_string()), expected);
        }
    }
}

#[test]
fn unpaired_surrogates_match_the_replacement_character() {
    assert!(eq_lowercase_utf16(&[0x41, 0xd800], "a\u{fffd}"));
    assert!(eq_lowercase_utf16(&[0xdc00, 0xd801, 0xdc00], "\u{fffd}\u{10428}"));
}

#[test]
fn the_process_is_found_by_its_name() {
    let buf = three();
    let f = find_process(&buf, BASE, "vmmemwsl").unwrap();
    assert_eq!(f, Found { pid: 4242, cpu: CpuTime { user: 70, kernel: -8 }, mem: 5 << 30 });
    assert_eq!(find_process(&buf, BASE, "services.exe").unwrap().pid, 700);
    assert_eq!(find_process(&buf, BASE, "vmmem"), None);
    assert_eq!(find_process(&buf, BASE, ""), None);
    // A name that does not lie in the snapshot is not read.
    assert_eq!(find_process(&buf, BASE + (1 << 40), "vmmemwsl"), None);
}

#[test]
fn the_first_of_several_processes_is_taken() {
    let buf = snapshot(&[
        Row { name: "a", pid: 1, user: 0, kernel: 0, mem: 0 },
        Row { name: "VM", pid: 2, user: 0, kernel: 0, mem: 0 },
        Row { name: "vm", pid: 3, user: 0, kernel: 0, mem: 0 },
    ]);
    assert_eq!(find_process(&buf, BASE, "vm").unwrap().pid, 2);
}

#[test]
fn a_snapshot_is_walked_to_its_end() {
    let buf = three();
    assert_eq!(walk(&buf, BASE).len(), 3);
    let second = read_entry(&buf, BASE, 152);
    assert_eq!(second.found.pid, 700);
    assert_eq!(second.name.unwrap(), "services.exe".encode_utf16().collect::<Vec<u16>>());
    assert_eq!(walk(&buf[..151], BASE).len(), 0);
    assert_eq!(walk(&[], BASE).len(), 0);
    // Cut off within the last entry.
    assert_eq!(walk(&buf[..buf.len() - 100], BASE).len(), 2);
}

#[test]
fn a_chain_past_the_end_is_not_followed() {
    let mut buf = three();
    put(&mut buf, 0, &u32::MAX.to_le_bytes());
    assert_eq!(walk(&buf, BASE).len(), 1);
    assert_eq!(find_process(&buf, BASE, "vmmemwsl"), None);
}

#[test]
fn a_vm_that_is_not_there_is_stopped() {
    let mut m = Monitor::new("vmmemWSL", 8, 16 << 30, 0);
    let (st, changed) = m.poll(0, None);
    assert!(!st.running && !changed);
    assert_eq!((st.pid, st.mem), (0, 0));
    assert_eq!(cpu(&st), None);
    assert_eq!(text(&st.mem_pct), "0.0");
}

#[test]
fn the_first_sample_has_no_cpu_and_the_second_has() {
    let mut m = Monitor::new("vmmemWSL", 4, 16 << 30, 0);
    let (st, changed) = m.poll(SECOND, found(7, 1000, 4 << 30));
    assert!(st.running && changed);
    assert_eq!((st.pid, st.mem), (7, 4 << 30));
    assert_eq!(cpu(&st), None);
    assert_eq!(text(&st.mem_pct), "25.0");
    // One core of four, for two seconds.
    let (st, changed) = m.poll(3 * SECOND, found(7, 1000 + 20_000_000, 8 << 30));
    assert!(changed);
    assert_eq!(cpu(&st).unwrap(), "25.0");
    assert_eq!(text(&st.mem_pct), "50.0");
    assert_eq!(cpu(&m.current()).unwrap(), "25.0");
}

#[test]
fn a_short_window_keeps_the_cpu_figure() {
    let mut m = Monitor::new("vmmemWSL", 1, 0, 0);
    m.poll(0, found(7, 0, 1));
    m.poll(SECOND, found(7, 5_000_000, 2));
    let (st, changed) = m.poll(2 * SECOND - 1, found(7, 9_000_000, 3));
    assert!(changed);
    assert_eq!(cpu(&st).unwrap(), "50.0");
    assert_eq!(st.mem, 3);
    assert_eq!(text(&st.mem_pct), "0.0");
    // The next long enough window reaches back to the last measurement.
    let (st, _) = m.poll(3 * SECOND, found(7, 25_000_000, 3));
    assert_eq!(cpu(&st).unwrap(), "100.0");
}

#[test]
fn an_equal_status_is_no_change() {
    let mut m = Monitor::new("vmmemWSL", 1, 16, 0);
    m.poll(0, found(7, 0, 3));
    let before = m.current();
    let (st, changed) = m.poll(SECOND - 1, found(7, 5_000_000, 3));
    assert!(!changed);
    assert!(st.same(&before));
    // The memory changes, then nothing, then the CPU use becomes known, then
    // it stays what it was.
    assert!(m.poll(SECOND - 1, found(7, 5_000_000, 4)).1);
    assert!(!m.poll(SECOND - 1, found(7, 5_000_000, 4)).1);
    assert!(m.poll(SECOND, found(7, 5_000_000, 4)).1);
    assert!(!m.poll(2 * SECOND, found(7, 10_000_000, 4)).1);
    assert!(m.poll(3 * SECOND, found(7, 10_000_000, 4)).1);
    assert!(!m.current().same(&before));
}

#[test]
fn a_new_pid_starts_over() {
    let mut m = Monitor::new("vmmemWSL", 1, 0, 0);
    m.poll(0, found(7, 0, 1));
    m.poll(SECOND, found(7, 5_000_000, 1));
    let (st, changed) = m.poll(2 * SECOND, found(8, 6_000_000, 1));
    assert!(changed);
    assert_eq!((st.pid, cpu(&st)), (8, None));
    let (st, _) = m.poll(3 * SECOND, found(8, 7_000_000, 1));
    assert_eq!(cpu(&st).unwrap(), "10.0");
}

#[test]
fn a_vm_that_stops_is_seen_once() {
    let mut m = Monitor::new("vmmemWSL", 1, 0, 0);
    m.poll(0, found(7, 0, 1));
    let (st, changed) = m.poll(SECOND, None);
    assert!(!st.running && changed);
    let (st, changed) = m.poll(2 * SECOND, None);
    assert!(!st.running && !changed);
    let (st, changed) = m.poll(3 * SECOND, found(7, 0, 1));
    assert!(st.running && changed);
    assert_eq!(cpu(&st), None);
}

#[test]
fn time_that_runs_backwards_gives_no_negative_use() {
    let mut m = Monitor::new("vmmemWSL", 1, 0, 0);
    m.poll(5 * SECOND, found(7, 1000, 1));
    let (st, _) = m.poll(0, found(7, 2000, 1));
    assert_eq!(cpu(&st), None);
    let (st, _) = m.poll(7 * SECOND, found(7, 10, 1));
    assert_eq!(cpu(&st).unwrap(), "0.0");
}

#[test]
fn a_host_of_unknown_size() {
    let m = Monitor::new("vmmemWSL", 0, 0, 0);
    assert_eq!(m.host.ncpu, 1);
    assert_eq!(m.proc_name, "vmmemwsl");
    assert_eq!(m.snapshot_size, FIRST_SNAPSHOT_SIZE);
}

#[test]
fn all_cores_and_all_memory_are_hundred_percent() {
    for cores in [1u32, 3, 8, 64] {
        let mut m = Monitor::new("vmmemWSL", cores, 12345, 0);
        m.poll(0, found(7, 0, 12345));
        let (st, _) = m.poll(10 * SECOND, found(7, 100_000_000 * cores as i64, 12345));
        assert_eq!(st.cpu.as_ref().unwrap().times(1 << 40).round(), Some(100 << 40));
        assert_eq!(st.mem_pct.times(1 << 40).round(), Some(100 << 40));
    }
}

#[test]
fn percentages_are_those_of_the_hardware() {
    let mut seed: u64 = 99;
    let mut next = move || {
        seed = seed.wrapping_mul(6364136223846793005).wrapping_add(1442695040888963407);
        seed >> 20
    };
    for _ in 0..600 {
        let cores = (next() % 128 + 1) as u32;
        let total = next() + 1;
        let busy = (next() % 1_000_000_000) as i64;
        let window = SECOND + (next() % 10_000_000_000) as u128;
        let mem = next() % total;
        let mut m = Monitor::new("vmmemWSL", cores, total, 0);
        m.poll(0, found(7, 0, mem));
        let (st, _) = m.poll(window, found(7, busy, mem));
        let pct = busy as f64 * 100.0 / window as f64 / cores as f64 * 100.0;
        let mem_pct = mem as f64 / total as f64 * 100.0;
        let scale = (1u64 << 40) as f64;
        assert_eq!(
            st.cpu.as_ref().unwrap().times(1 << 40).round(),
            Some((pct * scale).round() as u64)
        );
        assert_eq!(cpu(&st).unwrap(), format!("{:.1}", pct));
        assert_eq!(st.mem_pct.times(1 << 40).round(), Some((mem_pct * scale).round() as u64));
    }
}

/// What a system with a process list of `needed` bytes answers to a query
/// with a buffer of `len` bytes.
fn query(needed: u32, len: usize) -> i32 {
    if len < needed as usize {
        STATUS_INFO_LENGTH_MISMATCH
    } else {
        0
    }
}

fn fill(m: &mut Monitor, needed: u32) -> bool {
    let mut len = m.snapshot_size;
    loop {
        match m.snapshot_step(query(needed, len), needed, len) {
            SnapshotStep::Filled => return true,
            SnapshotStep::Failed => return false,
            SnapshotStep::Retry(n) => {
                assert!(n > len);
                len = n;
            }
        }
    }
}

#[test]
fn snapshot_grows() {
    let mut m = Monitor::new("services.exe", 1, 0, 0);
    m.snapshot_size = 64;
    let list = three();
    let needed = list.len() as u32;
    // The process list in a buffer that fits it.
    let filled = |m: &Monitor| {
        let mut buf = list.clone();
        buf.resize(m.snapshot_size, 0);
        buf
    };
    assert!(fill(&mut m, needed));
    assert!(m.find(&filled(&m), BASE).is_some());
    assert!(m.snapshot_size > 64);
    let grown = m.snapshot_size;
    assert!(fill(&mut m, needed));
    assert!(m.find(&filled(&m), BASE).is_some());
    assert_eq!(m.snapshot_size, grown, "no regrowth once it fits");
}

#[test]
fn the_size_of_a_retried_snapshot() {
    let mut m = Monitor::new("x", 1, 0, 0);
    let mismatch = STATUS_INFO_LENGTH_MISMATCH;
    assert_eq!(mismatch, 0xC0000004_u32 as i32);
    assert_eq!(m.snapshot_step(mismatch, 0, 1 << 20), SnapshotStep::Retry(2 << 20));
    assert_eq!(m.snapshot_step(mismatch, 1 << 20, 64), SnapshotStep::Retry((1 << 20) + SNAPSHOT_SLACK));
    assert_eq!(m.snapshot_step(-1, 1 << 20, 64), SnapshotStep::Failed);
    assert_eq!(m.snapshot_step(1, 0, 64), SnapshotStep::Failed);
    assert_eq!(m.snapshot_size, FIRST_SNAPSHOT_SIZE);
    assert_eq!(m.snapshot_step(0, 0, 64), SnapshotStep::Filled);
    assert_eq!(m.snapshot_size, 64);
    // Only a retry is limited in size.
    assert_eq!(m.snapshot_step(0, u32::MAX, usize::MAX), SnapshotStep::Filled);
    assert_eq!(m.snapshot_step(1, u32::MAX, usize::MAX), SnapshotStep::Failed);
}

#[test]
fn the_monitor_looks_for_its_process_in_any_case() {
    let m = Monitor::new("VmMemWsl", 1, 0, 0);
    assert_eq!(m.find(&three(), BASE).unwrap().pid, 4242);
}
