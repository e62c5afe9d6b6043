//! The texts that show the state of WSL2.

use vstd::prelude::*;

use crate::double;
use crate::memory;
use crate::monitor::Status;
use crate::monitor::StatusView;
use crate::text;

verus! {

/// What Start/Restart/Shutdown is doing right now, if anything. Shown as the
/// tooltip status line, and used to grey out the menu commands while one is
/// in flight.
#[derive(Clone, Copy, Debug, PartialEq, Eq, Structural)]
pub enum Busy {
    /// No command in flight; the status line follows [`Status::running`].
    Idle,
    /// The command of Start is running.
    Starting,
    /// The commands of Restart are running.
    Restarting,
    /// The command of Shutdown is running.
    ShuttingDown,
}

/// The status line: a transitional label while a command is in flight,
/// otherwise `Running`/`Stopped`.
pub open spec fn status_line(running: bool, busy: Busy) -> Seq<char> {
    match busy {
        Busy::Starting => "Starting..."@,
        Busy::Restarting => "Restarting..."@,
        Busy::ShuttingDown => "Shutting down..."@,
        Busy::Idle => if running {
            "Running"@
        } else {
            "Stopped"@
        },
    }
}

/// CPU use with one decimal, or dots until it is known.
pub open spec fn cpu_line(cpu: Option<nat>) -> Seq<char> {
    match cpu {
        Some(c) => "CPU: "@ + double::with_one_decimal(c) + "%"@,
        None => "CPU: ..."@,
    }
}

/// Memory in words.
pub open spec fn ram_line(mem: nat) -> Seq<char> {
    "RAM: "@ + memory::formatted(mem)
}

/// The status line, and CPU and memory only while idle and running.
pub open spec fn tooltip_text(st: StatusView, busy: Busy) -> Seq<char> {
    if busy != Busy::Idle || !st.running {
        status_line(st.running, busy)
    } else {
        status_line(st.running, busy) + "\n"@ + cpu_line(st.cpu) + "\n"@ + ram_line(st.mem as nat)
    }
}

/// `true` or `false`.
pub open spec fn truth(b: bool) -> Seq<char> {
    if b {
        "true"@
    } else {
        "false"@
    }
}

/// The log line of one poll.
pub open spec fn poll_text(force: bool, st: StatusView, changed: bool) -> Seq<char> {
    "poll force="@ + truth(force) + " -> running="@ + truth(st.running) + " pid="@ + text::decimal(
        st.pid as nat,
    ) + " cpu="@ + (match st.cpu {
        Some(c) => double::with_two_decimals(c),
        None => "-1.00"@,
    }) + " mem="@ + memory::formatted(st.mem as nat) + " changed="@ + truth(changed)
}

/// No numbers are shown while a command is in flight, nor while WSL2 is
/// stopped: the tooltip is then the same whatever they are.
pub proof fn law_no_numbers_unless_running_and_idle(a: StatusView, b: StatusView, busy: Busy)
    requires
        a.running == b.running,
        busy != Busy::Idle || !a.running,
    ensures
        tooltip_text(a, busy) == tooltip_text(b, busy),
        tooltip_text(a, busy) == status_line(a.running, busy),
{
}

/// While a command is in flight, whether WSL2 runs makes no difference to
/// what is shown.
pub proof fn law_command_hides_the_state(a: StatusView, b: StatusView, busy: Busy)
    requires
        busy != Busy::Idle,
    ensures
        tooltip_text(a, busy) == tooltip_text(b, busy),
{
}

/// The first line of the tooltip is the status line.
pub proof fn law_status_line_comes_first(st: StatusView, busy: Busy)
    ensures
        status_line(st.running, busy).is_prefix_of(tooltip_text(st, busy)),
{
    let line = status_line(st.running, busy);
    let whole = tooltip_text(st, busy);
    assert(whole.take(line.len() as int) =~= line);
}

/// The tooltip of a running, idle VM is its state, its CPU use and its memory.
/// CPU use is shown to the nearest tenth of a percent, or as dots where it is
/// not known. Memory below one gibibyte is shown in whole mebibytes; from
/// there on the number shown, read in hundredths of a gibibyte, differs from
/// the memory by at most half a hundredth (and by two parts in 2^53 more from
/// 2^53 bytes on).
pub proof fn law_tooltip_shows_the_numbers(st: StatusView) -> (r: (Seq<char>, nat, Seq<char>, nat))
    requires
        st.running,
    ensures
        ({
            let (cpu, tenths, gb, hundredths) = r;
            let t = tooltip_text(st, Busy::Idle);
            let b = st.mem as int;
            &&& st.cpu is None && b < 0x4000_0000 ==> t == "Running\nCPU: ...\nRAM: "@
                + text::decimal((b / 0x10_0000) as nat) + " MB"@
            &&& st.cpu is None && b >= 0x4000_0000 ==> t == "Running\nCPU: ...\nRAM: "@ + gb
                + " GB"@
            &&& st.cpu is Some && b < 0x4000_0000 ==> t == "Running\nCPU: "@ + cpu + "%\nRAM: "@
                + text::decimal((b / 0x10_0000) as nat) + " MB"@
            &&& st.cpu is Some && b >= 0x4000_0000 ==> t == "Running\nCPU: "@ + cpu
                + "%\nRAM: "@ + gb + " GB"@
            &&& st.cpu matches Some(c) ==> {
                &&& text::writes(cpu, 1, tenths)
                &&& -(double::one() as int) <= 2 * (tenths * double::one() - 10 * c)
                    <= double::one()
            }
            &&& b >= 0x4000_0000 ==> {
                &&& text::writes(gb, 2, hundredths)
                &&& b < 0x20_0000_0000_0000 ==> -0x4000_0000 <= 2 * (hundredths * 0x4000_0000
                    - b * 100) <= 0x4000_0000
                &&& -(0x4000_0000 + b / 0x2000_0000_0000) <= 2 * (hundredths * 0x4000_0000 - b
                    * 100) <= 0x4000_0000 + b / 0x2000_0000_0000
            }
        }),
{
    let c = match st.cpu {
        Some(c) => c,
        None => 0,
    };
    let cpu = double::with_one_decimal(c);
    let tenths = double::law_one_decimal(c);
    let (gb, hundredths) = memory::law_bytes_in_words(st.mem as nat);
    reveal_strlit("Running");
    reveal_strlit("\n");
    reveal_strlit("CPU: ");
    reveal_strlit("CPU: ...");
    reveal_strlit("RAM: ");
    reveal_strlit("%");
    reveal_strlit("Running\nCPU: ...\nRAM: ");
    reveal_strlit("Running\nCPU: ");
    reveal_strlit("%\nRAM: ");
    let t = tooltip_text(st, Busy::Idle);
    let ram = memory::formatted(st.mem as nat);
    if st.cpu is None {
        assert("Running\nCPU: ...\nRAM: "@ =~= "Running"@ + "\n"@ + "CPU: ..."@ + "\n"@ + "RAM: "@);
        assert(t =~= "Running\nCPU: ...\nRAM: "@ + ram);
        assert("Running\nCPU: ...\nRAM: "@ + (gb + " GB"@) =~= "Running\nCPU: ...\nRAM: "@ + gb
            + " GB"@);
    } else {
        let head = "Running\nCPU: "@ + cpu + "%\nRAM: "@;
        assert("Running\nCPU: "@ =~= "Running"@ + "\n"@ + "CPU: "@);
        assert("%\nRAM: "@ =~= "%"@ + "\n"@ + "RAM: "@);
        assert(t =~= head + ram);
        assert(head + (gb + " GB"@) =~= head + gb + " GB"@);
    }
    let mb = text::decimal((st.mem / 0x10_0000) as nat);
    assert("Running\nCPU: ...\nRAM: "@ + (mb + " MB"@) =~= "Running\nCPU: ...\nRAM: "@ + mb
        + " MB"@);
    let head = "Running\nCPU: "@ + cpu + "%\nRAM: "@;
    assert(head + (mb + " MB"@) =~= head + mb + " MB"@);
    (cpu, tenths, gb, hundredths)
}

/// The log line of a poll holds the whole process id, CPU use to the nearest
/// hundredth of a percent (or -1 where it is not known) and the memory as the
/// tooltip shows it.
pub proof fn law_poll_line_holds_the_numbers(force: bool, st: StatusView, changed: bool) -> (r: (
    Seq<char>,
    nat,
))
    ensures
        ({
            let (cpu, hundredths) = r;
            let yes = |b: bool|
                if b {
                    seq!['t', 'r', 'u', 'e']
                } else {
                    seq!['f', 'a', 'l', 's', 'e']
                };
            let idle = StatusView { running: true, cpu: None, ..st };
            &&& poll_text(force, st, changed) == "poll force="@ + yes(force) + " -> running="@
                + yes(st.running) + " pid="@ + text::decimal(st.pid as nat) + " cpu="@ + cpu
                + " mem="@ + tooltip_text(idle, Busy::Idle).skip(22) + " changed="@ + yes(changed)
            &&& st.cpu is None ==> cpu == "-1.00"@
            &&& st.cpu matches Some(c) ==> {
                &&& text::writes(cpu, 2, hundredths)
                &&& -(double::one() as int) <= 2 * (hundredths * double::one() - 100 * c)
                    <= double::one()
            }
        }),
{
    let c = match st.cpu {
        Some(c) => c,
        None => 0,
    };
    let hundredths = double::law_two_decimals(c);
    let cpu = match st.cpu {
        Some(c) => double::with_two_decimals(c),
        None => "-1.00"@,
    };
    reveal_strlit("true");
    reveal_strlit("false");
    assert("true"@ =~= seq!['t', 'r', 'u', 'e']);
    assert("false"@ =~= seq!['f', 'a', 'l', 's', 'e']);
    let idle = StatusView { running: true, cpu: None, ..st };
    reveal_strlit("Running");
    reveal_strlit("\n");
    reveal_strlit("CPU: ...");
    reveal_strlit("RAM: ");
    assert(tooltip_text(idle, Busy::Idle).skip(22) =~= memory::formatted(st.mem as nat));
    (cpu, hundredths)
}

/// Status line shared by the tooltip and the menu.
pub fn status_text(running: bool, busy: Busy) -> (r: &'static str)
    ensures
        r@ == status_line(running, busy),
{
    match busy {
        Busy::Starting => "Starting...",
        Busy::Restarting => "Restarting...",
        Busy::ShuttingDown => "Shutting down...",
        Busy::Idle => if running {
            "Running"
        } else {
            "Stopped"
        },
    }
}

/// Tooltip text: the status line, and CPU/RAM only while idle and running (a
/// transitional label, or `Stopped`, never has numbers to go with it).
pub fn tooltip(st: &Status, busy: Busy) -> (r: String)
    ensures
        r@ == tooltip_text(st@, busy),
{
    let label = status_text(st.running, busy);
    let mut r = label.to_string();
    if busy != Busy::Idle || !st.running {
        return r;
    }
    text::push_str(&mut r, "\n");
    text::push_str(&mut r, cpu_label(st).as_str());
    text::push_str(&mut r, "\n");
    text::push_str(&mut r, ram_label(st).as_str());
    r
}

/// `CPU: 12.4%`; shows `CPU: ...` until the second sample after the VM
/// appeared.
pub fn cpu_label(st: &Status) -> (r: String)
    ensures
        r@ == cpu_line(st@.cpu),
{
    match &st.cpu {
        Some(c) => {
            let mut r = "CPU: ".to_string();
            c.push_one_decimal(&mut r);
            text::push_str(&mut r, "%");
            r
        },
        None => "CPU: ...".to_string(),
    }
}

/// `RAM: 5.00 GB` (or `RAM: 768 MB` below 1 GiB).
pub fn ram_label(st: &Status) -> (r: String)
    ensures
        r@ == ram_line(st.mem as nat),
{
    let mut r = "RAM: ".to_string();
    text::push_str(&mut r, memory::format_bytes(st.mem).as_str());
    r
}

/// Appends `true` or `false` to `s`.
fn push_bool(s: &mut String, b: bool)
    ensures
        final(s)@ == old(s)@ + truth(b),
{
    if b {
        text::push_str(s, "true");
    } else {
        text::push_str(s, "false");
    }
}

/// The log line of one poll.
pub fn poll_line(force: bool, st: &Status, changed: bool) -> (r: String)
    ensures
        r@ == poll_text(force, st@, changed),
{
    let mut r = "poll force=".to_string();
    push_bool(&mut r, force);
    text::push_str(&mut r, " -> running=");
    push_bool(&mut r, st.running);
    text::push_str(&mut r, " pid=");
    text::push_decimal(&mut r, st.pid);
    text::push_str(&mut r, " cpu=");
    match &st.cpu {
        Some(c) => {
            c.push_two_decimals(&mut r);
        },
        None => {
            text::push_str(&mut r, "-1.00");
        },
    }
    text::push_str(&mut r, " mem=");
    text::push_str(&mut r, memory::format_bytes(st.mem).as_str());
    text::push_str(&mut r, " changed=");
    push_bool(&mut r, changed);
    r
}

} // verus!
