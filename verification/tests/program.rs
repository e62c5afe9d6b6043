//! The state machine of the program.

use windows_sys::Win32::UI::Shell as shell_api;
use windows_sys::Win32::UI::WindowsAndMessaging as window_api;
use wsltray::config::Config;
use wsltray::double::Double;
use wsltray::icon::Kind;
use wsltray::label::{cpu_label, poll_line, ram_label, status_text, tooltip, Busy};
use wsltray::monitor::{Monitor, Status};
use wsltray::snapshot::{CpuTime, Found};
use wsltray::tray::{
    autostart_value, icon_kind, icon_size, menu_items, shutdown_prompt, startup, Action, App,
    Reaction, IDM_EXIT, IDM_EXPLORER, IDM_RESTART, IDM_SHUTDOWN, IDM_START, IDM_TERMINAL, IDYES,
    MF_GRAYED, MF_SEPARATOR, MF_STRING, NIN_KEYSELECT, NIN_SELECT, TIMER_POLL, WM_APP, WM_CLOSE,
    WM_CONTEXTMENU, WM_DESTROY, WM_REFRESH_NOW, WM_TIMER, WM_TRAY_CALLBACK,
};

const SECOND: u128 = 1_000_000_000;

fn decimal(s: &str) -> Double {
    let cs: Vec<char> = s.chars().collect();
    Double::from_decimal(&cs)
}

fn app(settings: &str) -> App {
    App::new(
        Monitor::new("vmmemWSL", 4, 16 << 30, 0),
        r"C:\wsltray.exe".to_string(),
        vec!["-poll".to_string(), "2s".to_string()],
        Config::parse(settings),
    )
}

fn vm(ticks: i64) -> Option<Found> {
    Some(Found { pid: 7, cpu: CpuTime { user: ticks, kernel: 0 }, mem: 5 << 30 })
}

fn running(settings: &str) -> App {
    let mut a = app(settings);
    a.tick(false, 0, vm(0));
    a
}

fn job(a: Action) -> Vec<String> {
    match a {
        Action::Run(job) => job,
        other => panic!("no job but {:?}", other),
    }
}

fn shown(tip: &[u16]) -> String {
    let end = tip.iter().position(|&u| u == 0).unwrap();
    String::from_utf16(&tip[..end]).unwrap()
}

#[test]
fn stats_text() {
    let st = Status {
        running: true,
        cpu: Some(decimal("12.44")),
        mem: 5 << 30,
        mem_pct: decimal("8.44"),
        ..Default::default()
    };
    assert_eq!(cpu_label(&st), "CPU: 12.4%");
    assert_eq!(ram_label(&st), "RAM: 5.00 GB");
    assert_eq!(cpu_label(&Status { cpu: None, ..st.clone() }), "CPU: ...");
    assert_eq!(
        tooltip(&st, Busy::Idle),
        "Running\nCPU: 12.4%\nRAM: 5.00 GB"
    );
    assert_eq!(tooltip(&Status::default(), Busy::Idle), "Stopped");
}

#[test]
fn tooltip_hides_stats_while_busy() {
    let st = Status {
        running: true,
        cpu: Some(decimal("12.44")),
        mem: 5 << 30,
        ..Default::default()
    };
    assert_eq!(tooltip(&st, Busy::Starting), "Starting...");
    assert_eq!(tooltip(&st, Busy::Restarting), "Restarting...");
    assert_eq!(tooltip(&st, Busy::ShuttingDown), "Shutting down...");
    assert_eq!(status_text(false, Busy::Idle), "Stopped");
    assert_eq!(status_text(true, Busy::Idle), "Running");
}

#[test]
fn a_poll_is_logged_in_one_line() {
    let st = Status {
        running: true,
        pid: 42,
        cpu: Some(decimal("12.446")),
        mem: 768 << 20,
        ..Default::default()
    };
    assert_eq!(
        poll_line(true, &st, false),
        "poll force=true -> running=true pid=42 cpu=12.45 mem=768 MB changed=false"
    );
    assert_eq!(
        poll_line(false, &Status::default(), true),
        "poll force=false -> running=false pid=0 cpu=-1.00 mem=0 MB changed=true"
    );
}

#[test]
fn the_numbers_of_the_system() {
    assert_eq!(WM_CLOSE, window_api::WM_CLOSE);
    assert_eq!(WM_DESTROY, window_api::WM_DESTROY);
    assert_eq!(WM_CONTEXTMENU, window_api::WM_CONTEXTMENU);
    assert_eq!(WM_TIMER, window_api::WM_TIMER);
    assert_eq!(WM_APP, window_api::WM_APP);
    assert_eq!(WM_TRAY_CALLBACK, window_api::WM_APP + 1);
    assert_eq!(WM_REFRESH_NOW, window_api::WM_APP + 2);
    assert_eq!(NIN_SELECT, shell_api::NIN_SELECT);
    assert_eq!(NIN_KEYSELECT, shell_api::NIN_SELECT | shell_api::NINF_KEY);
    assert_eq!(MF_STRING, window_api::MF_STRING);
    assert_eq!(MF_GRAYED, window_api::MF_GRAYED);
    assert_eq!(MF_SEPARATOR, window_api::MF_SEPARATOR);
    assert_eq!(IDYES, window_api::IDYES);
}

#[test]
fn tray_events_open_the_menu() {
    let mut a = app("");
    for event in [WM_CONTEXTMENU, NIN_SELECT, NIN_KEYSELECT] {
        let with_id = (1 << 16) | event as isize;
        assert_eq!(a.handle(WM_TRAY_CALLBACK, 0, with_id), Some(vec![Reaction::ShowMenu]));
        let negative = event as isize - (1 << 20);
        assert_eq!(a.handle(WM_TRAY_CALLBACK, 0, negative), Some(vec![Reaction::ShowMenu]));
    }
    // Raw mouse messages.
    for event in [0x0200, 0x0201, 0x0202, 0x0204, 0] {
        assert_eq!(a.handle(WM_TRAY_CALLBACK, 0, event), Some(vec![]));
    }
    assert_eq!(a.handle(WM_TRAY_CALLBACK, 0, -1), Some(vec![]));
}

#[test]
fn other_messages() {
    let mut a = app("");
    a.taskbar_created = 0xc123;
    assert_eq!(
        a.handle(WM_TIMER, TIMER_POLL, 0),
        Some(vec![Reaction::Tick(false), Reaction::Promote])
    );
    assert_eq!(a.handle(WM_TIMER, 2, 0), Some(vec![]));
    assert_eq!(a.handle(WM_CLOSE, 0, 0), Some(vec![Reaction::DestroyWindow]));
    assert_eq!(a.handle(0xc123, 0, 0), Some(vec![Reaction::AddIcon]));
    assert_eq!(a.handle(0xc124, 0, 0), None);
    assert_eq!(a.handle(0, 0, 0), None);
    a.taskbar_created = 0;
    assert_eq!(a.handle(0, 0, 0), None);
    a.icon_loaded(Kind::Mono);
    assert_eq!(a.handle(WM_DESTROY, 0, 0), Some(vec![Reaction::TearDown]));
    assert!(!a.has_icon);
}

#[test]
fn the_end_of_a_job_makes_idle() {
    let mut a = app("");
    assert!(a.start().is_some());
    assert_eq!(a.busy, Busy::Starting);
    a.handle(WM_TIMER, TIMER_POLL, 0);
    assert_eq!(a.busy, Busy::Starting);
    assert_eq!(a.handle(WM_REFRESH_NOW, 0, 0), Some(vec![Reaction::Tick(true)]));
    assert_eq!(a.busy, Busy::Idle);
}

#[test]
fn a_start_that_failed_is_shown_at_once() {
    let mut a = app("");
    a.icon_loaded(Kind::Mono);
    a.tick(false, 0, None);
    assert!(a.start().is_some());
    assert_eq!(shown(&a.display().tip), "Starting...");
    assert_eq!(a.handle(WM_REFRESH_NOW, 0, 0), Some(vec![Reaction::Tick(true)]));
    let t = a.tick(true, SECOND, None);
    assert!(!t.changed);
    assert_eq!(shown(&t.display.unwrap().tip), "Stopped");
}

#[test]
fn an_unchanged_state_is_not_shown_again() {
    let mut a = running("");
    a.icon_loaded(Kind::Color);
    let t = a.tick(false, SECOND - 1, vm(5));
    assert!(!t.changed && t.display.is_none());
    assert!(a.tick(true, SECOND - 1, vm(5)).display.is_some());
}

#[test]
fn the_menu_offers_what_makes_sense() {
    let flags = |r: bool, b: Busy| menu_items(r, b).iter().map(|i| i.flags).collect::<Vec<u32>>();
    let (on, off, line) = (MF_STRING, MF_GRAYED, MF_SEPARATOR);
    assert_eq!(flags(false, Busy::Idle), [on, off, off, line, off, off, line, on]);
    assert_eq!(flags(true, Busy::Idle), [off, on, on, line, on, on, line, on]);
    for busy in [Busy::Starting, Busy::Restarting, Busy::ShuttingDown] {
        for r in [false, true] {
            assert_eq!(flags(r, busy), [off, off, off, line, off, off, line, on]);
        }
    }
    let items = menu_items(true, Busy::Idle);
    let texts: Vec<&str> = items.iter().map(|i| i.text).collect();
    assert_eq!(
        texts,
        ["&Start", "&Restart", "S&hutdown", "", "&Explorer", "Ter&minal", "", "E&xit"]
    );
    let ids: Vec<usize> = items.iter().map(|i| i.id).collect();
    assert_eq!(
        ids,
        [IDM_START, IDM_RESTART, IDM_SHUTDOWN, 0, IDM_EXPLORER, IDM_TERMINAL, 0, IDM_EXIT]
    );
}

#[test]
fn one_menu_at_a_time() {
    let mut a = app("");
    assert_eq!(a.open_menu().unwrap().len(), 8);
    assert!(a.open_menu().is_none());
    a.close_menu();
    assert!(a.open_menu().is_some());
}

#[test]
fn start_boots_the_configured_distribution() {
    let mut a = app("distroname = My Linux");
    assert_eq!(job(a.command(IDM_START)), ["--distribution \"My Linux\" -- exit"]);
    assert_eq!(a.busy, Busy::Starting);
    assert_eq!(shown(&a.tip()), "Starting...");
    let mut a = running("");
    assert!(matches!(a.command(IDM_START), Action::Nothing));
    assert_eq!(a.busy, Busy::Idle);
}

#[test]
fn restart_is_shutdown_and_start() {
    let mut a = running("distroname = Ubuntu");
    assert_eq!(
        job(a.command(IDM_RESTART)),
        ["--shutdown", "--distribution Ubuntu -- exit"]
    );
    assert_eq!(a.busy, Busy::Restarting);
    assert_eq!(shown(&a.tip()), "Restarting...");
}

#[test]
fn shutdown_asks_first() {
    let mut a = running("");
    assert!(matches!(a.command(IDM_SHUTDOWN), Action::Confirm));
    assert!(a.shutdown());
    assert_eq!(a.busy, Busy::Idle);
    assert!(a.shutdown_answered(7).is_none());
    assert_eq!(a.busy, Busy::Idle);
    assert_eq!(a.shutdown_answered(IDYES).unwrap(), ["--shutdown"]);
    assert_eq!(a.busy, Busy::ShuttingDown);
    assert!(!a.shutdown());
    let (title, text) = shutdown_prompt();
    assert_eq!(title, "Shutdown WSL");
    assert_eq!(
        text,
        "Confirm shutting down WSL?\n\nAll running distributions will be terminated."
    );
}

#[test]
fn one_job_at_a_time() {
    for first in [IDM_START, IDM_RESTART] {
        let mut a = app("");
        job(a.command(first));
        let busy = a.busy;
        for second in [IDM_START, IDM_RESTART, IDM_SHUTDOWN] {
            assert!(matches!(a.command(second), Action::Nothing));
        }
        assert!(a.start().is_none());
        assert!(a.restart().is_none());
        assert_eq!(a.busy, busy);
    }
}

#[test]
fn the_other_commands() {
    let mut a = running("distroname = Ubuntu\nwtprofile = dev");
    match a.command(IDM_EXPLORER) {
        Action::Open(o) => assert_eq!(o.file, r"\\wsl.localhost\Ubuntu"),
        other => panic!("{:?}", other),
    }
    match a.command(IDM_TERMINAL) {
        Action::Open(o) => assert_eq!((o.file.as_str(), o.params.as_str()), ("wt.exe", "--profile dev")),
        other => panic!("{:?}", other),
    }
    assert!(matches!(a.command(IDM_EXIT), Action::Exit));
    assert!(matches!(a.command(0), Action::Nothing));
    assert!(matches!(a.command(7), Action::Nothing));
}

#[test]
fn the_icon_follows_the_state_unless_pinned() {
    assert_eq!(icon_kind("", true), Kind::Color);
    assert_eq!(icon_kind("", false), Kind::Mono);
    assert_eq!(icon_kind("auto", true), Kind::Color);
    assert_eq!(icon_kind("COLOR", false), Kind::Color);
    assert_eq!(icon_kind("Mono", true), Kind::Mono);
    assert_eq!(icon_kind("mono ", true), Kind::Color);
    assert_eq!(icon_size(0), 16);
    assert_eq!(icon_size(-1), 16);
    assert_eq!(icon_size(16), 16);
    assert_eq!(icon_size(24), 24);
}

#[test]
fn the_icon_is_loaded_when_it_changes() {
    let mut a = app("");
    let t = a.tick(false, 0, None);
    assert!(!t.changed);
    assert_eq!(t.display.unwrap().load, Some(Kind::Mono));
    // It could not be loaded: tried again.
    assert_eq!(a.tick(false, SECOND, None).display.unwrap().load, Some(Kind::Mono));
    a.icon_loaded(Kind::Mono);
    assert!(a.tick(false, 2 * SECOND, None).display.is_none());
    assert_eq!(a.display().load, None);
    let t = a.tick(false, 3 * SECOND, vm(0));
    assert!(t.changed && t.status.running);
    let d = t.display.unwrap();
    assert_eq!(d.load, Some(Kind::Color));
    assert_eq!(shown(&d.tip), "Running\nCPU: ...\nRAM: 5.00 GB");
    a.icon_loaded(Kind::Color);
    let d = a.tick(false, 5 * SECOND, vm(20_000_000)).display.unwrap();
    assert_eq!(d.load, None);
    assert_eq!(shown(&d.tip), "Running\nCPU: 25.0%\nRAM: 5.00 GB");
    let d = a.tick(false, 6 * SECOND, None).display.unwrap();
    assert_eq!((d.load, shown(&d.tip)), (Some(Kind::Mono), "Stopped".to_string()));
}

#[test]
fn promotion_is_tried_seven_times() {
    let mut a = app("");
    let mut tries = 0;
    for _ in 0..20 {
        if a.promote_once() {
            tries += 1;
            a.promotion_tried(false);
        }
    }
    assert_eq!(tries, 7);
    let mut a = app("");
    assert!(a.promote_once());
    a.promotion_tried(true);
    assert!(!a.promote_once());
    let mut a = App::new(
        Monitor::new("vmmemWSL", 4, 0, 0),
        String::new(),
        vec![],
        Config::default(),
    );
    assert!(!a.promote_once());
}

#[test]
fn what_happens_first() {
    assert_eq!(
        startup(false, 5000),
        [
            Reaction::Tick(true),
            Reaction::AddIcon,
            Reaction::Promote,
            Reaction::SyncAutostart,
            Reaction::SetTimer(5000),
        ]
    );
    assert_eq!(startup(true, 1)[4..], [Reaction::Start, Reaction::SetTimer(1)]);
}

#[test]
fn the_autostart_value() {
    let a = app("");
    let args = &a.launch_args;
    assert_eq!(autostart_value(false, Ok("x"), args), Ok(None));
    assert_eq!(autostart_value(false, Err("e".to_string()), args), Ok(None));
    assert_eq!(autostart_value(true, Err("e".to_string()), args), Err("e".to_string()));
    assert_eq!(
        autostart_value(true, Ok(r"S:\w.exe"), args),
        Ok(Some("\"S:\\w.exe\" -poll 2s".to_string()))
    );
    let args = vec!["-log".to_string(), r"C:\My Logs\w.log".to_string()];
    assert_eq!(
        autostart_value(true, Ok(r"C:\Tools\wsltray.exe"), &args),
        Ok(Some(r#""C:\Tools\wsltray.exe" -log "C:\My Logs\w.log""#.to_string()))
    );
}
