//! The tray program as a state machine: window messages, menu commands and
//! finished jobs come in, and what is to be done about them goes out.
//!
//! The window procedure is entered again while a menu or a dialog is up, so
//! nothing here waits: each method takes the state from one moment to the
//! next.
//!
//! Start boots WSL2, Shutdown (confirmed with a dialog, since it affects every
//! distribution) stops it, and Restart is Shutdown followed by Start. All
//! three are jobs: `wsl.exe` commands that run one after the other on a helper
//! thread, which posts [`WM_REFRESH_NOW`] when they are done.

use vstd::prelude::*;

use crate::cmdline;
use crate::config::Config;
use crate::config::Settings;
use crate::icon::Kind;
use crate::label;
use crate::label::Busy;
use crate::monitor;
use crate::monitor::Host;
use crate::monitor::Monitor;
use crate::monitor::Sample;
use crate::monitor::Status;
use crate::shell;
use crate::shell::Open;
use crate::shell::OpenView;
use crate::snapshot::Found;
use crate::text;
use crate::utf16;
use crate::wsl;

verus! {

/// The window is asked to close.
pub const WM_CLOSE: u32 = 0x0010;

/// The window is being destroyed.
pub const WM_DESTROY: u32 = 0x0002;

/// A context menu is asked for.
pub const WM_CONTEXTMENU: u32 = 0x007b;

/// A timer has run out.
pub const WM_TIMER: u32 = 0x0113;

/// First of the private messages.
pub const WM_APP: u32 = 0x8000;

/// The icon was selected with the mouse.
pub const NIN_SELECT: u32 = 0x0400;

/// The icon was selected with the keyboard.
pub const NIN_KEYSELECT: u32 = 0x0401;

/// Private message that the shell sends for tray-icon events. The event id is
/// in the low word of the second parameter.
pub const WM_TRAY_CALLBACK: u32 = 0x8001;

/// Posted by the helper thread once its commands have returned, so that the
/// state is looked at immediately instead of at the next timer tick.
pub const WM_REFRESH_NOW: u32 = 0x8002;

/// Id of the poll timer.
pub const TIMER_POLL: usize = 1;

/// Menu command ids.
pub const IDM_START: usize = 1;

pub const IDM_RESTART: usize = 2;

pub const IDM_SHUTDOWN: usize = 3;

pub const IDM_EXPLORER: usize = 4;

pub const IDM_TERMINAL: usize = 5;

pub const IDM_EXIT: usize = 6;

/// A menu item with a text.
pub const MF_STRING: u32 = 0;

/// A menu item that cannot be chosen.
pub const MF_GRAYED: u32 = 1;

/// A line between menu items.
pub const MF_SEPARATOR: u32 = 0x0800;

/// The button "Yes" of a dialog.
pub const IDYES: i32 = 6;

/// Smallest edge length of the icon in pixels.
pub const MIN_ICON_SIZE: usize = 16;

/// How often promotion is tried again before it is given up.
pub const PROMOTE_RETRIES: u32 = 6;

/// Something to be done.
#[derive(Clone, Copy, Debug, PartialEq, Eq, Structural)]
pub enum Reaction {
    /// Show the menu.
    ShowMenu,
    /// Look at the state of WSL2; `true` if it is to be shown even if it has
    /// not changed.
    Tick(bool),
    /// Try to have the icon shown next to the clock.
    Promote,
    /// Destroy the window.
    DestroyWindow,
    /// Stop the timer, remove the icon, destroy it, and end the program.
    TearDown,
    /// Add the icon to the notification area.
    AddIcon,
    /// Write or delete the autostart value.
    SyncAutostart,
    /// Start WSL2.
    Start,
    /// Set the poll timer to this many milliseconds.
    SetTimer(u32),
}

/// One line of the menu.
#[derive(Clone, Copy, Debug)]
pub struct MenuItem {
    /// `MF_*` bits.
    pub flags: u32,
    /// Command id.
    pub id: usize,
    /// Text, with `&` before the letter that chooses it.
    pub text: &'static str,
}

/// [`MenuItem`] with the characters of its text.
pub struct MenuItemView {
    pub flags: u32,
    pub id: usize,
    pub text: Seq<char>,
}

impl View for MenuItem {
    type V = MenuItemView;

    open spec fn view(&self) -> MenuItemView {
        MenuItemView { flags: self.flags, id: self.id, text: self.text@ }
    }
}

/// What a menu command comes to.
#[derive(Debug)]
pub enum Action {
    /// Nothing is to be done.
    Nothing,
    /// Run these `wsl.exe` commands one after the other.
    Run(Vec<String>),
    /// Ask whether to shut down.
    Confirm,
    /// Open something.
    Open(Open),
    /// End the program.
    Exit,
}

/// [`Action`] with the texts that its strings hold.
pub enum ActionView {
    Nothing,
    Run(Seq<Seq<char>>),
    Confirm,
    Open(OpenView),
    Exit,
}

impl View for Action {
    type V = ActionView;

    open spec fn view(&self) -> ActionView {
        match self {
            Action::Nothing => ActionView::Nothing,
            Action::Run(job) => ActionView::Run(text::texts(job@)),
            Action::Confirm => ActionView::Confirm,
            Action::Open(o) => ActionView::Open(o@),
            Action::Exit => ActionView::Exit,
        }
    }
}

/// What is shown in the notification area.
#[derive(Debug)]
pub struct Display {
    /// The icon to load, if another one than before is to be shown.
    pub load: Option<Kind>,
    /// Contents of the tooltip buffer.
    pub tip: Vec<u16>,
}

/// [`Display`] with the units of its tooltip.
pub struct DisplayView {
    pub load: Option<Kind>,
    pub tip: Seq<u16>,
}

impl View for Display {
    type V = DisplayView;

    open spec fn view(&self) -> DisplayView {
        DisplayView { load: self.load, tip: self.tip@ }
    }
}

/// What a look at the state of WSL2 comes to.
#[derive(Debug)]
pub struct Ticked {
    pub status: Status,
    /// Whether anything visible changed.
    pub changed: bool,
    /// What to show, if that is to be renewed.
    pub display: Option<Display>,
}

/// All state of the program but the handles.
pub struct App {
    /// The WSL2 sampler.
    pub mon: Monitor,
    /// What Start/Restart/Shutdown is doing right now. Blocks a second one of
    /// these from starting while one is already in flight.
    pub busy: Busy,
    /// The menu is open, or the command chosen from it (including any dialog
    /// it shows) has not finished.
    pub menu_open: bool,
    /// Id of the message that a new Explorer broadcasts; the icon has to be
    /// added again then. Zero if there is none.
    pub taskbar_created: u32,
    /// Which icon is shown, if one was ever loaded.
    pub last_icon: Option<Kind>,
    /// There is an icon.
    pub has_icon: bool,
    /// Promotion is settled.
    pub promoted: bool,
    /// Number of promotion attempts; Explorer creates the registry entry a
    /// little after the icon is added, so the first attempts may find
    /// nothing.
    pub promote_tries: u32,
    /// Path of the executable as Explorer records it.
    pub exe_path: String,
    /// Arguments this instance was started with.
    pub launch_args: Vec<String>,
    /// Settings loaded from the config file.
    pub config: Config,
}

/// [`App`] with the views of its parts.
pub struct AppView {
    pub mon: Sample,
    pub host: Host,
    pub proc_name: Seq<char>,
    pub snapshot_size: usize,
    pub busy: Busy,
    pub menu_open: bool,
    pub taskbar_created: u32,
    pub last_icon: Option<Kind>,
    pub has_icon: bool,
    pub promoted: bool,
    pub promote_tries: u32,
    pub exe_path: Seq<char>,
    pub launch_args: Seq<Seq<char>>,
    pub config: Settings,
}

impl View for App {
    type V = AppView;

    open spec fn view(&self) -> AppView {
        AppView {
            mon: self.mon@.sample,
            host: self.mon@.host,
            proc_name: self.mon@.proc_name,
            snapshot_size: self.mon@.snapshot_size,
            busy: self.busy,
            menu_open: self.menu_open,
            taskbar_created: self.taskbar_created,
            last_icon: self.last_icon,
            has_icon: self.has_icon,
            promoted: self.promoted,
            promote_tries: self.promote_tries,
            exe_path: self.exe_path@,
            launch_args: text::texts(self.launch_args@),
            config: self.config@,
        }
    }
}

/// The event id of a tray-icon message: the low word of its parameter.
pub open spec fn low_word(lparam: isize) -> int {
    lparam as int % 0x1_0000
}

/// Whether a tray-icon event opens the menu: a click, a selection with the
/// keyboard, or the wish for a context menu. The raw mouse messages that
/// arrive as well do not, so that the menu does not open twice.
pub open spec fn opens_menu(event: int) -> bool {
    event == WM_CONTEXTMENU || event == NIN_SELECT || event == NIN_KEYSELECT
}

/// What is to be done about a window message; `None` leaves it to the system.
pub open spec fn reactions(a: AppView, msg: u32, wparam: usize, lparam: isize) -> Option<
    Seq<Reaction>,
> {
    if msg == WM_TRAY_CALLBACK {
        if opens_menu(low_word(lparam)) {
            Some(seq![Reaction::ShowMenu])
        } else {
            Some(seq![])
        }
    } else if msg == WM_TIMER {
        if wparam == TIMER_POLL {
            Some(seq![Reaction::Tick(false), Reaction::Promote])
        } else {
            Some(seq![])
        }
    } else if msg == WM_REFRESH_NOW {
        Some(seq![Reaction::Tick(true)])
    } else if msg == WM_CLOSE {
        Some(seq![Reaction::DestroyWindow])
    } else if msg == WM_DESTROY {
        Some(seq![Reaction::TearDown])
    } else if msg != 0 && msg == a.taskbar_created {
        Some(seq![Reaction::AddIcon])
    } else {
        None
    }
}

/// The state after a window message: the end of a job makes the program idle
/// again, and the end of the window takes the icon with it.
pub open spec fn after_message(a: AppView, msg: u32) -> AppView {
    if msg == WM_REFRESH_NOW {
        AppView { busy: Busy::Idle, ..a }
    } else if msg == WM_DESTROY {
        AppView { has_icon: false, ..a }
    } else {
        a
    }
}

/// What is to be done when the program starts, before it waits for messages.
pub open spec fn startup_reactions(autoboot: bool, interval: u32) -> Seq<Reaction> {
    let first = seq![
        Reaction::Tick(true),
        Reaction::AddIcon,
        Reaction::Promote,
        Reaction::SyncAutostart,
    ];
    if autoboot {
        first.push(Reaction::Start).push(Reaction::SetTimer(interval))
    } else {
        first.push(Reaction::SetTimer(interval))
    }
}

/// The icon for the setting `icon`: `color` and `mono` pin it, anything else
/// follows the state of WSL2.
pub open spec fn icon_for(icon: Seq<char>, running: bool) -> Kind {
    if text::lowered_ascii(icon) == "color"@ {
        Kind::Color
    } else if text::lowered_ascii(icon) == "mono"@ {
        Kind::Mono
    } else if running {
        Kind::Color
    } else {
        Kind::Mono
    }
}

/// What is shown in the notification area.
pub open spec fn displayed(a: AppView) -> DisplayView {
    let kind = icon_for(a.config.icon, a.mon.cur.running);
    DisplayView {
        load: if a.last_icon != Some(kind) || !a.has_icon {
            Some(kind)
        } else {
            None
        },
        tip: utf16::tip(label::tooltip_text(a.mon.cur, a.busy)),
    }
}

/// What to show after a look at WSL2: nothing new where nothing visible
/// changed, the look was not forced and there is an icon.
pub open spec fn shown_after_tick(
    a: AppView,
    force: bool,
    now: u128,
    found: Option<Found>,
) -> Option<DisplayView> {
    if monitor::polled(a.host, a.mon, now, found).1 || force || !a.has_icon {
        Some(displayed(after_tick(a, now, found)))
    } else {
        None
    }
}

/// The state after a look at WSL2 that found `found`.
pub open spec fn after_tick(a: AppView, now: u128, found: Option<Found>) -> AppView {
    AppView { mon: monitor::polled(a.host, a.mon, now, found).0, ..a }
}

/// The menu: Start needs WSL2 stopped, Restart, Shutdown, Explorer and
/// Terminal need it running, and none of them can be chosen while a job is in
/// flight.
pub open spec fn menu(running: bool, busy: Busy) -> Seq<MenuItemView> {
    let stopped_only = flags_if(!running, busy);
    let running_only = flags_if(running, busy);
    seq![
        MenuItemView { flags: stopped_only, id: IDM_START, text: "&Start"@ },
        MenuItemView { flags: running_only, id: IDM_RESTART, text: "&Restart"@ },
        MenuItemView { flags: running_only, id: IDM_SHUTDOWN, text: "S&hutdown"@ },
        MenuItemView { flags: MF_SEPARATOR, id: 0, text: ""@ },
        MenuItemView { flags: running_only, id: IDM_EXPLORER, text: "&Explorer"@ },
        MenuItemView { flags: running_only, id: IDM_TERMINAL, text: "Ter&minal"@ },
        MenuItemView { flags: MF_SEPARATOR, id: 0, text: ""@ },
        MenuItemView { flags: MF_STRING, id: IDM_EXIT, text: "E&xit"@ },
    ]
}

/// The flags of a command that can be chosen if `available` and idle.
pub open spec fn flags_if(available: bool, busy: Busy) -> u32 {
    if available && busy == Busy::Idle {
        MF_STRING
    } else {
        MF_GRAYED
    }
}

/// Start: a job, unless WSL2 is running or another job is in flight.
pub open spec fn started(a: AppView) -> (AppView, Option<Seq<Seq<char>>>) {
    if a.busy != Busy::Idle || a.mon.cur.running {
        (a, None)
    } else {
        (
            AppView { busy: Busy::Starting, ..a },
            Some(seq![wsl::start_args(a.config.distroname)]),
        )
    }
}

/// Restart: a job, unless another one is in flight.
pub open spec fn restarted(a: AppView) -> (AppView, Option<Seq<Seq<char>>>) {
    if a.busy != Busy::Idle {
        (a, None)
    } else {
        (
            AppView { busy: Busy::Restarting, ..a },
            Some(seq!["--shutdown"@, wsl::start_args(a.config.distroname)]),
        )
    }
}

/// Shutdown, once the user has answered: a job if the answer is yes.
pub open spec fn answered(a: AppView, button: i32) -> (AppView, Option<Seq<Seq<char>>>) {
    if button == IDYES {
        (AppView { busy: Busy::ShuttingDown, ..a }, Some(seq!["--shutdown"@]))
    } else {
        (a, None)
    }
}

/// What a job, or none, is to the program.
pub open spec fn job_action(r: (AppView, Option<Seq<Seq<char>>>)) -> (AppView, ActionView) {
    match r.1 {
        Some(job) => (r.0, ActionView::Run(job)),
        None => (r.0, ActionView::Nothing),
    }
}

/// What the menu command `cmd` comes to (0 = dismissed without a choice).
pub open spec fn chosen(a: AppView, cmd: usize) -> (AppView, ActionView) {
    if cmd == IDM_START {
        job_action(started(a))
    } else if cmd == IDM_RESTART {
        job_action(restarted(a))
    } else if cmd == IDM_SHUTDOWN {
        if a.busy != Busy::Idle {
            (a, ActionView::Nothing)
        } else {
            (a, ActionView::Confirm)
        }
    } else if cmd == IDM_EXPLORER {
        (a, ActionView::Open(shell::explorer_target(a.config.distroname)))
    } else if cmd == IDM_TERMINAL {
        (a, ActionView::Open(shell::terminal_target(a.config.wtprofile, a.config.distroname)))
    } else if cmd == IDM_EXIT {
        (a, ActionView::Exit)
    } else {
        (a, ActionView::Nothing)
    }
}

/// Whether promotion is to be tried now.
pub open spec fn promotes(a: AppView) -> bool {
    !a.promoted && a.promote_tries <= PROMOTE_RETRIES && a.exe_path.len() > 0
}

/// The state while promotion is being tried.
pub open spec fn promoting(a: AppView) -> AppView {
    AppView { promote_tries: (a.promote_tries + 1) as u32, ..a }
}

/// How often promotion is tried, where each attempt in turn comes to the
/// next of `outcomes`.
pub open spec fn attempts(a: AppView, outcomes: Seq<bool>) -> nat
    decreases outcomes.len(),
{
    if outcomes.len() == 0 || !promotes(a) {
        0
    } else {
        1 + attempts(AppView { promoted: outcomes[0], ..promoting(a) }, outcomes.skip(1))
    }
}

/// The program and the world around it, as far as jobs are concerned.
pub struct World {
    pub app: AppView,
    /// How many jobs are in flight.
    pub in_flight: nat,
    /// The user is being asked whether to shut down.
    pub asking: bool,
}

/// What can happen.
pub enum Event {
    /// WSL2 is started as the program starts, before any menu is opened.
    Boot,
    /// The menu is opened.
    OpenMenu,
    /// A command is chosen from the open menu.
    Choose(usize),
    /// The question whether to shut down is answered.
    Reply(i32),
    /// The menu is closed.
    CloseMenu,
    /// A job ends, and says so.
    JobDone,
    /// Another window message arrives.
    Message(u32),
    /// WSL2 is looked at.
    Look(u128, Option<Found>),
}

/// When an event can happen: WSL2 is booted, and a menu opens, only while none
/// is open; a command comes from the open menu and an answer to the open question, and a job
/// ends only if there is one.
pub open spec fn can_happen(w: World, e: Event) -> bool {
    match e {
        Event::Boot => !w.app.menu_open,
        Event::OpenMenu => !w.app.menu_open,
        Event::Choose(_) => w.app.menu_open && !w.asking,
        Event::Reply(_) => w.asking,
        Event::CloseMenu => w.app.menu_open && !w.asking,
        Event::JobDone => w.in_flight > 0,
        Event::Message(msg) => msg != WM_REFRESH_NOW,
        Event::Look(_, _) => true,
    }
}

/// What an event does.
pub open spec fn happened(w: World, e: Event) -> World {
    match e {
        Event::Boot => {
            let r = started(w.app);
            World {
                app: r.0,
                in_flight: if r.1 is Some {
                    w.in_flight + 1
                } else {
                    w.in_flight
                },
                ..w
            }
        },
        Event::OpenMenu => World { app: AppView { menu_open: true, ..w.app }, ..w },
        Event::Choose(cmd) => {
            let r = chosen(w.app, cmd);
            World {
                app: r.0,
                in_flight: if r.1 is Run {
                    w.in_flight + 1
                } else {
                    w.in_flight
                },
                asking: r.1 is Confirm,
            }
        },
        Event::Reply(button) => {
            let r = answered(w.app, button);
            World {
                app: r.0,
                in_flight: if r.1 is Some {
                    w.in_flight + 1
                } else {
                    w.in_flight
                },
                asking: false,
            }
        },
        Event::CloseMenu => World { app: AppView { menu_open: false, ..w.app }, ..w },
        Event::JobDone => World {
            app: after_message(w.app, WM_REFRESH_NOW),
            in_flight: (w.in_flight - 1) as nat,
            ..w
        },
        Event::Message(msg) => World { app: after_message(w.app, msg), ..w },
        Event::Look(now, found) => World { app: after_tick(w.app, now, found), ..w },
    }
}

/// The program is busy just while a job is in flight, there is never more
/// than one, and the question whether to shut down is asked only while there
/// is none and the menu is not released.
pub open spec fn sound(w: World) -> bool {
    &&& w.in_flight == (if w.app.busy == Busy::Idle {
        0nat
    } else {
        1nat
    })
    &&& w.asking ==> w.app.menu_open && w.app.busy == Busy::Idle
}

/// Whatever happens, at most one job is in flight, and the program is busy
/// just while one is.
pub proof fn law_one_job_at_a_time(w: World, e: Event)
    requires
        sound(w),
        can_happen(w, e),
    ensures
        sound(happened(w, e)),
        happened(w, e).in_flight <= 1,
{
}

/// While a job is in flight no menu command starts another one or asks about
/// one, and the menu offers nothing but the end of the program.
pub proof fn law_busy_blocks_commands(a: AppView, cmd: usize)
    requires
        a.busy != Busy::Idle,
    ensures
        !(chosen(a, cmd).1 is Run),
        !(chosen(a, cmd).1 is Confirm),
        chosen(a, cmd).0 == a,
        forall|i: int|
            0 <= i < 7 ==> (#[trigger] menu(a.mon.cur.running, a.busy)[i]).flags != MF_STRING,
        menu(a.mon.cur.running, a.busy)[7] == menu(a.mon.cur.running, Busy::Idle)[7],
{
}

/// Of Start and Restart/Shutdown, the idle menu offers just the ones that
/// make sense, and what it offers is not refused.
pub proof fn law_offered_commands_work(a: AppView)
    requires
        a.busy == Busy::Idle,
    ensures
        menu(a.mon.cur.running, a.busy)[0].flags == MF_STRING <==> !a.mon.cur.running,
        menu(a.mon.cur.running, a.busy)[1].flags == MF_STRING <==> a.mon.cur.running,
        menu(a.mon.cur.running, a.busy)[2].flags == MF_STRING <==> a.mon.cur.running,
        !a.mon.cur.running ==> chosen(a, IDM_START).1 is Run,
        chosen(a, IDM_RESTART).1 is Run,
        chosen(a, IDM_SHUTDOWN).1 is Confirm,
{
}

/// Restart is Shutdown followed by Start.
pub proof fn law_restart_is_shutdown_then_start(a: AppView)
    requires
        a.busy == Busy::Idle,
    ensures
        ({
            let stopped = AppView {
                mon: Sample { cur: monitor::stopped(), ..a.mon },
                ..a
            };
            restarted(a).1->0 == answered(a, IDYES).1->0 + started(stopped).1->0
        }),
{
    let stopped = AppView { mon: Sample { cur: monitor::stopped(), ..a.mon }, ..a };
    assert(restarted(a).1->0 =~= answered(a, IDYES).1->0 + started(stopped).1->0);
}

/// Shutdown does nothing unless the answer is yes.
pub proof fn law_shutdown_needs_a_yes(a: AppView, button: i32)
    ensures
        answered(a, button).1 is Some <==> button == IDYES,
        button != IDYES ==> answered(a, button).0 == a,
{
}

/// The end of a job makes the program idle and has WSL2 looked at, and the
/// state found then is shown at once, whatever was going on and also where
/// it is the same as before: the tooltip no longer speaks of the job.
pub proof fn law_end_of_job_refreshes(
    a: AppView,
    wparam: usize,
    lparam: isize,
    now: u128,
    found: Option<Found>,
)
    ensures
        reactions(a, WM_REFRESH_NOW, wparam, lparam) == Some(seq![Reaction::Tick(true)]),
        ({
            let idle = after_message(a, WM_REFRESH_NOW);
            let next = after_tick(idle, now, found);
            let shown = shown_after_tick(idle, true, now, found);
            &&& next.busy == Busy::Idle
            &&& shown == Some(displayed(next))
            &&& shown->0.tip == utf16::tip(label::tooltip_text(next.mon.cur, Busy::Idle))
        }),
{
}

/// Where a look at WSL2 gives nothing new to show, what is shown already is
/// what would be shown.
pub proof fn law_nothing_shown_is_stale(a: AppView, force: bool, now: u128, found: Option<Found>)
    requires
        shown_after_tick(a, force, now, found) is None,
    ensures
        displayed(after_tick(a, now, found)) == displayed(a),
{
}

/// The end of the program leaves WSL2 as it is: it starts no job, whether it
/// is chosen from the menu or the window is closed.
pub proof fn law_exit_leaves_wsl_alone(a: AppView, wparam: usize, lparam: isize)
    ensures
        chosen(a, IDM_EXIT) == (a, ActionView::Exit),
        reactions(a, WM_CLOSE, wparam, lparam) == Some(seq![Reaction::DestroyWindow]),
        reactions(a, WM_DESTROY, wparam, lparam) == Some(seq![Reaction::TearDown]),
        after_message(a, WM_DESTROY).busy == a.busy,
{
}

/// After a restart of Explorer, which says so with a message of its own, the
/// icon is added again.
pub proof fn law_icon_survives_explorer(a: AppView, wparam: usize, lparam: isize)
    requires
        a.taskbar_created != 0,
        a.taskbar_created != WM_TRAY_CALLBACK,
        a.taskbar_created != WM_TIMER,
        a.taskbar_created != WM_REFRESH_NOW,
        a.taskbar_created != WM_CLOSE,
        a.taskbar_created != WM_DESTROY,
    ensures
        reactions(a, a.taskbar_created, wparam, lparam) == Some(seq![Reaction::AddIcon]),
        after_message(a, a.taskbar_created) == a,
{
}

/// The icon is the coloured one just while WSL2 runs, unless the settings pin
/// it.
pub proof fn law_icon_shows_the_state(icon: Seq<char>, running: bool)
    ensures
        text::lowered_ascii(icon) == "color"@ ==> icon_for(icon, running) == Kind::Color,
        text::lowered_ascii(icon) == "mono"@ ==> icon_for(icon, running) == Kind::Mono,
        text::lowered_ascii(icon) != "color"@ && text::lowered_ascii(icon) != "mono"@ ==> (
        icon_for(icon, running) == Kind::Color <==> running),
{
    reveal_strlit("color");
    reveal_strlit("mono");
    assert("color"@.len() != "mono"@.len());
}

/// Promotion is tried at most seven times, and not again once it is settled.
pub proof fn law_promotion_is_given_up(a: AppView, outcomes: Seq<bool>)
    ensures
        attempts(a, outcomes) <= (if a.promote_tries <= PROMOTE_RETRIES {
            PROMOTE_RETRIES + 1 - a.promote_tries
        } else {
            0
        }),
        a.promoted ==> attempts(a, outcomes) == 0,
    decreases outcomes.len(),
{
    if outcomes.len() > 0 && promotes(a) {
        law_promotion_is_given_up(
            AppView { promoted: outcomes[0], ..promoting(a) },
            outcomes.skip(1),
        );
    }
}

/// Once an icon has been loaded it is not loaded again until another one is
/// to be shown.
pub proof fn law_icon_is_loaded_once(a: AppView, kind: Kind)
    requires
        displayed(a).load == Some(kind),
    ensures
        displayed(AppView { last_icon: Some(kind), has_icon: true, ..a }).load is None,
{
}

/// A tray-icon message opens the menu for the events 0x7b, 0x400 and 0x401 in
/// the low word of its parameter, whatever stands above, and for no others.
pub proof fn law_which_clicks_open_the_menu(
    a: AppView,
    wparam: usize,
    lparam: isize,
    high: int,
    event: int,
)
    requires
        0 <= event < 0x1_0000,
        lparam == high * 0x1_0000 + event,
    ensures
        event == 0x7b || event == 0x400 || event == 0x401 ==> reactions(a, 0x8001, wparam, lparam)
            == Some(seq![Reaction::ShowMenu]),
        event != 0x7b && event != 0x400 && event != 0x401 ==> reactions(a, 0x8001, wparam, lparam)
            == Some(Seq::<Reaction>::empty()),
        after_message(a, 0x8001) == a,
{
    vstd::arithmetic::div_mod::lemma_fundamental_div_mod_converse(
        lparam as int,
        0x1_0000,
        high,
        event,
    );
}

/// The poll timer, which is the one with the number 1, has WSL2 looked at and
/// promotion tried; no other timer does anything.
pub proof fn law_only_the_poll_timer_counts(a: AppView, wparam: usize, lparam: isize)
    ensures
        wparam == 1 ==> reactions(a, 0x113, wparam, lparam) == Some(
            seq![Reaction::Tick(false), Reaction::Promote],
        ),
        wparam != 1 ==> reactions(a, 0x113, wparam, lparam) == Some(Seq::<Reaction>::empty()),
        after_message(a, 0x113) == a,
{
}

/// Every message that is not the program's own, nor one to close or destroy
/// the window, is left to the system and changes nothing, unless it is the
/// one that a new Explorer sends.
pub proof fn law_other_messages_are_left_alone(
    a: AppView,
    msg: u32,
    wparam: usize,
    lparam: isize,
)
    requires
        msg != 2,
        msg != 0x10,
        msg != 0x113,
        msg != 0x8001,
        msg != 0x8002,
    ensures
        after_message(a, msg) == a,
        msg == 0 || msg != a.taskbar_created ==> reactions(a, msg, wparam, lparam) is None,
        msg != 0 && msg == a.taskbar_created ==> reactions(a, msg, wparam, lparam) == Some(
            seq![Reaction::AddIcon],
        ),
{
}

/// The end of a job ends nothing but the job, and the end of the window takes
/// nothing but the icon with it.
pub proof fn law_what_messages_change(a: AppView, wparam: usize, lparam: isize)
    ensures
        after_message(a, 0x8002) == (AppView { busy: Busy::Idle, ..a }),
        reactions(a, 0x8002, wparam, lparam) == Some(seq![Reaction::Tick(true)]),
        after_message(a, 2) == (AppView { has_icon: false, ..a }),
        reactions(a, 2, wparam, lparam) == Some(seq![Reaction::TearDown]),
        after_message(a, 0x10) == a,
        reactions(a, 0x10, wparam, lparam) == Some(seq![Reaction::DestroyWindow]),
{
}

/// The program starts with a look at WSL2 that is shown in any case, adds the
/// icon after that, and ends by setting the timer to the interval as it is.
/// WSL2 is started just where that is wanted.
pub proof fn law_startup(autoboot: bool, interval: u32)
    ensures
        ({
            let r = startup_reactions(autoboot, interval);
            &&& r[0] == Reaction::Tick(true)
            &&& r[1] == Reaction::AddIcon
            &&& r[2] == Reaction::Promote
            &&& r[3] == Reaction::SyncAutostart
            &&& r.last() == Reaction::SetTimer(interval)
            &&& autoboot ==> r.len() == 6 && r[4] == Reaction::Start
            &&& !autoboot ==> r.len() == 5
        }),
{
}

/// Start, Restart and a confirmed Shutdown run `wsl.exe` commands just where
/// they may: Start while WSL2 is stopped, Start and Restart while nothing is
/// going on. They say what is going on from then on and change nothing else.
pub proof fn law_jobs(a: AppView, button: i32)
    ensures
        started(a).1 is Some <==> a.busy == Busy::Idle && !a.mon.cur.running,
        restarted(a).1 is Some <==> a.busy == Busy::Idle,
        answered(a, button).1 is Some <==> button == 6,
        started(a).1 is None ==> started(a).0 == a,
        restarted(a).1 is None ==> restarted(a).0 == a,
        answered(a, button).1 is None ==> answered(a, button).0 == a,
        started(a).1 matches Some(job) ==> {
            &&& started(a).0 == (AppView { busy: Busy::Starting, ..a })
            &&& job == seq![wsl::start_args(a.config.distroname)]
        },
        restarted(a).1 matches Some(job) ==> {
            &&& restarted(a).0 == (AppView { busy: Busy::Restarting, ..a })
            &&& job == seq!["--shutdown"@, wsl::start_args(a.config.distroname)]
        },
        answered(a, button).1 matches Some(job) ==> {
            &&& answered(a, button).0 == (AppView { busy: Busy::ShuttingDown, ..a })
            &&& job == seq!["--shutdown"@]
        },
{
}

/// What each number in the menu stands for: 1 and 2 run what Start and Restart
/// come to, 3 asks where nothing is going on, 4 and 5 open Explorer and a
/// terminal with the settings as they are, 6 ends the program, and any other
/// does nothing. From 3 on nothing changes by choosing.
pub proof fn law_menu_commands(a: AppView, cmd: usize)
    ensures
        ({
            let (next, action) = chosen(a, cmd);
            &&& cmd == 1 ==> next == started(a).0 && match started(a).1 {
                Some(job) => action == ActionView::Run(job),
                None => action is Nothing,
            }
            &&& cmd == 2 ==> next == restarted(a).0 && match restarted(a).1 {
                Some(job) => action == ActionView::Run(job),
                None => action is Nothing,
            }
            &&& cmd == 3 ==> (action is Confirm <==> a.busy == Busy::Idle)
            &&& cmd == 3 && a.busy != Busy::Idle ==> action is Nothing
            &&& cmd == 4 ==> action == ActionView::Open(shell::explorer_target(a.config.distroname))
            &&& cmd == 5 ==> action == ActionView::Open(
                shell::terminal_target(a.config.wtprofile, a.config.distroname),
            )
            &&& cmd == 6 ==> action is Exit
            &&& cmd == 0 || cmd > 6 ==> action is Nothing
            &&& cmd == 0 || cmd > 2 ==> next == a
        }),
{
}

/// The lines of the menu: their numbers and texts are always the same. Two
/// lines separate; the last can always be chosen; the first can be while
/// WSL2 is stopped and the others while it runs, where nothing is going on.
pub proof fn law_lines_of_the_menu(running: bool, busy: Busy, i: int)
    requires
        0 <= i < 8,
    ensures
        ({
            let m = menu(running, busy);
            &&& m.len() == 8
            &&& m[i].id == menu(true, Busy::Idle)[i].id
            &&& m[i].text == menu(true, Busy::Idle)[i].text
            &&& i == 0 ==> m[i].id == 1 && m[i].flags == (if busy == Busy::Idle && !running {
                0u32
            } else {
                1
            })
            &&& i == 1 || i == 2 ==> m[i].id == i + 1
            &&& i == 4 || i == 5 ==> m[i].id == i
            &&& i == 1 || i == 2 || i == 4 || i == 5 ==> m[i].flags == (if busy == Busy::Idle
                && running {
                0u32
            } else {
                1
            })
            &&& i == 3 || i == 6 ==> m[i].id == 0 && m[i].flags == 0x800
            &&& i == 7 ==> m[i].id == 6 && m[i].flags == 0
        }),
{
}

/// A look at WSL2 changes the sample and nothing else. What it found is shown
/// just where something visible changed, the look was forced, or there is no
/// icon.
pub proof fn law_what_a_look_changes(a: AppView, force: bool, now: u128, found: Option<Found>)
    ensures
        ({
            let next = after_tick(a, now, found);
            let changed = monitor::polled(a.host, a.mon, now, found).1;
            &&& next == (AppView { mon: next.mon, ..a })
            &&& next.mon == monitor::polled(a.host, a.mon, now, found).0
            &&& changed || force || !a.has_icon ==> shown_after_tick(a, force, now, found) == Some(
                displayed(next),
            )
            &&& !changed && !force && a.has_icon ==> shown_after_tick(a, force, now, found) is None
        }),
{
}

/// What is shown: the tooltip in full or its first 127 units, and an icon to
/// load just where that icon is not shown already.
pub proof fn law_what_is_shown(a: AppView, i: int)
    requires
        0 <= i < 128,
    ensures
        ({
            let kind = icon_for(a.config.icon, a.mon.cur.running);
            let u = utf16::encoded(label::tooltip_text(a.mon.cur, a.busy));
            let d = displayed(a);
            &&& d.load is None <==> a.has_icon && a.last_icon == Some(kind)
            &&& d.load matches Some(k) ==> k == kind
            &&& d.tip.len() == 128
            &&& i < u.len() && i < 127 ==> d.tip[i] == u[i]
            &&& i >= u.len() || i == 127 ==> d.tip[i] == 0
        }),
{
    utf16::law_tip_is_cut_off(label::tooltip_text(a.mon.cur, a.busy), i);
}

/// Whether `icon` is the word `word`, in capital or small letters.
pub open spec fn spells(icon: Seq<char>, word: Seq<char>) -> bool {
    icon.len() == word.len() && forall|i: int|
        0 <= i < icon.len() ==> (#[trigger] icon[i] == word[i] || icon[i] as int + 32
            == word[i] as int)
}

/// The settings pin the icon whatever the case of their letters, and nothing
/// but the two words does.
pub proof fn law_icon_setting(icon: Seq<char>, running: bool)
    ensures
        spells(icon, seq!['c', 'o', 'l', 'o', 'r']) ==> icon_for(icon, running) == Kind::Color,
        spells(icon, seq!['m', 'o', 'n', 'o']) ==> icon_for(icon, running) == Kind::Mono,
        !spells(icon, seq!['c', 'o', 'l', 'o', 'r']) && !spells(icon, seq!['m', 'o', 'n', 'o'])
            ==> icon_for(icon, running) == (if running {
            Kind::Color
        } else {
            Kind::Mono
        }),
{
    reveal_strlit("color");
    reveal_strlit("mono");
    let color = seq!['c', 'o', 'l', 'o', 'r'];
    let mono = seq!['m', 'o', 'n', 'o'];
    assert(color =~= "color"@);
    assert(mono =~= "mono"@);
    assert("color"@.len() != "mono"@.len());
    lemma_spells(icon, color);
    lemma_spells(icon, mono);
}

proof fn lemma_spells(icon: Seq<char>, word: Seq<char>)
    requires
        forall|i: int| 0 <= i < word.len() ==> 'a' <= #[trigger] word[i] <= 'z',
    ensures
        spells(icon, word) <==> text::lowered_ascii(icon) == word,
{
    let low = text::lowered_ascii(icon);
    if spells(icon, word) {
        assert forall|i: int| 0 <= i < icon.len() implies low[i] == word[i] by {
            assert(icon[i] == word[i] || icon[i] as int + 32 == word[i] as int);
            assert('a' <= word[i] <= 'z');
        }
        assert(low =~= word);
    }
    if low == word {
        assert(low.len() == icon.len());
        assert forall|i: int| 0 <= i < icon.len() implies (#[trigger] icon[i] == word[i]
            || icon[i] as int + 32 == word[i] as int) by {
            assert(low[i] == text::lower_ascii(icon[i]));
        }
    }
}

/// As long as promotion does not succeed it is tried seven times in all, and
/// no more; a program whose path is not known never tries it.
pub proof fn law_promotion_is_tried_seven_times(a: AppView, outcomes: Seq<bool>)
    requires
        !a.promoted,
        a.promote_tries <= 7,
        forall|i: int| 0 <= i < outcomes.len() ==> !(#[trigger] outcomes[i]),
    ensures
        a.exe_path.len() > 0 && outcomes.len() <= 7 - a.promote_tries ==> attempts(a, outcomes)
            == outcomes.len(),
        a.exe_path.len() > 0 && outcomes.len() >= 7 - a.promote_tries ==> attempts(a, outcomes)
            == 7 - a.promote_tries,
        a.exe_path.len() == 0 ==> attempts(a, outcomes) == 0,
    decreases outcomes.len(),
{
    if outcomes.len() > 0 && promotes(a) {
        let left = outcomes.skip(1);
        assert forall|i: int| 0 <= i < left.len() implies !(#[trigger] left[i]) by {
            assert(left[i] == outcomes[i + 1]);
        }
        law_promotion_is_tried_seven_times(
            AppView { promoted: outcomes[0], ..promoting(a) },
            left,
        );
    }
}

/// Trying promotion counts one attempt and changes nothing else.
pub proof fn law_attempt_is_counted(a: AppView)
    requires
        promotes(a),
    ensures
        promoting(a) == (AppView { promote_tries: promoting(a).promote_tries, ..a }),
        promoting(a).promote_tries == a.promote_tries + 1,
{
}

/// Edge length of the icon, from the one that the system reports.
pub open spec fn edge(metric: i32) -> usize {
    if metric >= MIN_ICON_SIZE {
        metric as usize
    } else {
        MIN_ICON_SIZE
    }
}

/// The icon is as large as the system says, but never smaller than 16 pixels.
pub proof fn law_icon_is_large_enough(metric: i32)
    ensures
        edge(metric) >= 16,
        edge(metric) >= metric,
        edge(metric) == 16 || edge(metric) == metric,
{
}

/// The low word of a message parameter.
fn to_low_word(lparam: isize) -> (r: u32)
    ensures
        r == low_word(lparam),
{
    if lparam >= 0 {
        (lparam as usize % 0x1_0000) as u32
    } else {
        0xffff - ((-(lparam + 1)) as usize % 0x1_0000) as u32
    }
}

/// A menu command that can be chosen if `available` and idle. Explorer and
/// Terminal use it too: both need a running, idle session.
fn action(available: bool, busy: Busy, id: usize, text: &'static str) -> (r: MenuItem)
    ensures
        r@ == (MenuItemView { flags: flags_if(available, busy), id, text: text@ }),
{
    let flags: u32 = if available && busy == Busy::Idle {
        MF_STRING
    } else {
        MF_GRAYED
    };
    MenuItem { flags, id, text }
}

/// The lines of the menu.
pub fn menu_items(running: bool, busy: Busy) -> (items: Vec<MenuItem>)
    ensures
        items@.map_values(|i: MenuItem| i@) == menu(running, busy),
{
    let mut items: Vec<MenuItem> = Vec::new();
    items.push(action(!running, busy, IDM_START, "&Start"));
    items.push(action(running, busy, IDM_RESTART, "&Restart"));
    items.push(action(running, busy, IDM_SHUTDOWN, "S&hutdown"));
    items.push(MenuItem { flags: MF_SEPARATOR, id: 0, text: "" });
    items.push(action(running, busy, IDM_EXPLORER, "&Explorer"));
    items.push(action(running, busy, IDM_TERMINAL, "Ter&minal"));
    items.push(MenuItem { flags: MF_SEPARATOR, id: 0, text: "" });
    items.push(MenuItem { flags: MF_STRING, id: IDM_EXIT, text: "E&xit" });
    assert(items@.map_values(|i: MenuItem| i@) =~= menu(running, busy));
    items
}

/// Title and text of the question whether to shut down.
pub fn shutdown_prompt() -> (r: (&'static str, &'static str))
    ensures
        r.0@ == "Shutdown WSL"@,
        r.1@
            == "Confirm shutting down WSL?\n\nAll running distributions will be terminated."@,
{
    (
        "Shutdown WSL",
        "Confirm shutting down WSL?\n\nAll running distributions will be terminated.",
    )
}

/// Edge length of the icon in pixels, from the one that the system reports.
pub fn icon_size(metric: i32) -> (r: usize)
    ensures
        r == edge(metric),
{
    if metric >= 16 {
        metric as usize
    } else {
        MIN_ICON_SIZE
    }
}

/// Picks the icon to show for the setting `icon`: `color`/`mono` pin it,
/// anything else (including empty) follows WSL2's state.
pub fn icon_kind(icon: &str, running: bool) -> (r: Kind)
    ensures
        r == icon_for(icon@, running),
{
    let cs = text::chars_of(icon);
    let lower = text::to_ascii_lowercase(cs.as_slice());
    if text::eq_str(lower.as_slice(), "color") {
        Kind::Color
    } else if text::eq_str(lower.as_slice(), "mono") {
        Kind::Mono
    } else if running {
        Kind::Color
    } else {
        Kind::Mono
    }
}

/// What is to be done when the program starts, before it waits for messages;
/// `interval` is that of the poll timer in milliseconds.
pub fn startup(autoboot: bool, interval: u32) -> (r: Vec<Reaction>)
    ensures
        r@ == startup_reactions(autoboot, interval),
{
    let mut r: Vec<Reaction> = Vec::new();
    r.push(Reaction::Tick(true));
    r.push(Reaction::AddIcon);
    r.push(Reaction::Promote);
    r.push(Reaction::SyncAutostart);
    if autoboot {
        r.push(Reaction::Start);
    }
    r.push(Reaction::SetTimer(interval));
    assert(r@ =~= startup_reactions(autoboot, interval));
    r
}

/// What the autostart value is to be: the command line that starts `exe` with
/// the arguments `args` again, or nothing if autostart is off. Fails where
/// the value is needed and `exe` is not known.
pub fn autostart_value(enable: bool, exe: Result<&str, String>, args: &Vec<String>) -> (r: Result<
    Option<String>,
    String,
>)
    ensures
        match r {
            Ok(Some(value)) => {
                &&& enable
                &&& exe is Ok
                &&& value@ == cmdline::command_line(exe->Ok_0@, text::texts(args@))
                &&& !exe->Ok_0@.contains('"') ==> cmdline::taken_apart(value@) == seq![
                    exe->Ok_0@,
                ] + text::texts(args@)
            },
            Ok(None) => !enable,
            Err(e) => enable && exe == Err::<&str, String>(e),
        },
{
    if !enable {
        return Ok(None);
    }
    match exe {
        Ok(path) => {
            proof {
                if !path@.contains('"') {
                    cmdline::law_launch_is_repeated(path@, text::texts(args@));
                }
            }
            Ok(Some(cmdline::launch_command(path, args)))
        },
        Err(e) => Err(e),
    }
}

impl App {
    /// The parts are well-formed.
    pub open spec fn well_formed(&self) -> bool {
        self.mon.well_formed()
    }

    /// The program as it starts: idle, without an icon, with nothing tried.
    pub fn new(
        mon: Monitor,
        exe_path: String,
        launch_args: Vec<String>,
        config: Config,
    ) -> (a: App)
        requires
            mon.well_formed(),
        ensures
            a.well_formed(),
            a@ == (AppView {
                mon: mon@.sample,
                host: mon@.host,
                proc_name: mon@.proc_name,
                snapshot_size: mon@.snapshot_size,
                busy: Busy::Idle,
                menu_open: false,
                taskbar_created: 0,
                last_icon: None,
                has_icon: false,
                promoted: false,
                promote_tries: 0,
                exe_path: exe_path@,
                launch_args: text::texts(launch_args@),
                config: config@,
            }),
    {
        App {
            mon,
            busy: Busy::Idle,
            menu_open: false,
            taskbar_created: 0,
            last_icon: None,
            has_icon: false,
            promoted: false,
            promote_tries: 0,
            exe_path,
            launch_args,
            config,
        }
    }

    /// Takes a window message. Returns what is to be done about it, and
    /// `None` for a message that is left to the system.
    pub fn handle(&mut self, msg: u32, wparam: usize, lparam: isize) -> (r: Option<Vec<Reaction>>)
        ensures
            match r {
                Some(rs) => reactions(old(self)@, msg, wparam, lparam) == Some(rs@),
                None => reactions(old(self)@, msg, wparam, lparam) is None,
            },
            final(self)@ == after_message(old(self)@, msg),
            old(self).well_formed() ==> final(self).well_formed(),
    {
        let mut rs: Vec<Reaction> = Vec::new();
        if msg == WM_TRAY_CALLBACK {
            let event: u32 = to_low_word(lparam);
            if event == WM_CONTEXTMENU || event == NIN_SELECT || event == NIN_KEYSELECT {
                rs.push(Reaction::ShowMenu);
            }
        } else if msg == WM_TIMER {
            if wparam == TIMER_POLL {
                rs.push(Reaction::Tick(false));
                rs.push(Reaction::Promote);
            }
        } else if msg == WM_REFRESH_NOW {
            self.busy = Busy::Idle;
            rs.push(Reaction::Tick(true));
        } else if msg == WM_CLOSE {
            rs.push(Reaction::DestroyWindow);
        } else if msg == WM_DESTROY {
            self.has_icon = false;
            rs.push(Reaction::TearDown);
        } else if msg != 0 && msg == self.taskbar_created {
            rs.push(Reaction::AddIcon);
        } else {
            return None;
        }
        assert(reactions(old(self)@, msg, wparam, lparam)->0 =~= rs@);
        Some(rs)
    }

    /// One poll cycle: takes over what a snapshot at the time `now` says, and
    /// says what to show if anything visible changed (or the icon does not
    /// exist yet). `force` has it shown in any case, as is needed after a
    /// change of [`busy`](Self::busy), which is not itself a change of the
    /// status.
    pub fn tick(&mut self, force: bool, now: u128, found: Option<Found>) -> (r: Ticked)
        requires
            old(self).well_formed(),
        ensures
            final(self).well_formed(),
            final(self)@ == after_tick(old(self)@, now, found),
            r.status@ == final(self)@.mon.cur,
            r.changed == monitor::polled(old(self)@.host, old(self)@.mon, now, found).1,
            match r.display {
                Some(d) => shown_after_tick(old(self)@, force, now, found) == Some(d@),
                None => shown_after_tick(old(self)@, force, now, found) is None,
            },
    {
        let (status, changed) = self.mon.poll(now, found);
        let display: Option<Display> = if changed || force || !self.has_icon {
            Some(self.display())
        } else {
            None
        };
        Ticked { status, changed, display }
    }

    /// What to show in the notification area now.
    pub fn display(&self) -> (r: Display)
        ensures
            r@ == displayed(self@),
    {
        let kind: Kind = icon_kind(self.config.icon.as_str(), self.mon.cur.running);
        let load: Option<Kind> = if self.last_icon != Some(kind) || !self.has_icon {
            Some(kind)
        } else {
            None
        };
        Display { load, tip: self.tip() }
    }

    /// Contents of the tooltip buffer.
    pub fn tip(&self) -> (u: Vec<u16>)
        ensures
            u@ == displayed(self@).tip,
    {
        utf16::set_tip(label::tooltip(&self.mon.cur, self.busy).as_str())
    }

    /// The icon `kind` has been loaded.
    pub fn icon_loaded(&mut self, kind: Kind)
        ensures
            final(self)@ == (AppView { last_icon: Some(kind), has_icon: true, ..old(self)@ }),
            old(self).well_formed() ==> final(self).well_formed(),
    {
        self.last_icon = Some(kind);
        self.has_icon = true;
    }

    /// Opens the menu; `None` while one is open already, or while a dialog
    /// launched from it is up.
    pub fn open_menu(&mut self) -> (r: Option<Vec<MenuItem>>)
        ensures
            match r {
                Some(items) => !old(self)@.menu_open && items@.map_values(|i: MenuItem| i@) == menu(
                    old(self)@.mon.cur.running,
                    old(self)@.busy,
                ),
                None => old(self)@.menu_open,
            },
            final(self)@ == (AppView { menu_open: true, ..old(self)@ }),
            old(self).well_formed() ==> final(self).well_formed(),
    {
        if self.menu_open {
            return None;
        }
        self.menu_open = true;
        Some(menu_items(self.mon.cur.running, self.busy))
    }

    /// Closes the menu, once the chosen command has finished.
    pub fn close_menu(&mut self)
        ensures
            final(self)@ == (AppView { menu_open: false, ..old(self)@ }),
            old(self).well_formed() ==> final(self).well_formed(),
    {
        self.menu_open = false;
    }

    /// Takes the command chosen from the menu (0 = dismissed without a
    /// choice).
    pub fn command(&mut self, cmd: usize) -> (r: Action)
        ensures
            (final(self)@, r@) == chosen(old(self)@, cmd),
            old(self).well_formed() ==> final(self).well_formed(),
    {
        if cmd == IDM_START {
            match self.start() {
                Some(job) => Action::Run(job),
                None => Action::Nothing,
            }
        } else if cmd == IDM_RESTART {
            match self.restart() {
                Some(job) => Action::Run(job),
                None => Action::Nothing,
            }
        } else if cmd == IDM_SHUTDOWN {
            if self.shutdown() {
                Action::Confirm
            } else {
                Action::Nothing
            }
        } else if cmd == IDM_EXPLORER {
            Action::Open(shell::open_explorer(self.config.distroname.as_str()))
        } else if cmd == IDM_TERMINAL {
            Action::Open(
                shell::open_terminal(
                    self.config.wtprofile.as_str(),
                    self.config.distroname.as_str(),
                ),
            )
        } else if cmd == IDM_EXIT {
            Action::Exit
        } else {
            Action::Nothing
        }
    }

    /// "Start": boots the configured distribution (or WSL's own default). The
    /// job is returned; there is none while WSL2 is already running or
    /// another job is in flight.
    pub fn start(&mut self) -> (r: Option<Vec<String>>)
        ensures
            match r {
                Some(job) => started(old(self)@) == (final(self)@, Some(text::texts(job@))),
                None => started(old(self)@) == (final(self)@, None::<Seq<Seq<char>>>),
            },
            old(self).well_formed() ==> final(self).well_formed(),
    {
        if self.busy != Busy::Idle || self.mon.cur.running {
            return None;
        }
        self.busy = Busy::Starting;
        let mut job: Vec<String> = Vec::new();
        job.push(wsl::start_wsl(self.config.distroname.as_str()));
        assert(text::texts(job@) =~= seq![wsl::start_args(old(self)@.config.distroname)]);
        Some(job)
    }

    /// "Shutdown": whether to ask for confirmation, which is so while no job
    /// is in flight.
    pub fn shutdown(&self) -> (ask: bool)
        ensures
            ask <==> self@.busy == Busy::Idle,
    {
        self.busy == Busy::Idle
    }

    /// The button that answered the question whether to shut down. The job is
    /// returned if it is to be done.
    pub fn shutdown_answered(&mut self, button: i32) -> (r: Option<Vec<String>>)
        ensures
            match r {
                Some(job) => answered(old(self)@, button) == (
                    final(self)@,
                    Some(text::texts(job@)),
                ),
                None => answered(old(self)@, button) == (final(self)@, None::<Seq<Seq<char>>>),
            },
            old(self).well_formed() ==> final(self).well_formed(),
    {
        if button != IDYES {
            return None;
        }
        self.busy = Busy::ShuttingDown;
        let mut job: Vec<String> = Vec::new();
        job.push(wsl::shutdown_wsl());
        assert(text::texts(job@) =~= seq!["--shutdown"@]);
        Some(job)
    }

    /// "Restart": shuts WSL2 down and boots it again. The job is returned;
    /// there is none while another one is in flight. Never prompts: choosing
    /// Restart from the menu is itself a deliberate action.
    pub fn restart(&mut self) -> (r: Option<Vec<String>>)
        ensures
            match r {
                Some(job) => restarted(old(self)@) == (final(self)@, Some(text::texts(job@))),
                None => restarted(old(self)@) == (final(self)@, None::<Seq<Seq<char>>>),
            },
            old(self).well_formed() ==> final(self).well_formed(),
    {
        if self.busy != Busy::Idle {
            return None;
        }
        self.busy = Busy::Restarting;
        let mut job: Vec<String> = Vec::new();
        job.push(wsl::shutdown_wsl());
        job.push(wsl::start_wsl(self.config.distroname.as_str()));
        assert(text::texts(job@) =~= seq![
            "--shutdown"@,
            wsl::start_args(old(self)@.config.distroname),
        ]);
        Some(job)
    }

    /// Whether to try promotion now, and if so counts the attempt. The entry
    /// that is looked for appears shortly after the icon is added, so this is
    /// retried a few times.
    pub fn promote_once(&mut self) -> (go: bool)
        ensures
            go == promotes(old(self)@),
            final(self)@ == (if go {
                promoting(old(self)@)
            } else {
                old(self)@
            }),
            old(self).well_formed() ==> final(self).well_formed(),
    {
        let path = text::chars_of(self.exe_path.as_str());
        if self.promoted || self.promote_tries > PROMOTE_RETRIES || path.len() == 0 {
            return false;
        }
        self.promote_tries = self.promote_tries + 1;
        true
    }

    /// What the attempt came to.
    pub fn promotion_tried(&mut self, settled: bool)
        ensures
            final(self)@ == (AppView { promoted: settled, ..old(self)@ }),
            old(self).well_formed() ==> final(self).well_formed(),
    {
        self.promoted = settled;
    }
}

} // verus!
