//! The desktop app's own decisions: where its data lives, what the tray menu
//! does, when the app may exit, when the backend counts as stopped, whether to
//! offer an update, and the order of the startup steps.
//!
//! The host must outlive every window: agent turns run in it, not in the UI,
//! so closing a window never stops it. Only an explicit Quit does.
use vstd::prelude::*;

use crate::paths::FsPath;
use crate::runtime::Runtime;
use crate::text::{chars_of, i32_text, same_chars, signed_decimal};
use crate::version::{version_order, version_order_exec, Order};

verus! {

/// The app's name, as dialogs and the tray show it.
pub const APP_TITLE: &'static str = "DSH Desktop";

/// How many installed versions to keep after an update: the current one
/// and one previous, as a rollback target.
pub const KEEP_VERSIONS: usize = 2;

/// Where the app keeps its things.
pub struct Shared {
    /// `<data>/runtimes`: one directory per installed harness version.
    pub runtimes: FsPath,
    /// `<data>/logs`: the app's log and the host's.
    pub logs: FsPath,
    /// The app's local data directory.
    pub data: FsPath,
    /// The host's working directory.
    pub workspace: FsPath,
}

impl Shared {
    /// The layout under the app's data directory. The harness treats its
    /// working directory as the default filesystem location; home is the least
    /// surprising choice for an app launched from a desktop icon, and the data
    /// directory stands in when there is no home.
    pub fn new(data: FsPath, home: Option<FsPath>) -> (s: Shared)
        ensures
            s.runtimes@ == data@.push("runtimes"@),
            s.logs@ == data@.push("logs"@),
            s.data@ == data@,
            home matches Some(h) ==> s.workspace@ == h@,
            home is None ==> s.workspace@ == data@,
    {
        let runtimes = data.join("runtimes");
        let logs = data.join("logs");
        let workspace = match home {
            Some(h) => h,
            None => data.duplicate(),
        };
        Shared { runtimes, logs, data, workspace }
    }
}

// ---------------------------------------------------------------------------
// The tray menu
// ---------------------------------------------------------------------------

/// The tray menu's commands.
#[derive(Clone, Copy, Debug, PartialEq, Eq, Structural)]
pub enum MenuCommand {
    Open,
    CheckUpdates,
    ToggleAutostart,
    ShowLogs,
    Quit,
}

impl MenuCommand {
    /// The menu item's id.
    pub open spec fn id_text(self) -> Seq<char> {
        match self {
            MenuCommand::Open => "open"@,
            MenuCommand::CheckUpdates => "update"@,
            MenuCommand::ToggleAutostart => "autostart"@,
            MenuCommand::ShowLogs => "logs"@,
            MenuCommand::Quit => "quit"@,
        }
    }

    /// The menu item's label.
    pub open spec fn label_text(self) -> Seq<char> {
        match self {
            MenuCommand::Open => "Open DeepSeek Harness"@,
            MenuCommand::CheckUpdates => "Check for updates…"@,
            MenuCommand::ToggleAutostart => "Start at login"@,
            MenuCommand::ShowLogs => "Show logs"@,
            MenuCommand::Quit => "Quit (stops the backend)"@,
        }
    }

    /// The menu item's id.
    pub fn id(self) -> (r: &'static str)
        ensures
            r@ == self.id_text(),
            self == MenuCommand::Open ==> r@ == "open"@,
            self == MenuCommand::CheckUpdates ==> r@ == "update"@,
            self == MenuCommand::ToggleAutostart ==> r@ == "autostart"@,
            self == MenuCommand::ShowLogs ==> r@ == "logs"@,
            self == MenuCommand::Quit ==> r@ == "quit"@,
    {
        match self {
            MenuCommand::Open => "open",
            MenuCommand::CheckUpdates => "update",
            MenuCommand::ToggleAutostart => "autostart",
            MenuCommand::ShowLogs => "logs",
            MenuCommand::Quit => "quit",
        }
    }

    /// The menu item's label.
    pub fn label(self) -> (r: &'static str)
        ensures
            r@ == self.label_text(),
            self == MenuCommand::Open ==> r@ == "Open DeepSeek Harness"@,
            self == MenuCommand::CheckUpdates ==> r@ == "Check for updates…"@,
            self == MenuCommand::ToggleAutostart ==> r@ == "Start at login"@,
            self == MenuCommand::ShowLogs ==> r@ == "Show logs"@,
            self == MenuCommand::Quit ==> r@ == "Quit (stops the backend)"@,
    {
        match self {
            MenuCommand::Open => "Open DeepSeek Harness",
            MenuCommand::CheckUpdates => "Check for updates…",
            MenuCommand::ToggleAutostart => "Start at login",
            MenuCommand::ShowLogs => "Show logs",
            MenuCommand::Quit => "Quit (stops the backend)",
        }
    }
}

/// The command a menu id stands for; other ids stand for nothing.
pub open spec fn command_of(id: Seq<char>) -> Option<MenuCommand> {
    if id == "open"@ {
        Some(MenuCommand::Open)
    } else if id == "update"@ {
        Some(MenuCommand::CheckUpdates)
    } else if id == "autostart"@ {
        Some(MenuCommand::ToggleAutostart)
    } else if id == "logs"@ {
        Some(MenuCommand::ShowLogs)
    } else if id == "quit"@ {
        Some(MenuCommand::Quit)
    } else {
        None
    }
}

fn text_is(text: &[char], literal: &str) -> (r: bool)
    ensures
        r == (text@ == literal@),
{
    same_chars(text, &chars_of(literal))
}

/// The command a menu event's id stands for.
pub fn menu_command(id: &str) -> (r: Option<MenuCommand>)
    ensures
        r == command_of(id@),
{
    let v = chars_of(id);
    if text_is(&v, "open") {
        Some(MenuCommand::Open)
    } else if text_is(&v, "update") {
        Some(MenuCommand::CheckUpdates)
    } else if text_is(&v, "autostart") {
        Some(MenuCommand::ToggleAutostart)
    } else if text_is(&v, "logs") {
        Some(MenuCommand::ShowLogs)
    } else if text_is(&v, "quit") {
        Some(MenuCommand::Quit)
    } else {
        None
    }
}

/// Every menu item's id leads back to its command.
pub proof fn law_menu_ids_round_trip(c: MenuCommand)
    ensures
        command_of(c.id_text()) == Some(c),
{
    reveal_strlit("open");
    reveal_strlit("update");
    reveal_strlit("autostart");
    reveal_strlit("logs");
    reveal_strlit("quit");
    assert("update"@.len() != "open"@.len());
    assert("autostart"@.len() != "open"@.len() && "autostart"@.len() != "update"@.len());
    assert("logs"@[0] != "open"@[0] && "logs"@.len() != "update"@.len() && "logs"@.len()
        != "autostart"@.len());
    assert("quit"@[0] != "open"@[0] && "quit"@.len() != "update"@.len() && "quit"@.len()
        != "autostart"@.len() && "quit"@[0] != "logs"@[0]);
}

/// Each menu item carries its own id and label: the item whose id is `logs`
/// reads "Show logs", the one whose id is `autostart` reads "Start at
/// login", and so on for all five.
pub proof fn law_menu_items(c: MenuCommand)
    ensures
        (c.id_text(), c.label_text()) == ("open"@, "Open DeepSeek Harness"@) || (
        c.id_text(),
        c.label_text(),
        ) == ("update"@, "Check for updates…"@) || (c.id_text(), c.label_text()) == (
            "autostart"@,
            "Start at login"@,
        ) || (c.id_text(), c.label_text()) == ("logs"@, "Show logs"@) || (
            c.id_text(),
            c.label_text(),
        ) == ("quit"@, "Quit (stops the backend)"@),
        c == MenuCommand::ShowLogs <==> c.id_text() == "logs"@,
        c == MenuCommand::ToggleAutostart <==> c.id_text() == "autostart"@,
        c == MenuCommand::ShowLogs ==> c.label_text() == "Show logs"@,
        c == MenuCommand::ToggleAutostart ==> c.label_text() == "Start at login"@,
        c == MenuCommand::Open ==> c.label_text() == "Open DeepSeek Harness"@,
        c == MenuCommand::CheckUpdates ==> c.label_text() == "Check for updates…"@,
        c == MenuCommand::Quit ==> c.label_text() == "Quit (stops the backend)"@,
{
    law_menu_ids_round_trip(c);
    reveal_strlit("open");
    reveal_strlit("update");
    reveal_strlit("autostart");
    reveal_strlit("logs");
    assert("update"@.len() != "open"@.len());
    assert("autostart"@.len() != "open"@.len() && "autostart"@.len() != "update"@.len());
    assert("logs"@[0] != "open"@[0] && "logs"@.len() != "update"@.len() && "logs"@.len()
        != "autostart"@.len());
    assert(command_of("logs"@) == Some(MenuCommand::ShowLogs));
    assert(command_of("autostart"@) == Some(MenuCommand::ToggleAutostart));
}

/// The one message shown when the UI is asked for before the host is up.
pub open spec fn still_starting() -> Seq<char> {
    "DeepSeek Harness is still starting."@
}

/// What asking for the UI shows.
pub enum WindowRequest {
    /// Open, or bring back, the window on the host's URL.
    Show(String),
    /// Say the host is still starting.
    Notice(String),
}

/// Asking for the UI (from the tray, or by launching the app again) shows
/// the host's page when its URL is known, and otherwise says it is still
/// starting.
pub fn window_request(url: &Option<String>) -> (r: WindowRequest)
    ensures
        url matches Some(u) ==> (r matches WindowRequest::Show(s) && s@ == u@),
        url is None ==> (r matches WindowRequest::Notice(m) && m@ == still_starting()),
{
    match url {
        Some(u) => WindowRequest::Show(u.clone()),
        None => WindowRequest::Notice(String::from_str("DeepSeek Harness is still starting.")),
    }
}

/// The autostart item flips the setting: whether to enable it, given
/// whether it is enabled now.
pub fn autostart_target(enabled: bool) -> (r: bool)
    ensures
        r == !enabled,
{
    !enabled
}

// ---------------------------------------------------------------------------
// Exiting
// ---------------------------------------------------------------------------

/// Whether to refuse a request to exit that carries this exit code. Closing
/// the last window asks to exit without a code, and must leave the service
/// running in the tray; only an explicit exit (with a code) may pass.
pub fn refuse_exit(code: Option<i32>) -> (r: bool)
    ensures
        r <==> code is None,
{
    code.is_none()
}

// ---------------------------------------------------------------------------
// Watching the host
// ---------------------------------------------------------------------------

/// What the watchdog does after a look at the host slot.
#[derive(Clone, Copy, Debug, PartialEq, Eq, Structural)]
pub enum WatchStep {
    /// The slot is empty: Quit already cleared it. Stop watching.
    StandDown,
    /// The host still runs (or could not be asked). Look again later.
    KeepWatching,
    /// The host exited on its own with this code: empty the slot, forget the
    /// record and the URL, close the window and say so. Then stop watching.
    Stopped(i32),
}

/// Decide after a look at the host slot: `None` when it is empty, else what
/// asking the host whether it exited returned.
pub fn watch_step(slot: Option<Result<Option<i32>, String>>) -> (r: WatchStep)
    ensures
        match slot {
            None => r == WatchStep::StandDown,
            Some(Ok(Some(code))) => r == WatchStep::Stopped(code),
            Some(_) => r == WatchStep::KeepWatching,
        },
{
    match slot {
        None => WatchStep::StandDown,
        Some(Ok(Some(code))) => WatchStep::Stopped(code),
        Some(_) => WatchStep::KeepWatching,
    }
}

/// What to say when the backend stopped on its own.
pub fn backend_stopped_message(code: i32) -> (r: String)
    ensures
        r@ == "The DeepSeek Harness backend stopped (exit code "@ + signed_decimal(code as int)
            + ").\n\nDetails are in the logs: \"Show logs\" in the tray menu."@,
{
    let mut r = String::from_str("The DeepSeek Harness backend stopped (exit code ");
    r.append(i32_text(code).as_str());
    r.append(").\n\nDetails are in the logs: \"Show logs\" in the tray menu.");
    r
}

// ---------------------------------------------------------------------------
// Updates
// ---------------------------------------------------------------------------

/// Whether to offer `published` as an update over `current`: only when it is
/// newer. A dist-tag can move backwards, and being offered a downgrade as an
/// "update" would be worse than being offered nothing.
pub fn offers_update(published: &str, current: &str) -> (r: bool)
    ensures
        r <==> version_order(published@, current@) == Order::Greater,
{
    version_order_exec(published, current) == Order::Greater
}

/// The question that offers an update.
pub fn update_question(published: &str, current: &str) -> (r: String)
    ensures
        r@ == "A newer DeepSeek Harness is available: "@ + published@ + ".\nInstalled: "@
            + current@
            + ".\n\nUpdate now?\n\nThe current version stays on disk, so you can go back to it."@,
{
    let mut r = String::from_str("A newer DeepSeek Harness is available: ");
    r.append(published);
    r.append(".\nInstalled: ");
    r.append(current);
    r.append(".\n\nUpdate now?\n\nThe current version stays on disk, so you can go back to it.");
    r
}

/// The tray's tooltip while an update installs.
pub fn updating_tooltip(published: &str) -> (r: String)
    ensures
        r@ == "DSH Desktop — updating to "@ + published@ + "…"@,
{
    let mut r = String::from_str("DSH Desktop — updating to ");
    r.append(published);
    r.append("…");
    r
}

/// What to say when an update failed: the previous version is intact and
/// untouched, so the app carries on with it.
pub open spec fn update_failed_text(
    published: Seq<char>,
    current: Seq<char>,
    error: Seq<char>,
) -> Seq<char> {
    "Updating to "@ + published + " failed; staying on "@ + current + ".\n\n"@ + error
}

/// What to say when an update failed.
pub fn update_failed_message(published: &str, current: &str, error: &str) -> (r: String)
    ensures
        r@ == update_failed_text(published@, current@, error@),
{
    let mut r = String::from_str("Updating to ");
    r.append(published);
    r.append(" failed; staying on ");
    r.append(current);
    r.append(".\n\n");
    r.append(error);
    r
}

/// Where an update offer is.
pub enum UpdateStage {
    /// Ask the registry for the latest version.
    Fetch,
    /// Ask the user whether to update to this version.
    Ask(String),
    /// Install this version, saying so in the tooltip.
    Install(String),
    /// Drop old versions, keeping the newest this many.
    Prune(usize),
    /// Show this error: the update failed, the current version stays.
    Report(String),
    /// The offer is over.
    Done,
}

/// What happened in an update step.
pub enum UpdateEvent {
    /// The registry's latest version, or why it could not say.
    Published(Result<String, String>),
    /// The user's answer: update or not.
    Answer(bool),
    /// The install's outcome.
    Installed(Result<(), String>),
    /// Old versions were pruned (or pruning failed, which changes nothing).
    Pruned,
    /// The error was shown.
    Shown,
}

/// The event fits the stage's step.
pub open spec fn update_fits(stage: UpdateStage, event: UpdateEvent) -> bool {
    match stage {
        UpdateStage::Fetch => event is Published,
        UpdateStage::Ask(_) => event is Answer,
        UpdateStage::Install(_) => event is Installed,
        UpdateStage::Prune(_) => event is Pruned,
        UpdateStage::Report(_) => event is Shown,
        UpdateStage::Done => true,
    }
}

/// How many steps at most are left from an update stage.
pub open spec fn update_rank(stage: UpdateStage) -> nat {
    match stage {
        UpdateStage::Fetch => 5,
        UpdateStage::Ask(_) => 4,
        UpdateStage::Install(_) => 3,
        UpdateStage::Prune(_) => 2,
        UpdateStage::Report(_) => 1,
        UpdateStage::Done => 0,
    }
}

/// The next step of an update offer over the running version `current`.
/// Being offline is not an error, it just means no offer; only a newer
/// version is offered; nothing is installed without a yes; a failed install
/// is reported and the current version stays; old versions are pruned only
/// after a successful install, keeping the current one and one previous.
pub fn update_next(current: &str, stage: UpdateStage, event: UpdateEvent) -> (r: UpdateStage)
    requires
        update_fits(stage, event),
    ensures
        match (stage, event) {
            (UpdateStage::Fetch, UpdateEvent::Published(Ok(p))) => if version_order(p@, current@)
                == Order::Greater {
                r matches UpdateStage::Ask(v) && v@ == p@
            } else {
                r is Done
            },
            (UpdateStage::Fetch, UpdateEvent::Published(Err(_))) => r is Done,
            (UpdateStage::Ask(v), UpdateEvent::Answer(true)) => r matches UpdateStage::Install(w)
                && w@ == v@,
            (UpdateStage::Ask(_), UpdateEvent::Answer(false)) => r is Done,
            (UpdateStage::Install(_), UpdateEvent::Installed(Ok(()))) => r matches UpdateStage::Prune(
                k,
            ) && k == KEEP_VERSIONS,
            (UpdateStage::Install(v), UpdateEvent::Installed(Err(e))) => r matches UpdateStage::Report(
                m,
            ) && m@ == update_failed_text(v@, current@, e@),
            (UpdateStage::Prune(_), _) => r is Done,
            (UpdateStage::Report(_), _) => r is Done,
            (UpdateStage::Done, _) => r is Done,
            _ => false,
        },
        // Never automatic: an install follows only a yes to the question.
        r is Install ==> stage is Ask && event == UpdateEvent::Answer(true),
        // Pruning follows only a successful install.
        r is Prune ==> stage is Install && event matches UpdateEvent::Installed(Ok(_)),
        // Every step before the end moves closer to it.
        !(stage is Done) ==> update_rank(r) < update_rank(stage),
{
    match (stage, event) {
        (UpdateStage::Fetch, UpdateEvent::Published(Ok(p))) => {
            if offers_update(p.as_str(), current) {
                UpdateStage::Ask(p)
            } else {
                UpdateStage::Done
            }
        },
        (UpdateStage::Ask(v), UpdateEvent::Answer(true)) => UpdateStage::Install(v),
        (UpdateStage::Install(_), UpdateEvent::Installed(Ok(()))) => UpdateStage::Prune(
            KEEP_VERSIONS,
        ),
        (UpdateStage::Install(v), UpdateEvent::Installed(Err(e))) => UpdateStage::Report(
            update_failed_message(v.as_str(), current, e.as_str()),
        ),
        _ => UpdateStage::Done,
    }
}

/// The outcome of checking for updates on demand.
pub enum UpdateCheck {
    /// Offer this newer version; afterwards say a restart is needed.
    Offer(String),
    /// Nothing newer: say so with this message.
    Latest(String),
    /// The check failed: say so with this message.
    Failed(String),
}

/// What to say after an update installed from the tray.
pub open spec fn restart_needed() -> Seq<char> {
    "The update is installed. It takes effect after a restart: choose Quit in the tray, then start the app again."@
}

/// What to say after an update installed from the tray.
pub fn restart_needed_message() -> (r: String)
    ensures
        r@ == restart_needed(),
{
    String::from_str(
        "The update is installed. It takes effect after a restart: choose Quit in the tray, then start the app again.",
    )
}

/// Decide a check for updates from what the registry answered (a version,
/// or why it could not) and the version now running (empty when none).
pub fn update_check(published: Result<String, String>, current: &str) -> (r: UpdateCheck)
    ensures
        match published {
            Ok(p) => if version_order(p@, current@) == Order::Greater {
                r matches UpdateCheck::Offer(v) && v@ == p@
            } else {
                r matches UpdateCheck::Latest(m) && m@ == "You are on the latest version: "@ + p@
                    + "."@
            },
            Err(e) => r matches UpdateCheck::Failed(m) && m@ == "Could not check for updates.\n\n"@
                + e@,
        },
{
    match published {
        Ok(p) => {
            if offers_update(p.as_str(), current) {
                UpdateCheck::Offer(p)
            } else {
                let mut m = String::from_str("You are on the latest version: ");
                m.append(p.as_str());
                m.append(".");
                UpdateCheck::Latest(m)
            }
        },
        Err(e) => {
            let mut m = String::from_str("Could not check for updates.\n\n");
            m.append(e.as_str());
            UpdateCheck::Failed(m)
        },
    }
}

// ---------------------------------------------------------------------------
// Startup
// ---------------------------------------------------------------------------

/// Where startup is.
pub enum BootStage {
    /// Reap a host left over from a hard-killed previous run; it still holds
    /// the runtime directory open.
    Reap,
    /// Find node.
    LocateNode,
    /// Find pnpm.
    LocatePnpm,
    /// Create the runtime directory.
    PrepareRuntimes,
    /// Find the newest runtime available.
    FindCurrent,
    /// None is available (a development build): ask the registry for the
    /// latest version.
    FetchLatest,
    /// Install this version.
    InstallLatest(String),
    /// Find the newest runtime again, after the first install.
    FindInstalled,
    /// Offer an update over this running version.
    OfferUpdate(String),
    /// Find the newest runtime again: an accepted update just added one.
    FindChosen,
    /// Start the host on this runtime.
    StartHost(Runtime),
    /// The host runs this version.
    Up(String),
    /// Startup failed, for this reason.
    Failed(String),
}

/// What happened in a startup step.
pub enum BootEvent {
    /// The step is done.
    Done,
    /// The step failed; holds why.
    Error(String),
    /// The newest runtime available, if any.
    Newest(Option<Runtime>),
    /// The registry's latest version.
    Published(String),
}

/// Why startup fails when, even after an install, nothing can run.
pub open spec fn nothing_available() -> Seq<char> {
    "no DeepSeek Harness version is available"@
}

/// The event fits the stage's step: finding a runtime gives the newest one,
/// asking the registry gives a version or an error, reaping and offering an
/// update cannot fail, and the other steps are done or fail.
pub open spec fn boot_fits(stage: BootStage, event: BootEvent) -> bool {
    match stage {
        BootStage::Reap | BootStage::OfferUpdate(_) => event is Done,
        BootStage::FindCurrent | BootStage::FindInstalled | BootStage::FindChosen => event is Newest,
        BootStage::FetchLatest => event is Published || event is Error,
        BootStage::Up(_) | BootStage::Failed(_) => true,
        _ => event is Done || event is Error,
    }
}

/// How many steps at most are left from a startup stage: every step moves
/// closer to the end, so startup always ends, up or failed.
pub open spec fn boot_rank(stage: BootStage) -> nat {
    match stage {
        BootStage::Reap => 12,
        BootStage::LocateNode => 11,
        BootStage::LocatePnpm => 10,
        BootStage::PrepareRuntimes => 9,
        BootStage::FindCurrent => 8,
        BootStage::FetchLatest => 7,
        BootStage::InstallLatest(_) => 6,
        BootStage::FindInstalled => 5,
        BootStage::OfferUpdate(_) => 4,
        BootStage::FindChosen => 3,
        BootStage::StartHost(_) => 2,
        BootStage::Up(_) => 0,
        BootStage::Failed(_) => 0,
    }
}

/// The next startup stage. Any failing step ends startup with its error;
/// a missing runtime is installed once from the registry; the host starts
/// on the newest runtime after the update offer.
pub fn boot_next(stage: BootStage, event: BootEvent) -> (r: BootStage)
    requires
        boot_fits(stage, event),
    ensures
        match (stage, event) {
            (BootStage::Reap, _) => r is LocateNode,
            (BootStage::LocateNode, BootEvent::Error(e)) => r matches BootStage::Failed(m) && m@
                == e@,
            (BootStage::LocateNode, _) => r is LocatePnpm,
            (BootStage::LocatePnpm, BootEvent::Error(e)) => r matches BootStage::Failed(m) && m@
                == e@,
            (BootStage::LocatePnpm, _) => r is PrepareRuntimes,
            (BootStage::PrepareRuntimes, BootEvent::Error(e)) => r matches BootStage::Failed(m)
                && m@ == e@,
            (BootStage::PrepareRuntimes, _) => r is FindCurrent,
            (BootStage::FindCurrent, BootEvent::Newest(Some(rt))) => r matches BootStage::OfferUpdate(
                v,
            ) && v@ == rt.version@,
            (BootStage::FindCurrent, _) => r is FetchLatest,
            (BootStage::FetchLatest, BootEvent::Published(v)) => r matches BootStage::InstallLatest(
                w,
            ) && w@ == v@,
            (BootStage::FetchLatest, BootEvent::Error(e)) => r matches BootStage::Failed(m) && m@
                == e@,
            (BootStage::FetchLatest, _) => false,
            (BootStage::InstallLatest(_), BootEvent::Error(e)) => r matches BootStage::Failed(m)
                && m@ == e@,
            (BootStage::InstallLatest(_), _) => r is FindInstalled,
            (BootStage::FindInstalled, BootEvent::Newest(Some(rt))) => r matches BootStage::OfferUpdate(
                v,
            ) && v@ == rt.version@,
            (BootStage::FindInstalled, _) => r matches BootStage::Failed(m) && m@
                == nothing_available(),
            (BootStage::OfferUpdate(_), _) => r is FindChosen,
            (BootStage::FindChosen, BootEvent::Newest(Some(rt))) => r matches BootStage::StartHost(
                s,
            ) && s@ == rt@,
            (BootStage::FindChosen, _) => r matches BootStage::Failed(m) && m@
                == nothing_available(),
            (BootStage::StartHost(rt), BootEvent::Error(e)) => r matches BootStage::Failed(m) && m@
                == e@,
            (BootStage::StartHost(rt), _) => r matches BootStage::Up(v) && v@ == rt.version@,
            (BootStage::Up(v), _) => r matches BootStage::Up(w) && w@ == v@,
            (BootStage::Failed(m), _) => r matches BootStage::Failed(n) && n@ == m@,
        },
        // Nothing is installed at startup unless no runtime at all was found;
        // an update is only ever offered.
        r is FetchLatest ==> stage is FindCurrent && event matches BootEvent::Newest(None),
        r is InstallLatest ==> stage is FetchLatest,
        // Every step before the end moves closer to it.
        !(stage is Up || stage is Failed) ==> boot_rank(r) < boot_rank(stage),
{
    match (stage, event) {
        (BootStage::Reap, _) => BootStage::LocateNode,
        (BootStage::LocateNode, BootEvent::Error(e)) => BootStage::Failed(e),
        (BootStage::LocateNode, _) => BootStage::LocatePnpm,
        (BootStage::LocatePnpm, BootEvent::Error(e)) => BootStage::Failed(e),
        (BootStage::LocatePnpm, _) => BootStage::PrepareRuntimes,
        (BootStage::PrepareRuntimes, BootEvent::Error(e)) => BootStage::Failed(e),
        (BootStage::PrepareRuntimes, _) => BootStage::FindCurrent,
        (BootStage::FindCurrent, BootEvent::Newest(Some(rt))) => BootStage::OfferUpdate(rt.version),
        (BootStage::FindCurrent, _) => BootStage::FetchLatest,
        (BootStage::FetchLatest, BootEvent::Published(v)) => BootStage::InstallLatest(v),
        (BootStage::FetchLatest, BootEvent::Error(e)) => BootStage::Failed(e),
        (BootStage::FetchLatest, _) => BootStage::FetchLatest,
        (BootStage::InstallLatest(_), BootEvent::Error(e)) => BootStage::Failed(e),
        (BootStage::InstallLatest(_), _) => BootStage::FindInstalled,
        (BootStage::FindInstalled, BootEvent::Newest(Some(rt))) => BootStage::OfferUpdate(
            rt.version,
        ),
        (BootStage::FindInstalled, _) => BootStage::Failed(
            String::from_str("no DeepSeek Harness version is available"),
        ),
        (BootStage::OfferUpdate(_), _) => BootStage::FindChosen,
        (BootStage::FindChosen, BootEvent::Newest(Some(rt))) => BootStage::StartHost(rt),
        (BootStage::FindChosen, _) => BootStage::Failed(
            String::from_str("no DeepSeek Harness version is available"),
        ),
        (BootStage::StartHost(_), BootEvent::Error(e)) => BootStage::Failed(e),
        (BootStage::StartHost(rt), _) => BootStage::Up(rt.version),
        (BootStage::Up(v), _) => BootStage::Up(v),
        (BootStage::Failed(m), _) => BootStage::Failed(m),
    }
}

/// The tray's tooltip on entering a startup stage, if it changes there.
pub fn boot_tooltip(stage: &BootStage) -> (r: Option<String>)
    ensures
        stage is Reap ==> (r matches Some(t) && t@ == "DSH Desktop — starting…"@),
        stage is FetchLatest ==> (r matches Some(t) && t@
            == "DSH Desktop — installing DeepSeek Harness…"@),
        stage matches BootStage::StartHost(rt) ==> (r matches Some(t) && t@
            == "DSH Desktop — starting "@ + rt.version@ + "…"@),
        stage matches BootStage::Up(v) ==> (r matches Some(t) && t@ == "DeepSeek Harness "@ + v@
            + " is running"@),
        stage is Failed ==> (r matches Some(t) && t@ == "DSH Desktop — not running"@),
        !(stage is Reap || stage is FetchLatest || stage is StartHost || stage is Up
            || stage is Failed) ==> r is None,
{
    match stage {
        BootStage::Reap => Some(String::from_str("DSH Desktop — starting…")),
        BootStage::FetchLatest => Some(String::from_str("DSH Desktop — installing DeepSeek Harness…")),
        BootStage::StartHost(rt) => {
            let mut t = String::from_str("DSH Desktop — starting ");
            t.append(rt.version.as_str());
            t.append("…");
            Some(t)
        },
        BootStage::Up(v) => {
            let mut t = String::from_str("DeepSeek Harness ");
            t.append(v.as_str());
            t.append(" is running");
            Some(t)
        },
        BootStage::Failed(_) => Some(String::from_str("DSH Desktop — not running")),
        _ => None,
    }
}

/// What to say when startup failed.
pub fn startup_failed_message(error: &str) -> (r: String)
    ensures
        r@ == "Could not start DeepSeek Harness.\n\n"@ + error@,
{
    let mut r = String::from_str("Could not start DeepSeek Harness.\n\n");
    r.append(error);
    r
}

} // verus!
