use dshd::desktop::{
    autostart_target, backend_stopped_message, boot_next, boot_tooltip, menu_command,
    offers_update, refuse_exit, restart_needed_message, startup_failed_message, update_check,
    update_failed_message, update_next, update_question, updating_tooltip, watch_step,
    window_request, BootEvent, BootStage, MenuCommand, Shared, UpdateCheck, UpdateEvent,
    UpdateStage, WatchStep, WindowRequest, APP_TITLE, KEEP_VERSIONS,
};
use dshd::paths::FsPath;
use dshd::pnpm::{locate, BUNDLED, IN_CHECKOUT};
use dshd::runtime::bundled_runtime;

fn path(s: &str) -> FsPath {
    FsPath::new(s.to_string())
}

fn strings(items: &[&str]) -> Vec<String> {
    items.iter().map(|s| s.to_string()).collect()
}

#[test]
fn lays_out_the_data_directory() {
    let s = Shared::new(path("/data"), Some(path("/home/me")));
    assert_eq!(s.runtimes.parts, strings(&["/data", "runtimes"]));
    assert_eq!(s.logs.parts, strings(&["/data", "logs"]));
    assert_eq!(s.data.parts, strings(&["/data"]));
    assert_eq!(s.workspace.parts, strings(&["/home/me"]));
    let s = Shared::new(path("/data"), None);
    assert_eq!(s.workspace.parts, strings(&["/data"]));
    assert_eq!(APP_TITLE, "DSH Desktop");
    assert_eq!(KEEP_VERSIONS, 2);
}

#[test]
fn menu_ids_lead_back_to_their_commands() {
    let all = [
        MenuCommand::Open,
        MenuCommand::CheckUpdates,
        MenuCommand::ToggleAutostart,
        MenuCommand::ShowLogs,
        MenuCommand::Quit,
    ];
    for c in all {
        assert_eq!(menu_command(c.id()), Some(c));
    }
    assert_eq!(MenuCommand::CheckUpdates.id(), "update");
    assert_eq!(MenuCommand::Quit.label(), "Quit (stops the backend)");
    assert_eq!(MenuCommand::CheckUpdates.label(), "Check for updates…");
    assert_eq!(menu_command("tray"), None);
    assert_eq!(menu_command(""), None);
    assert_eq!(menu_command("Quit"), None);
}

#[test]
fn shows_the_window_only_once_the_url_is_known() {
    match window_request(&Some("http://127.0.0.1:5000/".to_string())) {
        WindowRequest::Show(u) => assert_eq!(u, "http://127.0.0.1:5000/"),
        _ => panic!("expected the window"),
    }
    match window_request(&None) {
        WindowRequest::Notice(m) => assert_eq!(m, "DeepSeek Harness is still starting."),
        _ => panic!("expected the notice"),
    }
}

#[test]
fn toggles_autostart() {
    assert!(autostart_target(false));
    assert!(!autostart_target(true));
}

#[test]
fn only_an_explicit_exit_may_pass() {
    assert!(refuse_exit(None));
    assert!(!refuse_exit(Some(0)));
    assert!(!refuse_exit(Some(1)));
}

#[test]
fn the_watchdog_reacts_to_an_exit() {
    assert_eq!(watch_step(None), WatchStep::StandDown);
    assert_eq!(watch_step(Some(Ok(None))), WatchStep::KeepWatching);
    assert_eq!(watch_step(Some(Err("io".to_string()))), WatchStep::KeepWatching);
    assert_eq!(watch_step(Some(Ok(Some(3)))), WatchStep::Stopped(3));
    assert_eq!(
        backend_stopped_message(-1),
        "The DeepSeek Harness backend stopped (exit code -1).\n\nDetails are in the logs: \"Show logs\" in the tray menu."
    );
    assert_eq!(
        backend_stopped_message(i32::MIN),
        "The DeepSeek Harness backend stopped (exit code -2147483648).\n\nDetails are in the logs: \"Show logs\" in the tray menu."
    );
    assert!(backend_stopped_message(0).contains("(exit code 0)"));
}

#[test]
fn offers_only_a_newer_version() {
    assert!(offers_update("0.1.10", "0.1.2"));
    assert!(!offers_update("0.1.2", "0.1.10"));
    assert!(!offers_update("0.1.1", "0.1.1"));
    assert!(!offers_update("0.1.1-rc.2", "0.1.1"));
    assert!(offers_update("0.1.1", ""));
}

#[test]
fn words_the_update_dialogs() {
    assert_eq!(
        update_question("0.2.0", "0.1.1"),
        "A newer DeepSeek Harness is available: 0.2.0.\nInstalled: 0.1.1.\n\nUpdate now?\n\nThe current version stays on disk, so you can go back to it."
    );
    assert_eq!(updating_tooltip("0.2.0"), "DSH Desktop — updating to 0.2.0…");
    assert_eq!(
        update_failed_message("0.2.0", "0.1.1", "pnpm add failed"),
        "Updating to 0.2.0 failed; staying on 0.1.1.\n\npnpm add failed"
    );
    assert_eq!(
        restart_needed_message(),
        "The update is installed. It takes effect after a restart: choose Quit in the tray, then start the app again."
    );
    assert_eq!(
        startup_failed_message("no DeepSeek Harness version is available"),
        "Could not start DeepSeek Harness.\n\nno DeepSeek Harness version is available"
    );
}

#[test]
fn checks_for_updates_on_demand() {
    match update_check(Ok("0.2.0".to_string()), "0.1.1") {
        UpdateCheck::Offer(v) => assert_eq!(v, "0.2.0"),
        _ => panic!("expected an offer"),
    }
    match update_check(Ok("0.1.1".to_string()), "0.1.1") {
        UpdateCheck::Latest(m) => assert_eq!(m, "You are on the latest version: 0.1.1."),
        _ => panic!("expected latest"),
    }
    match update_check(Err("npm registry is unreachable: offline".to_string()), "0.1.1") {
        UpdateCheck::Failed(m) => {
            assert_eq!(m, "Could not check for updates.\n\nnpm registry is unreachable: offline")
        }
        _ => panic!("expected a failure"),
    }
}

fn stage_name(s: &BootStage) -> &'static str {
    match s {
        BootStage::Reap => "Reap",
        BootStage::LocateNode => "LocateNode",
        BootStage::LocatePnpm => "LocatePnpm",
        BootStage::PrepareRuntimes => "PrepareRuntimes",
        BootStage::FindCurrent => "FindCurrent",
        BootStage::FetchLatest => "FetchLatest",
        BootStage::InstallLatest(_) => "InstallLatest",
        BootStage::FindInstalled => "FindInstalled",
        BootStage::OfferUpdate(_) => "OfferUpdate",
        BootStage::FindChosen => "FindChosen",
        BootStage::StartHost(_) => "StartHost",
        BootStage::Up(_) => "Up",
        BootStage::Failed(_) => "Failed",
    }
}

fn boot(events: Vec<BootEvent>) -> (Vec<&'static str>, BootStage) {
    let mut stage = BootStage::Reap;
    let mut seen = vec![stage_name(&stage)];
    for e in events {
        stage = boot_next(stage, e);
        seen.push(stage_name(&stage));
    }
    (seen, stage)
}

fn runtime(version: &str) -> Option<dshd::runtime::Runtime> {
    bundled_runtime(version, path("/opt/harness/bin.js"))
}

#[test]
fn a_release_starts_its_bundled_harness() {
    let (seen, last) = boot(vec![
        BootEvent::Done,
        BootEvent::Done,
        BootEvent::Done,
        BootEvent::Done,
        BootEvent::Newest(runtime("0.1.1")),
        BootEvent::Done,
        BootEvent::Newest(runtime("0.1.1")),
        BootEvent::Done,
    ]);
    assert_eq!(
        seen,
        vec![
            "Reap",
            "LocateNode",
            "LocatePnpm",
            "PrepareRuntimes",
            "FindCurrent",
            "OfferUpdate",
            "FindChosen",
            "StartHost",
            "Up"
        ]
    );
    match last {
        BootStage::Up(v) => assert_eq!(v, "0.1.1"),
        _ => panic!("expected the host up"),
    }
}

#[test]
fn a_development_build_installs_the_latest_first() {
    let mut stage = BootStage::FindCurrent;
    stage = boot_next(stage, BootEvent::Newest(None));
    assert!(matches!(stage, BootStage::FetchLatest));
    assert_eq!(
        boot_tooltip(&stage).as_deref(),
        Some("DSH Desktop — installing DeepSeek Harness…")
    );
    stage = boot_next(stage, BootEvent::Published("0.2.0".to_string()));
    match &stage {
        BootStage::InstallLatest(v) => assert_eq!(v, "0.2.0"),
        _ => panic!("expected an install"),
    }
    stage = boot_next(stage, BootEvent::Done);
    assert!(matches!(stage, BootStage::FindInstalled));
    stage = boot_next(stage, BootEvent::Newest(runtime("0.2.0")));
    match &stage {
        BootStage::OfferUpdate(v) => assert_eq!(v, "0.2.0"),
        _ => panic!("expected the update offer"),
    }
}

#[test]
fn startup_fails_with_the_failing_steps_reason() {
    let (seen, last) = boot(vec![BootEvent::Done, BootEvent::Error("Node.js was not found".to_string())]);
    assert_eq!(seen, vec!["Reap", "LocateNode", "Failed"]);
    match &last {
        BootStage::Failed(m) => assert_eq!(m, "Node.js was not found"),
        _ => panic!("expected a failure"),
    }
    assert_eq!(boot_tooltip(&last).as_deref(), Some("DSH Desktop — not running"));
    // A failure stays a failure.
    match boot_next(last, BootEvent::Done) {
        BootStage::Failed(m) => assert_eq!(m, "Node.js was not found"),
        _ => panic!("expected a failure"),
    }
    let s = boot_next(BootStage::FindInstalled, BootEvent::Newest(None));
    match s {
        BootStage::Failed(m) => assert_eq!(m, "no DeepSeek Harness version is available"),
        _ => panic!("expected a failure"),
    }
    let s = boot_next(BootStage::FindChosen, BootEvent::Newest(None));
    assert!(matches!(s, BootStage::Failed(_)));
    let s = boot_next(BootStage::FetchLatest, BootEvent::Error("offline".to_string()));
    assert!(matches!(s, BootStage::Failed(_)));
}

#[test]
fn the_tooltip_follows_startup() {
    assert_eq!(boot_tooltip(&BootStage::Reap).as_deref(), Some("DSH Desktop — starting…"));
    assert_eq!(boot_tooltip(&BootStage::LocateNode), None);
    assert_eq!(boot_tooltip(&BootStage::OfferUpdate("0.1.1".to_string())), None);
    let host = BootStage::StartHost(runtime("0.1.1").unwrap());
    assert_eq!(boot_tooltip(&host).as_deref(), Some("DSH Desktop — starting 0.1.1…"));
    assert_eq!(
        boot_tooltip(&BootStage::Up("0.1.1".to_string())).as_deref(),
        Some("DeepSeek Harness 0.1.1 is running")
    );
}

#[test]
fn prefers_the_bundled_pnpm() {
    assert_eq!(BUNDLED, "pnpm/bin/pnpm.cjs");
    assert_eq!(IN_CHECKOUT, "node_modules/pnpm/bin/pnpm.cjs");
    let p = locate(Some(path("/app/pnpm.cjs")), Some(path("/src/pnpm.cjs"))).unwrap();
    assert_eq!(p.parts, strings(&["/app/pnpm.cjs"]));
    let p = locate(None, Some(path("/src/pnpm.cjs"))).unwrap();
    assert_eq!(p.parts, strings(&["/src/pnpm.cjs"]));
    assert_eq!(
        locate(None, None).err().as_deref(),
        Some("pnpm was not found: this build has no staged resources. Build with `npm run build`.")
    );
}

fn update_name(s: &UpdateStage) -> String {
    match s {
        UpdateStage::Fetch => "Fetch".to_string(),
        UpdateStage::Ask(v) => format!("Ask {v}"),
        UpdateStage::Install(v) => format!("Install {v}"),
        UpdateStage::Prune(k) => format!("Prune {k}"),
        UpdateStage::Report(m) => format!("Report {m}"),
        UpdateStage::Done => "Done".to_string(),
    }
}

fn offer(current: &str, events: Vec<UpdateEvent>) -> Vec<String> {
    let mut stage = UpdateStage::Fetch;
    let mut seen = vec![update_name(&stage)];
    for e in events {
        stage = update_next(current, stage, e);
        seen.push(update_name(&stage));
    }
    seen
}

#[test]
fn an_accepted_update_installs_then_prunes() {
    let seen = offer(
        "0.1.1",
        vec![
            UpdateEvent::Published(Ok("0.2.0".to_string())),
            UpdateEvent::Answer(true),
            UpdateEvent::Installed(Ok(())),
            UpdateEvent::Pruned,
        ],
    );
    assert_eq!(seen, vec!["Fetch", "Ask 0.2.0", "Install 0.2.0", "Prune 2", "Done"]);
}

#[test]
fn nothing_is_installed_without_a_yes() {
    let seen = offer(
        "0.1.1",
        vec![UpdateEvent::Published(Ok("0.2.0".to_string())), UpdateEvent::Answer(false)],
    );
    assert_eq!(seen, vec!["Fetch", "Ask 0.2.0", "Done"]);
}

#[test]
fn no_offer_when_offline_or_not_newer() {
    assert_eq!(offer("0.1.1", vec![UpdateEvent::Published(Err("offline".to_string()))]), vec!["Fetch", "Done"]);
    assert_eq!(offer("0.1.1", vec![UpdateEvent::Published(Ok("0.1.1".to_string()))]), vec!["Fetch", "Done"]);
    assert_eq!(offer("0.2.0", vec![UpdateEvent::Published(Ok("0.1.10".to_string()))]), vec!["Fetch", "Done"]);
}

#[test]
fn a_failed_update_is_reported_and_nothing_is_pruned() {
    let seen = offer(
        "0.1.1",
        vec![
            UpdateEvent::Published(Ok("0.2.0".to_string())),
            UpdateEvent::Answer(true),
            UpdateEvent::Installed(Err("pnpm add failed".to_string())),
            UpdateEvent::Shown,
        ],
    );
    assert_eq!(
        seen,
        vec![
            "Fetch",
            "Ask 0.2.0",
            "Install 0.2.0",
            "Report Updating to 0.2.0 failed; staying on 0.1.1.\n\npnpm add failed",
            "Done"
        ]
    );
}
