use dshd::install::{
    install_action, install_next, install_plan, Arg, InstallAction, InstallError, InstallEvent,
    InstallPlan, InstallStage, PnpmRun, MANIFEST,
};
use dshd::paths::FsPath;

fn path(s: &str) -> FsPath {
    FsPath::new(s.to_string())
}

fn strings(items: &[&str]) -> Vec<String> {
    items.iter().map(|s| s.to_string()).collect()
}

fn plan() -> InstallPlan {
    install_plan(&path("/data/runtimes"), &path("/app/pnpm/bin/pnpm.cjs"), "0.2.0")
}

fn done() -> InstallEvent {
    InstallEvent::Done(Ok(()))
}

fn ran(success: bool, stdout: &str, stderr: &str) -> InstallEvent {
    InstallEvent::Ran(Ok(PnpmRun {
        success,
        stdout: stdout.to_string(),
        stderr: stderr.to_string(),
    }))
}

fn name(stage: &InstallStage) -> &'static str {
    match stage {
        InstallStage::ClearStaging => "ClearStaging",
        InstallStage::CreateStaging => "CreateStaging",
        InstallStage::WriteManifest => "WriteManifest",
        InstallStage::RunPnpm => "RunPnpm",
        InstallStage::CheckStaged => "CheckStaged",
        InstallStage::CheckTarget => "CheckTarget",
        InstallStage::RemoveTarget => "RemoveTarget",
        InstallStage::Promote => "Promote",
        InstallStage::CheckInstalled => "CheckInstalled",
        InstallStage::Discard(_) => "Discard",
        InstallStage::Succeeded => "Succeeded",
        InstallStage::Failed(_) => "Failed",
    }
}

/// Run the steps with these outcomes, in order; returns the stages passed.
fn run(plan: &InstallPlan, events: Vec<InstallEvent>) -> (Vec<&'static str>, InstallStage) {
    let mut stage = InstallStage::ClearStaging;
    let mut seen = vec![name(&stage)];
    for event in events {
        stage = install_next(plan, stage, event);
        seen.push(name(&stage));
    }
    (seen, stage)
}

#[test]
fn plans_the_directories_and_the_package_spec() {
    let p = plan();
    assert_eq!(p.version, "0.2.0");
    assert_eq!(p.target.parts, strings(&["/data/runtimes", "0.2.0"]));
    assert_eq!(p.staging.parts, strings(&["/data/runtimes", ".staging-0.2.0"]));
    assert_eq!(p.store.parts, strings(&["/data/runtimes", ".store"]));
    assert_eq!(p.pnpm.parts, strings(&["/app/pnpm/bin/pnpm.cjs"]));
    assert_eq!(p.spec, "@deepseek-ai/dsh@0.2.0");
}

#[test]
fn each_stage_names_its_action() {
    let p = plan();
    let staging = strings(&["/data/runtimes", ".staging-0.2.0"]);
    let target = strings(&["/data/runtimes", "0.2.0"]);
    match install_action(&p, &InstallStage::ClearStaging) {
        InstallAction::RemoveDir(d) => assert_eq!(d.parts, staging),
        _ => panic!("expected RemoveDir"),
    }
    match install_action(&p, &InstallStage::CreateStaging) {
        InstallAction::CreateDir(d) => assert_eq!(d.parts, staging),
        _ => panic!("expected CreateDir"),
    }
    match install_action(&p, &InstallStage::WriteManifest) {
        InstallAction::WriteFile(f, text) => {
            assert_eq!(f.parts, strings(&["/data/runtimes", ".staging-0.2.0", "package.json"]));
            assert_eq!(text, MANIFEST);
            assert_eq!(text, r#"{"name":"dsh-runtime","version":"0.0.0","private":true}"#);
        }
        _ => panic!("expected WriteFile"),
    }
    match install_action(&p, &InstallStage::CheckStaged) {
        InstallAction::IsFile(f) => assert_eq!(
            f.parts,
            strings(&[
                "/data/runtimes",
                ".staging-0.2.0",
                "node_modules",
                "@deepseek-ai",
                "dsh",
                "lib",
                "bin.js"
            ])
        ),
        _ => panic!("expected IsFile"),
    }
    match install_action(&p, &InstallStage::CheckTarget) {
        InstallAction::Exists(d) => assert_eq!(d.parts, target),
        _ => panic!("expected Exists"),
    }
    match install_action(&p, &InstallStage::RemoveTarget) {
        InstallAction::RemoveDir(d) => assert_eq!(d.parts, target),
        _ => panic!("expected RemoveDir"),
    }
    match install_action(&p, &InstallStage::Promote) {
        InstallAction::Rename(from, to) => {
            assert_eq!(from.parts, staging);
            assert_eq!(to.parts, target);
        }
        _ => panic!("expected Rename"),
    }
    match install_action(&p, &InstallStage::CheckInstalled) {
        InstallAction::IsFile(f) => assert_eq!(f.parts[..2], target[..]),
        _ => panic!("expected IsFile"),
    }
    let error = InstallError::BinMissing("x".to_string());
    match install_action(&p, &InstallStage::Discard(error)) {
        InstallAction::RemoveDir(d) => assert_eq!(d.parts, staging),
        _ => panic!("expected RemoveDir"),
    }
    assert!(matches!(install_action(&p, &InstallStage::Succeeded), InstallAction::Finish));
}

#[test]
fn runs_pnpm_with_a_hoisted_layout_and_the_shared_store() {
    let p = plan();
    let args = match install_action(&p, &InstallStage::RunPnpm) {
        InstallAction::RunNode(args) => args,
        _ => panic!("expected RunNode"),
    };
    let shown: Vec<String> = args
        .iter()
        .map(|a| match a {
            Arg::Text(t) => t.clone(),
            Arg::Path(p) => p.parts.join("/"),
        })
        .collect();
    assert_eq!(
        shown,
        strings(&[
            "/app/pnpm/bin/pnpm.cjs",
            "add",
            "@deepseek-ai/dsh@0.2.0",
            "--dir",
            "/data/runtimes/.staging-0.2.0",
            "--config.node-linker=hoisted",
            "--store-dir",
            "/data/runtimes/.store",
            "--reporter=append-only",
        ])
    );
    assert!(matches!(args[0], Arg::Path(_)));
    assert!(matches!(args[1], Arg::Text(_)));
}

#[test]
fn a_clean_install_promotes_the_staged_copy() {
    let p = plan();
    let (seen, last) = run(
        &p,
        vec![
            done(),
            done(),
            done(),
            ran(true, "", ""),
            InstallEvent::Answer(true),
            InstallEvent::Answer(false),
            done(),
            InstallEvent::Answer(true),
        ],
    );
    assert_eq!(
        seen,
        vec![
            "ClearStaging",
            "CreateStaging",
            "WriteManifest",
            "RunPnpm",
            "CheckStaged",
            "CheckTarget",
            "Promote",
            "CheckInstalled",
            "Succeeded"
        ]
    );
    assert!(matches!(last, InstallStage::Succeeded));
}

#[test]
fn an_existing_copy_is_replaced() {
    let p = plan();
    let (seen, _) = run(
        &p,
        vec![
            done(),
            done(),
            done(),
            ran(true, "", ""),
            InstallEvent::Answer(true),
            InstallEvent::Answer(true),
            done(),
            done(),
            InstallEvent::Answer(true),
        ],
    );
    assert_eq!(&seen[5..], ["CheckTarget", "RemoveTarget", "Promote", "CheckInstalled", "Succeeded"]);
}

#[test]
fn a_failed_pnpm_run_discards_the_staging_and_reports_both_streams() {
    let p = plan();
    let (seen, last) = run(
        &p,
        vec![done(), done(), done(), ran(false, "  ERR_PNPM_FETCH_404\n", "\nWARN deprecated  "), done()],
    );
    assert_eq!(&seen[4..], ["Discard", "Failed"]);
    match last {
        InstallStage::Failed(e) => {
            assert!(matches!(e, InstallError::PnpmFailed { .. }));
            assert_eq!(
                e.message(),
                "pnpm add @deepseek-ai/dsh@0.2.0 failed:\nERR_PNPM_FETCH_404\nWARN deprecated"
            );
        }
        _ => panic!("expected a failure"),
    }
}

#[test]
fn a_staged_install_without_bin_js_is_never_promoted() {
    let p = plan();
    let (seen, last) =
        run(&p, vec![done(), done(), done(), ran(true, "", ""), InstallEvent::Answer(false), done()]);
    assert!(!seen.contains(&"Promote"));
    match last {
        InstallStage::Failed(e) => assert_eq!(
            e.message(),
            "@deepseek-ai/dsh@0.2.0 installed successfully but bin.js is missing"
        ),
        _ => panic!("expected a failure"),
    }
}

#[test]
fn a_held_target_explains_the_running_host() {
    let p = plan();
    let (_, last) = run(
        &p,
        vec![
            done(),
            done(),
            done(),
            ran(true, "", ""),
            InstallEvent::Answer(true),
            InstallEvent::Answer(true),
            InstallEvent::Done(Err("Directory not empty".to_string())),
            done(),
        ],
    );
    match last {
        InstallStage::Failed(e) => assert_eq!(
            e.message(),
            "cannot replace the installed version 0.2.0: Directory not empty. Its files are most likely held open by a running DeepSeek Harness."
        ),
        _ => panic!("expected a failure"),
    }
}

#[test]
fn early_failures_stop_the_install() {
    let p = plan();
    let fail = |m: &str| InstallEvent::Done(Err(m.to_string()));
    let (_, last) = run(&p, vec![done(), fail("denied")]);
    match last {
        InstallStage::Failed(e) => {
            assert_eq!(e.message(), "cannot create the staging directory: denied")
        }
        _ => panic!("expected a failure"),
    }
    let (_, last) = run(&p, vec![done(), done(), fail("disk full")]);
    match last {
        InstallStage::Failed(e) => {
            assert_eq!(e.message(), "cannot write the staging manifest: disk full")
        }
        _ => panic!("expected a failure"),
    }
    let (_, last) =
        run(&p, vec![done(), done(), done(), InstallEvent::Ran(Err("not found".to_string()))]);
    match last {
        InstallStage::Failed(e) => assert_eq!(e.message(), "cannot run pnpm through node: not found"),
        _ => panic!("expected a failure"),
    }
}

#[test]
fn a_failed_promotion_discards_the_staging_copy() {
    let p = plan();
    let (seen, _) = run(
        &p,
        vec![
            done(),
            done(),
            done(),
            ran(true, "", ""),
            InstallEvent::Answer(true),
            InstallEvent::Answer(false),
            InstallEvent::Done(Err("cross-device link".to_string())),
            done(),
        ],
    );
    assert_eq!(&seen[6..], ["Promote", "Discard", "Failed"]);
}

#[test]
fn late_failures_are_reported() {
    let p = plan();
    let (_, last) = run(
        &p,
        vec![
            done(),
            done(),
            done(),
            ran(true, "", ""),
            InstallEvent::Answer(true),
            InstallEvent::Answer(false),
            InstallEvent::Done(Err("cross-device link".to_string())),
            done(),
        ],
    );
    match last {
        InstallStage::Failed(e) => {
            assert_eq!(e.message(), "cannot promote the staged install: cross-device link")
        }
        _ => panic!("expected a failure"),
    }
    let (_, last) = run(
        &p,
        vec![
            done(),
            done(),
            done(),
            ran(true, "", ""),
            InstallEvent::Answer(true),
            InstallEvent::Answer(false),
            done(),
            InstallEvent::Answer(false),
        ],
    );
    match last {
        InstallStage::Failed(e) => assert_eq!(
            e.message(),
            "@deepseek-ai/dsh@0.2.0 installed without the expected bin.js"
        ),
        _ => panic!("expected a failure"),
    }
}

#[test]
fn the_end_stages_stay_put() {
    let p = plan();
    let s = install_next(&p, InstallStage::Succeeded, done());
    assert!(matches!(s, InstallStage::Succeeded));
    let f = install_next(&p, InstallStage::Failed(InstallError::Promote("x".to_string())), done());
    match f {
        InstallStage::Failed(InstallError::Promote(m)) => assert_eq!(m, "x"),
        _ => panic!("expected the same failure"),
    }
}
