//! Installing one version of the harness into its own directory.
//!
//! The install runs as a sequence of steps. Each step names one action on
//! the filesystem or one run of pnpm; the caller performs it and reports the
//! outcome, and the outcome decides the next step. The version is installed
//! into a staging directory and promoted to its own directory only after its
//! entry point was seen there, so an interrupted download can never look
//! like an installed version.
use vstd::prelude::*;

use crate::paths::{bin_in, FsPath};
use crate::runtime::PACKAGE;
use crate::text::{trim, trimmed};

verus! {

/// The manifest pnpm needs to add into; it is never read again.
pub const MANIFEST: &'static str = "{\"name\":\"dsh-runtime\",\"version\":\"0.0.0\",\"private\":true}";

/// Where one install works.
pub struct InstallPlan {
    /// The version being installed.
    pub version: String,
    /// `<runtimes>/<version>`, where the version ends up.
    pub target: FsPath,
    /// `<runtimes>/.staging-<version>`, where it is assembled.
    pub staging: FsPath,
    /// `<runtimes>/.store`, pnpm's shared store.
    pub store: FsPath,
    /// pnpm's entry script.
    pub pnpm: FsPath,
    /// `@deepseek-ai/dsh@<version>`.
    pub spec: String,
}

/// The plan for installing `version` under `runtimes` with pnpm's entry
/// script `pnpm`.
pub fn install_plan(runtimes: &FsPath, pnpm: &FsPath, version: &str) -> (p: InstallPlan)
    ensures
        p.version@ == version@,
        p.target@ == runtimes@.push(version@),
        p.staging@ == runtimes@.push(".staging-"@ + version@),
        p.store@ == runtimes@.push(".store"@),
        p.pnpm@ == pnpm@,
        p.spec@ == PACKAGE@ + "@"@ + version@,
{
    let mut staging_name = String::from_str(".staging-");
    staging_name.append(version);
    let mut spec = String::from_str(PACKAGE);
    spec.append("@");
    spec.append(version);
    InstallPlan {
        version: String::from_str(version),
        target: runtimes.join(version),
        staging: runtimes.join(staging_name.as_str()),
        store: runtimes.join(".store"),
        pnpm: pnpm.duplicate(),
        spec,
    }
}

/// One argument of a command line: text, or a path.
pub enum Arg {
    Text(String),
    Path(FsPath),
}

/// A command-line argument as a value.
pub enum ArgView {
    Text(Seq<char>),
    Path(Seq<Seq<char>>),
}

impl View for Arg {
    type V = ArgView;

    open spec fn view(&self) -> ArgView {
        match self {
            Arg::Text(s) => ArgView::Text(s@),
            Arg::Path(p) => ArgView::Path(p@),
        }
    }
}

/// The arguments to give node to run pnpm for this plan: a hoisted layout
/// keeps each version directory self-contained, and files are hardlinked
/// from the shared store.
pub open spec fn pnpm_arguments(plan: &InstallPlan) -> Seq<ArgView> {
    seq![
        ArgView::Path(plan.pnpm@),
        ArgView::Text("add"@),
        ArgView::Text(plan.spec@),
        ArgView::Text("--dir"@),
        ArgView::Path(plan.staging@),
        ArgView::Text("--config.node-linker=hoisted"@),
        ArgView::Text("--store-dir"@),
        ArgView::Path(plan.store@),
        ArgView::Text("--reporter=append-only"@),
    ]
}

/// Why an install failed.
pub enum InstallError {
    /// The staging directory could not be created; holds why.
    CreateStaging(String),
    /// The staging manifest could not be written; holds why.
    WriteManifest(String),
    /// pnpm could not be started through node; holds why.
    RunPnpm(String),
    /// pnpm ran and failed; holds the package spec and what it printed.
    PnpmFailed { spec: String, stdout: String, stderr: String },
    /// pnpm succeeded but left no `bin.js`; holds the package spec.
    BinMissing(String),
    /// The installed copy of this version would not go away; holds the
    /// version and why.
    CannotReplace { version: String, cause: String },
    /// The staged install could not be renamed into place; holds why.
    Promote(String),
    /// The promoted install has no `bin.js`; holds the package spec.
    NotInstalled(String),
}

impl InstallError {
    /// What to tell the user.
    pub fn message(&self) -> (r: String)
        ensures
            self matches InstallError::CreateStaging(c) ==> r@
                == "cannot create the staging directory: "@ + c@,
            self matches InstallError::WriteManifest(c) ==> r@
                == "cannot write the staging manifest: "@ + c@,
            self matches InstallError::RunPnpm(c) ==> r@ == "cannot run pnpm through node: "@ + c@,
            self matches InstallError::PnpmFailed { spec, stdout, stderr } ==> r@ == "pnpm add "@
                + spec@ + " failed:\n"@ + stdout@ + "\n"@ + stderr@,
            self matches InstallError::BinMissing(spec) ==> r@ == spec@
                + " installed successfully but bin.js is missing"@,
            self matches InstallError::CannotReplace { version, cause } ==> r@
                == "cannot replace the installed version "@ + version@ + ": "@ + cause@
                + ". Its files are most likely held open by a running DeepSeek Harness."@,
            self matches InstallError::Promote(c) ==> r@ == "cannot promote the staged install: "@
                + c@,
            self matches InstallError::NotInstalled(spec) ==> r@ == spec@
                + " installed without the expected bin.js"@,
    {
        match self {
            InstallError::CreateStaging(c) => {
                let mut r = String::from_str("cannot create the staging directory: ");
                r.append(c.as_str());
                r
            },
            InstallError::WriteManifest(c) => {
                let mut r = String::from_str("cannot write the staging manifest: ");
                r.append(c.as_str());
                r
            },
            InstallError::RunPnpm(c) => {
                let mut r = String::from_str("cannot run pnpm through node: ");
                r.append(c.as_str());
                r
            },
            InstallError::PnpmFailed { spec, stdout, stderr } => {
                let mut r = String::from_str("pnpm add ");
                r.append(spec.as_str());
                r.append(" failed:\n");
                r.append(stdout.as_str());
                r.append("\n");
                r.append(stderr.as_str());
                r
            },
            InstallError::BinMissing(spec) => {
                let mut r = spec.clone();
                r.append(" installed successfully but bin.js is missing");
                r
            },
            InstallError::CannotReplace { version, cause } => {
                let mut r = String::from_str("cannot replace the installed version ");
                r.append(version.as_str());
                r.append(": ");
                r.append(cause.as_str());
                r.append(". Its files are most likely held open by a running DeepSeek Harness.");
                r
            },
            InstallError::Promote(c) => {
                let mut r = String::from_str("cannot promote the staged install: ");
                r.append(c.as_str());
                r
            },
            InstallError::NotInstalled(spec) => {
                let mut r = spec.clone();
                r.append(" installed without the expected bin.js");
                r
            },
        }
    }
}

/// Where an install is.
pub enum InstallStage {
    /// Remove what an earlier attempt left in the staging directory.
    ClearStaging,
    /// Create the staging directory.
    CreateStaging,
    /// Write the manifest pnpm adds into.
    WriteManifest,
    /// Run pnpm through node.
    RunPnpm,
    /// Check that the staged install has its entry point.
    CheckStaged,
    /// Check whether this version is already installed.
    CheckTarget,
    /// Remove the installed copy of this version.
    RemoveTarget,
    /// Rename the staging directory into place.
    Promote,
    /// Check that the promoted install has its entry point.
    CheckInstalled,
    /// Remove the staging directory, then fail with this error.
    Discard(InstallError),
    /// Installed.
    Succeeded,
    /// Not installed, for this reason.
    Failed(InstallError),
}

/// What to do next.
pub enum InstallAction {
    /// Remove a directory and everything in it.
    RemoveDir(FsPath),
    /// Create a directory and its parents.
    CreateDir(FsPath),
    /// Write a file.
    WriteFile(FsPath, String),
    /// Run node with these arguments, with node's own directory first on PATH.
    RunNode(Vec<Arg>),
    /// Is this path a file?
    IsFile(FsPath),
    /// Does this path exist?
    Exists(FsPath),
    /// Rename the first path to the second.
    Rename(FsPath, FsPath),
    /// Nothing: the install is over.
    Finish,
}

/// What a run of pnpm left behind.
pub struct PnpmRun {
    pub success: bool,
    pub stdout: String,
    pub stderr: String,
}

/// The outcome of an action.
pub enum InstallEvent {
    /// A filesystem change: done, or why not.
    Done(Result<(), String>),
    /// A run of node: how it ended, or why it could not start.
    Ran(Result<PnpmRun, String>),
    /// The answer to a question about a path.
    Answer(bool),
}

/// The paths an action touches.
pub open spec fn touched(a: InstallAction) -> Set<Seq<Seq<char>>> {
    match a {
        InstallAction::RemoveDir(p) => set![p@],
        InstallAction::CreateDir(p) => set![p@],
        InstallAction::WriteFile(p, _) => set![p@],
        InstallAction::RunNode(_) => Set::empty(),
        InstallAction::IsFile(p) => set![p@],
        InstallAction::Exists(p) => set![p@],
        InstallAction::Rename(p, q) => set![p@, q@],
        InstallAction::Finish => Set::empty(),
    }
}

/// The paths `p` lies at or under.
pub open spec fn at_or_under(p: Seq<Seq<char>>, dir: Seq<Seq<char>>) -> bool {
    dir.len() <= p.len() && p.take(dir.len() as int) == dir
}

/// The action for a stage.
pub fn install_action(plan: &InstallPlan, stage: &InstallStage) -> (a: InstallAction)
    ensures
        stage is ClearStaging ==> (a matches InstallAction::RemoveDir(p) && p@ == plan.staging@),
        stage is CreateStaging ==> (a matches InstallAction::CreateDir(p) && p@ == plan.staging@),
        stage is WriteManifest ==> (a matches InstallAction::WriteFile(p, text) && p@
            == plan.staging@.push("package.json"@) && text@ == MANIFEST@),
        stage is RunPnpm ==> (a matches InstallAction::RunNode(args) && args@.map_values(
            |x: Arg| x@,
        ) == pnpm_arguments(plan)),
        stage is CheckStaged ==> (a matches InstallAction::IsFile(p) && p@ == plan.staging@
            + seq!["node_modules"@, "@deepseek-ai"@, "dsh"@, "lib"@, "bin.js"@]),
        stage is CheckTarget ==> (a matches InstallAction::Exists(p) && p@ == plan.target@),
        stage is RemoveTarget ==> (a matches InstallAction::RemoveDir(p) && p@ == plan.target@),
        stage is Promote ==> (a matches InstallAction::Rename(p, q) && p@ == plan.staging@ && q@
            == plan.target@),
        stage is CheckInstalled ==> (a matches InstallAction::IsFile(p) && p@ == plan.target@
            + seq!["node_modules"@, "@deepseek-ai"@, "dsh"@, "lib"@, "bin.js"@]),
        stage is Discard ==> (a matches InstallAction::RemoveDir(p) && p@ == plan.staging@),
        (stage is Succeeded || stage is Failed) ==> a is Finish,
        forall|p: Seq<Seq<char>>| #[trigger]
            touched(a).contains(p) ==> at_or_under(p, plan.staging@) || at_or_under(
                p,
                plan.target@,
            ),
{
    let a = match stage {
        InstallStage::ClearStaging => InstallAction::RemoveDir(plan.staging.duplicate()),
        InstallStage::CreateStaging => InstallAction::CreateDir(plan.staging.duplicate()),
        InstallStage::WriteManifest => InstallAction::WriteFile(
            plan.staging.join("package.json"),
            String::from_str(MANIFEST),
        ),
        InstallStage::RunPnpm => {
            let mut args: Vec<Arg> = Vec::new();
            args.push(Arg::Path(plan.pnpm.duplicate()));
            args.push(Arg::Text(String::from_str("add")));
            args.push(Arg::Text(plan.spec.clone()));
            args.push(Arg::Text(String::from_str("--dir")));
            args.push(Arg::Path(plan.staging.duplicate()));
            args.push(Arg::Text(String::from_str("--config.node-linker=hoisted")));
            args.push(Arg::Text(String::from_str("--store-dir")));
            args.push(Arg::Path(plan.store.duplicate()));
            args.push(Arg::Text(String::from_str("--reporter=append-only")));
            assert(args@.map_values(|x: Arg| x@) =~= pnpm_arguments(plan));
            InstallAction::RunNode(args)
        },
        InstallStage::CheckStaged => InstallAction::IsFile(bin_in(&plan.staging)),
        InstallStage::CheckTarget => InstallAction::Exists(plan.target.duplicate()),
        InstallStage::RemoveTarget => InstallAction::RemoveDir(plan.target.duplicate()),
        InstallStage::Promote => InstallAction::Rename(
            plan.staging.duplicate(),
            plan.target.duplicate(),
        ),
        InstallStage::CheckInstalled => InstallAction::IsFile(bin_in(&plan.target)),
        InstallStage::Discard(_) => InstallAction::RemoveDir(plan.staging.duplicate()),
        InstallStage::Succeeded => InstallAction::Finish,
        InstallStage::Failed(_) => InstallAction::Finish,
    };
    proof {
        let s = plan.staging@;
        let t = plan.target@;
        assert(s.take(s.len() as int) =~= s);
        assert(t.take(t.len() as int) =~= t);
        assert(s.push("package.json"@).take(s.len() as int) =~= s);
        assert((s + seq!["node_modules"@, "@deepseek-ai"@, "dsh"@, "lib"@, "bin.js"@]).take(
            s.len() as int,
        ) =~= s);
        assert((t + seq!["node_modules"@, "@deepseek-ai"@, "dsh"@, "lib"@, "bin.js"@]).take(
            t.len() as int,
        ) =~= t);
    }
    a
}

/// The outcome fits the action the stage asked for.
pub open spec fn fits(stage: InstallStage, event: InstallEvent) -> bool {
    match stage {
        InstallStage::RunPnpm => event is Ran,
        InstallStage::CheckStaged | InstallStage::CheckTarget | InstallStage::CheckInstalled =>
            event is Answer,
        InstallStage::Succeeded | InstallStage::Failed(_) => true,
        _ => event is Done,
    }
}

/// The stages that come only after the staged install was seen complete.
pub open spec fn staged_verified(stage: InstallStage) -> bool {
    stage is CheckTarget || stage is RemoveTarget || stage is Promote || stage is CheckInstalled
        || stage is Succeeded
}

/// How many steps at most are left from a stage: every step moves closer to
/// the end, so an install always ends.
pub open spec fn install_rank(stage: InstallStage) -> nat {
    match stage {
        InstallStage::ClearStaging => 11,
        InstallStage::CreateStaging => 10,
        InstallStage::WriteManifest => 9,
        InstallStage::RunPnpm => 8,
        InstallStage::CheckStaged => 7,
        InstallStage::CheckTarget => 6,
        InstallStage::RemoveTarget => 5,
        InstallStage::Promote => 4,
        InstallStage::CheckInstalled => 3,
        InstallStage::Discard(_) => 2,
        InstallStage::Succeeded => 0,
        InstallStage::Failed(_) => 0,
    }
}

/// The next stage, given the outcome of the current stage's action.
pub fn install_next(plan: &InstallPlan, stage: InstallStage, event: InstallEvent) -> (r: InstallStage)
    requires
        fits(stage, event),
    ensures
        stage is ClearStaging ==> r is CreateStaging,
        stage is CreateStaging ==> match event {
            InstallEvent::Done(Ok(())) => r is WriteManifest,
            InstallEvent::Done(Err(e)) => r matches InstallStage::Failed(
                InstallError::CreateStaging(m),
            ) && m@ == e@,
            _ => false,
        },
        stage is WriteManifest ==> match event {
            InstallEvent::Done(Ok(())) => r is RunPnpm,
            InstallEvent::Done(Err(e)) => r matches InstallStage::Failed(
                InstallError::WriteManifest(m),
            ) && m@ == e@,
            _ => false,
        },
        stage is RunPnpm ==> match event {
            InstallEvent::Ran(Err(e)) => r matches InstallStage::Failed(InstallError::RunPnpm(m))
                && m@ == e@,
            InstallEvent::Ran(Ok(run)) => if run.success {
                r is CheckStaged
            } else {
                r matches InstallStage::Discard(
                    InstallError::PnpmFailed { spec, stdout, stderr },
                ) && spec@ == plan.spec@ && stdout@ == trim(run.stdout@) && stderr@ == trim(
                    run.stderr@,
                )
            },
            _ => false,
        },
        stage is CheckStaged ==> match event {
            InstallEvent::Answer(true) => r is CheckTarget,
            InstallEvent::Answer(false) => r matches InstallStage::Discard(
                InstallError::BinMissing(spec),
            ) && spec@ == plan.spec@,
            _ => false,
        },
        stage is CheckTarget ==> match event {
            InstallEvent::Answer(true) => r is RemoveTarget,
            InstallEvent::Answer(false) => r is Promote,
            _ => false,
        },
        stage is RemoveTarget ==> match event {
            InstallEvent::Done(Ok(())) => r is Promote,
            InstallEvent::Done(Err(e)) => r matches InstallStage::Discard(
                InstallError::CannotReplace { version, cause },
            ) && version@ == plan.version@ && cause@ == e@,
            _ => false,
        },
        stage is Promote ==> match event {
            InstallEvent::Done(Ok(())) => r is CheckInstalled,
            InstallEvent::Done(Err(e)) => r matches InstallStage::Discard(InstallError::Promote(m))
                && m@ == e@,
            _ => false,
        },
        stage is CheckInstalled ==> match event {
            InstallEvent::Answer(true) => r is Succeeded,
            InstallEvent::Answer(false) => r matches InstallStage::Failed(
                InstallError::NotInstalled(spec),
            ) && spec@ == plan.spec@,
            _ => false,
        },
        stage is Discard ==> r is Failed && r->Failed_0 == stage->Discard_0,
        stage is Succeeded ==> r is Succeeded,
        stage is Failed ==> r is Failed && r->Failed_0 == stage->Failed_0,
        // The promotion, and everything after it, happens only once the
        // staged install was seen to have its entry point.
        staged_verified(r) ==> staged_verified(stage) || (stage is CheckStaged && event
            == InstallEvent::Answer(true)),
        // Once the staged copy holds its entry point, and until it has been
        // renamed into place, a failure first removes the staging directory.
        (stage is CheckStaged || stage is CheckTarget || stage is RemoveTarget
            || stage is Promote) ==> !(r is Failed),
        // Every step before the end moves closer to it.
        !(stage is Succeeded || stage is Failed) ==> install_rank(r) < install_rank(stage),
{
    match stage {
        InstallStage::ClearStaging => InstallStage::CreateStaging,
        InstallStage::CreateStaging => match event {
            InstallEvent::Done(Ok(())) => InstallStage::WriteManifest,
            InstallEvent::Done(Err(e)) => InstallStage::Failed(InstallError::CreateStaging(e)),
            _ => InstallStage::Failed(InstallError::CreateStaging(String::new())),
        },
        InstallStage::WriteManifest => match event {
            InstallEvent::Done(Ok(())) => InstallStage::RunPnpm,
            InstallEvent::Done(Err(e)) => InstallStage::Failed(InstallError::WriteManifest(e)),
            _ => InstallStage::Failed(InstallError::WriteManifest(String::new())),
        },
        InstallStage::RunPnpm => match event {
            InstallEvent::Ran(Err(e)) => InstallStage::Failed(InstallError::RunPnpm(e)),
            InstallEvent::Ran(Ok(run)) => {
                if run.success {
                    InstallStage::CheckStaged
                } else {
                    InstallStage::Discard(
                        InstallError::PnpmFailed {
                            spec: plan.spec.clone(),
                            stdout: trimmed(run.stdout.as_str()),
                            stderr: trimmed(run.stderr.as_str()),
                        },
                    )
                }
            },
            _ => InstallStage::Failed(InstallError::RunPnpm(String::new())),
        },
        InstallStage::CheckStaged => match event {
            InstallEvent::Answer(true) => InstallStage::CheckTarget,
            _ => InstallStage::Discard(InstallError::BinMissing(plan.spec.clone())),
        },
        InstallStage::CheckTarget => match event {
            InstallEvent::Answer(true) => InstallStage::RemoveTarget,
            _ => InstallStage::Promote,
        },
        InstallStage::RemoveTarget => match event {
            InstallEvent::Done(Ok(())) => InstallStage::Promote,
            InstallEvent::Done(Err(e)) => InstallStage::Discard(
                InstallError::CannotReplace { version: plan.version.clone(), cause: e },
            ),
            _ => InstallStage::Promote,
        },
        InstallStage::Promote => match event {
            InstallEvent::Done(Ok(())) => InstallStage::CheckInstalled,
            InstallEvent::Done(Err(e)) => InstallStage::Discard(InstallError::Promote(e)),
            _ => InstallStage::CheckInstalled,
        },
        InstallStage::CheckInstalled => match event {
            InstallEvent::Answer(true) => InstallStage::Succeeded,
            _ => InstallStage::Failed(InstallError::NotInstalled(plan.spec.clone())),
        },
        InstallStage::Discard(error) => InstallStage::Failed(error),
        InstallStage::Succeeded => InstallStage::Succeeded,
        InstallStage::Failed(error) => InstallStage::Failed(error),
    }
}

} // verus!
