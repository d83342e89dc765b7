//! Cleaning up a host that outlived the app that owned it.
//!
//! While a host runs, the pair (host pid, owning app pid) is written down. On
//! startup a recorded host whose owner is gone is an orphan and is reaped.
use vstd::prelude::*;

use crate::text::{chars_of, decimal, decimal_chars, find_chars, find_from, string_of};

verus! {

/// Which host this app owns, and which app owns it.
#[derive(Clone, Copy, Debug, PartialEq, Eq, Structural)]
pub struct Record {
    pub host_pid: u32,
    pub app_pid: u32,
}

/// What reaping asks for, or decides, next.
pub enum ReapStep {
    /// Is the recorded owner, the app with this pid, alive?
    AskOwner(u32),
    /// Is the recorded host, the process with this pid, alive?
    AskHost(u32),
    /// The owner is alive: the host is not an orphan. Leave the record.
    Leave,
    /// The owner is gone and so is the host: forget the record.
    Forget,
    /// The owner is gone but the host runs: kill its process tree, forget
    /// the record, and log the message.
    Kill { pid: u32, message: String },
}

/// `reaped orphaned host pid <pid>`.
pub open spec fn reaped_message(pid: u32) -> Seq<char> {
    "reaped orphaned host pid "@ + decimal(pid as nat)
}

/// Decide about a recorded host. `own_pid` is this app's pid; `app_alive`
/// and `host_alive` are the answers so far to whether the recorded owner and
/// host are alive (`None` until asked). Our own pid as the owner cannot be a
/// previous run in this same process: it counts as gone.
pub fn reap_step(record: Record, own_pid: u32, app_alive: Option<bool>, host_alive: Option<bool>) -> (r:
    ReapStep)
    ensures
        ({
            let owner_gone = record.app_pid == own_pid || app_alive == Some(false);
            if record.app_pid != own_pid && app_alive is None {
                r == ReapStep::AskOwner(record.app_pid)
            } else if !owner_gone {
                r is Leave
            } else if host_alive is None {
                r == ReapStep::AskHost(record.host_pid)
            } else if host_alive == Some(true) {
                r matches ReapStep::Kill { pid, message } && pid == record.host_pid && message@
                    == reaped_message(record.host_pid)
            } else {
                r is Forget
            }
        }),
{
    if record.app_pid != own_pid {
        match app_alive {
            None => {
                return ReapStep::AskOwner(record.app_pid);
            },
            Some(true) => {
                return ReapStep::Leave;
            },
            Some(false) => {},
        }
    }
    match host_alive {
        None => ReapStep::AskHost(record.host_pid),
        Some(true) => {
            let mut message = String::from_str("reaped orphaned host pid ");
            message.append(string_of(&decimal_chars(record.host_pid as u64)).as_str());
            ReapStep::Kill { pid: record.host_pid, message }
        },
        Some(false) => ReapStep::Forget,
    }
}

/// Does `needle` occur in `hay`?
pub open spec fn contains(hay: Seq<char>, needle: Seq<char>) -> bool {
    find_from(hay, needle, 0) is Some
}

/// Does `hay` contain `needle`?
pub fn text_contains(hay: &str, needle: &str) -> (r: bool)
    ensures
        r == contains(hay@, needle@),
{
    find_chars(&chars_of(hay), &chars_of(needle), 0).is_some()
}

/// Is the process whose command line `ps` printed a node process? This
/// guards against pid reuse: a stale record must not take down an unrelated
/// program.
pub fn is_node_command(ps_output: &str) -> (r: bool)
    ensures
        r == contains(ps_output@, "node"@),
{
    text_contains(ps_output, "node")
}

/// `"<pid>"`: how `tasklist` quotes a pid in its CSV output.
pub open spec fn quoted_pid(pid: u32) -> Seq<char> {
    seq!['"'] + decimal(pid as nat) + seq!['"']
}

/// Does a `tasklist` listing (CSV, filtered by pid) name this pid?
pub fn tasklist_names(output: &str, pid: u32) -> (r: bool)
    ensures
        r == contains(output@, quoted_pid(pid)),
{
    let mut q: Vec<char> = Vec::new();
    q.push('"');
    let digits = decimal_chars(pid as u64);
    let mut i: usize = 0;
    while i < digits.len()
        invariant
            i <= digits@.len(),
            q@ == seq!['"'] + digits@.take(i as int),
        decreases digits@.len() - i,
    {
        q.push(digits[i]);
        assert(q@ =~= seq!['"'] + digits@.take(i + 1));
        i += 1;
    }
    q.push('"');
    assert(digits@.take(digits@.len() as int) =~= digits@);
    assert(q@ =~= quoted_pid(pid));
    find_chars(&chars_of(output), &q, 0).is_some()
}

} // verus!
