//! The end-to-end Tier 2 probe: create → populate → `cgroup.kill` → remove.
//!
//! A create-only probe would be misleading; the interesting failures lie
//! downstream of `mkdir`. The probe itself forks and touches files, so here is
//! only what it decides: after each step it is told what happened, and says what
//! to do next.
use crate::clock::MILLISECOND;
use crate::killdomain::Tier2Unavailable;
use crate::text::joined;
use vstd::prelude::*;

verus! {

/// Linux error numbers that tell the probe's failures apart.
pub const EPERM: i32 = 1;

pub const ENOENT: i32 = 2;

pub const EACCES: i32 = 13;

pub const EROFS: i32 = 30;

/// Why the probe's cgroup could not be created.
pub fn classify_mkdir(raw_os_error: Option<i32>, message: String) -> (reason: Tier2Unavailable)
    ensures
        reason == match raw_os_error {
            Some(code) => if code == EROFS {
                Tier2Unavailable::NoWritableCgroupMount
            } else if code == EACCES || code == EPERM {
                Tier2Unavailable::SubtreeNotDelegated
            } else if code == ENOENT {
                Tier2Unavailable::OutsideCgroupNamespace
            } else {
                Tier2Unavailable::ProbeFailed(message)
            },
            None => Tier2Unavailable::ProbeFailed(message),
        },
{
    match raw_os_error {
        Some(code) => if code == EROFS {
            Tier2Unavailable::NoWritableCgroupMount
        } else if code == EACCES || code == EPERM {
            Tier2Unavailable::SubtreeNotDelegated
        } else if code == ENOENT {
            Tier2Unavailable::OutsideCgroupNamespace
        } else {
            Tier2Unavailable::ProbeFailed(message)
        },
        None => Tier2Unavailable::ProbeFailed(message),
    }
}

/// What happened in the step that the probe asked for.
pub enum ProbeEvent {
    /// The directory was looked over; `missing` names the first control file that
    /// is not there.
    FilesChecked { missing: Option<String> },
    /// `cgroup.procs` was opened for writing.
    ProcsOpened,
    /// `cgroup.procs` could not be opened for writing.
    ProcsRefused { raw_os_error: Option<i32>, message: String },
    /// The probe's child was forked.
    Forked,
    /// `fork` failed.
    ForkFailed { message: String },
    /// The wait for the child to appear in `cgroup.procs` ended.
    Populated { appeared: bool },
    /// `cgroup.kill` was written.
    KillWritten,
    /// `cgroup.kill` could not be written.
    KillRefused { message: String },
    /// The wait for the cgroup to empty ended.
    Drained { empty: bool },
}

/// What the probe does next.
pub enum ProbeAction {
    /// Open `cgroup.procs` for writing.
    OpenProcs,
    /// Fork a child that joins the cgroup and parks.
    Fork,
    /// Wait for the child to appear in `cgroup.procs`.
    AwaitChild,
    /// Write `cgroup.kill`.
    WriteKill,
    /// Wait for the cgroup to empty.
    AwaitEmpty,
    /// Reap the child; the probe succeeded.
    Succeed,
    /// The probe failed. `kill_child` and `reap_child` say whether the child has to
    /// be killed with `SIGKILL`, and whether it has to be reaped.
    Fail { reason: Tier2Unavailable, kill_child: bool, reap_child: bool },
}

/// How a failed probe reads, and what is to be done with its child.
pub open spec fn fails_with(
    action: ProbeAction,
    reason: Seq<char>,
    kill_child: bool,
    reap_child: bool,
) -> bool {
    action matches ProbeAction::Fail { reason: actual, kill_child: kill, reap_child: reap}
        && actual matches Tier2Unavailable::ProbeFailed(text) && text@ == reason && kill
        == kill_child && reap == reap_child
}

/// Whether `action` is what follows `event`.
pub open spec fn follows(event: ProbeEvent, action: ProbeAction) -> bool {
    match event {
        ProbeEvent::FilesChecked { missing } => match missing {
            Some(name) => fails_with(
                action,
                name@ + " missing: not a cgroup v2 directory"@,
                false,
                false,
            ),
            None => action is OpenProcs,
        },
        ProbeEvent::ProcsOpened => action is Fork,
        ProbeEvent::ProcsRefused { raw_os_error, message } => if raw_os_error == Some(EACCES)
            || raw_os_error == Some(EPERM) {
            action == (ProbeAction::Fail {
                reason: Tier2Unavailable::SubtreeNotDelegated,
                kill_child: false,
                reap_child: false,
            })
        } else {
            fails_with(action, message@, false, false)
        },
        ProbeEvent::Forked => action is AwaitChild,
        ProbeEvent::ForkFailed { message } => action matches ProbeAction::Fail {
            reason,
            kill_child,
            reap_child,
        } && reason matches Tier2Unavailable::SyscallBlocked(text) && text@ == "fork: "@ + message@
            && !kill_child && !reap_child,
        ProbeEvent::Populated { appeared } => if appeared {
            action is WriteKill
        } else {
            fails_with(action, "child never appeared in cgroup.procs"@, true, true)
        },
        ProbeEvent::KillWritten => action is AwaitEmpty,
        ProbeEvent::KillRefused { message } => fails_with(
            action,
            "cgroup.kill write failed: "@ + message@,
            true,
            true,
        ),
        ProbeEvent::Drained { empty } => if empty {
            action is Succeed
        } else {
            fails_with(action, "cgroup did not empty after cgroup.kill"@, false, true)
        },
    }
}

/// What the probe does after `event`.
pub fn probe_step(event: ProbeEvent) -> (action: ProbeAction)
    ensures
        follows(event, action),
{
    match event {
        ProbeEvent::FilesChecked { missing } => match missing {
            Some(name) => ProbeAction::Fail {
                reason: Tier2Unavailable::ProbeFailed(
                    joined(name.as_str(), " missing: not a cgroup v2 directory"),
                ),
                kill_child: false,
                reap_child: false,
            },
            None => ProbeAction::OpenProcs,
        },
        ProbeEvent::ProcsOpened => ProbeAction::Fork,
        ProbeEvent::ProcsRefused { raw_os_error, message } => {
            let denied: bool = match raw_os_error {
                Some(code) => code == EACCES || code == EPERM,
                None => false,
            };
            let reason = if denied {
                Tier2Unavailable::SubtreeNotDelegated
            } else {
                Tier2Unavailable::ProbeFailed(message)
            };
            ProbeAction::Fail { reason, kill_child: false, reap_child: false }
        },
        ProbeEvent::Forked => ProbeAction::AwaitChild,
        ProbeEvent::ForkFailed { message } => ProbeAction::Fail {
            reason: Tier2Unavailable::SyscallBlocked(joined("fork: ", message.as_str())),
            kill_child: false,
            reap_child: false,
        },
        ProbeEvent::Populated { appeared } => if appeared {
            ProbeAction::WriteKill
        } else {
            ProbeAction::Fail {
                reason: Tier2Unavailable::ProbeFailed(
                    "child never appeared in cgroup.procs".to_owned(),
                ),
                kill_child: true,
                reap_child: true,
            }
        },
        ProbeEvent::KillWritten => ProbeAction::AwaitEmpty,
        ProbeEvent::KillRefused { message } => ProbeAction::Fail {
            reason: Tier2Unavailable::ProbeFailed(
                joined("cgroup.kill write failed: ", message.as_str()),
            ),
            kill_child: true,
            reap_child: true,
        },
        ProbeEvent::Drained { empty } => if empty {
            ProbeAction::Succeed
        } else {
            ProbeAction::Fail {
                reason: Tier2Unavailable::ProbeFailed(
                    "cgroup did not empty after cgroup.kill".to_owned(),
                ),
                kill_child: false,
                reap_child: true,
            }
        },
    }
}

/// The probe succeeds only after its cgroup was seen to empty, and once its child
/// exists it is never left behind unreaped.
pub proof fn law_probe_never_leaves_its_child(event: ProbeEvent, action: ProbeAction)
    requires
        follows(event, action),
    ensures
        action is Succeed ==> event == (ProbeEvent::Drained { empty: true }),
        action is Fail && (event is Populated || event is KillRefused || event is Drained)
            ==> action->reap_child,
{
}

/// How long the probe waits for its child to appear, and for its cgroup to empty.
pub const PROBE_WAIT_BUDGET: u128 = 500 * MILLISECOND;

/// The pause between two looks.
pub const PROBE_POLL_STEP: u128 = 5 * MILLISECOND;

/// How a wait of the probe goes on after a look.
#[derive(Clone, Copy, Debug, PartialEq, Eq, Structural)]
pub enum ProbeWait {
    /// What was waited for has come.
    Done,
    /// It has not, and the time is up.
    Failed,
    /// Pause for [`PROBE_POLL_STEP`] and look again.
    Wait,
}

/// What to do after a look that showed whether the condition is `met`. A condition
/// that is met at the last moment counts.
pub fn probe_wait(met: bool, deadline: u128, now: u128) -> (next: ProbeWait)
    ensures
        next == if met {
            ProbeWait::Done
        } else if now >= deadline {
            ProbeWait::Failed
        } else {
            ProbeWait::Wait
        },
{
    if met {
        ProbeWait::Done
    } else if now >= deadline {
        ProbeWait::Failed
    } else {
        ProbeWait::Wait
    }
}

/// The probe goes on only after a step that succeeded, one step at a time; a child that is
/// there when it fails is killed before it is reaped, unless its cgroup was killed.
pub proof fn law_probe_goes_on_only_after_success(event: ProbeEvent, action: ProbeAction)
    requires
        follows(event, action),
    ensures
        action is OpenProcs <==> event == (ProbeEvent::FilesChecked { missing: None }),
        action is Fork <==> event is ProcsOpened,
        action is AwaitChild <==> event is Forked,
        action is WriteKill <==> event == (ProbeEvent::Populated { appeared: true }),
        action is AwaitEmpty <==> event is KillWritten,
        action is Succeed <==> event == (ProbeEvent::Drained { empty: true }),
        action is Fail ==> (action->kill_child <==> event is Populated || event is KillRefused),
        action is Fail ==> (action->reap_child <==> event is Populated || event is KillRefused
            || event is Drained),
{
}

} // verus!
