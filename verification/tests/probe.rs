use openab_pty::killdomain::Tier2Unavailable;
use openab_pty::probe::{
    classify_mkdir, probe_step, probe_wait, ProbeAction, ProbeEvent, ProbeWait, EACCES, ENOENT,
    EPERM, EROFS, PROBE_POLL_STEP, PROBE_WAIT_BUDGET,
};

#[test]
fn a_refused_mkdir_names_its_remedy() {
    let classify = |code: i32| classify_mkdir(Some(code), "why".to_string());
    assert_eq!(classify(EROFS), Tier2Unavailable::NoWritableCgroupMount);
    assert_eq!(classify(EACCES), Tier2Unavailable::SubtreeNotDelegated);
    assert_eq!(classify(EPERM), Tier2Unavailable::SubtreeNotDelegated);
    assert_eq!(classify(ENOENT), Tier2Unavailable::OutsideCgroupNamespace);
    assert_eq!(classify(28), Tier2Unavailable::ProbeFailed("why".to_string()));
    assert_eq!(
        classify_mkdir(None, "why".to_string()),
        Tier2Unavailable::ProbeFailed("why".to_string())
    );
}

#[test]
fn the_probe_goes_from_the_files_to_an_empty_cgroup() {
    assert!(matches!(
        probe_step(ProbeEvent::FilesChecked { missing: None }),
        ProbeAction::OpenProcs
    ));
    assert!(matches!(probe_step(ProbeEvent::ProcsOpened), ProbeAction::Fork));
    assert!(matches!(probe_step(ProbeEvent::Forked), ProbeAction::AwaitChild));
    assert!(matches!(
        probe_step(ProbeEvent::Populated { appeared: true }),
        ProbeAction::WriteKill
    ));
    assert!(matches!(
        probe_step(ProbeEvent::KillWritten),
        ProbeAction::AwaitEmpty
    ));
    assert!(matches!(
        probe_step(ProbeEvent::Drained { empty: true }),
        ProbeAction::Succeed
    ));
}

#[test]
fn a_failed_probe_says_why_and_leaves_no_child() {
    let text = |text: &str| text.to_string();
    for (event, expected, kill, reap) in [
        (
            ProbeEvent::FilesChecked {
                missing: Some(text("cgroup.kill")),
            },
            Tier2Unavailable::ProbeFailed(text("cgroup.kill missing: not a cgroup v2 directory")),
            false,
            false,
        ),
        (
            ProbeEvent::ProcsRefused {
                raw_os_error: Some(EACCES),
                message: text("denied"),
            },
            Tier2Unavailable::SubtreeNotDelegated,
            false,
            false,
        ),
        (
            ProbeEvent::ProcsRefused {
                raw_os_error: None,
                message: text("odd"),
            },
            Tier2Unavailable::ProbeFailed(text("odd")),
            false,
            false,
        ),
        (
            ProbeEvent::ForkFailed {
                message: text("EAGAIN"),
            },
            Tier2Unavailable::SyscallBlocked(text("fork: EAGAIN")),
            false,
            false,
        ),
        (
            ProbeEvent::Populated { appeared: false },
            Tier2Unavailable::ProbeFailed(text("child never appeared in cgroup.procs")),
            true,
            true,
        ),
        (
            ProbeEvent::KillRefused {
                message: text("EINVAL"),
            },
            Tier2Unavailable::ProbeFailed(text("cgroup.kill write failed: EINVAL")),
            true,
            true,
        ),
        (
            ProbeEvent::Drained { empty: false },
            Tier2Unavailable::ProbeFailed(text("cgroup did not empty after cgroup.kill")),
            false,
            true,
        ),
    ] {
        match probe_step(event) {
            ProbeAction::Fail {
                reason,
                kill_child,
                reap_child,
            } => {
                assert_eq!(reason, expected);
                assert_eq!((kill_child, reap_child), (kill, reap));
            }
            _ => panic!("must fail with {expected:?}"),
        }
    }
}

#[test]
fn a_wait_of_the_probe_is_bounded_and_a_late_success_counts() {
    let deadline = PROBE_WAIT_BUDGET;
    assert_eq!(deadline, 500_000_000);
    assert_eq!(PROBE_POLL_STEP, 5_000_000);
    assert_eq!(probe_wait(true, deadline, 0), ProbeWait::Done);
    assert_eq!(probe_wait(true, deadline, deadline + 1), ProbeWait::Done);
    assert_eq!(probe_wait(false, deadline, deadline - 1), ProbeWait::Wait);
    assert_eq!(probe_wait(false, deadline, deadline), ProbeWait::Failed);
}
