use openab_pty::audit::{AuditKind, AuditLogger};
use openab_pty::clock::{MILLISECOND, SECOND};
use openab_pty::config::KillDomainRequirement;
use openab_pty::killdomain::{
    resolve_tier, KillDomain, KillDomainSelection, KillDomainTier, Observation, ProcessSignals,
    SessionKillDomain, Signal, SignalOrder, SpawnCapability, SubreaperStatus, Teardown,
    TeardownAction, TeardownGuarantee, TeardownOutcome, Tier2Unavailable, TrackingLimits,
};
use openab_pty::procfs::{
    format_pid_decimal, own_cgroup_hints, parse_cgroup_procs, stat_shows_live_member,
};
use openab_pty::{processgroup, Error, Generation, SessionName};
use std::cell::RefCell;

/// A simulated process table. Behaviour, not call counting: each process has
/// its own response to SIGTERM and may have left the process group, so the
/// escalation ladder is asserted through the surviving state.
struct FakeProcess {
    pid: i32,
    pgid: i32,
    /// Ignores SIGTERM; only SIGKILL ends it.
    traps_term: bool,
    running: bool,
    reaped: bool,
}

struct FakeSignals {
    table: RefCell<Vec<FakeProcess>>,
}

impl FakeSignals {
    fn new(processes: Vec<FakeProcess>) -> Self {
        Self {
            table: RefCell::new(processes),
        }
    }

    fn alive_pids(&self) -> Vec<i32> {
        self.table
            .borrow()
            .iter()
            .filter(|p| p.running)
            .map(|p| p.pid)
            .collect()
    }

    fn reaped_pids(&self) -> Vec<i32> {
        self.table
            .borrow()
            .iter()
            .filter(|p| p.reaped)
            .map(|p| p.pid)
            .collect()
    }

    fn deliver(&self, wanted: impl Fn(&FakeProcess) -> bool, signal: Signal) {
        for process in self.table.borrow_mut().iter_mut() {
            if !process.running || !wanted(process) {
                continue;
            }
            if signal == Signal::Kill || !process.traps_term {
                process.running = false;
            }
        }
    }
}

impl ProcessSignals for FakeSignals {
    fn signal_group(&self, pgid: i32, signal: Signal) -> Result<(), std::io::Error> {
        self.deliver(|p| p.pgid == pgid, signal);
        Ok(())
    }

    fn signal_pid(&self, pid: i32, signal: Signal) -> Result<(), std::io::Error> {
        self.deliver(|p| p.pid == pid, signal);
        Ok(())
    }

    // An exited child that nobody reaped is a zombie, and a zombie is signalable.
    fn group_alive(&self, pgid: i32) -> bool {
        self.table
            .borrow()
            .iter()
            .any(|p| p.pgid == pgid && !p.reaped)
    }

    fn pid_alive(&self, pid: i32) -> bool {
        self.table.borrow().iter().any(|p| p.pid == pid && !p.reaped)
    }

    fn reap_nonblocking(&self, pid: i32) -> bool {
        for process in self.table.borrow_mut().iter_mut() {
            if process.pid == pid && !process.running {
                process.reaped = true;
                return true;
            }
        }
        false
    }
}

/// A process that ignores every signal stands in for one that cannot be reached.
struct Immortal;

impl ProcessSignals for Immortal {
    fn signal_group(&self, _pgid: i32, _signal: Signal) -> Result<(), std::io::Error> {
        Ok(())
    }
    fn signal_pid(&self, _pid: i32, _signal: Signal) -> Result<(), std::io::Error> {
        Ok(())
    }
    fn group_alive(&self, _pgid: i32) -> bool {
        true
    }
    fn pid_alive(&self, _pid: i32) -> bool {
        true
    }
    fn reap_nonblocking(&self, _pid: i32) -> bool {
        false
    }
}

fn process(pid: i32, pgid: i32, traps_term: bool) -> FakeProcess {
    FakeProcess {
        pid,
        pgid,
        traps_term,
        running: true,
        reaped: false,
    }
}

fn session() -> SessionName {
    SessionName::parse("kd-test").unwrap()
}

fn domain_with(selection: KillDomainSelection, limits: TrackingLimits) -> KillDomain {
    KillDomain::new(
        selection,
        limits,
        AuditLogger::default(),
        SubreaperStatus::Unsupported,
        None,
    )
}

fn tier1_domain() -> KillDomain {
    domain_with(
        KillDomainSelection::tier1(Tier2Unavailable::NotLinux),
        TrackingLimits::default(),
    )
}

fn tier2_domain() -> KillDomain {
    domain_with(
        KillDomainSelection {
            tier: KillDomainTier::Tier2GuaranteedCgroup,
            tier2_unavailable: None,
            cgroup_base: Some("/sys/fs/cgroup".to_string()),
        },
        TrackingLimits::default(),
    )
}

/// Run a teardown to its end on a simulated clock. Gives back the outcome and how
/// long it took.
fn terminate<S: ProcessSignals>(
    session: &SessionKillDomain,
    domain: &mut KillDomain,
    signals: &S,
    cgroup: &mut dyn FnMut(bool) -> Vec<i32>,
    grace: u128,
) -> (TeardownOutcome, u128) {
    let started = 7 * SECOND;
    let mut now = started;
    let (mut teardown, mut action) = Teardown::start(session.tier(), grace, now);
    for _ in 0..10_000 {
        let mut killed = false;
        match action {
            TeardownAction::Deliver { signal } => session.deliver(signals, signal),
            TeardownAction::KillCgroup => killed = true,
            TeardownAction::Wait { nanos } => now += nanos,
            TeardownAction::Look => {}
            TeardownAction::Finish { survivors } => {
                let outcome = session.conclude(domain, survivors, started, now);
                return (outcome, now - started);
            }
        }
        let seen = session.observe(signals, cgroup(killed));
        action = teardown.next(session, &seen, now);
    }
    panic!("teardown must end");
}

fn terminate_tier1<S: ProcessSignals>(
    session: &SessionKillDomain,
    domain: &mut KillDomain,
    signals: &S,
    grace: u128,
) -> (TeardownOutcome, u128) {
    terminate(session, domain, signals, &mut |_| Vec::new(), grace)
}

#[test]
fn killdomain_tier_names_and_status_label_best_effort() {
    let domain = tier1_domain();
    let status = domain.status();
    assert!(status.teardown_best_effort);
    assert!(status.absolute_ttl_best_effort);
    assert_eq!(status.teardown_guarantee, TeardownGuarantee::BestEffort);
    assert!(status.tier.label().contains("best-effort"));
    let rendered = status.tier.to_string();
    assert!(rendered.contains("best-effort"), "{rendered}");
    assert!(domain.selection().describe().contains("BEST-EFFORT"));
    assert!(processgroup::KillDomainTier::Tier1BestEffortProcessGroup
        .describe()
        .contains("BEST-EFFORT"));
}

#[test]
fn tier2_required_is_refused_because_tier2_is_not_implemented() {
    // An operator who asks for the hard guarantee is refused, never handed best
    // effort under the guarantee's name.
    let error = processgroup::resolve_tier(KillDomainRequirement::Tier2Required)
        .expect_err("must never silently downgrade a requested guarantee");
    let message = error.to_string();
    assert!(message.contains("tier2-required"), "{message}");
    assert!(message.contains("NOT IMPLEMENTED"), "{message}");
    assert_eq!(
        processgroup::resolve_tier(KillDomainRequirement::Tier1Allowed).unwrap(),
        processgroup::KillDomainTier::Tier1BestEffortProcessGroup
    );
}

#[test]
fn killdomain_tier1_escalates_to_sigkill_for_a_sigterm_trapping_child() {
    let signals = FakeSignals::new(vec![process(100, 100, true), process(101, 100, false)]);
    let mut domain = tier1_domain();
    let mut session_domain = domain.open_session(&session(), Generation(3)).unwrap();
    session_domain.set_leader(&mut domain, 100).unwrap();
    session_domain.track(&mut domain, 101).unwrap();

    let (outcome, _) =
        terminate_tier1(&session_domain, &mut domain, &signals, 60 * MILLISECOND);

    assert!(outcome.converged(), "SIGKILL must finish the job");
    assert!(
        outcome.is_best_effort(),
        "tier 1 never claims a hard guarantee"
    );
    assert!(signals.alive_pids().is_empty());
    assert_eq!(signals.reaped_pids(), vec![100, 101], "no zombies left");
}

#[test]
fn tier1_does_not_report_its_own_reaped_leader_as_a_survivor() {
    let signals = FakeSignals::new(vec![process(500, 500, false)]);
    let mut domain = tier1_domain();
    let mut session_domain = domain.open_session(&session(), Generation(1)).unwrap();
    session_domain.set_leader(&mut domain, 500).unwrap();

    let (outcome, elapsed) = terminate_tier1(&session_domain, &mut domain, &signals, 5 * SECOND);

    assert!(
        outcome.converged(),
        "a child that exits on SIGTERM is not a survivor: {:?}",
        outcome.survivors
    );
    assert_eq!(domain.leaked_process_count(), 0);
    assert_eq!(
        signals.reaped_pids(),
        vec![500],
        "the leader must be reaped"
    );
    assert!(
        elapsed < SECOND,
        "teardown must converge as soon as the child is gone, not after the grace"
    );
}

#[test]
fn killdomain_tier1_reaches_a_tracked_escapee_through_the_pidfd_pass() {
    // A double-forked child that called setsid: its own group, but the
    // runtime tracked its pid at spawn, so it is still visible.
    let signals = FakeSignals::new(vec![process(200, 200, false), process(201, 999, true)]);
    let mut domain = tier1_domain();
    let mut session_domain = domain.open_session(&session(), Generation(3)).unwrap();
    session_domain.set_leader(&mut domain, 200).unwrap();
    session_domain.track(&mut domain, 201).unwrap();

    // Escapee traps SIGTERM but the tracked-pid SIGKILL pass reaches it.
    let (outcome, _) =
        terminate_tier1(&session_domain, &mut domain, &signals, 40 * MILLISECOND);
    assert!(outcome.converged());
    assert!(signals.alive_pids().is_empty());
    assert_eq!(domain.leaked_process_count(), 0);
}

#[test]
fn killdomain_tier1_leaks_are_counted_and_audited_when_a_survivor_remains() {
    let mut domain = tier1_domain();
    let mut session_domain = domain.open_session(&session(), Generation(3)).unwrap();
    session_domain.set_leader(&mut domain, 300).unwrap();

    let (outcome, elapsed) =
        terminate_tier1(&session_domain, &mut domain, &Immortal, 30 * MILLISECOND);
    assert!(!outcome.converged());
    assert_eq!(outcome.survivors, vec![300]);
    assert_eq!(
        domain.leaked_process_count(),
        1,
        "the leak metric is what makes best-effort observable"
    );
    assert_eq!(outcome.elapsed_ms as u128, elapsed / MILLISECOND);
    assert!(elapsed < SECOND, "bounded, whoever refuses to die");
    let events = domain.drain_audit();
    assert_eq!(events.len(), 1);
    assert_eq!(events[0].session.as_deref(), Some("kd-test"));
    assert_eq!(events[0].generation, Some(3));
    assert_eq!(events[0].kind, AuditKind::Tier1SurvivorDetected);
}

#[test]
fn killdomain_tier1_cannot_see_an_untracked_pgid_escapee() {
    // A process that left the group and was never tracked is invisible, so
    // teardown reports no survivors while the process is still alive.
    let signals = FakeSignals::new(vec![process(400, 400, false), process(401, 777, false)]);
    let mut domain = tier1_domain();
    let mut session_domain = domain.open_session(&session(), Generation(3)).unwrap();
    session_domain.set_leader(&mut domain, 400).unwrap();

    let (outcome, _) =
        terminate_tier1(&session_domain, &mut domain, &signals, 30 * MILLISECOND);
    assert!(outcome.converged(), "nothing visible survived");
    assert_eq!(
        signals.alive_pids(),
        vec![401],
        "the escapee outlives its session"
    );
    assert!(outcome.is_best_effort());
}

#[test]
fn killdomain_tracking_capacity_is_fail_closed_per_session_and_globally() {
    let mut per_session = domain_with(
        KillDomainSelection::tier1(Tier2Unavailable::NotLinux),
        TrackingLimits {
            max_tracked_per_session: 2,
            max_tracked_global: 100,
            reserved_fd_headroom: 0,
        },
    );
    let mut domain = per_session.open_session(&session(), Generation(3)).unwrap();
    domain.track(&mut per_session, 1).unwrap();
    domain.track(&mut per_session, 2).unwrap();
    assert!(
        matches!(
            domain.track(&mut per_session, 3),
            Err(Error::CapacityExceeded { limit: 2 })
        ),
        "per-session cap must reject rather than track partially"
    );
    assert_eq!(domain.tracked_pids(), vec![1, 2]);

    let mut global = domain_with(
        KillDomainSelection::tier1(Tier2Unavailable::NotLinux),
        TrackingLimits {
            max_tracked_per_session: 10,
            max_tracked_global: 1,
            reserved_fd_headroom: 0,
        },
    );
    let mut a = global
        .open_session(&SessionName::parse("a").unwrap(), Generation(1))
        .unwrap();
    let mut b = global
        .open_session(&SessionName::parse("b").unwrap(), Generation(1))
        .unwrap();
    a.track(&mut global, 10).unwrap();
    assert!(matches!(
        b.track(&mut global, 11),
        Err(Error::CapacityExceeded { .. })
    ));

    // Releasing a session returns its budget.
    a.release(&mut global);
    b.track(&mut global, 11).unwrap();
}

#[test]
fn the_open_file_limit_caps_tracking() {
    let limits = TrackingLimits {
        max_tracked_per_session: 10,
        max_tracked_global: 100,
        reserved_fd_headroom: 5,
    };
    let domain = KillDomain::new(
        KillDomainSelection::tier1(Tier2Unavailable::NotLinux),
        limits,
        AuditLogger::default(),
        SubreaperStatus::Active,
        Some(8),
    );
    assert_eq!(domain.status().tracked_process_ceiling, 3);
    assert_eq!(domain.status().subreaper, SubreaperStatus::Active);
}

#[test]
fn membership_comes_from_cgroup_procs_and_tolerates_noise() {
    let domain = tier2_domain();
    let session_domain = domain.open_session(&session(), Generation(1)).unwrap();
    assert_eq!(session_domain.cgroup_name(), Some("oab-pty-kd-test"));
    let listed = parse_cgroup_procs("11\n\n12\nbogus\n0\n");
    let seen = session_domain.observe(&FakeSignals::new(vec![]), listed);
    assert_eq!(session_domain.members(&seen), vec![11, 12]);
}

#[test]
fn tier2_converges_and_reports_a_hard_guarantee() {
    let mut domain = tier2_domain();
    let mut session_domain = domain.open_session(&session(), Generation(1)).unwrap();
    // Stand-in kernel: honours the kill request by emptying the cgroup.
    let mut content = "500\n501\n";
    let (outcome, _) = terminate(
        &session_domain,
        &mut domain,
        &FakeSignals::new(vec![]),
        &mut |killed| {
            if killed {
                content = "";
            }
            parse_cgroup_procs(content)
        },
        5 * SECOND,
    );
    assert!(outcome.converged());
    assert_eq!(outcome.guarantee, TeardownGuarantee::Hard);
    assert!(!outcome.is_best_effort());

    assert_eq!(
        session_domain.release(&mut domain).as_deref(),
        Some("oab-pty-kd-test"),
        "the session cgroup is removed on release"
    );
    assert_eq!(session_domain.release(&mut domain), None);
}

#[test]
fn tier2_reports_survivors_when_the_cgroup_never_empties() {
    let mut domain = tier2_domain();
    let session_domain = domain.open_session(&session(), Generation(1)).unwrap();
    // Bounded wait: teardown returns with the anomaly instead of hanging.
    let (outcome, elapsed) = terminate(
        &session_domain,
        &mut domain,
        &FakeSignals::new(vec![]),
        &mut |_| vec![700],
        SECOND,
    );
    assert_eq!(outcome.survivors, vec![700]);
    assert_eq!(domain.leaked_process_count(), 1);
    assert_eq!(elapsed, SECOND);
}

#[test]
fn signals_go_to_the_group_first_and_then_to_each_tracked_process() {
    let mut domain = tier1_domain();
    let mut session_domain = domain.open_session(&session(), Generation(1)).unwrap();
    session_domain.set_leader(&mut domain, 40).unwrap();
    session_domain.track(&mut domain, 41).unwrap();
    assert_eq!(
        session_domain.orders(Signal::Term),
        vec![
            SignalOrder::Group { pgid: 40, signal: Signal::Term },
            SignalOrder::Pid { pid: 40, signal: Signal::Term },
            SignalOrder::Pid { pid: 41, signal: Signal::Term },
        ]
    );
    let seen = Observation {
        alive: vec![false, true],
        group_alive: true,
        cgroup_members: Vec::new(),
    };
    assert!(session_domain.any_alive(&seen));
    assert_eq!(session_domain.survivors(&seen), vec![41, 40]);
    assert_eq!(session_domain.members(&seen), vec![41, 40]);
    assert!(session_domain.leader_exited(Some(true), true));
    assert!(!session_domain.leader_exited(None, true));
    assert!(session_domain.leader_exited(None, false));
}

// ---- tier selection ----------------------------------------------------

#[test]
fn tier2_is_selected_only_with_delegation_and_a_pre_exec_spawner() {
    let selection = resolve_tier(
        KillDomainRequirement::Tier1Allowed,
        Ok("/sys/fs/cgroup".to_string()),
        SpawnCapability::PreExecCgroupJoin,
    )
    .unwrap();
    assert_eq!(selection.tier, KillDomainTier::Tier2GuaranteedCgroup);
    assert!(selection.tier2_unavailable.is_none());
    assert!(!selection.tier.is_best_effort());
}

#[test]
fn missing_delegation_falls_back_to_tier1_with_the_distinguishing_reason() {
    for reason in [
        Tier2Unavailable::NoWritableCgroupMount,
        Tier2Unavailable::SubtreeNotDelegated,
        Tier2Unavailable::OutsideCgroupNamespace,
        Tier2Unavailable::SyscallBlocked("pidfd_open: ENOSYS".into()),
        Tier2Unavailable::NotLinux,
    ] {
        let selection = resolve_tier(
            KillDomainRequirement::Tier1Allowed,
            Err(reason.clone()),
            SpawnCapability::PreExecCgroupJoin,
        )
        .unwrap();
        assert_eq!(
            selection.tier,
            KillDomainTier::Tier1BestEffortProcessGroup
        );
        assert_eq!(selection.tier2_unavailable, Some(reason.clone()));
        let described = selection.describe();
        assert!(described.contains("BEST-EFFORT"), "{described}");
        assert!(
            described.contains(&reason.to_string()),
            "the reason must reach the operator: {described}"
        );
    }
}

#[test]
fn tier2_required_is_fail_closed_when_delegation_is_absent() {
    let error = resolve_tier(
        KillDomainRequirement::Tier2Required,
        Err(Tier2Unavailable::SubtreeNotDelegated),
        SpawnCapability::PreExecCgroupJoin,
    )
    .expect_err("must never silently downgrade a requested guarantee");
    assert!(error.to_string().contains("tier2-required"));
}

#[test]
fn a_spawner_without_pre_exec_never_claims_tier2() {
    let downgraded = resolve_tier(
        KillDomainRequirement::Tier1Allowed,
        Ok("/sys/fs/cgroup".to_string()),
        SpawnCapability::ProcessGroupOnly,
    )
    .unwrap();
    assert_eq!(
        downgraded.tier2_unavailable,
        Some(Tier2Unavailable::SpawnerCannotJoinCgroupPreExec)
    );
    assert!(downgraded.tier.is_best_effort());

    assert!(resolve_tier(
        KillDomainRequirement::Tier2Required,
        Ok("/sys/fs/cgroup".to_string()),
        SpawnCapability::ProcessGroupOnly,
    )
    .is_err());
}

#[test]
fn pid_formatting_for_the_pre_exec_hook_is_allocation_free_and_exact() {
    let mut buf = [0u8; 24];
    for (pid, expected) in [
        (1, "1"),
        (7, "7"),
        (65535, "65535"),
        (2_147_483_647, "2147483647"),
    ] {
        let len = format_pid_decimal(pid, &mut buf);
        assert_eq!(&buf[..len], expected.as_bytes());
    }
    let len = format_pid_decimal(0, &mut buf);
    assert_eq!(&buf[..len], b"0");
}

#[test]
fn pid_formatting_touches_nothing_but_its_own_bytes() {
    for (pid, expected) in [
        (i32::MIN, "-2147483648"),
        (-1, "-1"),
        (0, "0"),
        (40, "40"),
        (i32::MAX, "2147483647"),
    ] {
        let mut buf = [0xaau8; 24];
        let len = format_pid_decimal(pid, &mut buf);
        assert!(1 <= len && len <= 11);
        assert_eq!(&buf[..len], expected.as_bytes());
        assert!(buf[len..].iter().all(|byte| *byte == 0xaa));
        let listed = parse_cgroup_procs(expected);
        if pid > 0 {
            assert_eq!(listed, vec![pid]);
        } else {
            assert!(listed.is_empty());
        }
    }
}

#[test]
fn a_live_group_keeps_its_leader_among_the_members() {
    let mut domain = tier1_domain();
    let mut session_domain = domain.open_session(&session(), Generation(1)).unwrap();
    session_domain.set_leader(&mut domain, 500).unwrap();
    let seen = |alive: bool, group_alive: bool| Observation {
        alive: vec![alive],
        group_alive,
        cgroup_members: Vec::new(),
    };
    assert_eq!(session_domain.members(&seen(false, true)), vec![500]);
    assert_eq!(session_domain.members(&seen(true, true)), vec![500]);
    assert_eq!(session_domain.members(&seen(true, false)), vec![500]);
    assert!(session_domain.members(&seen(false, false)).is_empty());
}

#[test]
fn tracking_counts_what_the_sessions_hold_and_keeps_to_its_ceiling() {
    let limits = TrackingLimits {
        max_tracked_per_session: 2,
        max_tracked_global: 3,
        reserved_fd_headroom: 0,
    };
    let mut domain = KillDomain::new(
        KillDomainSelection::tier1(Tier2Unavailable::NotLinux),
        limits,
        AuditLogger::default(),
        SubreaperStatus::Unsupported,
        None,
    );
    let mut first = domain.open_session(&session(), Generation(1)).unwrap();
    let mut second = domain.open_session(&session(), Generation(2)).unwrap();
    first.set_leader(&mut domain, 10).unwrap();
    first.track(&mut domain, 11).unwrap();
    assert!(first.track(&mut domain, 12).is_err(), "the session is full");
    second.set_leader(&mut domain, 20).unwrap();
    assert!(second.track(&mut domain, 21).is_err(), "the runtime is full");
    assert_eq!(domain.status().tracked_processes, 3);
    assert_eq!(domain.status().tracked_process_ceiling, 3);
    let mut taken = first.take();
    assert_eq!(domain.status().tracked_processes, 3);
    first.release(&mut domain);
    assert_eq!(domain.status().tracked_processes, 3, "it was handed out");
    taken.release(&mut domain);
    assert_eq!(domain.status().tracked_processes, 1);
    second.track(&mut domain, 21).unwrap();
}

/// Counts how often it is asked to reap.
struct CountingSignals {
    reaped: RefCell<Vec<i32>>,
}

impl ProcessSignals for CountingSignals {
    fn signal_group(&self, _pgid: i32, _signal: Signal) -> Result<(), std::io::Error> {
        Ok(())
    }
    fn signal_pid(&self, _pid: i32, _signal: Signal) -> Result<(), std::io::Error> {
        Ok(())
    }
    fn group_alive(&self, _pgid: i32) -> bool {
        false
    }
    fn pid_alive(&self, _pid: i32) -> bool {
        false
    }
    fn reap_nonblocking(&self, pid: i32) -> bool {
        self.reaped.borrow_mut().push(pid);
        true
    }
}

#[test]
fn tier2_reaps_only_once_the_cgroup_is_empty() {
    let signals = CountingSignals { reaped: RefCell::new(Vec::new()) };
    let mut domain = tier2_domain();
    let mut hard = domain.open_session(&session(), Generation(1)).unwrap();
    hard.set_leader(&mut domain, 700).unwrap();
    hard.observe(&signals, vec![700]);
    assert!(signals.reaped.borrow().is_empty());
    hard.observe(&signals, Vec::new());
    assert_eq!(*signals.reaped.borrow(), vec![700]);

    let signals = CountingSignals { reaped: RefCell::new(Vec::new()) };
    let mut domain = tier1_domain();
    let mut soft = domain.open_session(&session(), Generation(1)).unwrap();
    soft.set_leader(&mut domain, 700).unwrap();
    soft.observe(&signals, Vec::new());
    assert_eq!(*signals.reaped.borrow(), vec![700]);
}

// ---- what the kernel writes --------------------------------------------

#[test]
fn a_stat_line_shows_a_live_member_of_its_group_only() {
    assert!(stat_shows_live_member("42 (sh) S 1 7 7 0", 7));
    assert!(!stat_shows_live_member("42 (sh) S 1 8 7 0", 7));
    assert!(!stat_shows_live_member("42 (sh) Z 1 7 7 0", 7));
    assert!(stat_shows_live_member("42 (a) b) R 1 7 7 0", 7));
    assert!(!stat_shows_live_member("garbage", 7));
}

#[test]
fn own_cgroup_paths_are_read_from_the_unified_lines() {
    assert_eq!(
        own_cgroup_hints("0::/kubepods/pod1\n"),
        vec!["kubepods/pod1".to_string()]
    );
    assert!(own_cgroup_hints("12:cpu:/x\n").is_empty());
}
