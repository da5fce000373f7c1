use openab_pty::audit::{AuditKind, AuditLogger, TerminationClass};
use openab_pty::clock::{MILLISECOND, SECOND};
use openab_pty::close_code;
use openab_pty::config::{validate_projection, PtyConfig};
use openab_pty::containment::SecretBytes;
use openab_pty::killdomain::{
    KillDomain, KillDomainSelection, KillDomainTier, ProcessSignals, Signal, SubreaperStatus,
    Teardown, TeardownAction, Tier2Unavailable, TrackingLimits,
};
use openab_pty::manager::{
    AttachedConnection, RestartStep, SessionCredential, SessionManager, TeardownReport,
    TeardownTicket, TtlAction, MAX_TOMBSTONES,
};
use openab_pty::outbound::{ControlEvent, OutboundItem};
use openab_pty::ringbuf::Replay;
use openab_pty::session::{
    AttachRejection, InputError, SessionPolicy, TakeoverLimiter, WindowSize, INPUT_QUEUE_CHUNKS,
};
use openab_pty::token::TokenStore;
use openab_pty::{Error, Generation, SessionName};

const HASH: &str = "sha256:0123456789abcdef0123456789abcdef0123456789abcdef0123456789abcdef";
const START: u128 = 1_000 * SECOND;

fn config(overrides: &str) -> PtyConfig {
    let text = format!(
        "[pty]\nenabled = true\ncommand = \"/bin/sh\"\nadmin_credential_hash = \"{HASH}\"\n{overrides}"
    );
    validate_projection(&text, &Vec::new()).expect("test projection must validate")
}

/// Every fake pid is already gone, so teardown converges instantly.
struct DeadSignals;

impl ProcessSignals for DeadSignals {
    fn signal_group(&self, _pgid: i32, _signal: Signal) -> Result<(), std::io::Error> {
        Ok(())
    }
    fn signal_pid(&self, _pid: i32, _signal: Signal) -> Result<(), std::io::Error> {
        Ok(())
    }
    fn group_alive(&self, _pgid: i32) -> bool {
        false
    }
    fn pid_alive(&self, _pid: i32) -> bool {
        false
    }
    fn reap_nonblocking(&self, _pid: i32) -> bool {
        true
    }
}

fn manager_with(overrides: &str, policy: SessionPolicy) -> SessionManager {
    SessionManager::new(
        config(overrides),
        policy,
        TokenStore::with_default_ttl(AuditLogger::default()),
        AuditLogger::default(),
        KillDomain::new(
            KillDomainSelection::tier1(Tier2Unavailable::NotLinux),
            TrackingLimits::default(),
            AuditLogger::default(),
            SubreaperStatus::Unsupported,
            None,
        ),
        START,
    )
    .unwrap()
}

fn manager() -> SessionManager {
    manager_with("", SessionPolicy::default())
}

fn name(text: &str) -> SessionName {
    SessionName::parse(text).unwrap()
}

fn inherited() -> Vec<(String, String)> {
    vec![("PATH".to_string(), "/bin".to_string())]
}

/// Create a session whose child is on record under a fixed pid.
fn create(manager: &mut SessionManager, session: &str) -> Result<SessionCredential, Error> {
    let plan = manager.create(
        name(session),
        WindowSize::default(),
        inherited(),
        "/workspace",
    )?;
    manager.spawn_session(plan, Ok(Some(4242)), START)
}

fn attach(
    manager: &mut SessionManager,
    session: &str,
    generation: Generation,
) -> Result<AttachedConnection, Error> {
    manager.attach(&name(session), generation, WindowSize::default(), None, START)
}

fn id_of(manager: &SessionManager, session: &str) -> u64 {
    manager.get(&name(session)).unwrap().id()
}

/// Run a teardown to its end and close its books.
fn finish(manager: &mut SessionManager, ticket: TeardownTicket, started: u128) -> TeardownReport {
    let mut now = started;
    let (mut teardown, mut action) = Teardown::start(ticket.domain().tier(), 5 * SECOND, now);
    for _ in 0..1_000 {
        match action {
            TeardownAction::Deliver { signal } => ticket.domain().deliver(&DeadSignals, signal),
            TeardownAction::Wait { nanos } => now += nanos,
            TeardownAction::KillCgroup | TeardownAction::Look => {}
            TeardownAction::Finish { survivors } => {
                return manager.finish_teardown(ticket, survivors, started, now).0;
            }
        }
        let seen = ticket.domain().observe(&DeadSignals, Vec::new());
        action = teardown.next(ticket.domain(), &seen, now);
    }
    panic!("teardown must end");
}

fn drain(manager: &mut SessionManager, link: u64) -> Vec<OutboundItem> {
    let mut items = Vec::new();
    while let Some(item) = manager.next_outbound(link) {
        let done = matches!(item, OutboundItem::Close(_));
        items.push(item);
        if done {
            break;
        }
    }
    items
}

fn collected_bytes(items: &[OutboundItem]) -> Vec<u8> {
    items
        .iter()
        .filter_map(|item| match item {
            OutboundItem::Bytes(bytes) => Some(bytes.clone()),
            _ => None,
        })
        .flatten()
        .collect()
}

fn close_code_of(manager: &SessionManager, connection: &AttachedConnection) -> Option<u16> {
    manager.outbound(connection.link).unwrap().close_code()
}

// ---- admission ------------------------------------------------------

#[test]
fn create_enforces_max_sessions_and_rejects_duplicates() {
    let mut manager = manager_with("max_sessions = 1\n", SessionPolicy::default());
    create(&mut manager, "one").unwrap();
    assert!(matches!(
        create(&mut manager, "one"),
        Err(Error::AlreadyExists(_))
    ));
    assert!(matches!(
        create(&mut manager, "two"),
        Err(Error::CapacityExceeded { limit: 1 })
    ));
    assert_eq!(manager.metrics().admission_rejected, 1);
    assert_eq!(manager.metrics().sessions_created, 1);
}

#[test]
fn a_full_workspace_volume_is_a_first_class_admission_failure() {
    let mut manager = manager();
    let capacity = config("").volume_capacity_kib as u64;
    manager.report_volume_usage(capacity);
    let Err(error) = create(&mut manager, "blocked") else {
        panic!("must refuse rather than fail opaquely inside the terminal");
    };
    assert!(error.to_string().contains("workspace volume full"));
    assert_eq!(manager.metrics().workspace_full, 1);
    manager.report_volume_usage(capacity - 1);
    assert!(create(&mut manager, "blocked").is_ok());
}

#[test]
fn a_failed_spawn_leaves_no_session_and_no_tracking_budget_held() {
    let mut manager = manager();
    let plan = manager
        .create(name("nope"), WindowSize::default(), inherited(), "/workspace")
        .unwrap();
    let failed = manager.spawn_session(
        plan,
        Err(Error::Other("synthetic spawn failure".into())),
        START,
    );
    match failed {
        Err(Error::Other(message)) => assert_eq!(message, "synthetic spawn failure"),
        _ => panic!("the spawn's own error must come back"),
    }
    assert!(manager.list().is_empty());
    assert_eq!(manager.kill_domain().status().tracked_processes, 0);
}

#[test]
fn a_plan_asks_for_the_configured_command_and_a_clean_environment() {
    let mut manager = manager();
    let plan = manager
        .create(
            name("plan"),
            WindowSize { rows: 10, cols: 20 },
            vec![
                ("PATH".to_string(), "/bin".to_string()),
                ("AWS_SECRET_ACCESS_KEY".to_string(), "leak".to_string()),
            ],
            "/workspace",
        )
        .unwrap();
    let request = plan.request();
    assert_eq!(request.session.as_str(), "plan");
    assert_eq!(request.command, "/bin/sh");
    assert_eq!(request.cwd, "/workspace");
    assert_eq!(request.size, WindowSize { rows: 10, cols: 20 });
    assert!(request.env.iter().all(|(_, value)| value != "leak"));
    assert!(request.env.iter().any(|(key, value)| key == "HOME" && value == "/workspace"));
    assert_eq!(plan.containment().tier(), KillDomainTier::Tier1BestEffortProcessGroup);
}

#[test]
fn session_status_labels_the_best_effort_tier() {
    let mut manager = manager();
    create(&mut manager, "s").unwrap();
    let statuses = manager.list();
    let status = &statuses[0];
    assert!(status.teardown_best_effort);
    assert!(status.absolute_ttl_best_effort);
    assert_eq!(status.tier, KillDomainTier::Tier1BestEffortProcessGroup);
    assert_eq!(status.name, "s");
    assert_eq!(status.generation, 1);
    assert!(status.alive);
    assert!(!status.attached);
}

#[test]
fn sessions_are_listed_by_name() {
    let mut manager = manager();
    for session in ["b", "a", "c"] {
        create(&mut manager, session).unwrap();
    }
    let names: Vec<String> = manager.list().into_iter().map(|status| status.name).collect();
    assert_eq!(names, vec!["a", "b", "c"]);
    assert_eq!(manager.session_keys().len(), 3);
}

// ---- attach / takeover ----------------------------------------------

#[test]
fn attach_requires_the_current_generation() {
    let mut manager = manager();
    let created = create(&mut manager, "gen").unwrap();
    assert!(attach(&mut manager, "gen", Generation(created.generation.0 + 1)).is_err());
    assert!(attach(&mut manager, "gen", created.generation).is_ok());
}

#[test]
fn takeover_evicts_the_incumbent_and_the_successor_is_unaffected() {
    let mut manager = manager();
    let created = create(&mut manager, "cas").unwrap();
    let first = manager
        .attach(&name("cas"), created.generation, WindowSize::default(), Some("a"), START)
        .unwrap();
    let second = manager
        .attach(&name("cas"), created.generation, WindowSize::default(), Some("b"), START)
        .unwrap();

    // The replaced connection's write path is dead before its socket closes.
    assert_eq!(
        manager.write_input(&first, b"x", START),
        Err(InputError::Evicted)
    );
    assert_eq!(close_code_of(&manager, &first), Some(close_code::TAKEOVER));

    // Tearing down the replaced connection cannot affect its successor.
    manager.detach(&first);
    assert!(manager.release_connection(first.link));
    assert!(close_code_of(&manager, &second).is_none());
    assert!(manager.write_input(&second, b"y", START).is_ok());
    assert_eq!(manager.metrics().takeovers, 1);
    assert!(
        !manager.release_connection(second.link),
        "a queue in use is not given up"
    );
}

#[test]
fn takeovers_are_rate_limited_per_session() {
    let policy = SessionPolicy {
        max_takeovers_per_window: 2,
        ..SessionPolicy::default()
    };
    let mut manager = manager_with("", policy);
    let created = create(&mut manager, "abuse").unwrap();
    // First attach is not a preempt; then two allowed takeovers.
    attach(&mut manager, "abuse", created.generation).unwrap();
    attach(&mut manager, "abuse", created.generation).unwrap();
    attach(&mut manager, "abuse", created.generation).unwrap();
    assert!(matches!(
        attach(&mut manager, "abuse", created.generation),
        Err(Error::CapacityExceeded { .. })
    ));
    assert_eq!(manager.metrics().takeovers_rate_limited, 1);
    assert_eq!(
        AttachRejection::TakeoverRateLimited.close_code(),
        close_code::CAPACITY
    );
}

#[test]
fn a_generation_bump_always_reopens_the_recovery_path() {
    // A thief who exhausted the takeover budget must not be able to lock the
    // victim out of `session renew`.
    let policy = SessionPolicy {
        max_takeovers_per_window: 1,
        ..SessionPolicy::default()
    };
    let mut manager = manager_with("", policy);
    let created = create(&mut manager, "recover").unwrap();
    attach(&mut manager, "recover", created.generation).unwrap();
    attach(&mut manager, "recover", created.generation).unwrap();
    assert!(attach(&mut manager, "recover", created.generation).is_err());

    let renewed = manager.renew(&name("recover"), START).unwrap();
    assert_eq!(renewed.generation, Generation(created.generation.0 + 1));
    assert!(
        attach(&mut manager, "recover", renewed.generation).is_ok(),
        "the first attach of a new generation bypasses an exhausted bucket"
    );
}

#[test]
fn the_takeover_budget_is_spent_and_refilled_by_the_window() {
    let policy = SessionPolicy {
        max_takeovers_per_window: 1,
        takeover_window: 60 * SECOND,
        ..SessionPolicy::default()
    };
    let mut limiter = TakeoverLimiter::new(Generation(1), START);
    assert!(
        limiter.allow(Generation(1), START, &policy),
        "the first attach of a generation is free"
    );
    assert!(limiter.allow(Generation(1), START, &policy));
    assert!(!limiter.allow(Generation(1), START + 59 * SECOND, &policy));
    assert!(limiter.allow(Generation(1), START + 60 * SECOND, &policy));
}

#[test]
fn renew_evicts_with_a_renew_distinct_code_and_invalidates_old_tokens() {
    let mut manager = manager();
    let created = create(&mut manager, "renew").unwrap();
    let old_token = created.token.plaintext.as_bytes().to_vec();
    let attached = attach(&mut manager, "renew", created.generation).unwrap();

    let renewed = manager.renew(&name("renew"), START).unwrap();
    assert_eq!(
        close_code_of(&manager, &attached),
        Some(close_code::RENEWED),
        "an evicted client must be able to tell renewal from takeover"
    );
    assert_eq!(
        manager.write_input(&attached, b"x", START),
        Err(InputError::Evicted)
    );

    // The old token no longer verifies, at either generation.
    let mut verifier = TokenStore::with_default_ttl(AuditLogger::default()).attach_verifier();
    for generation in [created.generation, renewed.generation] {
        let mut presented = SecretBytes::new(old_token.clone());
        assert!(!manager.verify_attach(
            &mut verifier,
            &name("renew"),
            generation,
            &mut presented,
            None,
            START
        ));
    }
    let mut presented = SecretBytes::from_slice(renewed.token.plaintext.as_bytes());
    assert!(manager.verify_attach(
        &mut verifier,
        &name("renew"),
        renewed.generation,
        &mut presented,
        None,
        START
    ));
    // The process survived: renew is connection-evict, never session-teardown.
    assert!(manager.get(&name("renew")).unwrap().is_alive());
    assert!(matches!(
        manager.renew(&name("nobody"), START),
        Err(Error::NotFound(_))
    ));
}

// ---- I/O, replay, resize -------------------------------------------

#[test]
fn pty_output_is_retained_and_delivered_to_the_current_connection() {
    let mut manager = manager();
    let created = create(&mut manager, "io").unwrap();
    let attached = attach(&mut manager, "io", created.generation).unwrap();
    let id = id_of(&manager, "io");

    manager.on_output(&name("io"), id, b"hello ", START);
    manager.on_output(&name("io"), id, b"world", START);

    let items = drain(&mut manager, attached.link);
    assert_eq!(collected_bytes(&items), b"hello world");
    assert!(
        matches!(items[0], OutboundItem::Control(ControlEvent::AttachNotice { .. })),
        "attach must state that the workspace is ephemeral: {items:?}"
    );
    assert_eq!(manager.get(&name("io")).unwrap().total_written(), 11);
}

#[test]
fn output_of_a_replaced_session_is_dropped() {
    let mut manager = manager();
    create(&mut manager, "io").unwrap();
    let id = id_of(&manager, "io");
    manager.on_output(&name("io"), id + 1, b"stray", START);
    assert_eq!(manager.get(&name("io")).unwrap().total_written(), 0);
}

#[test]
fn client_input_reaches_the_pty_with_capability_responses_stripped() {
    let mut manager = manager();
    let created = create(&mut manager, "in").unwrap();
    let attached = attach(&mut manager, "in", created.generation).unwrap();
    let id = id_of(&manager, "in");

    manager
        .write_input(&attached, b"ls\x1b[?62;22c -la\r", START)
        .unwrap();
    assert_eq!(
        manager.next_input(&name("in"), id),
        Some(b"ls -la\r".to_vec())
    );
    assert_eq!(manager.next_input(&name("in"), id), None);
}

#[test]
fn input_beyond_the_watermark_fails_closed() {
    let mut manager = manager();
    let created = create(&mut manager, "flood").unwrap();
    let attached = attach(&mut manager, "flood", created.generation).unwrap();

    // Nothing drains the queue, so flooding it must be refused, never queued
    // without limit.
    let mut accepted = 0;
    let mut rejected = None;
    for _ in 0..(INPUT_QUEUE_CHUNKS * 4) {
        match manager.write_input(&attached, b"x", START) {
            Ok(()) => accepted += 1,
            Err(error) => {
                rejected = Some(error);
                break;
            }
        }
    }
    assert_eq!(
        rejected,
        Some(InputError::Backpressure),
        "input must be bounded, never queued without limit"
    );
    assert_eq!(accepted, INPUT_QUEUE_CHUNKS);
}

#[test]
fn resize_propagates_and_the_attach_time_size_counts() {
    let mut manager = manager();
    let created = create(&mut manager, "size").unwrap();
    assert_eq!(
        manager.get(&name("size")).unwrap().window_size(),
        WindowSize::default(),
        "spawn size"
    );
    let attached = manager
        .attach(
            &name("size"),
            created.generation,
            WindowSize::validated(40, 120).unwrap(),
            None,
            START,
        )
        .unwrap();
    assert_eq!(
        manager.get(&name("size")).unwrap().window_size(),
        WindowSize { rows: 40, cols: 120 },
        "attach-time size"
    );
    manager
        .resize(&attached, WindowSize::validated(50, 200).unwrap())
        .unwrap();
    assert_eq!(
        manager.get(&name("size")).unwrap().window_size(),
        WindowSize { rows: 50, cols: 200 },
        "resize frame"
    );
    assert!(WindowSize::validated(0, 80).is_err());
    assert!(WindowSize::validated(24, 5000).is_err());
    assert_eq!(
        WindowSize::validated(24, 5000).unwrap_err().to_string(),
        "resize out of bounds: 24x5000 (1..=1000)"
    );
}

#[test]
fn a_since_cursor_replays_only_missed_bytes() {
    let mut manager = manager();
    create(&mut manager, "cursor").unwrap();
    let id = id_of(&manager, "cursor");
    manager.on_output(&name("cursor"), id, b"abcdef", START);
    match manager.replay_since(&name("cursor"), 3).unwrap() {
        Replay::Contiguous { bytes, to_offset } => {
            assert_eq!(bytes, b"def");
            assert_eq!(to_offset, 6);
        }
        other => panic!("expected contiguous replay, got {other:?}"),
    }
    assert!(matches!(
        manager.replay_since(&name("nobody"), 3),
        Err(Error::NotFound(_))
    ));
}

#[test]
fn a_reconnect_is_told_the_offset_and_gets_what_it_missed() {
    let mut manager = manager();
    let created = create(&mut manager, "back").unwrap();
    let id = id_of(&manager, "back");
    manager.on_output(&name("back"), id, b"abcdef", START);
    let (attached, offset) = manager
        .attach_with_replay(
            &name("back"),
            created.generation,
            WindowSize::default(),
            None,
            Some(2),
            START,
        )
        .unwrap();
    assert_eq!(offset, 6);
    manager.on_output(&name("back"), id, b"gh", START);
    let items = drain(&mut manager, attached.link);
    assert!(matches!(
        items[0],
        OutboundItem::Control(ControlEvent::AttachNotice { .. })
    ));
    assert_eq!(collected_bytes(&items), b"cdefgh");
}

// ---- termination ----------------------------------------------------

#[test]
fn kill_is_a_session_teardown_that_clears_state_and_tokens() {
    let mut manager = manager();
    let created = create(&mut manager, "bye").unwrap();
    let attached = attach(&mut manager, "bye", created.generation).unwrap();

    let ticket = manager.kill(&name("bye")).unwrap();
    assert_eq!(ticket.session().as_str(), "bye");
    assert_eq!(ticket.generation(), created.generation);
    let report = finish(&mut manager, ticket, START);
    assert_eq!(report.class, TerminationClass::UserKill);
    assert_eq!(report.close_code, close_code::ADMIN_KILL);
    assert!(report.kill_domain.converged());
    assert!(report.kill_domain.is_best_effort());
    assert_eq!(close_code_of(&manager, &attached), Some(close_code::ADMIN_KILL));
    assert!(manager.list().is_empty(), "the slot is released");
    assert_eq!(manager.kill_domain().status().tracked_processes, 0);

    // Reattach-to-dead is a distinct error offering restart-in-place.
    assert!(matches!(
        attach(&mut manager, "bye", created.generation),
        Err(Error::SessionDead(_))
    ));
    assert!(matches!(
        attach(&mut manager, "never-existed", Generation(1)),
        Err(Error::NotFound(_))
    ));
    assert!(matches!(
        manager.kill(&name("never-existed")),
        Err(Error::NotFound(_))
    ));
}

#[test]
fn teardown_is_not_blocked_by_a_client_that_never_reads() {
    let mut manager = manager();
    let created = create(&mut manager, "slow").unwrap();
    let attached = attach(&mut manager, "slow", created.generation).unwrap();
    // Nothing is ever drained from the connection's queue.
    let ticket = manager.kill(&name("slow")).unwrap();
    let report = finish(&mut manager, ticket, START);
    assert!(
        report.kill_domain.elapsed_ms < 2_000,
        "a non-reading client must not delay teardown"
    );
    assert!(close_code_of(&manager, &attached).is_some());
}

#[test]
fn self_exit_ends_with_session_ended_and_offers_restart_in_place() {
    let mut manager = manager();
    let created = create(&mut manager, "exit").unwrap();
    let attached = attach(&mut manager, "exit", created.generation).unwrap();
    let id = id_of(&manager, "exit");
    manager.on_output(&name("exit"), id, b"final output", START);
    let ticket = manager.handle_self_exit(&name("exit"), id).unwrap();
    let report = finish(&mut manager, ticket, START);
    assert_eq!(report.class, TerminationClass::SelfExit);
    assert!(manager.get(&name("exit")).is_none(), "slot released");
    let items = drain(&mut manager, attached.link);
    assert!(
        collected_bytes(&items).ends_with(b"final output"),
        "the final flush must reach the client: {items:?}"
    );
    assert_eq!(
        close_code_of(&manager, &attached),
        Some(close_code::SESSION_ENDED)
    );
    assert_eq!(manager.metrics().self_exits, 1);
    assert!(manager.handle_self_exit(&name("exit"), id).is_none());

    let step = manager
        .restart_in_place(&name("exit"), inherited(), "/workspace")
        .unwrap();
    let RestartStep::Spawn(plan) = step else {
        panic!("a dead session needs no teardown first");
    };
    let restarted = manager.spawn_session(plan, Ok(Some(4243)), START).unwrap();
    assert!(
        restarted.generation > created.generation,
        "restart-in-place mints a new generation"
    );
    let session = manager.get(&name("exit")).unwrap();
    assert!(session.is_alive());
    assert_eq!(session.total_written(), 0, "empty scrollback");
}

#[test]
fn restarting_a_live_session_tears_it_down_first() {
    let mut manager = manager();
    let created = create(&mut manager, "live").unwrap();
    let attached = attach(&mut manager, "live", created.generation).unwrap();
    let step = manager
        .restart_in_place(&name("live"), inherited(), "/workspace")
        .unwrap();
    let RestartStep::Teardown(ticket) = step else {
        panic!("a live session must be torn down");
    };
    let ended = ticket.generation();
    finish(&mut manager, ticket, START);
    assert_eq!(close_code_of(&manager, &attached), Some(close_code::SESSION_ENDED));
    let plan = manager
        .resume_restart(&name("live"), ended, inherited(), "/workspace")
        .unwrap();
    let restarted = manager.spawn_session(plan, Ok(Some(4243)), START).unwrap();
    assert_eq!(restarted.generation, Generation(created.generation.0 + 1));
    assert!(matches!(
        manager.restart_in_place(&name("nobody"), inherited(), "/workspace"),
        Err(Error::NotFound(_))
    ));
}

#[test]
fn shutdown_uses_the_runtime_replaced_close_code() {
    let mut manager = manager();
    let created = create(&mut manager, "shut").unwrap();
    let attached = attach(&mut manager, "shut", created.generation).unwrap();
    let mut reports = Vec::new();
    for key in manager.session_keys() {
        let ticket = manager.shutdown(&key.name, key.id).unwrap();
        reports.push(finish(&mut manager, ticket, START));
    }
    assert_eq!(reports.len(), 1);
    assert_eq!(reports[0].class, TerminationClass::RuntimeShutdown);
    assert_eq!(
        close_code_of(&manager, &attached),
        Some(close_code::RUNTIME_REPLACED)
    );
    assert!(matches!(
        attach(&mut manager, "shut", created.generation),
        Err(Error::NotFound(_))
    ));
}

#[test]
fn a_drain_is_announced_to_every_attached_client() {
    let mut manager = manager();
    let created = create(&mut manager, "told").unwrap();
    let attached = attach(&mut manager, "told", created.generation).unwrap();
    drain(&mut manager, attached.link);
    manager.notify_shutdown(15 * SECOND);
    assert_eq!(
        drain(&mut manager, attached.link),
        vec![OutboundItem::Control(ControlEvent::TtlWarning {
            seconds_remaining: 15,
            absolute: true
        })]
    );
}

#[test]
fn only_so_many_dead_sessions_are_remembered() {
    let mut manager = manager();
    for index in 0..(MAX_TOMBSTONES + 1) {
        let session = format!("t{index}");
        create(&mut manager, &session).unwrap();
        let ticket = manager.kill(&name(&session)).unwrap();
        finish(&mut manager, ticket, START);
    }
    assert!(matches!(
        attach(&mut manager, "t0", Generation(1)),
        Err(Error::NotFound(_))
    ));
    assert!(matches!(
        attach(&mut manager, "t1", Generation(1)),
        Err(Error::SessionDead(_))
    ));
}

// ---- TTLs -----------------------------------------------------------

#[test]
fn the_absolute_ttl_applies_even_while_attached() {
    let policy = SessionPolicy {
        absolute_ttl: 400 * MILLISECOND,
        ttl_warning_lead: 250 * MILLISECOND,
        ..SessionPolicy::default()
    };
    let mut manager = manager_with("", policy);
    let created = create(&mut manager, "cap").unwrap();
    let attached = attach(&mut manager, "cap", created.generation).unwrap();
    drain(&mut manager, attached.link);
    let id = id_of(&manager, "cap");

    assert!(
        matches!(manager.tick(&name("cap"), id, START), (None, None)),
        "nothing is due yet"
    );

    let (warned, ticket) = manager.tick(&name("cap"), id, START + 200 * MILLISECOND);
    assert!(ticket.is_none());
    match warned {
        Some(TtlAction::Warned { session, absolute: true }) => {
            assert_eq!(session.as_str(), "cap")
        }
        other => panic!("expected a warning, got {other:?}"),
    }
    let items = drain(&mut manager, attached.link);
    assert!(
        items.iter().any(|item| matches!(
            item,
            OutboundItem::Control(ControlEvent::TtlWarning { absolute: true, .. })
        )),
        "expiry must be client-visible before teardown: {items:?}"
    );
    assert!(
        matches!(
            manager.tick(&name("cap"), id, START + 201 * MILLISECOND),
            (None, None)
        ),
        "announced once"
    );

    let (expired, ticket) = manager.tick(&name("cap"), id, START + 450 * MILLISECOND);
    match expired {
        Some(TtlAction::Expired { session, absolute: true }) => {
            assert_eq!(session.as_str(), "cap")
        }
        other => panic!("expected an expiry, got {other:?}"),
    }
    let report = finish(&mut manager, ticket.unwrap(), START + 450 * MILLISECOND);
    assert_eq!(report.class, TerminationClass::UserKill);
    assert_eq!(
        close_code_of(&manager, &attached),
        Some(close_code::TTL_EXPIRED)
    );
    assert!(manager.list().is_empty());
    assert_eq!(manager.metrics().ttl_expired, 1);
}

#[test]
fn the_detached_idle_ttl_only_runs_while_detached() {
    let policy = SessionPolicy {
        detached_idle_ttl: 200 * MILLISECOND,
        ttl_warning_lead: MILLISECOND,
        ..SessionPolicy::default()
    };
    let mut manager = manager_with("", policy);
    let created = create(&mut manager, "idle").unwrap();
    let attached = attach(&mut manager, "idle", created.generation).unwrap();
    let id = id_of(&manager, "idle");

    // Attached: a live socket is liveness, however idle the user is.
    assert!(matches!(
        manager.tick(&name("idle"), id, START + 300 * MILLISECOND),
        (None, None)
    ));

    manager.detach(&attached);
    let (action, ticket) = manager.tick(&name("idle"), id, START + 600 * MILLISECOND);
    assert!(ticket.is_some());
    match action {
        Some(TtlAction::Expired { session, absolute: false }) => {
            assert_eq!(session.as_str(), "idle")
        }
        other => panic!("expected an expiry, got {other:?}"),
    }
}

#[test]
fn missed_pings_count_as_detached_and_evict_the_connection() {
    let mut manager = manager();
    let created = create(&mut manager, "ping").unwrap();
    let attached = attach(&mut manager, "ping", created.generation).unwrap();
    assert!(!manager.on_missed_ping(&attached));
    manager.on_pong(&attached, START);
    assert!(!manager.on_missed_ping(&attached));
    assert!(!manager.on_missed_ping(&attached));
    assert!(
        manager.on_missed_ping(&attached),
        "3 missed pings is the configured detached threshold"
    );
    let session = manager.get(&name("ping")).unwrap();
    assert!(!session.is_attached());
    assert!(session.is_alive(), "a half-open socket never kills a session");
}

#[test]
fn policy_bands_from_the_adr_are_enforced() {
    let bad_interval = SessionPolicy {
        ping_interval: 60 * SECOND,
        ..SessionPolicy::default()
    };
    assert!(bad_interval.validate().is_err());
    let bad_pings = SessionPolicy {
        missed_pings_before_detached: 9,
        ..SessionPolicy::default()
    };
    assert!(bad_pings.validate().is_err());
    assert!(SessionPolicy::default().validate().is_ok());
    assert_eq!(
        SessionPolicy::from_config(&config("absolute_session_ttl = \"3h\"\n")).absolute_ttl,
        3 * 60 * 60 * SECOND
    );
}

#[test]
fn per_session_disk_budget_surfaces_workspace_full_to_the_client() {
    let mut manager = manager();
    let created = create(&mut manager, "disk").unwrap();
    let attached = attach(&mut manager, "disk", created.generation).unwrap();
    assert!(!manager.report_session_disk_usage(&name("disk"), 1));
    let budget = config("").per_session_disk_kib as u64;
    assert!(manager.report_session_disk_usage(&name("disk"), budget));
    let items = drain(&mut manager, attached.link);
    assert!(
        items.iter().any(|item| matches!(
            item,
            OutboundItem::Control(ControlEvent::WorkspaceVolumeFull { .. })
        )),
        "must be a first-class condition, not an opaque write error: {items:?}"
    );
    assert!(!manager.report_session_disk_usage(&name("nobody"), budget));
}

#[test]
fn a_slow_client_backlog_is_bounded_and_ends_in_slow_client() {
    let mut manager = manager_with(
        "outbound_backlog_kib = 1\nscrollback_kib = 1\nfixed_session_overhead_kib = 1\nreplay_queue_kib = 1\n",
        SessionPolicy::default(),
    );
    let created = create(&mut manager, "backlog").unwrap();
    let attached = attach(&mut manager, "backlog", created.generation).unwrap();
    let id = id_of(&manager, "backlog");
    let chunk = vec![b'z'; 4096];
    for _ in 0..8 {
        manager.on_output(&name("backlog"), id, &chunk, START);
    }
    assert_eq!(
        close_code_of(&manager, &attached),
        Some(close_code::SLOW_CLIENT),
        "past the hard watermark the connection is dropped, never queued"
    );
    assert!(manager.outbound(attached.link).unwrap().backlog() <= 1024);
}

#[test]
fn outbound_next_terminates_once_closed_and_drained() {
    let mut manager = manager();
    let created = create(&mut manager, "drain").unwrap();
    let attached = attach(&mut manager, "drain", created.generation).unwrap();
    let id = id_of(&manager, "drain");
    manager.on_output(&name("drain"), id, b"tail", START);
    manager.close_connection(attached.link, close_code::TTL_EXPIRED);

    let mut saw_close = false;
    for _ in 0..10 {
        if let Some(OutboundItem::Close(code)) = manager.next_outbound(attached.link) {
            assert_eq!(code, close_code::TTL_EXPIRED);
            saw_close = true;
            break;
        }
    }
    assert!(saw_close);
}

#[test]
fn the_trail_tells_what_happened_to_a_session() {
    let mut manager = manager();
    let created = create(&mut manager, "trail").unwrap();
    attach(&mut manager, "trail", created.generation).unwrap();
    let ticket = manager.kill(&name("trail")).unwrap();
    finish(&mut manager, ticket, START);
    let kinds: Vec<AuditKind> = manager.drain_audit().iter().map(|event| event.kind).collect();
    for expected in [AuditKind::SessionCreate, AuditKind::Attach, AuditKind::SessionKill] {
        assert!(kinds.contains(&expected), "{expected:?} missing in {kinds:?}");
    }
}

#[test]
fn a_kill_that_could_not_be_written_is_recorded() {
    let mut manager = manager();
    create(&mut manager, "stuck").unwrap();
    let id = id_of(&manager, "stuck");
    let ticket = manager.kill(&name("stuck")).unwrap();
    assert_eq!(ticket.session_id(), id);
    manager.drain_audit();
    manager.note_cgroup_kill_failure(&ticket, "permission denied");
    let events = manager.drain_audit();
    assert_eq!(events.len(), 1);
    assert_eq!(
        events[0].detail.as_deref(),
        Some("cgroup.kill write failed: permission denied")
    );
    assert_eq!(events[0].session.as_deref(), Some("stuck"));
}

#[test]
fn a_reconnect_past_eviction_is_told_the_gap() {
    let mut manager = manager_with("scrollback_kib = 1\n", SessionPolicy::default());
    let created = create(&mut manager, "gap").unwrap();
    let id = id_of(&manager, "gap");
    let stream: Vec<u8> = (0..2048).map(|i| (i % 251) as u8).collect();
    manager.on_output(&name("gap"), id, &stream, START);
    let (attached, offset) = manager
        .attach_with_replay(
            &name("gap"),
            created.generation,
            WindowSize::default(),
            None,
            Some(24),
            START,
        )
        .unwrap();
    assert_eq!(offset, 2048);
    let items = drain(&mut manager, attached.link);
    assert!(matches!(
        items[0],
        OutboundItem::Control(ControlEvent::AttachNotice { .. })
    ));
    assert_eq!(
        items[1],
        OutboundItem::Control(ControlEvent::Gap { bytes_dropped: 1000 })
    );
    assert_eq!(collected_bytes(&items), &stream[1024..]);
}

#[test]
fn a_cursor_resumes_the_stream_after_a_lost_connection() {
    let mut manager = manager();
    let created = create(&mut manager, "lost").unwrap();
    let id = id_of(&manager, "lost");
    manager.on_output(&name("lost"), id, b"before ", START);
    let (first, offset) = manager
        .attach_with_replay(
            &name("lost"),
            created.generation,
            WindowSize::default(),
            None,
            None,
            START,
        )
        .unwrap();
    manager.on_output(&name("lost"), id, b"seen ", START);
    let received = collected_bytes(&drain(&mut manager, first.link));
    assert_eq!(received, b"seen ");
    manager.detach(&first);
    manager.on_output(&name("lost"), id, b"missed", START);
    let (second, _) = manager
        .attach_with_replay(
            &name("lost"),
            created.generation,
            WindowSize::default(),
            None,
            Some(offset + received.len() as u64),
            START,
        )
        .unwrap();
    assert_eq!(collected_bytes(&drain(&mut manager, second.link)), b"missed");
}

#[test]
fn the_whole_window_is_replayed_where_the_operator_asked_for_it() {
    let mut manager = manager_with("scrollback_replay = true\n", SessionPolicy::default());
    let created = create(&mut manager, "all").unwrap();
    let id = id_of(&manager, "all");
    manager.on_output(&name("all"), id, b"history", START);
    let attached = attach(&mut manager, "all", created.generation).unwrap();
    assert_eq!(collected_bytes(&drain(&mut manager, attached.link)), b"history");
}

#[test]
fn one_session_does_not_touch_another() {
    let mut manager = manager();
    let a = create(&mut manager, "a").unwrap();
    let b = create(&mut manager, "b").unwrap();
    let on_b = attach(&mut manager, "b", b.generation).unwrap();
    attach(&mut manager, "a", a.generation).unwrap();
    manager.renew(&name("a"), START).unwrap();
    let ticket = manager.kill(&name("a")).unwrap();
    finish(&mut manager, ticket, START);
    assert!(close_code_of(&manager, &on_b).is_none());
    assert!(manager.write_input(&on_b, b"x", START).is_ok());
    let mut verifier = TokenStore::with_default_ttl(AuditLogger::default()).attach_verifier();
    let mut presented = SecretBytes::from_slice(b.token.plaintext.as_bytes());
    assert!(manager.verify_attach(
        &mut verifier,
        &name("b"),
        b.generation,
        &mut presented,
        None,
        START
    ));
}

#[test]
fn tracking_limits_refuse_a_session_and_hold_nothing() {
    let mut manager = SessionManager::new(
        config(""),
        SessionPolicy::default(),
        TokenStore::with_default_ttl(AuditLogger::default()),
        AuditLogger::default(),
        KillDomain::new(
            KillDomainSelection::tier1(Tier2Unavailable::NotLinux),
            TrackingLimits {
                max_tracked_per_session: 4,
                max_tracked_global: 1,
                reserved_fd_headroom: 0,
            },
            AuditLogger::default(),
            SubreaperStatus::Unsupported,
            None,
        ),
        START,
    )
    .unwrap();
    create(&mut manager, "one").unwrap();
    assert!(matches!(
        create(&mut manager, "two"),
        Err(Error::CapacityExceeded { limit: 1 })
    ));
    assert!(manager.get(&name("two")).is_none());
    let ticket = manager.kill(&name("one")).unwrap();
    finish(&mut manager, ticket, START);
    assert!(create(&mut manager, "two").is_ok(), "the budget came back");
}

#[test]
fn a_policy_outside_its_bands_makes_no_manager() {
    let result = SessionManager::new(
        config(""),
        SessionPolicy {
            absolute_ttl: 0,
            ..SessionPolicy::default()
        },
        TokenStore::with_default_ttl(AuditLogger::default()),
        AuditLogger::default(),
        KillDomain::new(
            KillDomainSelection::tier1(Tier2Unavailable::NotLinux),
            TrackingLimits::default(),
            AuditLogger::default(),
            SubreaperStatus::Unsupported,
            None,
        ),
        START,
    );
    match result {
        Err(Error::Config(message)) => assert_eq!(message, "TTLs must be non-zero"),
        _ => panic!("must refuse"),
    }
}

#[test]
fn a_replay_larger_than_the_backlog_tells_the_gap_and_then_the_notice() {
    let mut manager = manager_with(
        "outbound_backlog_kib = 1\nscrollback_kib = 2\nfixed_session_overhead_kib = 1\nreplay_queue_kib = 1\n",
        SessionPolicy::default(),
    );
    let created = create(&mut manager, "big").unwrap();
    let id = id_of(&manager, "big");
    manager.on_output(&name("big"), id, &vec![b'x'; 1500], START);
    let (attached, offset) = manager
        .attach_with_replay(
            &name("big"),
            created.generation,
            WindowSize::default(),
            None,
            Some(0),
            START,
        )
        .unwrap();
    assert_eq!(offset, 1500);
    let items = drain(&mut manager, attached.link);
    assert!(matches!(
        items[0],
        OutboundItem::Control(ControlEvent::Gap { bytes_dropped: 476 })
    ));
    assert!(matches!(
        items[1],
        OutboundItem::Control(ControlEvent::AttachNotice { .. })
    ));
    assert_eq!(collected_bytes(&items).len(), 1024);
}

#[test]
fn the_offset_already_counts_what_is_replayed() {
    let mut manager = manager();
    let created = create(&mut manager, "cursor").unwrap();
    let id = id_of(&manager, "cursor");
    manager.on_output(&name("cursor"), id, b"old", START);
    let (attached, offset) = manager
        .attach_with_replay(
            &name("cursor"),
            created.generation,
            WindowSize::default(),
            None,
            Some(0),
            START,
        )
        .unwrap();
    assert_eq!(offset, 3);
    assert_eq!(collected_bytes(&drain(&mut manager, attached.link)), b"old");
    manager.on_output(&name("cursor"), id, b"live", START);
    manager.on_output(&name("cursor"), id, b"missed", START);
    let cursor = offset + 4;
    match manager.replay_since(&name("cursor"), cursor).unwrap() {
        Replay::Contiguous { bytes, to_offset } => {
            assert_eq!(bytes, b"missed");
            assert_eq!(to_offset, 13);
        }
        other => panic!("nothing was lost: {other:?}"),
    }
}
