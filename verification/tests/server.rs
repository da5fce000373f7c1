use openab_pty::admin_auth::AdminAuthenticator;
use openab_pty::audit::{AuditKind, AuditLogger, TerminationClass};
use openab_pty::clock::{MILLISECOND, SECOND};
use openab_pty::close_code;
use openab_pty::config::validate_projection;
use openab_pty::killdomain::{
    KillDomain, KillDomainSelection, SubreaperStatus, Tier2Unavailable, TrackingLimits,
};
use openab_pty::limiter::UPGRADE_FAILURE_LIMIT;
use openab_pty::listener::{bind_is_loopback, listener_guard};
use openab_pty::manager::{AttachedConnection, RestartStep, SessionManager, TeardownReport};
use openab_pty::outbound::OutboundItem;
use openab_pty::server::{
    admin_failure_response, attach_failure_close_code, close_reason, credential_response,
    error_response, wire_frame, AppState, AttachAnswer, AttachQuery, AttachRequest, ClientEvent,
    CreateRefusal, ReadExit, ReadLoop, ReadStep, ServerConfig, WireFrame, WS_NORMAL_CLOSURE,
    WS_POLICY_VIOLATION,
};
use openab_pty::session::{SessionPolicy, WindowSize, INPUT_QUEUE_CHUNKS};
use openab_pty::token::TokenStore;
use openab_pty::wire::{MAX_INPUT_FRAME_BYTES, MAX_MALFORMED_FRAMES};
use openab_pty::admin_auth::AdminAuthFailure;
use openab_pty::{Error, Generation, SessionName};
use serde_json::Value;

const START: u128 = 1_000 * SECOND;

fn name(text: &str) -> SessionName {
    SessionName::parse(text).unwrap()
}

struct Harness {
    state: AppState,
    admin_credential: String,
}

impl Harness {
    fn start(token_ttl: u128) -> Self {
        let generated = AdminAuthenticator::generate();
        let text = format!(
            "[pty]\nenabled = true\ncommand = \"/bin/sh\"\nadmin_credential_hash = \"{}\"\n",
            generated.verifier
        );
        let config = validate_projection(&text, &Vec::new()).unwrap();
        let tokens = TokenStore::new(token_ttl, AuditLogger::default());
        let verifier = tokens.attach_verifier();
        let manager = SessionManager::new(
            config,
            SessionPolicy::default(),
            tokens,
            AuditLogger::default(),
            KillDomain::new(
                KillDomainSelection::tier1(Tier2Unavailable::NotLinux),
                TrackingLimits::default(),
                AuditLogger::default(),
                SubreaperStatus::Unsupported,
                None,
            ),
            START,
        )
        .unwrap();
        let admin =
            AdminAuthenticator::from_verifier_hash(&generated.verifier, AuditLogger::default())
                .unwrap();
        let state = AppState::new(
            manager,
            verifier,
            admin,
            AuditLogger::default(),
            ServerConfig {
                listen: "127.0.0.1:0".to_string(),
                tls_terminated_upstream: false,
                drain_grace: 15 * SECOND,
                tick_interval: SECOND,
            },
        );
        Self {
            state,
            admin_credential: String::from_utf8(generated.plaintext.as_bytes().to_vec()).unwrap(),
        }
    }

    /// Create a session and hand out its token.
    fn create(&mut self, session: &str) -> String {
        let (session, size) = self.state.admit_create(session, None, None).unwrap();
        let plan = self
            .state
            .manager
            .create(session, size, Vec::new(), "/workspace")
            .unwrap();
        let credential = self
            .state
            .manager
            .spawn_session(plan, Ok(Some(4242)), START)
            .unwrap();
        credential_response(credential, START).token
    }

    fn knock(&mut self, request: &AttachRequest, now: u128) -> AttachAnswer {
        self.state.attach(request, now)
    }

    fn connect(&mut self, session: &str, token: &str) -> Option<(AttachedConnection, u64)> {
        match self.state.attach(&bearer(session, token), START) {
            AttachAnswer::Upgrade {
                name,
                generation,
                size,
                since,
            } => Some(
                self.state
                    .manager
                    .attach_with_replay(&name, generation, size, None, since, START)
                    .unwrap(),
            ),
            _ => None,
        }
    }

    fn next_text(&mut self, connection: &AttachedConnection, offset: u64) -> Value {
        let item = self.state.manager.next_outbound(connection.link).unwrap();
        match wire_frame(item, offset) {
            WireFrame::Text(text) => serde_json::from_str(&text).unwrap(),
            other => panic!("expected a control frame, got {other:?}"),
        }
    }

    fn kill(&mut self, session: &str) -> TeardownReport {
        let ticket = self.state.manager.kill(&name(session)).unwrap();
        self.state
            .manager
            .finish_teardown(ticket, Vec::new(), START, START)
            .0
    }
}

fn bearer(session: &str, token: &str) -> AttachRequest {
    AttachRequest {
        session: session.to_string(),
        query: AttachQuery {
            since: None,
            rows: None,
            cols: None,
        },
        authorization: Some(format!("Bearer {token}")),
        offer: None,
        source: "203.0.113.1".to_string(),
        peer: "203.0.113.1:4000".to_string(),
    }
}

// ---- close codes ---------------------------------------------------------

#[test]
fn runtime_replaced_has_its_own_client_visible_reason() {
    // Distinct from TTL expiry, takeover, and self-exit, so a client can say
    // "your task was replaced" rather than showing a network error.
    let replaced = close_reason(close_code::RUNTIME_REPLACED);
    assert!(replaced.contains("replaced"));
    for other in [
        close_code::TTL_EXPIRED,
        close_code::TAKEOVER,
        close_code::SESSION_ENDED,
    ] {
        assert_ne!(close_reason(other), replaced);
    }
}

#[test]
fn an_admin_kill_is_not_reported_as_an_expiry() {
    assert_ne!(close_code::ADMIN_KILL, close_code::TTL_EXPIRED);
    assert_ne!(
        close_reason(close_code::ADMIN_KILL),
        close_reason(close_code::TTL_EXPIRED)
    );
}

#[test]
fn internal_faults_do_not_close_with_a_retry_create_hint() {
    // CAPACITY tells a client "full, try creating again". An IO/config/other
    // fault is not that, and saying so produced a create loop on a fault.
    for internal in [
        Error::Io(std::io::Error::other("synthetic")),
        Error::Config("synthetic".into()),
        Error::Other("synthetic".into()),
    ] {
        assert_eq!(
            attach_failure_close_code(&internal),
            close_code::INTERNAL_ERROR,
            "{} must not be reported as capacity",
            internal.to_string()
        );
    }
    assert_eq!(
        attach_failure_close_code(&Error::CapacityExceeded { limit: 1 }),
        close_code::CAPACITY
    );
}

#[test]
fn listener_refuses_off_loopback_without_auth_material_or_a_terminator() {
    assert!(listener_guard("127.0.0.1:8090", "", false).is_ok());
    assert!(listener_guard("localhost:8090", "", false).is_ok());
    assert!(listener_guard("[::1]:8090", "", false).is_ok());

    assert!(listener_guard("0.0.0.0:8090", "", true).is_err());
    assert!(listener_guard("0.0.0.0:8090", "sha256:aa", false).is_err());
    assert!(listener_guard("0.0.0.0:8090", "sha256:aa", true).is_ok());
    // Unparseable host is treated as non-loopback (fail safe).
    assert!(listener_guard("pty.internal:8090", "", true).is_err());
}

#[test]
fn loopback_is_what_the_address_literal_says() {
    for loopback in [
        "127.0.0.1:1",
        "127.255.0.3:1",
        "LOCALHOST:1",
        "[::1]:1",
        "[0:0:0:0:0:0:0:1]:1",
        "[0000::0001]:1",
        "[::0.0.0.1]:1",
        "[0:0:0:0:0:0:0.0.0.1]:1",
    ] {
        assert!(bind_is_loopback(loopback), "{loopback}");
    }
    for other in [
        "128.0.0.1:1",
        "127.0.0:1",
        "127.0.0.256:1",
        "127.0.0.01:1",
        "[::2]:1",
        "[::1%lo]:1",
        "[1::]:1",
        "[::1::]:1",
        "[0:0:0:0:0:0:0:0:1]:1",
        "[0:0:0:1]:1",
        "[::00001]:1",
        "[::0.0.0.2]:1",
        "[::]:1",
        "[::ffff:127.0.0.1]:1",
        "",
    ] {
        assert!(!bind_is_loopback(other), "{other}");
    }
}

#[test]
fn read_exit_codes_separate_protocol_abuse_from_lifecycle() {
    assert_eq!(ReadExit::Detached.close_code(), WS_NORMAL_CLOSURE);
    assert_eq!(ReadExit::FrameAbuse.close_code(), WS_POLICY_VIOLATION);
    assert_eq!(ReadExit::Backpressure.close_code(), close_code::CAPACITY);
    // The outbound watermark code must not be reused for input flooding.
    assert_ne!(ReadExit::Backpressure.close_code(), close_code::SLOW_CLIENT);
}

#[test]
fn attach_failures_map_to_distinguishable_close_codes() {
    let name = SessionName::parse("s").unwrap();
    assert_eq!(
        attach_failure_close_code(&Error::SessionDead(name.clone())),
        close_code::SESSION_ENDED
    );
    assert_eq!(
        attach_failure_close_code(&Error::NotFound(name)),
        close_code::SESSION_ENDED
    );
    assert_eq!(
        attach_failure_close_code(&Error::Unauthorized),
        close_code::RENEWED
    );
    assert_eq!(
        attach_failure_close_code(&Error::CapacityExceeded { limit: 3 }),
        close_code::CAPACITY
    );
}

#[test]
fn admin_errors_map_to_distinct_statuses() {
    let name = SessionName::parse("s").unwrap();
    let status = |error: &Error| error_response(error).status;
    assert_eq!(status(&Error::AlreadyExists(name.clone())), 409);
    assert_eq!(status(&Error::NotFound(name.clone())), 404);
    assert_eq!(status(&Error::SessionDead(name)), 409);
    assert_eq!(status(&Error::CapacityExceeded { limit: 1 }), 503);
    assert_eq!(status(&Error::Unauthorized), 401);
    assert_eq!(status(&Error::Other("x".into())), 500);
}

#[test]
fn an_internal_fault_is_not_described_to_the_client() {
    let answer = error_response(&Error::Other("secret path".into()));
    assert!(!answer.message.contains("secret path"), "{}", answer.message);
    let answer = error_response(&Error::CapacityExceeded { limit: 3 });
    assert!(answer.message.contains('3'), "{}", answer.message);
}

#[test]
fn admin_refusals_keep_their_statuses_apart() {
    assert_eq!(admin_failure_response(AdminAuthFailure::Invalid).status, 401);
    assert_eq!(admin_failure_response(AdminAuthFailure::TooLarge).status, 413);
    assert_eq!(admin_failure_response(AdminAuthFailure::Busy).status, 503);
    let throttled = admin_failure_response(AdminAuthFailure::Throttled {
        retry_after: 1_500 * MILLISECOND,
    });
    assert_eq!(throttled.status, 429);
    assert_eq!(throttled.retry_after_secs, Some(1));
}

// ---- the attach surface --------------------------------------------------

#[test]
fn a_valid_token_attaches_and_is_told_the_workspace_is_ephemeral() {
    let mut harness = Harness::start(60 * SECOND);
    let token = harness.create("alpha");
    let (connection, offset) = harness.connect("alpha", &token).unwrap();
    let notice = harness.next_text(&connection, offset);
    assert_eq!(notice["v"], Value::from(1));
    assert_eq!(notice["type"], Value::from("attach-notice"));
    assert_eq!(notice["ephemeral_workspace"], Value::from(true));
    assert!(notice["externalise_with"].is_string());
    assert!(notice["stream_offset"].is_u64());
    assert!(notice["teardown_best_effort"].is_boolean());
}

#[test]
fn the_browser_subprotocol_carries_the_bearer_token() {
    let mut harness = Harness::start(60 * SECOND);
    let token = harness.create("browser");
    let request = AttachRequest {
        authorization: None,
        offer: Some(format!("openab.bearer.{token}, openab.pty.v1")),
        ..bearer("browser", "")
    };
    assert!(matches!(
        harness.knock(&request, START),
        AttachAnswer::Upgrade { .. }
    ));
}

#[test]
fn a_wrong_or_missing_token_is_refused() {
    let mut harness = Harness::start(60 * SECOND);
    harness.create("beta");
    let wrong = "0".repeat(64);
    assert!(matches!(
        harness.knock(&bearer("beta", &wrong), START),
        AttachAnswer::Unauthorized
    ));
    let missing = AttachRequest {
        authorization: None,
        ..bearer("beta", "")
    };
    assert!(matches!(
        harness.knock(&missing, START),
        AttachAnswer::Unauthorized
    ));
    // An unknown session is indistinguishable from a bad token: no enumeration.
    assert!(matches!(
        harness.knock(&bearer("no-such-session", &wrong), START),
        AttachAnswer::Unauthorized
    ));
    assert_eq!(harness.state.abuse.upgrade_failures, 3);
}

#[test]
fn repeated_failures_ban_the_source_and_nobody_else() {
    let mut harness = Harness::start(60 * SECOND);
    let token = harness.create("ban");
    for _ in 0..UPGRADE_FAILURE_LIMIT {
        assert!(matches!(
            harness.knock(&bearer("ban", "wrong"), START),
            AttachAnswer::Unauthorized
        ));
    }
    assert!(matches!(
        harness.knock(&bearer("ban", &token), START),
        AttachAnswer::Banned {
            retry_after_secs: 60
        }
    ));
    assert_eq!(harness.state.abuse.upgrade_bans, 2);
    let elsewhere = AttachRequest {
        source: "203.0.113.2".to_string(),
        ..bearer("ban", &token)
    };
    assert!(matches!(
        harness.knock(&elsewhere, START),
        AttachAnswer::Upgrade { .. }
    ));
}

#[test]
fn an_expired_token_is_refused() {
    // Token exposure is bounded well below session lifetime.
    let mut harness = Harness::start(300 * MILLISECOND);
    let token = harness.create("gamma");
    assert!(matches!(
        harness.knock(&bearer("gamma", &token), START + 600 * MILLISECOND),
        AttachAnswer::Unauthorized
    ));
}

#[test]
fn a_revoked_token_is_refused_after_kill() {
    let mut harness = Harness::start(60 * SECOND);
    let token = harness.create("delta");
    let report = harness.kill("delta");
    assert_eq!(report.session, "delta");
    assert_eq!(report.class, TerminationClass::UserKill);
    assert!(matches!(
        harness.knock(&bearer("delta", &token), START),
        AttachAnswer::Unauthorized
    ));
}

#[test]
fn a_generation_bump_invalidates_an_outstanding_token() {
    let mut harness = Harness::start(60 * SECOND);
    let first = harness.create("epsilon");
    let renewed = harness.state.manager.renew(&name("epsilon"), START).unwrap();
    let renewed = credential_response(renewed, START + 10 * SECOND);
    assert_eq!(renewed.generation, 2);
    assert_eq!(renewed.session, "epsilon");
    assert_eq!(renewed.token_expires_in_secs, 50);
    assert_ne!(first, renewed.token, "renew must mint a fresh token");
    assert!(
        matches!(
            harness.knock(&bearer("epsilon", &first), START),
            AttachAnswer::Unauthorized
        ),
        "the pre-renew token must be dead"
    );
    let (connection, offset) = harness.connect("epsilon", &renewed.token).unwrap();
    assert_eq!(
        harness.next_text(&connection, offset)["type"],
        Value::from("attach-notice")
    );
}

#[test]
fn a_renew_while_attached_evicts_the_connection_with_its_own_close_code() {
    let mut harness = Harness::start(60 * SECOND);
    let token = harness.create("zeta");
    let (connection, offset) = harness.connect("zeta", &token).unwrap();
    assert_eq!(
        harness.next_text(&connection, offset)["type"],
        Value::from("attach-notice")
    );
    harness.state.manager.renew(&name("zeta"), START).unwrap();
    // Renew-distinct, so a client can tell renewal from takeover.
    assert_eq!(
        harness.state.manager.next_outbound(connection.link),
        Some(OutboundItem::Close(close_code::RENEWED))
    );
}

#[test]
fn a_second_attach_takes_over_the_cas_and_evicts_the_incumbent() {
    let mut harness = Harness::start(60 * SECOND);
    let token = harness.create("eta");
    let (first, offset) = harness.connect("eta", &token).unwrap();
    assert_eq!(
        harness.next_text(&first, offset)["type"],
        Value::from("attach-notice")
    );
    // A still-valid token reattaches: documented takeover behaviour, not an error.
    let (second, offset) = harness.connect("eta", &token).unwrap();
    assert_eq!(
        harness.next_text(&second, offset)["type"],
        Value::from("attach-notice")
    );
    let item = harness.state.manager.next_outbound(first.link).unwrap();
    match wire_frame(item, 0) {
        WireFrame::Close { code, reason } => {
            assert_eq!(code, close_code::TAKEOVER);
            assert_eq!(reason, "another connection took over");
        }
        other => panic!("expected a close, got {other:?}"),
    }
}

#[test]
fn restart_in_place_serves_a_reattach_to_dead_session() {
    let mut harness = Harness::start(60 * SECOND);
    harness.create("theta");
    harness.kill("theta");
    let step = harness
        .state
        .manager
        .restart_in_place(&name("theta"), Vec::new(), "/workspace")
        .unwrap();
    let RestartStep::Spawn(plan) = step else {
        panic!("nothing is left to tear down");
    };
    let restarted = harness
        .state
        .manager
        .spawn_session(plan, Ok(Some(5)), START)
        .unwrap();
    let restarted = credential_response(restarted, START);
    assert!(
        restarted.generation >= 2,
        "restart-in-place must bump the generation"
    );
    let (connection, offset) = harness.connect("theta", &restarted.token).unwrap();
    assert_eq!(
        harness.next_text(&connection, offset)["type"],
        Value::from("attach-notice")
    );
}

#[test]
fn a_bad_size_is_told_apart_only_to_a_token_holder() {
    let mut harness = Harness::start(60 * SECOND);
    let token = harness.create("size");
    let query = AttachQuery {
        since: None,
        rows: Some(0),
        cols: Some(80),
    };
    let good = AttachRequest {
        query,
        ..bearer("size", &token)
    };
    let bad = AttachRequest {
        query,
        ..bearer("size", "wrong")
    };
    assert!(matches!(harness.knock(&good, START), AttachAnswer::BadSize));
    assert!(matches!(
        harness.knock(&bad, START),
        AttachAnswer::Unauthorized
    ));
}

#[test]
fn a_draining_server_takes_nobody_in() {
    let mut harness = Harness::start(60 * SECOND);
    let token = harness.create("late");
    harness.state.begin_drain();
    assert!(harness.state.is_draining());
    assert!(matches!(
        harness.knock(&bearer("late", &token), START),
        AttachAnswer::Draining
    ));
    assert!(matches!(
        harness.state.admit_create("new", None, None),
        Err(CreateRefusal::Draining)
    ));
}

#[test]
fn a_create_is_checked_before_anything_is_spawned() {
    let harness = Harness::start(60 * SECOND);
    assert!(matches!(
        harness.state.admit_create("Bad Name", None, None),
        Err(CreateRefusal::Invalid(Error::InvalidSessionName(_)))
    ));
    assert!(matches!(
        harness.state.admit_create("ok", Some(0), None),
        Err(CreateRefusal::Invalid(Error::Other(_)))
    ));
    let (session, size) = harness.state.admit_create("ok", Some(30), None).unwrap();
    assert_eq!(session.as_str(), "ok");
    assert_eq!(size, WindowSize { rows: 30, cols: 80 });
}

// ---- the read side -------------------------------------------------------

#[test]
fn input_reaches_the_child_and_output_replays_from_a_cursor() {
    let mut harness = Harness::start(60 * SECOND);
    let token = harness.create("kappa");
    let (connection, offset) = harness.connect("kappa", &token).unwrap();
    harness.next_text(&connection, offset);
    let id = harness.state.manager.get(&name("kappa")).unwrap().id();
    let mut reader = ReadLoop::new();

    let step = reader.on_event(
        &mut harness.state,
        &connection,
        ClientEvent::Text(r#"{"v":1,"type":"resize","rows":40,"cols":132}"#.to_string()),
        START,
    );
    assert!(matches!(
        step,
        ReadStep::Resize(WindowSize { rows: 40, cols: 132 })
    ));
    let step = reader.on_event(
        &mut harness.state,
        &connection,
        ClientEvent::Text(r#"{"v":1,"type":"ping"}"#.to_string()),
        START,
    );
    match step {
        ReadStep::SendText(text) => {
            let pong: Value = serde_json::from_str(&text).unwrap();
            assert_eq!(pong["type"], Value::from("pong"));
        }
        other => panic!("expected a pong, got {other:?}"),
    }

    let step = reader.on_event(
        &mut harness.state,
        &connection,
        ClientEvent::Binary(b"echo oab-pty-marker\n".to_vec()),
        START,
    );
    assert!(matches!(step, ReadStep::Continue));
    assert_eq!(
        harness.state.manager.next_input(&name("kappa"), id),
        Some(b"echo oab-pty-marker\n".to_vec())
    );
    harness
        .state
        .manager
        .on_output(&name("kappa"), id, b"oab-pty-marker", START);

    let step = reader.on_event(
        &mut harness.state,
        &connection,
        ClientEvent::Text(r#"{"v":1,"type":"detach"}"#.to_string()),
        START,
    );
    assert!(matches!(step, ReadStep::Exit(ReadExit::Detached)));
    harness.state.end_connection(&connection, ReadExit::Detached);
    assert!(!harness.state.manager.get(&name("kappa")).unwrap().is_attached());

    let since = AttachRequest {
        query: AttachQuery {
            since: Some(0),
            rows: Some(40),
            cols: Some(132),
        },
        ..bearer("kappa", &token)
    };
    let AttachAnswer::Upgrade {
        name: session,
        generation,
        size,
        since,
    } = harness.knock(&since, START)
    else {
        panic!("the token is still good");
    };
    let (again, offset) = harness
        .state
        .manager
        .attach_with_replay(&session, generation, size, None, since, START)
        .unwrap();
    let notice = harness.next_text(&again, offset);
    assert!(
        notice["stream_offset"].as_u64().unwrap() > 0,
        "the cursor must be non-zero once the child has written"
    );
    assert_eq!(
        harness.state.manager.next_outbound(again.link),
        Some(OutboundItem::Bytes(b"oab-pty-marker".to_vec()))
    );
}

#[test]
fn malformed_control_frames_disconnect_as_a_policy_violation() {
    let mut harness = Harness::start(60 * SECOND);
    let token = harness.create("lambda");
    let (connection, _) = harness.connect("lambda", &token).unwrap();
    let mut reader = ReadLoop::new();
    let frames = [
        r#"{"type":"ping"}"#,
        r#"{"v":1,"type":"exec","cmd":"sh"}"#,
        r#"{"v":1,"type":"resize","rows":0,"cols":0}"#,
    ];
    assert_eq!(frames.len() as u32, MAX_MALFORMED_FRAMES);
    let mut exit = None;
    for bad in frames {
        assert!(exit.is_none(), "tolerated so far");
        if let ReadStep::Exit(why) = reader.on_event(
            &mut harness.state,
            &connection,
            ClientEvent::Text(bad.to_string()),
            START,
        ) {
            exit = Some(why);
        }
    }
    let exit = exit.unwrap();
    assert_eq!(exit, ReadExit::FrameAbuse);
    assert_eq!(exit.close_code(), 1008);
    assert_eq!(harness.state.abuse.malformed_frames, 3);
}

#[test]
fn an_oversized_input_frame_is_abuse_at_once() {
    let mut harness = Harness::start(60 * SECOND);
    let token = harness.create("big");
    let (connection, _) = harness.connect("big", &token).unwrap();
    let step = ReadLoop::new().on_event(
        &mut harness.state,
        &connection,
        ClientEvent::Binary(vec![0; MAX_INPUT_FRAME_BYTES + 1]),
        START,
    );
    assert!(matches!(step, ReadStep::Exit(ReadExit::FrameAbuse)));
    assert_eq!(harness.state.abuse.oversize_frames, 1);
}

#[test]
fn flooding_the_child_disconnects_as_backpressure() {
    let mut harness = Harness::start(60 * SECOND);
    let token = harness.create("flood");
    let (connection, _) = harness.connect("flood", &token).unwrap();
    let mut reader = ReadLoop::new();
    for _ in 0..INPUT_QUEUE_CHUNKS {
        let step = reader.on_event(
            &mut harness.state,
            &connection,
            ClientEvent::Binary(b"x".to_vec()),
            START,
        );
        assert!(matches!(step, ReadStep::Continue));
    }
    let step = reader.on_event(
        &mut harness.state,
        &connection,
        ClientEvent::Binary(b"x".to_vec()),
        START,
    );
    assert!(matches!(step, ReadStep::Exit(ReadExit::Backpressure)));
    assert_eq!(harness.state.abuse.input_backpressure_disconnects, 1);
}

#[test]
fn a_client_that_stops_answering_pings_is_let_go() {
    let mut harness = Harness::start(60 * SECOND);
    let token = harness.create("quiet");
    let (connection, _) = harness.connect("quiet", &token).unwrap();
    let mut reader = ReadLoop::new();
    for _ in 0..3 {
        let step = reader.on_event(
            &mut harness.state,
            &connection,
            ClientEvent::PingDue,
            START,
        );
        assert!(matches!(step, ReadStep::SendPing));
    }
    let step = reader.on_event(&mut harness.state, &connection, ClientEvent::PingDue, START);
    assert!(matches!(step, ReadStep::Exit(ReadExit::SocketGone)));
    assert!(harness.state.manager.get(&name("quiet")).unwrap().is_alive());
}

#[test]
fn an_ended_connection_is_audited_by_its_exit() {
    let mut harness = Harness::start(60 * SECOND);
    let token = harness.create("gone");
    let (connection, _) = harness.connect("gone", &token).unwrap();
    harness.state.drain_audit();
    harness.state.end_connection(&connection, ReadExit::SocketGone);
    harness
        .state
        .audit_detach(&connection, "203.0.113.1:4000", ReadExit::SocketGone);
    let events = harness.state.drain_audit();
    let detach = events
        .iter()
        .find(|event| event.kind == AuditKind::Detach)
        .unwrap();
    assert_eq!(detach.session.as_deref(), Some("gone"));
    assert_eq!(detach.source.as_deref(), Some("203.0.113.1:4000"));
    assert_eq!(detach.detail.as_deref(), Some("socket_closed"));
    assert_eq!(detach.generation, Some(Generation(1).0));
}

// ---- the admin surface ---------------------------------------------------

#[test]
fn no_admin_operation_succeeds_without_the_credential() {
    let mut harness = Harness::start(60 * SECOND);
    let refusal = harness.state.admin_gate(None, "198.51.100.1", START).unwrap();
    assert_eq!(refusal.status, 401);
    let wrong = format!("Bearer {}", "f".repeat(64));
    let refusal = harness
        .state
        .admin_gate(Some(&wrong), "198.51.100.1", START)
        .unwrap();
    assert!(refusal.status == 401 || refusal.status == 429);
    assert_eq!(harness.state.abuse.admin_auth_failures, 2);
    let right = format!("Bearer {}", harness.admin_credential);
    assert!(harness
        .state
        .admin_gate(Some(&right), "198.51.100.1", START)
        .is_none());
    assert!(harness.state.manager.list().is_empty());
    assert!(harness.state.manager.kill_domain().status().teardown_best_effort);
}

#[test]
fn the_attach_surface_has_no_minting_path() {
    // The admin credential is not an attach token: presenting it on the attach
    // surface authorizes nothing.
    let mut harness = Harness::start(60 * SECOND);
    harness.create("iota");
    let credential = harness.admin_credential.clone();
    assert!(matches!(
        harness.knock(&bearer("iota", &credential), START),
        AttachAnswer::Unauthorized
    ));
}
