use openab_pty::audit::{
    hash_fingerprint, AuditEvent, AuditKind, AuditLogger, TerminationClass,
};
use openab_pty::{Generation, SessionName};

#[test]
fn termination_classes_are_distinct() {
    assert_ne!(TerminationClass::UserKill, TerminationClass::SelfExit);
    assert_ne!(
        TerminationClass::SelfExit,
        TerminationClass::RuntimeShutdown
    );
}

#[test]
fn an_event_carries_what_it_was_given_and_nothing_else() {
    let name = SessionName::parse("s").unwrap();
    let event = AuditEvent::new(AuditKind::SessionKill)
        .session(&name, Generation(4))
        .source("10.0.0.1")
        .termination(TerminationClass::UserKill)
        .detail("label");
    assert_eq!(event.kind, AuditKind::SessionKill);
    assert_eq!(event.session.as_deref(), Some("s"));
    assert_eq!(event.generation, Some(4));
    assert_eq!(event.source.as_deref(), Some("10.0.0.1"));
    assert_eq!(event.termination, Some(TerminationClass::UserKill));
    assert_eq!(event.detail.as_deref(), Some("label"));
    assert!(event.credential_fingerprint.is_none());
    assert!(event.at.seconds > 1_600_000_000, "the clock was read");
}

#[test]
fn audit_serialization_contains_only_a_hash_fingerprint() {
    let event = AuditEvent::new(AuditKind::AdminAuthFailure)
        .fingerprint(&hash_fingerprint(&[7; 32]))
        .detail("invalid_credential");
    let rendered = format!("{event:?}");
    assert!(rendered.contains("credential_fingerprint"));
    assert!(!rendered.contains("synthetic-admin-credential"));
}

#[test]
fn a_fingerprint_is_short_stable_and_not_the_hash() {
    // First eight bytes of SHA-256 of the ASCII text `abc`.
    assert_eq!(hash_fingerprint(b"abc"), "h:ba7816bf8f01cfea");
    assert_eq!(hash_fingerprint(b"abc"), hash_fingerprint(b"abc"));
    assert_ne!(hash_fingerprint(b"abc"), hash_fingerprint(b"abd"));
}

#[test]
fn the_trail_is_handed_out_once_and_in_order() {
    let mut log = AuditLogger::default();
    log.record(AuditEvent::new(AuditKind::Attach));
    log.record(AuditEvent::new(AuditKind::Detach));
    let events = log.drain();
    assert_eq!(events.len(), 2);
    assert_eq!(events[0].kind, AuditKind::Attach);
    assert_eq!(events[1].kind, AuditKind::Detach);
    assert!(log.drain().is_empty());
}

#[test]
fn an_event_keeps_its_time_stamp_until_it_is_handed_out() {
    let event = AuditEvent::new(AuditKind::Attach);
    let at = event.at;
    let session = SessionName::parse("stamp").unwrap();
    let event = event
        .session(&session, Generation(1))
        .fingerprint("h:00")
        .source("203.0.113.1")
        .termination(TerminationClass::UserKill)
        .detail("label");
    assert_eq!(event.at, at);
    let copy = event.clone();
    let mut logger = AuditLogger::default();
    logger.record(event);
    let events = logger.drain();
    assert_eq!(events.len(), 1);
    assert_eq!(events[0].at, at);
    assert_eq!(copy.at, at);
    assert_eq!(copy.detail.as_deref(), Some("label"));
}
