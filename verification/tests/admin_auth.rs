use openab_pty::admin_auth::{
    parse_verifier_hash, AdminAuthFailure, AdminAuthenticator, ADMIN_FAILURE_MEMORY,
    MAX_ADMIN_CREDENTIAL_BYTES, MAX_ADMIN_FAILURE_BACKOFF, MAX_TRACKED_ADMIN_SOURCES,
};
use openab_pty::audit::{AuditKind, AuditLogger};
use openab_pty::clock::{MILLISECOND, SECOND};
use openab_pty::containment::SecretBytes;

const NOW: u128 = 1_000 * SECOND;

fn limited(max_inflight: usize, backoff: u128) -> (AdminAuthenticator, SecretBytes) {
    let generated = AdminAuthenticator::generate();
    let auth = AdminAuthenticator::with_limits(
        &generated.verifier,
        max_inflight,
        backoff,
        AuditLogger::default(),
    )
    .unwrap();
    (auth, generated.plaintext)
}

fn bad() -> SecretBytes {
    SecretBytes::from_slice(b"synthetic-invalid-admin-credential")
}

#[test]
fn admin_auth_generated_256_bit_credential_authenticates_and_is_erased() {
    let generated = AdminAuthenticator::generate();
    assert_eq!(generated.plaintext.len(), 64);
    let mut auth =
        AdminAuthenticator::from_verifier_hash(&generated.verifier, AuditLogger::default())
            .unwrap();
    let mut presented = SecretBytes::from_slice(generated.plaintext.as_bytes());
    auth.verify(&mut presented, Some("test"), NOW).unwrap();
    assert!(presented.as_bytes().iter().all(|byte| *byte == 0));
}

#[test]
fn admin_auth_invalid_credential_is_throttled_and_erased() {
    let (mut auth, _) = limited(1, SECOND);
    let mut first = bad();
    assert_eq!(
        auth.verify(&mut first, Some("10.0.0.1"), NOW),
        Err(AdminAuthFailure::Invalid)
    );
    assert!(first.as_bytes().iter().all(|byte| *byte == 0));
    // A second wrong attempt from the same source inside the window is refused
    // as throttled.
    let mut bad_again = bad();
    assert!(matches!(
        auth.verify(&mut bad_again, Some("10.0.0.1"), NOW),
        Err(AdminAuthFailure::Throttled { .. })
    ));
    assert!(bad_again.as_bytes().iter().all(|byte| *byte == 0));
}

#[test]
fn a_saturated_source_cannot_delay_another_sources_authentication() {
    let (mut auth, plaintext) = limited(4, 30 * SECOND);
    for _ in 0..200 {
        assert!(auth.verify(&mut bad(), Some("10.0.0.9"), NOW).is_err());
    }
    for _ in 0..200 {
        assert!(matches!(
            auth.reject_unauthenticated(Some("10.0.0.9"), NOW),
            AdminAuthFailure::Throttled { .. }
        ));
    }
    assert!(
        matches!(
            auth.reject_unauthenticated(Some("192.0.2.7"), NOW),
            AdminAuthFailure::Invalid
        ),
        "a fresh source must not be answered out of another source's block"
    );
    let mut good = SecretBytes::from_slice(plaintext.as_bytes());
    auth.verify(&mut good, Some("192.0.2.7"), NOW)
        .expect("a saturated source must not delay a different source's authentication");
    assert!(good.as_bytes().iter().all(|byte| *byte == 0));
    // The attacker's own block is untouched by that success.
    assert!(matches!(
        auth.reject_unauthenticated(Some("10.0.0.9"), NOW),
        AdminAuthFailure::Throttled { .. }
    ));
    // And the correct credential is accepted even *from* the saturated source.
    let mut good = SecretBytes::from_slice(plaintext.as_bytes());
    auth.verify(&mut good, Some("10.0.0.9"), NOW)
        .expect("a correct credential must never be refused by a failure throttle");
}

#[test]
fn an_active_block_is_never_extended_by_traffic_it_already_rejected() {
    let (mut auth, _) = limited(4, 200 * MILLISECOND);
    let mut now = NOW;
    assert!(matches!(
        auth.reject_unauthenticated(Some("10.0.0.1"), now),
        AdminAuthFailure::Invalid
    ));
    let first = match auth.reject_unauthenticated(Some("10.0.0.1"), now) {
        AdminAuthFailure::Throttled { retry_after } => retry_after,
        other => panic!("expected a throttle, got {other:?}"),
    };
    let mut last = first;
    for _ in 0..50 {
        now += MILLISECOND;
        match auth.reject_unauthenticated(Some("10.0.0.1"), now) {
            AdminAuthFailure::Throttled { retry_after } => {
                assert!(
                    retry_after <= last,
                    "retry_after must only shrink: {retry_after:?} > {last:?}"
                );
                last = retry_after;
            }
            other => panic!("the source must still be blocked, got {other:?}"),
        }
    }
    now += first + 50 * MILLISECOND;
    assert!(
        matches!(
            auth.reject_unauthenticated(Some("10.0.0.1"), now),
            AdminAuthFailure::Invalid
        ),
        "the block must expire on schedule despite continuous traffic"
    );
}

#[test]
fn source_churn_cannot_evict_an_active_block() {
    let (mut auth, _) = limited(4, 30 * SECOND);
    assert!(matches!(
        auth.reject_unauthenticated(Some("10.0.0.1"), NOW),
        AdminAuthFailure::Invalid
    ));
    for index in 0..(MAX_TRACKED_ADMIN_SOURCES * 2) {
        auth.reject_unauthenticated(
            Some(&format!("10.9.{}.{}", index / 256, index % 256)),
            NOW,
        );
    }
    assert!(
        auth.tracked_sources() <= MAX_TRACKED_ADMIN_SOURCES,
        "the per-source map must stay bounded"
    );
    assert!(
        matches!(
            auth.reject_unauthenticated(Some("10.0.0.1"), NOW),
            AdminAuthFailure::Throttled { .. }
        ),
        "an active block must survive churn from other sources"
    );
}

#[test]
fn a_missing_or_malformed_header_is_counted_like_a_wrong_credential() {
    let (mut auth, _) = limited(4, 30 * SECOND);
    assert!(matches!(
        auth.reject_unauthenticated(Some("10.0.0.5"), NOW),
        AdminAuthFailure::Invalid
    ));
    let mut wrong = bad();
    assert!(
        matches!(
            auth.verify(&mut wrong, Some("10.0.0.5"), NOW),
            Err(AdminAuthFailure::Throttled { .. })
        ),
        "a header-less attempt must arm the same per-source throttle"
    );
    assert!(wrong.as_bytes().iter().all(|byte| *byte == 0));
}

#[test]
fn admin_auth_verifier_rejects_non_lowercase_or_wrong_length_hashes() {
    assert!(parse_verifier_hash("sha256:").is_err());
    assert!(parse_verifier_hash(
        "sha256:ABCDEF0123456789abcdef0123456789abcdef0123456789abcdef0123456789"
    )
    .is_err());
    assert!(parse_verifier_hash("sha256:0123").is_err());
}

#[test]
fn a_verifier_is_the_decoded_hash() {
    let parsed = parse_verifier_hash(
        "sha256:000102030405060708090a0b0c0d0e0f101112131415161718191a1b1c1d1eff",
    )
    .unwrap();
    assert_eq!(parsed[0], 0);
    assert_eq!(parsed[10], 10);
    assert_eq!(parsed[31], 0xff);
    let error = parse_verifier_hash("md5:00").unwrap_err();
    assert_eq!(
        error.to_string(),
        "config error: admin_credential_hash must start with sha256:"
    );
    let error = parse_verifier_hash("sha256:00").unwrap_err();
    assert_eq!(
        error.to_string(),
        "config error: admin_credential_hash must be sha256: followed by exactly 64 lowercase hex characters"
    );
}

#[test]
fn a_known_credential_matches_its_published_hash() {
    // SHA-256 of the ASCII text `abc`.
    let mut auth = AdminAuthenticator::from_verifier_hash(
        "sha256:ba7816bf8f01cfea414140de5dae2223b00361a396177a9cb410ff61f20015ad",
        AuditLogger::default(),
    )
    .unwrap();
    assert!(auth.verify(&mut SecretBytes::from_slice(b"abc"), None, NOW).is_ok());
    assert!(auth.verify(&mut SecretBytes::from_slice(b"abd"), None, NOW).is_err());
}

#[test]
fn oversized_and_busy_attempts_are_refused_without_a_look() {
    let (mut auth, plaintext) = limited(1, SECOND);
    let mut huge = SecretBytes::new(vec![b'x'; MAX_ADMIN_CREDENTIAL_BYTES + 1]);
    assert_eq!(
        auth.verify(&mut huge, Some("a"), NOW),
        Err(AdminAuthFailure::TooLarge)
    );
    assert!(huge.as_bytes().iter().all(|byte| *byte == 0));

    let mut first = SecretBytes::from_slice(plaintext.as_bytes());
    auth.begin_verification(&mut first, Some("b"), NOW).unwrap();
    let mut second = SecretBytes::from_slice(plaintext.as_bytes());
    assert_eq!(
        auth.begin_verification(&mut second, Some("c"), NOW),
        Err(AdminAuthFailure::Busy)
    );
    assert!(second.as_bytes().iter().all(|byte| *byte == 0));
    let digest = AdminAuthenticator::digest_and_erase(&mut first);
    assert!(auth.finish_verification(&digest, Some("b"), NOW).is_ok());
    let mut third = SecretBytes::from_slice(plaintext.as_bytes());
    assert!(auth.verify(&mut third, Some("c"), NOW).is_ok());
}

#[test]
fn the_backoff_doubles_up_to_its_cap_and_is_forgotten_in_time() {
    let (mut auth, _) = limited(4, SECOND);
    let mut now = NOW;
    for expected in [1, 2, 4, 5, 5] {
        assert_eq!(
            auth.reject_unauthenticated(Some("s"), now),
            AdminAuthFailure::Invalid
        );
        match auth.reject_unauthenticated(Some("s"), now) {
            AdminAuthFailure::Throttled { retry_after } => {
                assert_eq!(retry_after, expected * SECOND);
                assert!(retry_after <= MAX_ADMIN_FAILURE_BACKOFF);
                now += retry_after;
            }
            other => panic!("expected a throttle, got {other:?}"),
        }
    }
    now += ADMIN_FAILURE_MEMORY;
    assert_eq!(
        auth.reject_unauthenticated(Some("t"), now),
        AdminAuthFailure::Invalid
    );
    assert_eq!(auth.tracked_sources(), 1, "the aged-out source is gone");
}

#[test]
fn failures_are_audited_with_a_fingerprint_and_never_the_credential() {
    let (mut auth, _) = limited(4, SECOND);
    let _ = auth.verify(&mut bad(), Some("10.0.0.1"), NOW);
    let _ = auth.reject_unauthenticated(None, NOW);
    let events = auth.drain_audit();
    assert_eq!(events.len(), 2);
    assert_eq!(events[0].kind, AuditKind::AdminAuthFailure);
    assert_eq!(
        events[0].detail.as_deref(),
        Some("invalid_credential; retry_after_ms=1000")
    );
    assert_eq!(events[0].source.as_deref(), Some("10.0.0.1"));
    assert_eq!(
        events[0].credential_fingerprint.as_deref(),
        Some(auth.verifier_fingerprint())
    );
    assert_eq!(events[1].source.as_deref(), Some("unknown"));
    assert_eq!(
        events[1].detail.as_deref(),
        Some("missing_or_malformed_authorization_header; retry_after_ms=1000")
    );
    assert!(auth.drain_audit().is_empty());
}

#[test]
fn zero_limits_are_refused() {
    let generated = AdminAuthenticator::generate();
    for (inflight, backoff) in [(0, SECOND), (1, 0)] {
        match AdminAuthenticator::with_limits(
            &generated.verifier,
            inflight,
            backoff,
            AuditLogger::default(),
        ) {
            Ok(_) => panic!("must refuse"),
            Err(error) => assert_eq!(
                error.to_string(),
                "config error: admin authentication limits must be non-zero"
            ),
        }
    }
}
