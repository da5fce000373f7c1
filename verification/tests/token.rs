use openab_pty::audit::{AuditKind, AuditLogger};
use openab_pty::clock::SECOND;
use openab_pty::containment::SecretBytes;
use openab_pty::token::{TokenScope, TokenStore, TokenTable, DEFAULT_ATTACH_TOKEN_TTL};
use openab_pty::{Error, Generation, SessionName};

const NOW: u128 = 100 * SECOND;

fn session() -> SessionName {
    SessionName::parse("test-session").unwrap()
}

fn store(ttl: u128) -> (TokenStore, TokenTable) {
    (TokenStore::new(ttl, AuditLogger::default()), TokenTable::new())
}

#[test]
fn a_token_can_reattach_until_revoked() {
    let (store, mut table) = store(60 * SECOND);
    let name = session();
    let minted = store
        .mint_for_session(&mut table, name.clone(), Generation(1), NOW)
        .unwrap();
    let token = minted.plaintext.as_bytes().to_vec();
    let mut verifier = store.attach_verifier();

    for _ in 0..2 {
        let mut presented = SecretBytes::new(token.clone());
        let grant = verifier
            .verify(&mut table, &name, Generation(1), &mut presented, None, NOW)
            .expect("reconnect token remains valid");
        assert_eq!(grant.scope, TokenScope::AttachOnly);
        assert!(presented.as_bytes().iter().all(|byte| *byte == 0));
    }
}

#[test]
fn revocation_and_generation_fence_invalidate_all_old_tokens() {
    let (mut store, mut table) = store(60 * SECOND);
    let name = session();
    let minted = store
        .mint_for_session(&mut table, name.clone(), Generation(1), NOW)
        .unwrap();
    let token = minted.plaintext.as_bytes().to_vec();
    let mut verifier = store.attach_verifier();

    let mut wrong_generation = SecretBytes::new(token.clone());
    assert!(verifier
        .verify(&mut table, &name, Generation(2), &mut wrong_generation, None, NOW)
        .is_err());
    store.revoke_session(&mut table, &name, Generation(2));
    let mut revoked = SecretBytes::new(token);
    assert!(verifier
        .verify(&mut table, &name, Generation(1), &mut revoked, None, NOW)
        .is_err());
}

#[test]
fn minted_token_is_256_bits_encoded_as_safe_hex() {
    let (store, mut table) = store(60 * SECOND);
    let minted = store
        .mint_for_session(&mut table, session(), Generation(0), NOW)
        .unwrap();
    assert_eq!(minted.plaintext.len(), 64);
    assert!(minted
        .plaintext
        .as_bytes()
        .iter()
        .all(|byte| byte.is_ascii_hexdigit() && !byte.is_ascii_uppercase()));
}

#[test]
fn two_mints_differ_and_only_the_last_one_works() {
    let (store, mut table) = store(60 * SECOND);
    let name = session();
    let first = store
        .mint_for_session(&mut table, name.clone(), Generation(1), NOW)
        .unwrap();
    let second = store
        .mint_for_session(&mut table, name.clone(), Generation(1), NOW)
        .unwrap();
    assert_ne!(first.plaintext.as_bytes(), second.plaintext.as_bytes());
    let mut verifier = store.attach_verifier();
    let mut old = SecretBytes::from_slice(first.plaintext.as_bytes());
    assert!(verifier
        .verify(&mut table, &name, Generation(1), &mut old, Some("peer"), NOW)
        .is_err());
    let events = verifier.drain_audit();
    assert_eq!(events.len(), 1);
    assert_eq!(events[0].kind, AuditKind::AttachAuthFailure);
    assert_eq!(events[0].source.as_deref(), Some("peer"));
    let mut new = SecretBytes::from_slice(second.plaintext.as_bytes());
    assert!(verifier
        .verify(&mut table, &name, Generation(1), &mut new, None, NOW)
        .is_ok());
}

#[test]
fn a_token_stops_working_when_its_time_has_come() {
    let (mut store, mut table) = store(60 * SECOND);
    let name = session();
    let minted = store
        .mint_for_session(&mut table, name.clone(), Generation(1), NOW)
        .unwrap();
    assert_eq!(minted.grant.expires_at, NOW + 60 * SECOND);
    let mut verifier = store.attach_verifier();
    let mut early = SecretBytes::from_slice(minted.plaintext.as_bytes());
    let mut late = SecretBytes::from_slice(minted.plaintext.as_bytes());
    assert!(verifier
        .verify(&mut table, &name, Generation(1), &mut early, None, NOW + 60 * SECOND - 1)
        .is_ok());
    assert!(verifier
        .verify(&mut table, &name, Generation(1), &mut late, None, NOW + 60 * SECOND)
        .is_err());

    let other = SessionName::parse("other").unwrap();
    store
        .mint_for_session(&mut table, other, Generation(1), NOW)
        .unwrap();
    store.remove_expired(&mut table, NOW + 60 * SECOND);
    let events = store.drain_audit();
    assert_eq!(events.len(), 1);
    assert_eq!(events[0].kind, AuditKind::TokenExpired);
    assert_eq!(events[0].session.as_deref(), Some("other"));
}

#[test]
fn a_store_without_a_lifetime_mints_nothing() {
    let (store, mut table) = store(0);
    match store.mint_for_session(&mut table, session(), Generation(1), NOW) {
        Err(Error::Other(message)) => assert_eq!(message, "attach token TTL must be non-zero"),
        _ => panic!("must refuse"),
    }
    let default = TokenStore::with_default_ttl(AuditLogger::default());
    let minted = default
        .mint_for_session(&mut table, session(), Generation(1), NOW)
        .unwrap();
    assert_eq!(minted.grant.expires_at, NOW + DEFAULT_ATTACH_TOKEN_TTL);
    assert_eq!(DEFAULT_ATTACH_TOKEN_TTL, 15 * 60 * SECOND);
}

#[test]
fn a_key_is_rendered_as_hex_and_its_hash_is_stored() {
    let (store, mut table) = store(SECOND);
    let name = session();
    let key = SecretBytes::new(vec![0xab; 32]);
    let minted = store
        .mint_with_key(&mut table, name.clone(), Generation(7), key, NOW)
        .unwrap();
    assert_eq!(minted.plaintext.as_bytes(), "ab".repeat(32).as_bytes());
    let mut verifier = store.attach_verifier();
    let mut presented = SecretBytes::from_slice("ab".repeat(32).as_bytes());
    let grant = verifier
        .verify(&mut table, &name, Generation(7), &mut presented, None, NOW)
        .unwrap();
    assert_eq!(grant.generation, Generation(7));
    assert_eq!(grant.session.as_str(), "test-session");
}
