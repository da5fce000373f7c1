//! Keyless attach-token storage.
//!
//! There is intentionally no HMAC/JWT signing key in this crate. A session token
//! is a random opaque capability whose *hash* is kept in memory. Eliminating a
//! signing key eliminates the minting authority a same-container shell could
//! otherwise steal at rest.
use crate::audit::{
    fingerprint_of, hash_fingerprint, AuditEvent, AuditKind, AuditLogger, AuditRecord,
};
use crate::clock::{in_range, SECOND};
use crate::containment::{erased, SecretBytes};
use crate::crypto::{constant_time_eq, hex_ascii, hex_bytes, random_key, sha256, sha256_digest};
use crate::table::{map_of, unique_keys, Table};
use crate::text::find_entry;
use crate::{Error, Generation, SessionName};
use vstd::prelude::*;

verus! {

/// Short exposure bound for a reusable attach token, in nanoseconds. It is
/// deliberately much shorter than the default absolute session TTL.
pub const DEFAULT_ATTACH_TOKEN_TTL: u128 = 15 * 60 * SECOND;

#[derive(Clone, Copy, Debug, PartialEq, Eq, Structural)]
pub enum TokenScope {
    AttachOnly,
}

/// What a token grants: one session, at one generation, until it expires.
#[derive(Clone, Debug, PartialEq, Eq)]
pub struct AttachGrant {
    pub session: SessionName,
    pub generation: Generation,
    pub scope: TokenScope,
    /// The instant at which the token stops working.
    pub expires_at: u128,
}

struct StoredAttachToken {
    hash: [u8; 32],
    generation: Generation,
    scope: TokenScope,
    expires_at: u128,
}

/// One-time result of a remote admin create or renew. The plaintext is an owned
/// zeroizing buffer; it is not stored by the runtime after this return.
pub struct MintedAttachToken {
    pub plaintext: SecretBytes,
    pub grant: AttachGrant,
}

/// What is remembered of a token.
#[verifier::ext_equal]
pub struct TokenModel {
    pub hash: Seq<u8>,
    pub generation: Generation,
    pub scope: TokenScope,
    pub expires_at: nat,
}

/// The stored token hashes, one for each session at most. It has no operation of
/// its own: only a [`TokenStore`] can put a token in, and only a [`TokenStore`]
/// or an [`AttachVerifier`] can take one out.
pub struct TokenTable {
    entries: Table<StoredAttachToken>,
}

impl StoredAttachToken {
    spec fn model(self) -> TokenModel {
        TokenModel {
            hash: self.hash@,
            generation: self.generation,
            scope: self.scope,
            expires_at: self.expires_at as nat,
        }
    }
}

impl View for TokenTable {
    type V = Map<Seq<char>, TokenModel>;

    closed spec fn view(&self) -> Map<Seq<char>, TokenModel> {
        Map::new(
            |session: Seq<char>| self.entries@.contains_key(session),
            |session: Seq<char>| self.entries@[session].model(),
        )
    }
}

impl TokenTable {
    /// The stored tokens in the order in which their sessions first came.
    pub closed spec fn listed(&self) -> Seq<(Seq<char>, TokenModel)> {
        Seq::new(
            self.entries.entries().len(),
            |i: int| (self.entries.entries()[i].0, self.entries.entries()[i].1.model()),
        )
    }

    pub fn new() -> (table: Self)
        ensures
            table@ == Map::<Seq<char>, TokenModel>::empty(),
            table.listed() == Seq::<(Seq<char>, TokenModel)>::empty(),
    {
        let table = TokenTable { entries: Table::new() };
        assert(table@ =~= Map::<Seq<char>, TokenModel>::empty());
        assert(table.listed() =~= Seq::<(Seq<char>, TokenModel)>::empty());
        table
    }
}

/// What a stored token says, if there is one.
spec fn model_of(stored: Option<StoredAttachToken>) -> Option<TokenModel> {
    match stored {
        Some(token) => Some(token.model()),
        None => None,
    }
}

/// A session's token is found in the list where it is found in the store.
proof fn lemma_listed_as_stored(
    entries: Seq<(Seq<char>, StoredAttachToken)>,
    listed: Seq<(Seq<char>, TokenModel)>,
    key: Seq<char>,
)
    requires
        listed.len() == entries.len(),
        forall|i: int|
            0 <= i < entries.len() ==> #[trigger] listed[i] == (entries[i].0, entries[i].1.model()),
    ensures
        find_entry(listed, key) == model_of(find_entry(entries, key)),
    decreases entries.len(),
{
    if entries.len() > 0 {
        lemma_listed_as_stored(entries.drop_last(), listed.drop_last(), key);
    }
}

/// Whether a presented value with this digest opens `session` at `generation`.
pub open spec fn authorises(
    tokens: Map<Seq<char>, TokenModel>,
    session: Seq<char>,
    generation: Generation,
    digest: Seq<u8>,
    now: nat,
) -> bool {
    &&& tokens.contains_key(session)
    &&& tokens[session].expires_at > now
    &&& tokens[session].generation == generation
    &&& tokens[session].scope == TokenScope::AttachOnly
    &&& tokens[session].hash == digest
}

/// The stored tokens after one was minted.
pub open spec fn minted(
    tokens: Map<Seq<char>, TokenModel>,
    session: Seq<char>,
    generation: Generation,
    plaintext: Seq<u8>,
    expires_at: nat,
) -> Map<Seq<char>, TokenModel> {
    tokens.insert(
        session,
        TokenModel {
            hash: sha256_digest(plaintext),
            generation,
            scope: TokenScope::AttachOnly,
            expires_at,
        },
    )
}

/// The stored tokens after a failed verification: an expired one is dropped on
/// sight.
pub open spec fn after_refusal(
    tokens: Map<Seq<char>, TokenModel>,
    session: Seq<char>,
    now: nat,
) -> Map<Seq<char>, TokenModel> {
    if tokens.contains_key(session) && tokens[session].expires_at <= now {
        tokens.remove(session)
    } else {
        tokens
    }
}

/// The stored tokens that still live.
pub open spec fn unexpired(
    tokens: Map<Seq<char>, TokenModel>,
    now: nat,
) -> Map<Seq<char>, TokenModel> {
    Map::new(
        |session: Seq<char>| tokens.contains_key(session) && tokens[session].expires_at > now,
        |session: Seq<char>| tokens[session],
    )
}

/// The record of an expired token.
pub open spec fn expiry_record(session: Seq<char>, token: TokenModel) -> AuditRecord {
    AuditRecord::of(AuditKind::TokenExpired).with_session(
        session,
        token.generation,
    ).with_fingerprint(fingerprint_of(token.hash))
}

/// The records of every expired token, in order.
pub open spec fn expired_records(tokens: Seq<(Seq<char>, TokenModel)>, now: nat) -> Seq<AuditRecord>
    decreases tokens.len(),
{
    if tokens.len() == 0 {
        Seq::empty()
    } else if tokens.last().1.expires_at > now {
        expired_records(tokens.drop_last(), now)
    } else {
        expired_records(tokens.drop_last(), now).push(
            expiry_record(tokens.last().0, tokens.last().1),
        )
    }
}

fn expiry_event(session: &String, generation: Generation, fingerprint: &str) -> (event: AuditEvent)
    ensures
        event@ == AuditRecord::of(AuditKind::TokenExpired).with_session(
            session@,
            generation,
        ).with_fingerprint(fingerprint@),
{
    let mut event = AuditEvent::new(AuditKind::TokenExpired).fingerprint(fingerprint);
    event.session = Some(session.clone());
    event.generation = Some(generation.0);
    event
}

/// The name a missing source goes by.
pub open spec fn source_name(source: Option<&str>) -> Seq<char> {
    match source {
        Some(source) => source@,
        None => "unknown"@,
    }
}

/// The name a missing source goes by.
pub fn source_or_unknown<'a>(source: Option<&'a str>) -> (name: &'a str)
    ensures
        name@ == source_name(source),
{
    match source {
        Some(source) => source,
        None => "unknown",
    }
}

/// The record of a refused attach.
pub open spec fn refusal_record(
    session: Seq<char>,
    generation: Generation,
    source: Seq<char>,
) -> AuditRecord {
    AuditRecord::of(AuditKind::AttachAuthFailure).with_session(session, generation).with_source(
        source,
    ).with_detail("invalid_or_expired_attach_token"@)
}

/// The record of a revoked token.
pub open spec fn revocation_record(
    session: Seq<char>,
    generation: Generation,
    hash: Seq<u8>,
) -> AuditRecord {
    AuditRecord::of(AuditKind::TokenRevoked).with_session(session, generation).with_fingerprint(
        fingerprint_of(hash),
    )
}

/// Admin and session-side issuance. Do not give this type to the attach handler;
/// [`AttachVerifier`] exposes verification only and cannot mint.
pub struct TokenStore {
    ttl: u128,
    audit: AuditLogger,
}

/// Capability intentionally limited to the attach path. It has no issuance API.
pub struct AttachVerifier {
    audit: AuditLogger,
}

/// What a [`TokenStore`] or an [`AttachVerifier`] has recorded, and for how long
/// the store's tokens live.
#[verifier::ext_equal]
pub struct StoreModel {
    pub ttl: nat,
    pub audit: Seq<AuditRecord>,
}

impl View for TokenStore {
    type V = StoreModel;

    closed spec fn view(&self) -> StoreModel {
        StoreModel { ttl: self.ttl as nat, audit: self.audit@ }
    }
}

impl View for AttachVerifier {
    type V = Seq<AuditRecord>;

    closed spec fn view(&self) -> Seq<AuditRecord> {
        self.audit@
    }
}

impl TokenStore {
    #[verifier::type_invariant]
    spec fn bounded(self) -> bool {
        in_range(self.ttl)
    }

    pub fn new(ttl: u128, audit: AuditLogger) -> (store: Self)
        requires
            in_range(ttl),
        ensures
            store@ == (StoreModel { ttl: ttl as nat, audit: audit@ }),
    {
        TokenStore { ttl, audit }
    }

    pub fn with_default_ttl(audit: AuditLogger) -> (store: Self)
        ensures
            store@ == (StoreModel { ttl: 900_000_000_000, audit: audit@ }),
    {
        Self::new(DEFAULT_ATTACH_TOKEN_TTL, audit)
    }

    /// Mint from the remote-admin and session path only. The attach verifier has
    /// no corresponding method, enforcing attach-only verification by API shape
    /// rather than relying on a routing convention.
    pub fn mint_for_session(
        &self,
        table: &mut TokenTable,
        session: SessionName,
        generation: Generation,
        now: u128,
    ) -> (result: Result<MintedAttachToken, Error>)
        requires
            in_range(now),
        ensures
            self@.ttl == 0 ==> {
                &&& result matches Err(Error::Other(message))
                &&& message@ == "attach token TTL must be non-zero"@
                &&& final(table)@ == old(table)@
            },
            self@.ttl > 0 ==> {
                &&& result matches Ok(token)
                &&& exists|key: Seq<u8>| key.len() == 32 && token.plaintext@ == #[trigger] hex_bytes(key)
                &&& token.grant.session@ == session@
                &&& token.grant.generation == generation
                &&& token.grant.scope == TokenScope::AttachOnly
                &&& token.grant.expires_at == now + self@.ttl
                &&& final(table)@ == minted(
                    old(table)@,
                    session@,
                    generation,
                    token.plaintext@,
                    (now + self@.ttl) as nat,
                )
            },
    {
        let key = random_key();
        self.mint_with_key(table, session, generation, key, now)
    }

    /// Mint the token that these random bytes make, and erase them. Lowercase hex is
    /// subprotocol-token-safe, unlike padded base64. What is stored is the hash
    /// of the *encoded* form, because that is what a client presents on attach.
    pub fn mint_with_key(
        &self,
        table: &mut TokenTable,
        session: SessionName,
        generation: Generation,
        key: SecretBytes,
        now: u128,
    ) -> (result: Result<MintedAttachToken, Error>)
        requires
            in_range(now),
        ensures
            self@.ttl == 0 ==> {
                &&& result matches Err(Error::Other(message))
                &&& message@ == "attach token TTL must be non-zero"@
                &&& final(table)@ == old(table)@
            },
            self@.ttl > 0 ==> {
                &&& result matches Ok(token)
                &&& token.plaintext@ == hex_bytes(key@)
                &&& token.grant.session@ == session@
                &&& token.grant.generation == generation
                &&& token.grant.scope == TokenScope::AttachOnly
                &&& token.grant.expires_at == now + self@.ttl
                &&& final(table)@ == minted(
                    old(table)@,
                    session@,
                    generation,
                    hex_bytes(key@),
                    (now + self@.ttl) as nat,
                )
            },
    {
        proof {
            use_type_invariant(self);
        }
        if self.ttl == 0 {
            return Err(Error::Other("attach token TTL must be non-zero".to_owned()));
        }
        let encoded = hex_ascii(key.as_bytes());
        let hash: [u8; 32] = sha256(encoded.as_slice());
        let expires_at: u128 = now + self.ttl;
        let ghost stored = StoredAttachToken {
            hash,
            generation,
            scope: TokenScope::AttachOnly,
            expires_at,
        };
        table.entries.insert(
            session.to_string(),
            StoredAttachToken { hash, generation, scope: TokenScope::AttachOnly, expires_at },
        );
        assert(table@ =~= old(table)@.insert(session@, stored.model()));
        Ok(
            MintedAttachToken {
                plaintext: SecretBytes::new(encoded),
                grant: AttachGrant {
                    session,
                    generation,
                    scope: TokenScope::AttachOnly,
                    expires_at,
                },
            },
        )
    }

    /// The verification-only side of this store.
    pub fn attach_verifier(&self) -> (verifier: AttachVerifier)
        ensures
            verifier@ == Seq::<AuditRecord>::empty(),
    {
        AttachVerifier { audit: AuditLogger::default() }
    }

    /// Kill, restart and renew must call this before exposing a new generation.
    /// It removes the only retained hash, invalidating every old plaintext token.
    pub fn revoke_session(
        &mut self,
        table: &mut TokenTable,
        session: &SessionName,
        generation: Generation,
    )
        ensures
            final(table)@ == old(table)@.remove(session@),
            final(self)@.ttl == old(self)@.ttl,
            final(self)@.audit == if old(table)@.contains_key(session@) {
                old(self)@.audit.push(
                    revocation_record(session@, generation, old(table)@[session@].hash),
                )
            } else {
                old(self)@.audit
            },
    {
        proof {
            use_type_invariant(&*self);
        }
        let removed = table.entries.remove(session.as_str());
        assert(table@ =~= old(table)@.remove(session@));
        if let Some(stored) = removed {
            assert(old(table)@[session@].hash == stored.hash@);
            let fingerprint = hash_fingerprint(&stored.hash);
            let event = AuditEvent::new(AuditKind::TokenRevoked).session(
                session,
                generation,
            ).fingerprint(fingerprint.as_str());
            self.log(event);
        }
    }

    /// Drop every token whose time has come, and record each that was dropped. What
    /// is listed is what is stored, each session once.
    pub fn remove_expired(&mut self, table: &mut TokenTable, now: u128)
        ensures
            unique_keys(old(table).listed()),
            map_of(old(table).listed()) == old(table)@,
            final(table)@ == unexpired(old(table)@, now as nat),
            final(self)@.ttl == old(self)@.ttl,
            final(self)@.audit == old(self)@.audit + expired_records(
                old(table).listed(),
                now as nat,
            ),
    {
        let ghost before = table.entries.entries();
        let ghost listed = table.listed();
        // The table's own invariant: a key occurs once.
        let _count: usize = table.entries.len();
        proof {
            assert(listed.len() == before.len());
            assert forall|i: int, j: int| 0 <= i < j < listed.len() implies (#[trigger] listed[i]).0
                != (#[trigger] listed[j]).0 by {
                assert(before[i].0 != before[j].0);
            }
            assert forall|key: Seq<char>| #[trigger]
                find_entry(listed, key) == model_of(find_entry(before, key)) by {
                lemma_listed_as_stored(before, listed, key);
            }
            assert(map_of(listed) =~= table@);
        }
        let ghost mut kept: Seq<(Seq<char>, StoredAttachToken)> = Seq::empty();
        let ghost mut done: int = 0;
        let mut i: usize = 0;
        proof {
            assert(kept + before.skip(0) =~= before);
            assert(listed.take(0) =~= Seq::empty());
            assert(self@.audit + Seq::<AuditRecord>::empty() =~= self@.audit);
        }
        while i < table.entries.len()
            invariant
                before == old(table).entries.entries(),
                listed == old(table).listed(),
                0 <= done <= before.len(),
                i == kept.len(),
                table.entries.entries() == kept + before.skip(done),
                forall|j: int|
                    0 <= j < kept.len() ==> (#[trigger] kept[j]).1.expires_at > now,
                forall|k: Seq<char>| #[trigger]
                    table.entries@.contains_key(k) ==> old(table).entries@.contains_key(k)
                        && table.entries@[k] == old(table).entries@[k],
                forall|k: Seq<char>| #[trigger]
                    old(table).entries@.contains_key(k) && old(table).entries@[k].expires_at > now
                        ==> table.entries@.contains_key(k),
                self@.ttl == old(self)@.ttl,
                self@.audit == old(self)@.audit + expired_records(listed.take(done), now as nat),
            decreases before.len() - done,
        {
            let ghost rest = before.skip(done);
            assert(table.entries.entries()[i as int] == rest[0]);
            assert(rest[0] == before[done]);
            assert(listed.take(done + 1).drop_last() =~= listed.take(done));
            assert(listed.take(done + 1).last() == listed[done]);
            let stored = table.entries.value_at(i);
            if stored.expires_at > now {
                proof {
                    kept = kept.push(before[done]);
                    done = done + 1;
                    assert(kept + before.skip(done) =~= table.entries.entries());
                }
                i += 1;
            } else {
                let fingerprint = hash_fingerprint(&stored.hash);
                let event = expiry_event(
                    table.entries.key_at(i),
                    stored.generation,
                    fingerprint.as_str(),
                );
                self.log(event);
                proof {
                    let key = before[done].0;
                    crate::table::lemma_unique_find(table.entries.entries(), key);
                    assert(table.entries@[key] == before[done].1);
                }
                let _ = table.entries.remove_at(i);
                proof {
                    assert(table.entries.entries() =~= kept + before.skip(done + 1));
                    done = done + 1;
                }
                assert(self@.audit =~= old(self)@.audit + expired_records(
                    listed.take(done),
                    now as nat,
                ));
            }
        }
        proof {
            assert(before.skip(done) =~= Seq::empty());
            assert(listed.take(done) =~= listed);
            assert forall|k: Seq<char>| #[trigger] table.entries@.contains_key(k) implies table.entries@[k].expires_at
                > now by {
                crate::table::lemma_unique_find(table.entries.entries(), k);
                let j = choose|j: int|
                    0 <= j < table.entries.entries().len() && table.entries.entries()[j] == (
                        k,
                        table.entries@[k],
                    );
                assert(kept[j] == table.entries.entries()[j]);
            }
            assert(table@ =~= unexpired(old(table)@, now as nat));
        }
    }

    fn log(&mut self, event: AuditEvent)
        ensures
            final(self)@.ttl == old(self)@.ttl,
            final(self)@.audit == old(self)@.audit.push(event@),
    {
        proof {
            use_type_invariant(&*self);
        }
        let mut audit = AuditLogger::default();
        std::mem::swap(&mut audit, &mut self.audit);
        audit.record(event);
        self.audit = audit;
    }

    /// Everything recorded since the last call, oldest first.
    pub fn drain_audit(&mut self) -> (events: Vec<AuditEvent>)
        ensures
            final(self)@ == (StoreModel {
                ttl: old(self)@.ttl,
                audit: Seq::<AuditRecord>::empty(),
            }),
            events@.len() == old(self)@.audit.len(),
            forall|i: int|
                0 <= i < events@.len() ==> (#[trigger] events@[i])@ == old(self)@.audit[i],
    {
        proof {
            use_type_invariant(&*self);
        }
        let mut audit = AuditLogger::default();
        std::mem::swap(&mut audit, &mut self.audit);
        audit.drain()
    }
}

impl AttachVerifier {
    /// Verify an attach capability and erase the supplied plaintext before
    /// returning. Tokens remain reusable until expiry or a generation revocation.
    pub fn verify(
        &mut self,
        table: &mut TokenTable,
        session: &SessionName,
        generation: Generation,
        presented: &mut SecretBytes,
        source: Option<&str>,
        now: u128,
    ) -> (result: Result<AttachGrant, Error>)
        ensures
            final(presented)@ == erased(old(presented)@.len()),
            authorises(
                old(table)@,
                session@,
                generation,
                sha256_digest(old(presented)@),
                now as nat,
            ) ==> {
                &&& result matches Ok(grant)
                &&& grant.session@ == session@
                &&& grant.generation == generation
                &&& grant.scope == TokenScope::AttachOnly
                &&& grant.expires_at == old(table)@[session@].expires_at
                &&& final(table)@ == old(table)@
                &&& final(self)@ == old(self)@
            },
            !authorises(
                old(table)@,
                session@,
                generation,
                sha256_digest(old(presented)@),
                now as nat,
            ) ==> {
                &&& result matches Err(Error::Unauthorized)
                &&& final(table)@ == after_refusal(old(table)@, session@, now as nat)
                &&& final(self)@ == old(self)@.push(
                    refusal_record(session@, generation, source_name(source)),
                )
            },
    {
        let digest: [u8; 32] = sha256(presented.as_bytes());
        presented.zeroize();
        if let Some(stored) = table.entries.get(session.as_str()) {
            assert(old(table)@[session@] == stored.model());
            if stored.expires_at > now && stored.generation == generation && stored.scope
                == TokenScope::AttachOnly && constant_time_eq(&digest, &stored.hash) {
                return Ok(
                    AttachGrant {
                        session: session.clone(),
                        generation: stored.generation,
                        scope: stored.scope,
                        expires_at: stored.expires_at,
                    },
                );
            }
            if stored.expires_at <= now {
                let _ = table.entries.remove(session.as_str());
                assert(table@ =~= old(table)@.remove(session@));
            }
        }
        assert(table@ =~= after_refusal(old(table)@, session@, now as nat));
        let event = AuditEvent::new(AuditKind::AttachAuthFailure).session(
            session,
            generation,
        ).source(source_or_unknown(source)).detail("invalid_or_expired_attach_token");
        self.audit.record(event);
        Err(Error::Unauthorized)
    }

    /// Everything recorded since the last call, oldest first.
    pub fn drain_audit(&mut self) -> (events: Vec<AuditEvent>)
        ensures
            final(self)@ == Seq::<AuditRecord>::empty(),
            events@.len() == old(self)@.len(),
            forall|i: int| 0 <= i < events@.len() ==> (#[trigger] events@[i])@ == old(self)@[i],
    {
        self.audit.drain()
    }
}

/// A freshly minted token opens its session, at its generation, until it
/// expires.
pub proof fn law_minted_token_opens_its_session(
    tokens: Map<Seq<char>, TokenModel>,
    session: Seq<char>,
    generation: Generation,
    plaintext: Seq<u8>,
    expires_at: nat,
    now: nat,
)
    ensures
        authorises(
            minted(tokens, session, generation, plaintext, expires_at),
            session,
            generation,
            sha256_digest(plaintext),
            now,
        ) <==> now < expires_at,
{
}

/// Whatever opens a session carries the hash of the one token minted last for it,
/// and only at that token's generation: no other generation, and no value with
/// another hash, is let in.
pub proof fn law_token_opens_nothing_else(
    tokens: Map<Seq<char>, TokenModel>,
    session: Seq<char>,
    generation: Generation,
    plaintext: Seq<u8>,
    expires_at: nat,
    other_generation: Generation,
    digest: Seq<u8>,
    now: nat,
)
    ensures
        authorises(
            minted(tokens, session, generation, plaintext, expires_at),
            session,
            other_generation,
            digest,
            now,
        ) ==> other_generation == generation && digest == sha256_digest(plaintext),
{
}

/// Minting for one session changes nothing for another.
pub proof fn law_minting_is_per_session(
    tokens: Map<Seq<char>, TokenModel>,
    session: Seq<char>,
    generation: Generation,
    plaintext: Seq<u8>,
    expires_at: nat,
    other: Seq<char>,
    other_generation: Generation,
    digest: Seq<u8>,
    now: nat,
)
    requires
        other != session,
    ensures
        authorises(
            minted(tokens, session, generation, plaintext, expires_at),
            other,
            other_generation,
            digest,
            now,
        ) == authorises(tokens, other, other_generation, digest, now),
{
}

/// After a revocation no value opens the session, at any generation, at any time.
pub proof fn law_revocation_invalidates_every_token(
    tokens: Map<Seq<char>, TokenModel>,
    session: Seq<char>,
    generation: Generation,
    digest: Seq<u8>,
    now: nat,
)
    ensures
        !authorises(tokens.remove(session), session, generation, digest, now),
{
}

/// Dropping expired tokens refuses nobody who was let in before.
pub proof fn law_expiry_sweep_keeps_live_tokens(
    tokens: Map<Seq<char>, TokenModel>,
    session: Seq<char>,
    generation: Generation,
    digest: Seq<u8>,
    now: nat,
)
    ensures
        authorises(unexpired(tokens, now), session, generation, digest, now) == authorises(
            tokens,
            session,
            generation,
            digest,
            now,
        ),
{
}

/// A refused request costs an expired token its place, and nothing else.
pub proof fn law_refusal_drops_only_the_expired(
    tokens: Map<Seq<char>, TokenModel>,
    session: Seq<char>,
    other: Seq<char>,
    now: nat,
)
    ensures
        after_refusal(tokens, session, now).contains_key(other) <==> tokens.contains_key(other) && !(
        other == session && tokens[other].expires_at <= now),
        after_refusal(tokens, session, now).contains_key(other) ==> after_refusal(
            tokens,
            session,
            now,
        )[other] == tokens[other],
{
}

/// A sweep drops a token exactly from the moment on at which it expires, and leaves the
/// others as they are.
pub proof fn law_sweep_drops_only_the_expired(
    tokens: Map<Seq<char>, TokenModel>,
    session: Seq<char>,
    now: nat,
)
    ensures
        unexpired(tokens, now).contains_key(session) <==> tokens.contains_key(session) && now
            < tokens[session].expires_at,
        unexpired(tokens, now).contains_key(session) ==> unexpired(tokens, now)[session]
            == tokens[session],
{
}

/// A sweep records each expired token once, in order, and no other.
pub proof fn law_sweep_records_each_expired_token(tokens: Seq<(Seq<char>, TokenModel)>, now: nat)
    ensures
        ({
            let expired = tokens.filter(|entry: (Seq<char>, TokenModel)| entry.1.expires_at <= now);
            let records = expired_records(tokens, now);
            &&& records.len() == expired.len()
            &&& forall|i: int|
                0 <= i < records.len() ==> {
                    &&& (#[trigger] records[i]).kind == AuditKind::TokenExpired
                    &&& records[i].session == Some(expired[i].0)
                    &&& records[i].generation == Some(expired[i].1.generation.0)
                    &&& records[i].credential_fingerprint == Some(
                        fingerprint_of(expired[i].1.hash),
                    )
                    &&& records[i].source is None && records[i].detail is None
                }
        }),
    decreases tokens.len(),
{
    let gone = |entry: (Seq<char>, TokenModel)| entry.1.expires_at <= now;
    reveal(Seq::filter);
    if tokens.len() > 0 {
        law_sweep_records_each_expired_token(tokens.drop_last(), now);
    }
}

} // verus!
