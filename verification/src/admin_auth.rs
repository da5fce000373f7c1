//! Remote-only bootstrap-admin authentication.
//!
//! There is intentionally no UDS, no loopback-only admin listener, no
//! peer-credential check, and no in-container CLI: admin operations are reached
//! only through the one authenticated listener, and **authentication is the whole
//! boundary**. A managed session shares this container's network namespace, so it
//! can open a socket to that listener like anything else on the network; what it
//! cannot do is present the credential, which exists only on the operator's side
//! and never enters the container in plaintext.
//!
//! Because the listener *is* reachable that way, an unauthenticated caller can
//! still cost the runtime work. What bounds that: the credential size cap, the
//! concurrency cap on in-flight verifications, and the failure throttle, which is
//! **per source**, short-circuits repeated rejected attempts, and never extends
//! an active block. What it deliberately does *not* do is refuse a correct
//! credential, so no amount of hostile traffic locks the operator out.
use crate::audit::{
    fingerprint_of, hash_fingerprint, AuditEvent, AuditKind, AuditLogger, AuditRecord,
};
use crate::clock::{in_range, MILLISECOND, SECOND};
use crate::containment::{erased, SecretBytes};
use crate::crypto::{
    constant_time_eq, hex_ascii, hex_bytes, hex_decode, hex_decoded, hex_string, hex_text,
    is_hex_digit, is_hex_text, law_hex_round_trip, random_key, sha256, sha256_digest,
};
use crate::table::{lemma_unique_find, Table};
use crate::text::{chars_of, decimal, decimal_text, has_prefix, joined, text_of};
use crate::token::{source_name, source_or_unknown};
use crate::Error;
use vstd::prelude::*;

verus! {

/// Whether `c` is a lowercase hex digit.
pub open spec fn is_lower_hex(c: char) -> bool {
    ('0' <= c <= '9') || ('a' <= c <= 'f')
}

/// Whether a text is exactly 32 bytes in lowercase hex.
pub open spec fn is_verifier_hex(text: Seq<char>) -> bool {
    &&& text.len() == 64
    &&& forall|i: int| 0 <= i < text.len() ==> is_lower_hex(#[trigger] text[i])
}

/// What a configured verifier stands for: the 32 bytes of
/// `sha256:<64 lowercase hex>`, or the reason it is refused.
pub open spec fn verifier_of(value: Seq<char>) -> Result<Seq<u8>, Seq<char>> {
    if !"sha256:"@.is_prefix_of(value) {
        Err("admin_credential_hash must start with sha256:"@)
    } else if !is_verifier_hex(value.skip("sha256:"@.len() as int)) {
        Err(
            "admin_credential_hash must be sha256: followed by exactly 64 lowercase hex characters"@,
        )
    } else {
        Ok(hex_decoded(value.skip("sha256:"@.len() as int)))
    }
}

/// Parse the literal `sha256:<64 lowercase hex>` value accepted by the
/// configuration. A malformed verifier must be a startup error, never a route to
/// disabled admin authentication.
pub fn parse_verifier_hash(value: &str) -> (parsed: Result<[u8; 32], Error>)
    ensures
        match verifier_of(value@) {
            Ok(bytes) => parsed matches Ok(verifier) && verifier@ == bytes,
            Err(reason) => parsed matches Err(Error::Config(message)) && message@ == reason,
        },
{
    proof {
        reveal_strlit("sha256:");
    }
    if !has_prefix(value, "sha256:") {
        return Err(Error::Config("admin_credential_hash must start with sha256:".to_owned()));
    }
    let chars = chars_of(value);
    let digits = text_of(&chars, 7, chars.len());
    assert(digits@ =~= value@.skip(7));
    let mut ok: bool = chars.len() - 7 == 64;
    let mut i: usize = 7;
    while ok && i < chars.len()
        invariant
            chars@ == value@,
            digits@ == value@.skip(7),
            chars@.len() >= 7,
            7 <= i <= chars.len(),
            ok ==> digits@.len() == 64,
            ok ==> forall|j: int| 0 <= j < i - 7 ==> is_lower_hex(#[trigger] digits@[j]),
            !ok ==> !is_verifier_hex(digits@),
        decreases chars.len() - i + if ok { 1int } else { 0int },
    {
        let c = chars[i];
        assert(c == digits@[i - 7]);
        if (c >= '0' && c <= '9') || (c >= 'a' && c <= 'f') {
            i += 1;
        } else {
            ok = false;
        }
    }
    if !ok {
        return Err(
            Error::Config(
                "admin_credential_hash must be sha256: followed by exactly 64 lowercase hex characters".to_owned(),
            ),
        );
    }
    assert(is_verifier_hex(digits@));
    assert forall|j: int| 0 <= j < digits@.len() implies is_hex_digit(#[trigger] digits@[j]) by {
        assert(is_lower_hex(digits@[j]));
    }
    assert(is_hex_text(digits@));
    let mut verifier: [u8; 32] = [0u8; 32];
    if let Some(decoded) = hex_decode(digits.as_str()) {
        let mut k: usize = 0;
        while k < 32
            invariant
                0 <= k <= 32,
                decoded@.len() == 32,
                decoded@ == hex_decoded(digits@),
                forall|j: int| 0 <= j < k ==> verifier@[j] == decoded@[j],
            decreases 32 - k,
        {
            verifier[k] = decoded[k];
            k += 1;
        }
        assert(verifier@ =~= decoded@);
    }
    Ok(verifier)
}

/// Bound the credential body before hashing: a client cannot turn one rejected
/// request into unbounded allocation or CPU work.
pub const MAX_ADMIN_CREDENTIAL_BYTES: usize = 1024;

pub const DEFAULT_MAX_INFLIGHT_VERIFICATIONS: usize = 4;

/// Nanoseconds.
pub const DEFAULT_ADMIN_FAILURE_BACKOFF: u128 = 100 * MILLISECOND;

/// Nanoseconds.
pub const MAX_ADMIN_FAILURE_BACKOFF: u128 = 5 * SECOND;

/// Upper bound on tracked failure sources: per-source state must not itself be a
/// memory vector, so the table is bounded and evicts.
pub const MAX_TRACKED_ADMIN_SOURCES: usize = 256;

/// How long a source's failure history outlives its block, in nanoseconds. Longer
/// than the block, so escalation still means something across a slow guessing
/// loop; short enough that an operator who mistyped once is not counted against
/// an hour later.
pub const ADMIN_FAILURE_MEMORY: u128 = 60 * SECOND;

/// A generated bootstrap credential and its deploy-time verifier. The plaintext
/// is for the external operator path only; callers must deliver just `verifier`
/// to the container projection and drop the plaintext after remote use.
pub struct GeneratedAdminCredential {
    pub plaintext: SecretBytes,
    pub verifier: String,
}

#[derive(Clone, Copy, Debug, PartialEq, Eq, Structural)]
pub enum AdminAuthFailure {
    Invalid,
    /// The wait is in nanoseconds.
    Throttled { retry_after: u128 },
    Busy,
    TooLarge,
}

/// What is remembered of one failing source.
#[derive(Clone, Copy, Debug)]
pub struct FailureState {
    pub consecutive_failures: u32,
    pub blocked_until: Option<u128>,
    pub last_seen: u128,
}

impl FailureState {
    /// Whether the source is under an active block.
    pub open spec fn blocked(self, now: u128) -> bool {
        self.blocked_until matches Some(until) && until > now
    }

    /// Whether there is still a reason to remember the source.
    pub open spec fn remembered(self, now: u128) -> bool {
        self.blocked(now) || now - self.last_seen < ADMIN_FAILURE_MEMORY
    }

    /// The state after it was seen again.
    pub open spec fn seen(self, now: u128) -> FailureState {
        FailureState { last_seen: now, ..self }
    }

    /// The state after one more failure: the count goes up, and the next block is
    /// armed.
    pub open spec fn escalated(self, base_backoff: nat, now: u128) -> FailureState {
        let failures = if self.consecutive_failures < u32::MAX {
            (self.consecutive_failures + 1) as u32
        } else {
            u32::MAX
        };
        FailureState {
            consecutive_failures: failures,
            blocked_until: Some((now + backoff(base_backoff, failures)) as u128),
            last_seen: now,
        }
    }

    /// A source that has not failed yet.
    pub open spec fn fresh(now: u128) -> FailureState {
        FailureState { consecutive_failures: 0, blocked_until: None, last_seen: now }
    }

    fn is_blocked(&self, now: u128) -> (blocked: bool)
        ensures
            blocked == self.blocked(now),
    {
        match self.blocked_until {
            Some(until) => until > now,
            None => false,
        }
    }
}

/// Two to the power of `n`.
pub open spec fn doubled(n: nat) -> nat
    decreases n,
{
    if n == 0 {
        1
    } else {
        2 * doubled((n - 1) as nat)
    }
}

/// How long a source is blocked after its `failures`-th failure in a row: the
/// base backoff, doubled with each failure up to ten times, and capped.
pub open spec fn backoff(base: nat, failures: u32) -> nat {
    let doublings: nat = if failures <= 1 {
        0
    } else if failures - 1 < 10 {
        (failures - 1) as nat
    } else {
        10
    };
    let delay = base * doubled(doublings);
    if delay < MAX_ADMIN_FAILURE_BACKOFF {
        delay
    } else {
        MAX_ADMIN_FAILURE_BACKOFF as nat
    }
}

proof fn lemma_doubled_is_small(n: nat)
    requires
        n <= 10,
    ensures
        doubled(n) <= 1024,
{
    reveal_with_fuel(doubled, 11);
}

/// The length of the next block.
fn backoff_delay(base: u128, failures: u32) -> (delay: u128)
    requires
        in_range(base),
    ensures
        delay == backoff(base as nat, failures),
        delay <= MAX_ADMIN_FAILURE_BACKOFF,
{
    let doublings: u32 = if failures <= 1 {
        0
    } else if failures - 1 < 10 {
        failures - 1
    } else {
        10
    };
    let mut delay: u128 = base;
    let mut i: u32 = 0;
    assert(base * doubled(0) == base) by {
        assert(doubled(0) == 1);
    }
    while i < doublings
        invariant
            in_range(base),
            0 <= i <= doublings <= 10,
            delay == base * doubled(i as nat),
        decreases doublings - i,
    {
        proof {
            lemma_doubled_is_small(i as nat);
            let factor = doubled(i as nat) as int;
            assert(base * factor <= base * 1024) by (nonlinear_arith)
                requires
                    0 <= factor <= 1024,
            ;
            assert(base * (2 * factor) == 2 * (base * factor)) by (nonlinear_arith);
        }
        delay = delay * 2;
        i += 1;
    }
    if delay < MAX_ADMIN_FAILURE_BACKOFF {
        delay
    } else {
        MAX_ADMIN_FAILURE_BACKOFF
    }
}

/// What an [`AdminAuthenticator`] knows.
#[verifier::ext_equal]
pub struct AuthModel {
    pub verifier: Seq<u8>,
    pub fingerprint: Seq<char>,
    /// Failure and backoff state for each source.
    pub failures: Map<Seq<char>, FailureState>,
    pub in_flight: nat,
    pub max_in_flight: nat,
    pub base_backoff: nat,
    pub audit: Seq<AuditRecord>,
}

/// The sources after one of them was seen again.
pub open spec fn touched(
    failures: Map<Seq<char>, FailureState>,
    source: Seq<char>,
    now: u128,
) -> Map<Seq<char>, FailureState> {
    if failures.contains_key(source) {
        failures.insert(source, failures[source].seen(now))
    } else {
        failures
    }
}

/// The sources worth remembering: those under an active block, and those whose
/// history has not aged out.
pub open spec fn pruned(
    failures: Map<Seq<char>, FailureState>,
    now: u128,
) -> Map<Seq<char>, FailureState> {
    Map::new(
        |source: Seq<char>| failures.contains_key(source) && failures[source].remembered(now),
        |source: Seq<char>| failures[source],
    )
}

/// Whether `victim` may make room for a new source: it is not under an active
/// block, and no such source was seen less recently.
pub open spec fn evictable(
    failures: Map<Seq<char>, FailureState>,
    victim: Seq<char>,
    now: u128,
) -> bool {
    &&& failures.contains_key(victim)
    &&& !failures[victim].blocked(now)
    &&& forall|other: Seq<char>| #[trigger]
        failures.contains_key(other) && !failures[other].blocked(now) ==> failures[victim].last_seen
            <= failures[other].last_seen
}

/// Whether `after` is what `before` becomes when one more failure of `source` is
/// counted, and `delay` the block it earned; `None` where the source could not be
/// tracked because every slot is under an active block.
pub open spec fn counted(
    before: Map<Seq<char>, FailureState>,
    after: Map<Seq<char>, FailureState>,
    source: Seq<char>,
    base_backoff: nat,
    now: u128,
    delay: Option<u128>,
) -> bool {
    let live = pruned(before, now);
    if live.contains_key(source) {
        let state = live[source].escalated(base_backoff, now);
        &&& after == live.insert(source, state)
        &&& delay matches Some(d) && d == backoff(base_backoff, state.consecutive_failures)
    } else if live.dom().len() < MAX_TRACKED_ADMIN_SOURCES {
        let state = FailureState::fresh(now).escalated(base_backoff, now);
        &&& after == live.insert(source, state)
        &&& delay matches Some(d) && d == backoff(base_backoff, state.consecutive_failures)
    } else if exists|victim: Seq<char>| evictable(live, victim, now) {
        let state = FailureState::fresh(now).escalated(base_backoff, now);
        &&& delay matches Some(d) && d == backoff(base_backoff, state.consecutive_failures)
        &&& exists|victim: Seq<char>|
            evictable(live, victim, now) && after == #[trigger] live.remove(victim).insert(
                source,
                state,
            )
    } else {
        &&& after == live
        &&& delay is None
    }
}

/// The record of a failed attempt.
pub open spec fn failure_record(
    fingerprint: Seq<char>,
    source: Seq<char>,
    detail: Seq<char>,
) -> AuditRecord {
    AuditRecord::of(AuditKind::AdminAuthFailure).with_fingerprint(fingerprint).with_source(
        source,
    ).with_detail(detail)
}

/// The detail of an attempt that ran into an active block.
pub open spec fn throttled_detail(detail: Seq<char>, wait: nat) -> Seq<char> {
    detail + "; throttled; retry_after_ms="@ + decimal(wait / MILLISECOND as nat)
}

/// The detail of a counted attempt.
pub open spec fn counted_detail(detail: Seq<char>, delay: Option<u128>) -> Seq<char> {
    match delay {
        Some(delay) => detail + "; retry_after_ms="@ + decimal(delay as nat / MILLISECOND as nat),
        None => detail + "; untracked: all 256 slots blocked"@,
    }
}

/// Whether a failed attempt by `source` took `before` to `after` and was answered
/// `answer`: a blocked source is told how long it still has to wait, and its
/// block is left alone; otherwise the failure is counted and `failure` is the
/// answer.
pub open spec fn failed(
    before: AuthModel,
    after: AuthModel,
    source: Seq<char>,
    detail: Seq<char>,
    failure: AdminAuthFailure,
    answer: AdminAuthFailure,
    now: u128,
) -> bool {
    let seen = touched(before.failures, source, now);
    &&& after.verifier == before.verifier
    &&& after.fingerprint == before.fingerprint
    &&& after.in_flight == before.in_flight
    &&& after.max_in_flight == before.max_in_flight
    &&& after.base_backoff == before.base_backoff
    &&& if before.failures.contains_key(source) && before.failures[source].blocked(now) {
        let wait = (before.failures[source].blocked_until->Some_0 - now) as u128;
        &&& answer == AdminAuthFailure::Throttled { retry_after: wait }
        &&& after.failures == seen
        &&& after.audit == before.audit.push(
            failure_record(before.fingerprint, source, throttled_detail(detail, wait as nat)),
        )
    } else {
        &&& answer == failure
        &&& exists|delay: Option<u128>|
            {
                &&& counted(seen, after.failures, source, before.base_backoff, now, delay)
                &&& after.audit == before.audit.push(
                    failure_record(
                        before.fingerprint,
                        source,
                        #[trigger] counted_detail(detail, delay),
                    ),
                )
            }
    }
}

/// Stored verifier plus bounded verification controls. It never stores the
/// plaintext credential and has no argv, environment or file based input path.
pub struct AdminAuthenticator {
    verifier: [u8; 32],
    fingerprint: String,
    failures: Table<FailureState>,
    in_flight: usize,
    max_in_flight: usize,
    base_backoff: u128,
    audit: AuditLogger,
}

/// Whether a presented credential opens the admin plane. No source and no failure
/// has a say in it.
pub open spec fn opens(auth: AuthModel, presented: Seq<u8>) -> bool {
    &&& presented.len() <= MAX_ADMIN_CREDENTIAL_BYTES
    &&& auth.in_flight < auth.max_in_flight
    &&& sha256_digest(presented) == auth.verifier
}

impl View for AdminAuthenticator {
    type V = AuthModel;

    closed spec fn view(&self) -> AuthModel {
        AuthModel {
            verifier: self.verifier@,
            fingerprint: self.fingerprint@,
            failures: self.failures@,
            in_flight: self.in_flight as nat,
            max_in_flight: self.max_in_flight as nat,
            base_backoff: self.base_backoff as nat,
            audit: self.audit@,
        }
    }
}

impl AdminAuthenticator {
    /// Whether the failure state is within its bounds.
    pub closed spec fn wf(self) -> bool {
        &&& in_range(self.base_backoff)
        &&& self.in_flight <= self.max_in_flight
        &&& self.failures.entries().len() <= MAX_TRACKED_ADMIN_SOURCES
    }

    /// Parse the literal `sha256:<lowercase-hex>` value accepted by config.
    pub fn from_verifier_hash(verifier_hash: &str, audit: AuditLogger) -> (result: Result<
        Self,
        Error,
    >)
        ensures
            match verifier_of(verifier_hash@) {
                Ok(verifier) => {
                    &&& result matches Ok(auth)
                    &&& auth.wf()
                    &&& auth@ == (AuthModel {
                        verifier,
                        fingerprint: fingerprint_of(verifier),
                        failures: Map::<Seq<char>, FailureState>::empty(),
                        in_flight: 0,
                        max_in_flight: 4,
                        base_backoff: 100_000_000,
                        audit: audit@,
                    })
                },
                Err(reason) => result matches Err(Error::Config(message)) && message@ == reason,
            },
    {
        match parse_verifier_hash(verifier_hash) {
            Ok(verifier) => Ok(
                AdminAuthenticator {
                    fingerprint: hash_fingerprint(&verifier),
                    verifier,
                    failures: Table::new(),
                    in_flight: 0,
                    max_in_flight: DEFAULT_MAX_INFLIGHT_VERIFICATIONS,
                    base_backoff: DEFAULT_ADMIN_FAILURE_BACKOFF,
                    audit,
                },
            ),
            Err(error) => Err(error),
        }
    }

    /// The same, with limits of the caller's choosing.
    pub fn with_limits(
        verifier_hash: &str,
        max_inflight: usize,
        base_backoff: u128,
        audit: AuditLogger,
    ) -> (result: Result<Self, Error>)
        requires
            in_range(base_backoff),
        ensures
            if max_inflight == 0 || base_backoff == 0 {
                result matches Err(Error::Config(message)) && message@
                    == "admin authentication limits must be non-zero"@
            } else {
                match verifier_of(verifier_hash@) {
                    Ok(verifier) => {
                        &&& result matches Ok(auth)
                        &&& auth.wf()
                        &&& auth@ == (AuthModel {
                            verifier,
                            fingerprint: fingerprint_of(verifier),
                            failures: Map::<Seq<char>, FailureState>::empty(),
                            in_flight: 0,
                            max_in_flight: max_inflight as nat,
                            base_backoff: base_backoff as nat,
                            audit: audit@,
                        })
                    },
                    Err(reason) => result matches Err(Error::Config(message)) && message@
                        == reason,
                }
            },
    {
        if max_inflight == 0 || base_backoff == 0 {
            return Err(Error::Config("admin authentication limits must be non-zero".to_owned()));
        }
        match Self::from_verifier_hash(verifier_hash, audit) {
            Ok(auth) => {
                let mut auth = auth;
                auth.max_in_flight = max_inflight;
                auth.base_backoff = base_backoff;
                Ok(auth)
            },
            Err(error) => Err(error),
        }
    }

    /// Generate a CSPRNG 256-bit bootstrap credential. Operators do not choose
    /// this value; only its non-reversible verifier belongs in container config.
    pub fn generate() -> (credential: GeneratedAdminCredential)
        ensures
            credential.plaintext@.len() == 64,
            verifier_of(credential.verifier@) == Ok::<Seq<u8>, Seq<char>>(
                sha256_digest(credential.plaintext@),
            ),
            exists|key: Seq<u8>|
                key.len() == 32 && credential.plaintext@ == #[trigger] hex_bytes(key),
    {
        Self::credential_from_key(random_key())
    }

    /// The credential that these random bytes make. The verifier hashes the
    /// *encoded* form: that is what the operator presents over the remote admin
    /// API, and what verification hashes.
    pub fn credential_from_key(key: SecretBytes) -> (credential: GeneratedAdminCredential)
        ensures
            credential.plaintext@ == hex_bytes(key@),
            credential.verifier@ == "sha256:"@ + hex_text(sha256_digest(hex_bytes(key@))),
            verifier_of(credential.verifier@) == Ok::<Seq<u8>, Seq<char>>(
                sha256_digest(credential.plaintext@),
            ),
    {
        let encoded = hex_ascii(key.as_bytes());
        let digest: [u8; 32] = sha256(encoded.as_slice());
        let verifier = joined("sha256:", hex_string(&digest).as_str());
        proof {
            lemma_rendered_verifier(digest@);
        }
        GeneratedAdminCredential { plaintext: SecretBytes::new(encoded), verifier }
    }

    pub fn verifier_fingerprint(&self) -> (fingerprint: &str)
        ensures
            fingerprint@ == self@.fingerprint,
    {
        self.fingerprint.as_str()
    }

    /// How many sources are being tracked.
    pub fn tracked_sources(&self) -> (n: usize)
        requires
            self.wf(),
        ensures
            n == self@.failures.dom().len(),
            n <= MAX_TRACKED_ADMIN_SOURCES,
    {
        self.failures.len()
    }

    fn audit_failure(&mut self, source: Option<&str>, detail: &str)
        ensures
            final(self)@ == (AuthModel {
                audit: old(self)@.audit.push(
                    failure_record(old(self)@.fingerprint, source_name(source), detail@),
                ),
                ..old(self)@
            }),
            old(self).wf() ==> final(self).wf(),
    {
        let event = AuditEvent::new(AuditKind::AdminAuthFailure).fingerprint(
            self.fingerprint.as_str(),
        ).source(source_or_unknown(source)).detail(detail);
        self.audit.record(event);
    }
}

/// A rendered digest reads back as a verifier.
proof fn lemma_rendered_verifier(digest: Seq<u8>)
    requires
        digest.len() == 32,
    ensures
        verifier_of("sha256:"@ + hex_text(digest)) == Ok::<Seq<u8>, Seq<char>>(digest),
{
    let text = "sha256:"@ + hex_text(digest);
    assert("sha256:"@.is_prefix_of(text));
    assert(text.skip("sha256:"@.len() as int) =~= hex_text(digest));
    assert forall|i: int| 0 <= i < hex_text(digest).len() implies is_lower_hex(
        #[trigger] hex_text(digest)[i],
    ) by {
        assert(0 <= i / 2 < digest.len());
    }
    law_hex_round_trip(digest);
}

/// Drop entries whose block has expired and whose history has aged out.
fn prune(failures: &mut Table<FailureState>, now: u128)
    ensures
        final(failures)@ == pruned(old(failures)@, now),
        final(failures).entries().len() <= old(failures).entries().len(),
{
    let ghost before = failures@;
    let mut i: usize = 0;
    while i < failures.len()
        invariant
            before == old(failures)@,
            0 <= i <= failures.entries().len(),
            failures.entries().len() <= old(failures).entries().len(),
            forall|j: int|
                0 <= j < i ==> (#[trigger] failures.entries()[j]).1.remembered(now),
            forall|k: Seq<char>| #[trigger]
                failures@.contains_key(k) ==> before.contains_key(k) && failures@[k] == before[k],
            forall|k: Seq<char>| #[trigger]
                before.contains_key(k) && before[k].remembered(now) ==> failures@.contains_key(k),
        decreases failures.entries().len() - i,
    {
        let state = *failures.value_at(i);
        let ghost key = failures.entries()[i as int].0;
        proof {
            lemma_unique_find(failures.entries(), key);
            assert(failures@[key] == state);
        }
        if state.is_blocked(now) || now < state.last_seen || now - state.last_seen
            < ADMIN_FAILURE_MEMORY {
            i += 1;
        } else {
            let ghost entries = failures.entries();
            let _ = failures.remove_at(i);
            assert forall|j: int| 0 <= j < i implies (#[trigger] failures.entries()[j]).1.remembered(
                now,
            ) by {
                assert(failures.entries()[j] == entries[j]);
            }
        }
    }
    proof {
        assert forall|k: Seq<char>| #[trigger] failures@.contains_key(k) implies failures@[k].remembered(
            now,
        ) by {
            lemma_unique_find(failures.entries(), k);
            let j = choose|j: int|
                0 <= j < failures.entries().len() && failures.entries()[j] == (k, failures@[k]);
            assert(failures.entries()[j].1.remembered(now));
        }
        assert(failures@ =~= pruned(before, now));
    }
}

/// Make space for one new source by evicting the least recently seen entry that
/// is **not** under an active block. Evicting a blocked entry would hand an
/// attacker a reset: churn enough distinct sources and the block you are under
/// disappears.
fn make_room(failures: &mut Table<FailureState>, now: u128)
    ensures
        old(failures).entries().len() < MAX_TRACKED_ADMIN_SOURCES ==> {
            &&& final(failures)@ == old(failures)@
            &&& final(failures).entries() == old(failures).entries()
        },
        old(failures).entries().len() >= MAX_TRACKED_ADMIN_SOURCES ==> {
            ||| {
                &&& exists|victim: Seq<char>|
                    evictable(old(failures)@, victim, now) && final(failures)@
                        == #[trigger] old(failures)@.remove(victim)
                &&& final(failures).entries().len() == old(failures).entries().len() - 1
            }
            ||| {
                &&& forall|victim: Seq<char>| !evictable(old(failures)@, victim, now)
                &&& final(failures)@ == old(failures)@
                &&& final(failures).entries() == old(failures).entries()
            }
        },
{
    if failures.len() < MAX_TRACKED_ADMIN_SOURCES {
        return;
    }
    let ghost entries = failures.entries();
    let n: usize = failures.len();
    let mut victim: Option<usize> = None;
    let mut oldest: u128 = 0;
    let mut i: usize = 0;
    while i < n
        invariant
            entries == failures.entries(),
            n == entries.len(),
            0 <= i <= n,
            match victim {
                Some(v) => {
                    &&& v < i
                    &&& !entries[v as int].1.blocked(now)
                    &&& entries[v as int].1.last_seen == oldest
                    &&& forall|j: int|
                        0 <= j < i && !(#[trigger] entries[j]).1.blocked(now) ==> oldest
                            <= entries[j].1.last_seen
                },
                None => forall|j: int|
                    0 <= j < i ==> (#[trigger] entries[j]).1.blocked(now),
            },
        decreases n - i,
    {
        let state = *failures.value_at(i);
        if !state.is_blocked(now) && (victim.is_none() || state.last_seen < oldest) {
            victim = Some(i);
            oldest = state.last_seen;
        }
        i += 1;
    }
    match victim {
        Some(v) => {
            let ghost gone = entries[v as int].0;
            proof {
                lemma_unique_find(entries, gone);
                assert forall|other: Seq<char>| #[trigger]
                    failures@.contains_key(other) && !failures@[other].blocked(
                        now,
                    ) implies failures@[gone].last_seen <= failures@[other].last_seen by {
                    lemma_unique_find(entries, other);
                    let j = choose|j: int|
                        0 <= j < entries.len() && entries[j] == (other, failures@[other]);
                    assert(!entries[j].1.blocked(now));
                }
                assert(evictable(failures@, gone, now));
            }
            let _ = failures.remove_at(v);
            assert(failures@ == old(failures)@.remove(gone));
        },
        None => {
            assert forall|other: Seq<char>| !evictable(failures@, other, now) by {
                if failures@.contains_key(other) {
                    lemma_unique_find(entries, other);
                    let j = choose|j: int|
                        0 <= j < entries.len() && entries[j] == (other, failures@[other]);
                    assert(entries[j].1.blocked(now));
                }
            }
        },
    }
}

/// Count one more failure of `source` and arm its next block. `None` where every
/// known source is under an active block: not tracking this one is the fail-safe
/// choice, as the alternatives are an unbounded table, or dropping somebody else's
/// live block.
fn count_failure(
    failures: &mut Table<FailureState>,
    source: &str,
    base_backoff: u128,
    now: u128,
) -> (delay: Option<u128>)
    requires
        in_range(base_backoff),
        in_range(now),
        old(failures).entries().len() <= MAX_TRACKED_ADMIN_SOURCES,
    ensures
        counted(old(failures)@, final(failures)@, source@, base_backoff as nat, now, delay),
        final(failures).entries().len() <= MAX_TRACKED_ADMIN_SOURCES,
{
    prune(failures, now);
    let ghost live = failures@;
    let _ = failures.len();
    let known: bool = failures.position(source).is_some();
    if !known {
        make_room(failures, now);
    }
    assert(!known ==> !failures@.contains_key(source@));
    let state = match failures.get(source) {
        Some(state) => *state,
        None => {
            if failures.len() >= MAX_TRACKED_ADMIN_SOURCES {
                return None;
            }
            FailureState { consecutive_failures: 0, blocked_until: None, last_seen: now }
        },
    };
    let count: u32 = if state.consecutive_failures < u32::MAX {
        state.consecutive_failures + 1
    } else {
        u32::MAX
    };
    let delay: u128 = backoff_delay(base_backoff, count);
    let next = FailureState {
        consecutive_failures: count,
        blocked_until: Some(now + delay),
        last_seen: now,
    };
    let ghost roomy = failures@;
    let _ = failures.len();
    failures.insert(source.to_owned(), next);
    proof {
        assert(failures@ == roomy.insert(source@, next));
        if known {
            assert(live.contains_key(source@));
        } else if live.dom().len() >= MAX_TRACKED_ADMIN_SOURCES {
            let victim = choose|victim: Seq<char>|
                evictable(live, victim, now) && roomy == #[trigger] live.remove(victim);
            assert(failures@ == live.remove(victim).insert(source@, next));
        }
    }
    Some(delay)
}

impl AdminAuthenticator {
    /// Shared tail for every failed attempt: if the source is already blocked, say
    /// so **without** pushing the deadline out; otherwise count the failure, arm
    /// the next block, and return `failure`.
    fn count_or_throttle(
        &mut self,
        source: Option<&str>,
        detail: &str,
        failure: AdminAuthFailure,
        now: u128,
    ) -> (answer: AdminAuthFailure)
        requires
            old(self).wf(),
            in_range(now),
        ensures
            final(self).wf(),
            failed(
                old(self)@,
                final(self)@,
                source_name(source),
                detail@,
                failure,
                answer,
                now,
            ),
    {
        let key = source_or_unknown(source);
        let ghost before = self.failures@;
        if let Some(i) = self.failures.position(key) {
            // Seen again, also while blocked: an entry that keeps being hit is the
            // most recently seen one, and eviction must never be a way to shake
            // off an active block.
            let state = *self.failures.value_at(i);
            let seen = FailureState { last_seen: now, ..state };
            self.failures.set_at(i, seen);
            assert(self.failures@ == touched(before, key@, now));
            if let Some(until) = state.blocked_until {
                if until > now {
                    let wait: u128 = until - now;
                    let text = joined(
                        joined(detail, "; throttled; retry_after_ms=").as_str(),
                        decimal_text(wait / MILLISECOND).as_str(),
                    );
                    self.audit_failure(source, text.as_str());
                    return AdminAuthFailure::Throttled { retry_after: wait };
                }
            }
        }
        assert(self.failures@ == touched(before, key@, now));
        let base: u128 = self.base_backoff;
        let ghost start = self@;
        let delay = count_failure(&mut self.failures, key, base, now);
        let text = match delay {
            Some(delay) => joined(
                joined(detail, "; retry_after_ms=").as_str(),
                decimal_text(delay / MILLISECOND).as_str(),
            ),
            None => joined(detail, "; untracked: all 256 slots blocked"),
        };
        assert(text@ == counted_detail(detail@, delay));
        self.audit_failure(source, text.as_str());
        failure
    }

    /// Start a verification: refuse an oversized credential, and refuse to start
    /// more verifications at once than the cap allows. Where it is refused the
    /// presented value is erased. A verification that was started must be
    /// finished with [`AdminAuthenticator::finish_verification`].
    ///
    /// Running into the concurrency cap is deliberately *not* a counted failure:
    /// escalating the backoff on concurrency pressure would let a burst of
    /// requests throttle a source that never presented a bad credential.
    pub fn begin_verification(
        &mut self,
        presented: &mut SecretBytes,
        source: Option<&str>,
        now: u128,
    ) -> (result: Result<(), AdminAuthFailure>)
        requires
            old(self).wf(),
            in_range(now),
        ensures
            final(self).wf(),
            result is Err ==> final(presented)@ == erased(old(presented)@.len()),
            result is Ok ==> final(presented)@ == old(presented)@,
            if old(presented)@.len() > MAX_ADMIN_CREDENTIAL_BYTES {
                result matches Err(answer) && failed(
                    old(self)@,
                    final(self)@,
                    source_name(source),
                    "credential_too_large"@,
                    AdminAuthFailure::TooLarge,
                    answer,
                    now,
                )
            } else if old(self)@.in_flight >= old(self)@.max_in_flight {
                &&& result == Err::<(), AdminAuthFailure>(AdminAuthFailure::Busy)
                &&& final(self)@ == (AuthModel {
                    audit: old(self)@.audit.push(
                        failure_record(
                            old(self)@.fingerprint,
                            source_name(source),
                            "verification_concurrency_cap"@,
                        ),
                    ),
                    ..old(self)@
                })
            } else {
                &&& result is Ok
                &&& final(self)@ == (AuthModel {
                    in_flight: old(self)@.in_flight + 1,
                    ..old(self)@
                })
            },
    {
        if presented.len() > MAX_ADMIN_CREDENTIAL_BYTES {
            presented.zeroize();
            return Err(
                self.count_or_throttle(
                    source,
                    "credential_too_large",
                    AdminAuthFailure::TooLarge,
                    now,
                ),
            );
        }
        if self.in_flight >= self.max_in_flight {
            presented.zeroize();
            self.audit_failure(source, "verification_concurrency_cap");
            return Err(AdminAuthFailure::Busy);
        }
        self.in_flight = self.in_flight + 1;
        Ok(())
    }

    /// Hash a presented credential and erase it. This is the expensive part of a
    /// verification and needs no state.
    pub fn digest_and_erase(presented: &mut SecretBytes) -> (digest: [u8; 32])
        ensures
            digest@ == sha256_digest(old(presented)@),
            final(presented)@ == erased(old(presented)@.len()),
    {
        let digest: [u8; 32] = sha256(presented.as_bytes());
        presented.zeroize();
        digest
    }

    /// Finish a verification that was started, by the digest of what was
    /// presented.
    ///
    /// * **The throttle is per source.** One global bucket would be a lockout.
    /// * **An active block is never extended by a request it already rejected**,
    ///   so a block always expires on schedule instead of being held open by
    ///   traffic.
    /// * **A correct credential is never refused.** The throttle governs *failed*
    ///   attempts.
    pub fn finish_verification(
        &mut self,
        digest: &[u8; 32],
        source: Option<&str>,
        now: u128,
    ) -> (result: Result<(), AdminAuthFailure>)
        requires
            old(self).wf(),
            old(self)@.in_flight > 0,
            in_range(now),
        ensures
            final(self).wf(),
            if digest@ == old(self)@.verifier {
                &&& result is Ok
                &&& final(self)@ == (AuthModel {
                    in_flight: (old(self)@.in_flight - 1) as nat,
                    failures: old(self)@.failures.remove(source_name(source)),
                    ..old(self)@
                })
            } else {
                result matches Err(answer) && failed(
                    (AuthModel { in_flight: (old(self)@.in_flight - 1) as nat, ..old(self)@ }),
                    final(self)@,
                    source_name(source),
                    "invalid_credential"@,
                    AdminAuthFailure::Invalid,
                    answer,
                    now,
                )
            },
    {
        self.in_flight = self.in_flight - 1;
        if constant_time_eq(digest, &self.verifier) {
            // Success clears this source's bucket only. Clearing every bucket
            // would let one caller's success reset another caller's block.
            let _ = self.failures.remove(source_or_unknown(source));
            return Ok(());
        }
        Err(
            self.count_or_throttle(
                source,
                "invalid_credential",
                AdminAuthFailure::Invalid,
                now,
            ),
        )
    }

    /// Verify a remote request credential. The owned buffer is always zeroized
    /// before return. Callers should reject a body larger than the endpoint cap
    /// before constructing this buffer; this second bound is defense in depth.
    pub fn verify(
        &mut self,
        presented: &mut SecretBytes,
        source: Option<&str>,
        now: u128,
    ) -> (result: Result<(), AdminAuthFailure>)
        requires
            old(self).wf(),
            in_range(now),
        ensures
            final(self).wf(),
            final(presented)@ == erased(old(presented)@.len()),
            result is Ok <==> opens(old(self)@, old(presented)@),
            if old(presented)@.len() > MAX_ADMIN_CREDENTIAL_BYTES {
                result matches Err(answer) && failed(
                    old(self)@,
                    final(self)@,
                    source_name(source),
                    "credential_too_large"@,
                    AdminAuthFailure::TooLarge,
                    answer,
                    now,
                )
            } else if old(self)@.in_flight >= old(self)@.max_in_flight {
                &&& result == Err::<(), AdminAuthFailure>(AdminAuthFailure::Busy)
                &&& final(self)@ == (AuthModel {
                    audit: old(self)@.audit.push(
                        failure_record(
                            old(self)@.fingerprint,
                            source_name(source),
                            "verification_concurrency_cap"@,
                        ),
                    ),
                    ..old(self)@
                })
            } else if sha256_digest(old(presented)@) == old(self)@.verifier {
                &&& result is Ok
                &&& final(self)@ == (AuthModel {
                    failures: old(self)@.failures.remove(source_name(source)),
                    ..old(self)@
                })
            } else {
                result matches Err(answer) && failed(
                    old(self)@,
                    final(self)@,
                    source_name(source),
                    "invalid_credential"@,
                    AdminAuthFailure::Invalid,
                    answer,
                    now,
                )
            },
    {
        if let Err(answer) = self.begin_verification(presented, source, now) {
            return Err(answer);
        }
        let digest = Self::digest_and_erase(presented);
        assert((AuthModel { in_flight: (self@.in_flight - 1) as nat, ..self@ }) =~= old(self)@);
        self.finish_verification(&digest, source, now)
    }

    /// A failed attempt that carries no credential to compare: a missing or
    /// malformed `Authorization` header.
    ///
    /// Routed through the *same* per-source throttle and the same audit event as
    /// a wrong credential, so that omitting the header is no free, unlimited
    /// retry.
    pub fn reject_unauthenticated(&mut self, source: Option<&str>, now: u128) -> (answer:
        AdminAuthFailure)
        requires
            old(self).wf(),
            in_range(now),
        ensures
            final(self).wf(),
            failed(
                old(self)@,
                final(self)@,
                source_name(source),
                "missing_or_malformed_authorization_header"@,
                AdminAuthFailure::Invalid,
                answer,
                now,
            ),
    {
        self.count_or_throttle(
            source,
            "missing_or_malformed_authorization_header",
            AdminAuthFailure::Invalid,
            now,
        )
    }

    /// Everything recorded since the last call, oldest first.
    pub fn drain_audit(&mut self) -> (events: Vec<AuditEvent>)
        ensures
            final(self)@ == (AuthModel { audit: Seq::<AuditRecord>::empty(), ..old(self)@ }),
            old(self).wf() ==> final(self).wf(),
            events@.len() == old(self)@.audit.len(),
            forall|i: int|
                0 <= i < events@.len() ==> (#[trigger] events@[i])@ == old(self)@.audit[i],
    {
        self.audit.drain()
    }
}

/// A correct credential is never lockable: no failed attempt, from whatever source,
/// changes which credentials open the admin plane.
pub proof fn law_failures_never_lock_out(
    before: AuthModel,
    after: AuthModel,
    source: Seq<char>,
    detail: Seq<char>,
    failure: AdminAuthFailure,
    answer: AdminAuthFailure,
    now: u128,
    presented: Seq<u8>,
)
    requires
        failed(before, after, source, detail, failure, answer, now),
    ensures
        opens(after, presented) == opens(before, presented),
{
}

/// A failed attempt never pushes an active block out: the source's deadline stays
/// where it was, and the wait it is told is exactly the time left.
pub proof fn law_active_block_is_never_extended(
    before: AuthModel,
    after: AuthModel,
    source: Seq<char>,
    detail: Seq<char>,
    failure: AdminAuthFailure,
    answer: AdminAuthFailure,
    now: u128,
)
    requires
        failed(before, after, source, detail, failure, answer, now),
        before.failures.contains_key(source),
        before.failures[source].blocked(now),
    ensures
        after.failures.contains_key(source),
        after.failures[source].blocked_until == before.failures[source].blocked_until,
        answer matches AdminAuthFailure::Throttled { retry_after } && now + retry_after
            == before.failures[source].blocked_until->Some_0,
{
}

/// One source's failures never touch another source's active block: no amount of
/// churn evicts it, extends it or shortens it.
pub proof fn law_churn_keeps_other_blocks(
    before: AuthModel,
    after: AuthModel,
    source: Seq<char>,
    detail: Seq<char>,
    failure: AdminAuthFailure,
    answer: AdminAuthFailure,
    now: u128,
    other: Seq<char>,
)
    requires
        failed(before, after, source, detail, failure, answer, now),
        other != source,
        before.failures.contains_key(other),
        before.failures[other].blocked(now),
    ensures
        after.failures.contains_key(other),
        after.failures[other] == before.failures[other],
{
    let seen = touched(before.failures, source, now);
    assert(seen.contains_key(other) && seen[other] == before.failures[other]);
    assert(pruned(seen, now).contains_key(other));
}

/// A source that is not blocked is judged on its own: its failed attempt is
/// counted, not answered out of somebody else's block.
pub proof fn law_unblocked_source_is_not_throttled(
    before: AuthModel,
    after: AuthModel,
    source: Seq<char>,
    detail: Seq<char>,
    failure: AdminAuthFailure,
    answer: AdminAuthFailure,
    now: u128,
)
    requires
        failed(before, after, source, detail, failure, answer, now),
        !(before.failures.contains_key(source) && before.failures[source].blocked(now)),
    ensures
        answer == failure,
{
}

/// The table of sources stays bounded.
pub proof fn law_sources_stay_bounded(
    before: AuthModel,
    after: AuthModel,
    source: Seq<char>,
    detail: Seq<char>,
    failure: AdminAuthFailure,
    answer: AdminAuthFailure,
    now: u128,
)
    requires
        failed(before, after, source, detail, failure, answer, now),
        before.failures.dom().finite(),
        before.failures.dom().len() <= MAX_TRACKED_ADMIN_SOURCES,
    ensures
        after.failures.dom().finite(),
        after.failures.dom().len() <= MAX_TRACKED_ADMIN_SOURCES,
{
    let seen = touched(before.failures, source, now);
    assert(seen.dom() =~= before.failures.dom());
    let live = pruned(seen, now);
    assert(live.dom().subset_of(seen.dom()));
    vstd::set_lib::lemma_len_subset(live.dom(), seen.dom());
    if !(before.failures.contains_key(source) && before.failures[source].blocked(now)) {
        let delay = choose|delay: Option<u128>|
            {
                &&& counted(seen, after.failures, source, before.base_backoff, now, delay)
                &&& after.audit == before.audit.push(
                    failure_record(
                        before.fingerprint,
                        source,
                        #[trigger] counted_detail(detail, delay),
                    ),
                )
            };
        if live.contains_key(source) {
            assert(after.failures.dom() =~= live.dom());
        } else if live.dom().len() < MAX_TRACKED_ADMIN_SOURCES {
            assert(after.failures.dom() =~= live.dom().insert(source));
        } else if exists|victim: Seq<char>| evictable(live, victim, now) {
            let state = FailureState::fresh(now).escalated(before.base_backoff, now);
            let victim = choose|victim: Seq<char>|
                evictable(live, victim, now) && after.failures == #[trigger] live.remove(
                    victim,
                ).insert(source, state);
            assert(after.failures.dom() =~= live.dom().remove(victim).insert(source));
        }
    }
}

/// Backoff grows with each failure and never exceeds its cap.
pub proof fn law_backoff_is_capped_and_grows(base: nat, failures: u32)
    requires
        failures < u32::MAX,
    ensures
        backoff(base, failures) <= MAX_ADMIN_FAILURE_BACKOFF,
        backoff(base, failures) <= backoff(base, (failures + 1) as u32),
{
    if 1 <= failures <= 10 {
        let n = (failures - 1) as nat;
        let factor = doubled(n) as int;
        assert(doubled((n + 1) as nat) == 2 * doubled(n));
        assert(base * factor <= base * (2 * factor)) by (nonlinear_arith)
            requires
                0 <= base,
                0 <= factor,
        ;
    }
}

proof fn lemma_doubled_steps()
    ensures
        doubled(0) == 1,
        doubled(1) == 2,
        doubled(2) == 4,
        doubled(3) == 8,
        doubled(4) == 16,
        doubled(5) == 32,
        doubled(6) == 64,
        doubled(7) == 128,
        doubled(8) == 256,
        doubled(9) == 512,
        doubled(10) == 1024,
{
    reveal_with_fuel(doubled, 11);
}

/// The first failure costs the base delay, each further one twice as much as the one
/// before, for ten doublings, and none more than five seconds.
pub proof fn law_each_failure_doubles_the_delay(base: nat, failures: u32)
    ensures
        backoff(base, 0) == backoff(base, 1),
        backoff(base, 1) == if base <= 5_000_000_000 {
            base
        } else {
            5_000_000_000
        },
        1 <= failures <= 10 ==> backoff(base, (failures + 1) as u32) == if 2 * backoff(
            base,
            failures,
        ) <= 5_000_000_000 {
            2 * backoff(base, failures)
        } else {
            5_000_000_000
        },
        failures >= 11 ==> backoff(base, failures) == backoff(base, 11),
{
    lemma_doubled_steps();
    if 1 <= failures <= 10 {
        let d = doubled((failures - 1) as nat) as int;
        assert(doubled(failures as nat) == 2 * d);
        assert(base * (2 * d) == 2 * (base * d)) by (nonlinear_arith);
    }
}

/// A failure of a source that is not blocked is counted: it has one failure more than it
/// is remembered for, and is blocked from now on for the delay that goes with that.
pub proof fn law_failure_escalates_its_source(
    before: AuthModel,
    after: AuthModel,
    source: Seq<char>,
    detail: Seq<char>,
    failure: AdminAuthFailure,
    answer: AdminAuthFailure,
    now: u128,
)
    requires
        failed(before, after, source, detail, failure, answer, now),
        before.failures.dom().finite(),
        in_range(now),
        before.failures.contains_key(source),
        before.failures[source].consecutive_failures < u32::MAX,
        before.failures[source].blocked_until matches Some(until) ==> until <= now,
    ensures
        answer == failure,
        after.failures.contains_key(source),
        ({
            let count = (before.failures[source].consecutive_failures + 1) as u32;
            &&& after.failures[source].consecutive_failures == count
            &&& after.failures[source].blocked_until == Some(
                (now + backoff(before.base_backoff, count)) as u128,
            )
        }),
{
    let seen = touched(before.failures, source, now);
    assert(seen[source].remembered(now));
}

/// A source is blocked up to the end of its block and not beyond, and is remembered for
/// a minute after it was last seen.
pub proof fn law_block_ends_on_schedule(state: FailureState, now: u128)
    requires
        state.last_seen <= now,
    ensures
        state.blocked(now) <==> state.blocked_until is Some && now < state.blocked_until->0,
        state.remembered(now) <==> state.blocked(now) || now < state.last_seen + 60_000_000_000,
{
}

/// The admin plane opens to whoever presents the one credential whose digest it holds, up
/// to a KiB long, while a verification slot is free; to nobody else.
pub proof fn law_only_the_credential_opens(auth: AuthModel, presented: Seq<u8>)
    ensures
        opens(auth, presented) <==> sha256_digest(presented) == auth.verifier && presented.len()
            <= 1024 && auth.in_flight < auth.max_in_flight,
{
}

/// A verifier is `sha256:` and sixty-four lower-case hex characters; anything else is
/// refused.
pub proof fn law_verifier_has_one_form(value: Seq<char>)
    ensures
        verifier_of(value) is Ok <==> {
            &&& value.len() == 71
            &&& "sha256:"@.is_prefix_of(value)
            &&& forall|i: int|
                7 <= i < 71 ==> ('0' <= #[trigger] value[i] && value[i] <= '9') || ('a' <= value[i]
                    && value[i] <= 'f')
        },
{
    reveal_strlit("sha256:");
    assert("sha256:"@.len() == 7);
    if "sha256:"@.is_prefix_of(value) {
        let hex = value.skip(7);
        if value.len() == 71 {
            assert forall|i: int| 7 <= i < 71 implies #[trigger] value[i] == hex[i - 7] by {}
            if is_verifier_hex(hex) {
                assert forall|i: int| 7 <= i < 71 implies ('0' <= #[trigger] value[i] && value[i]
                    <= '9') || ('a' <= value[i] && value[i] <= 'f') by {
                    assert(is_lower_hex(hex[i - 7]));
                }
            }
            if forall|i: int|
                7 <= i < 71 ==> ('0' <= #[trigger] value[i] && value[i] <= '9') || ('a' <= value[i]
                    && value[i] <= 'f') {
                assert forall|i: int| 0 <= i < hex.len() implies is_lower_hex(
                    #[trigger] hex[i],
                ) by {
                    assert(hex[i] == value[i + 7]);
                }
            }
        }
    }
}

/// The first failure of a source is its first while there is room for it among 256; a source
/// that is still remembered makes room only where it is not blocked and no other such
/// source was seen longer ago.
pub proof fn law_admin_sources_make_room_in_turn(
    before: Map<Seq<char>, FailureState>,
    after: Map<Seq<char>, FailureState>,
    source: Seq<char>,
    gone: Seq<char>,
    other: Seq<char>,
    base: nat,
    now: u128,
    delay: Option<u128>,
)
    requires
        counted(before, after, source, base, now, delay),
        before.dom().finite(),
        in_range(now),
    ensures
        !before.contains_key(source) && before.dom().len() < 256 ==> {
            &&& after.contains_key(source)
            &&& after[source].consecutive_failures == 1
            &&& after[source].blocked_until == Some((now + backoff(base, 1)) as u128)
            &&& delay matches Some(d) && d == backoff(base, 1)
        },
        before.contains_key(gone) && before.contains_key(other) && before[gone].last_seen <= now
            && now < before[gone].last_seen + 60_000_000_000 && before[other].last_seen <= now
            && now < before[other].last_seen + 60_000_000_000 && !after.contains_key(gone) ==> {
            &&& before[gone].blocked_until matches Some(until) ==> until <= now
            &&& before[gone].last_seen <= before[other].last_seen || (
            before[other].blocked_until is Some && now < before[other].blocked_until->0)
            &&& other != gone && other != source ==> after.contains_key(other) && after[other]
                == before[other]
        },
{
    let live = pruned(before, now);
    assert(live.dom().subset_of(before.dom()));
    vstd::set_lib::lemma_len_subset(live.dom(), before.dom());
    if before.contains_key(gone) && before[gone].last_seen <= now && now < before[gone].last_seen
        + 60_000_000_000 {
        assert(live.contains_key(gone));
    }
    if before.contains_key(other) && before[other].last_seen <= now && now
        < before[other].last_seen + 60_000_000_000 {
        assert(live.contains_key(other));
    }
}

/// A blocked source is told the rest of its block, which the failure leaves as it is.
pub proof fn law_blocked_source_waits_out_its_block(
    before: AuthModel,
    after: AuthModel,
    source: Seq<char>,
    detail: Seq<char>,
    failure: AdminAuthFailure,
    answer: AdminAuthFailure,
    until: u128,
    now: u128,
)
    requires
        failed(before, after, source, detail, failure, answer, now),
        before.failures.contains_key(source),
        before.failures[source].blocked_until == Some(until),
        now < until,
    ensures
        answer == (AdminAuthFailure::Throttled { retry_after: (until - now) as u128 }),
        after.failures[source].blocked_until == Some(until),
        after.failures[source].consecutive_failures == before.failures[source].consecutive_failures,
        after.failures[source].last_seen == now,
        after.audit.len() == before.audit.len() + 1,
        after.audit[before.audit.len() as int].kind == AuditKind::AdminAuthFailure,
        after.audit[before.audit.len() as int].source == Some(source),
{
}

/// Among finitely many sources one was seen no later than any other.
proof fn lemma_one_is_stalest(sources: Map<Seq<char>, FailureState>, keys: Set<Seq<char>>) -> (stalest: Seq<
    char,
>)
    requires
        keys.finite(),
        keys.len() > 0,
    ensures
        keys.contains(stalest),
        forall|other: Seq<char>| #[trigger]
            keys.contains(other) ==> sources[stalest].last_seen <= sources[other].last_seen,
    decreases keys.len(),
{
    let one = keys.choose();
    let rest = keys.remove(one);
    if rest.len() == 0 {
        assert forall|other: Seq<char>| #[trigger] keys.contains(other) implies other == one by {
            if other != one {
                assert(rest.contains(other));
            }
        }
        one
    } else {
        let found = lemma_one_is_stalest(sources, rest);
        let stalest = if sources[one].last_seen < sources[found].last_seen {
            one
        } else {
            found
        };
        assert forall|other: Seq<char>| #[trigger] keys.contains(other) implies sources[stalest].last_seen
            <= sources[other].last_seen by {
            if other != one {
                assert(rest.contains(other));
            }
        }
        stalest
    }
}

/// A failure goes uncounted only where every slot is taken by a source under an active
/// block: as long as one that is not blocked can make room, a new source is put on record.
pub proof fn law_room_is_made_for_a_new_admin_source(
    before: Map<Seq<char>, FailureState>,
    after: Map<Seq<char>, FailureState>,
    source: Seq<char>,
    other: Seq<char>,
    base: nat,
    now: u128,
    delay: Option<u128>,
)
    requires
        counted(before, after, source, base, now, delay),
        before.dom().finite(),
        before.contains_key(other),
        before[other].last_seen <= now < before[other].last_seen + 60_000_000_000,
        before[other].blocked_until matches Some(until) ==> until <= now,
    ensures
        after.contains_key(source),
        after[source].last_seen == now || before.contains_key(source),
        delay is Some,
{
    let live = pruned(before, now);
    assert(live.dom().subset_of(before.dom()));
    vstd::set_lib::lemma_len_subset(live.dom(), before.dom());
    let free = live.dom().filter(|key: Seq<char>| !live[key].blocked(now));
    assert(live.contains_key(other));
    assert(free.contains(other));
    let stalest = lemma_one_is_stalest(live, free);
    assert forall|key: Seq<char>| #[trigger]
        live.contains_key(key) && !live[key].blocked(now) implies live[stalest].last_seen
        <= live[key].last_seen by {
        assert(free.contains(key));
    }
    assert(evictable(live, stalest, now));
}

} // verus!
