//! Structured, secret-safe audit events.
//!
//! Events carry stable fingerprints of verifier or token hashes where
//! correlation is needed. They never carry bearer plaintext or an admin
//! credential.
use crate::crypto::{hex_string, hex_text, sha256, sha256_digest};
use crate::text::joined;
use crate::{Generation, SessionName};
use vstd::prelude::*;

verus! {

/// The actor that ended a session. Lifecycle recovery must distinguish an
/// operator kill from child self-exit and shutdown.
#[derive(Clone, Copy, Debug, PartialEq, Eq, Structural)]
pub enum TerminationClass {
    UserKill,
    SelfExit,
    RuntimeShutdown,
}

/// The audit vocabulary. A Tier 1 survivor is an anomaly, not a successful
/// teardown; recording it is what makes best-effort containment observable.
#[derive(Clone, Copy, Debug, PartialEq, Eq, Structural)]
pub enum AuditKind {
    Attach,
    Detach,
    SessionCreate,
    SessionKill,
    SessionRenew,
    SessionRestart,
    AttachAuthFailure,
    AdminAuthFailure,
    TakeoverAnomaly,
    Tier1SurvivorDetected,
    TokenExpired,
    TokenRevoked,
}

/// A point in wall-clock time: seconds since the Unix epoch, and nanoseconds
/// within that second.
#[derive(Clone, Copy, Debug, PartialEq, Eq, Structural)]
pub struct Timestamp {
    pub seconds: i64,
    pub nanos: u32,
}

/// `chrono::Utc::now`, as seconds and nanoseconds. Nothing is promised of the
/// reading.
#[verifier::external_body]
fn utc_now() -> (now: Timestamp) {
    let now = chrono::Utc::now();
    Timestamp { seconds: now.timestamp(), nanos: now.timestamp_subsec_nanos() }
}

/// What an audit event says, apart from when it was made.
#[verifier::ext_equal]
pub struct AuditRecord {
    pub kind: AuditKind,
    pub session: Option<Seq<char>>,
    pub generation: Option<u64>,
    pub credential_fingerprint: Option<Seq<char>>,
    pub source: Option<Seq<char>>,
    pub termination: Option<TerminationClass>,
    pub detail: Option<Seq<char>>,
}

/// The content of an optional string.
pub open spec fn text_view(text: Option<String>) -> Option<Seq<char>> {
    match text {
        Some(text) => Some(text@),
        None => None,
    }
}

impl AuditRecord {
    /// A record that says nothing but its kind.
    pub open spec fn of(kind: AuditKind) -> AuditRecord {
        AuditRecord {
            kind,
            session: None,
            generation: None,
            credential_fingerprint: None,
            source: None,
            termination: None,
            detail: None,
        }
    }

    pub open spec fn with_session(self, session: Seq<char>, generation: Generation) -> AuditRecord {
        AuditRecord { session: Some(session), generation: Some(generation.0), ..self }
    }

    pub open spec fn with_fingerprint(self, fingerprint: Seq<char>) -> AuditRecord {
        AuditRecord { credential_fingerprint: Some(fingerprint), ..self }
    }

    pub open spec fn with_source(self, source: Seq<char>) -> AuditRecord {
        AuditRecord { source: Some(source), ..self }
    }

    pub open spec fn with_termination(self, termination: TerminationClass) -> AuditRecord {
        AuditRecord { termination: Some(termination), ..self }
    }

    pub open spec fn with_detail(self, detail: Seq<char>) -> AuditRecord {
        AuditRecord { detail: Some(detail), ..self }
    }
}

/// One redacted audit event. `credential_fingerprint` is derived only from a
/// verifier or token hash; callers must never put raw plaintext in `detail`.
#[derive(Clone, Debug)]
pub struct AuditEvent {
    pub at: Timestamp,
    pub kind: AuditKind,
    pub session: Option<String>,
    pub generation: Option<u64>,
    pub credential_fingerprint: Option<String>,
    pub source: Option<String>,
    pub termination: Option<TerminationClass>,
    pub detail: Option<String>,
}

impl View for AuditEvent {
    type V = AuditRecord;

    open spec fn view(&self) -> AuditRecord {
        AuditRecord {
            kind: self.kind,
            session: text_view(self.session),
            generation: self.generation,
            credential_fingerprint: text_view(self.credential_fingerprint),
            source: text_view(self.source),
            termination: self.termination,
            detail: text_view(self.detail),
        }
    }
}

impl AuditEvent {
    /// An event of this kind, stamped with the current time.
    pub fn new(kind: AuditKind) -> (event: Self)
        ensures
            event@ == AuditRecord::of(kind),
    {
        AuditEvent {
            at: utc_now(),
            kind,
            session: None,
            generation: None,
            credential_fingerprint: None,
            source: None,
            termination: None,
            detail: None,
        }
    }

    pub fn session(self, session: &SessionName, generation: Generation) -> (event: Self)
        ensures
            event@ == self@.with_session(session@, generation),
            event.at == self.at,
    {
        let mut event = self;
        event.session = Some(session.as_str().to_owned());
        event.generation = Some(generation.0);
        event
    }

    pub fn fingerprint(self, fingerprint: &str) -> (event: Self)
        ensures
            event@ == self@.with_fingerprint(fingerprint@),
            event.at == self.at,
    {
        let mut event = self;
        event.credential_fingerprint = Some(fingerprint.to_owned());
        event
    }

    pub fn source(self, source: &str) -> (event: Self)
        ensures
            event@ == self@.with_source(source@),
            event.at == self.at,
    {
        let mut event = self;
        event.source = Some(source.to_owned());
        event
    }

    pub fn termination(self, termination: TerminationClass) -> (event: Self)
        ensures
            event@ == self@.with_termination(termination),
            event.at == self.at,
    {
        let mut event = self;
        event.termination = Some(termination);
        event
    }

    /// Detail is for fixed diagnostic labels only, never request bodies, PTY
    /// bytes, credentials, or tokens.
    pub fn detail(self, detail: &str) -> (event: Self)
        ensures
            event@ == self@.with_detail(detail@),
            event.at == self.at,
    {
        let mut event = self;
        event.detail = Some(detail.to_owned());
        event
    }
}

/// The fingerprint of a stored hash.
pub open spec fn fingerprint_of(hash: Seq<u8>) -> Seq<char> {
    "h:"@ + hex_text(sha256_digest(hash).take(8))
}

/// A deliberately short stable identifier for a non-reversible stored hash.
pub fn hash_fingerprint(hash: &[u8]) -> (fingerprint: String)
    ensures
        fingerprint@ == fingerprint_of(hash@),
{
    let digest = sha256(hash);
    let mut head: Vec<u8> = Vec::new();
    let mut i: usize = 0;
    while i < 8
        invariant
            0 <= i <= 8,
            digest@ == sha256_digest(hash@),
            head@ == sha256_digest(hash@).take(i as int),
        decreases 8 - i,
    {
        head.push(digest[i]);
        i += 1;
        assert(head@ =~= sha256_digest(hash@).take(i as int));
    }
    joined("h:", hex_string(head.as_slice()).as_str())
}

/// The audit trail. Events are kept in order until the program writes them to
/// its log.
#[derive(Debug)]
pub struct AuditLogger {
    pending: Vec<AuditEvent>,
}

impl View for AuditLogger {
    type V = Seq<AuditRecord>;

    closed spec fn view(&self) -> Seq<AuditRecord> {
        Seq::new(self.pending@.len(), |i: int| self.pending@[i]@)
    }
}

impl AuditLogger {
    /// The events that wait to be written, time stamps included, oldest first.
    pub closed spec fn waiting(&self) -> Seq<AuditEvent> {
        self.pending@
    }
}

impl Default for AuditLogger {
    fn default() -> (logger: Self)
        ensures
            logger@ == Seq::<AuditRecord>::empty(),
            logger.waiting() == Seq::<AuditEvent>::empty(),
    {
        let logger = AuditLogger { pending: Vec::new() };
        assert(logger@ =~= Seq::<AuditRecord>::empty());
        logger
    }
}

impl AuditLogger {
    /// Append one event.
    pub fn record(&mut self, event: AuditEvent)
        ensures
            final(self)@ == old(self)@.push(event@),
            final(self).waiting() == old(self).waiting().push(event),
    {
        self.pending.push(event);
        assert(self@ =~= old(self)@.push(event@));
    }

    /// Hand out everything recorded since the last call, oldest first.
    pub fn drain(&mut self) -> (events: Vec<AuditEvent>)
        ensures
            final(self)@ == Seq::<AuditRecord>::empty(),
            final(self).waiting() == Seq::<AuditEvent>::empty(),
            events@ == old(self).waiting(),
            events@.len() == old(self)@.len(),
            forall|i: int| 0 <= i < events@.len() ==> (#[trigger] events@[i])@ == old(self)@[i],
    {
        let mut events: Vec<AuditEvent> = Vec::new();
        std::mem::swap(&mut events, &mut self.pending);
        assert(self@ =~= Seq::<AuditRecord>::empty());
        events
    }
}

} // verus!
