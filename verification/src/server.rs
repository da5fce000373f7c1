//! The runtime's single listening surface: attach connections plus the remote admin
//! plane, as far as they are decisions.
//!
//! Three properties are enforced here rather than documented and hoped for:
//!
//! 1. **Attach is attach-only.** Attaching verifies a bearer attach token and
//!    nothing else. It is given an [`AttachVerifier`], which has no issuance API at
//!    all, so "no minting path on the attach surface" is a property of the type.
//! 2. **The admin plane is remote-only, and authentication is its whole boundary.**
//!    There is no path on which being *inside* the container authorizes anything.
//! 3. **`Origin` is not consulted.** Possession of a valid attach token is the sole
//!    authorization.
use crate::admin_auth::{failed, failure_record, AdminAuthFailure, AdminAuthenticator, AuthModel};
use crate::audit::{text_view, AuditEvent, AuditKind, AuditLogger, AuditRecord};
use crate::bearer::{
    admin_credential, bearer_token, header_view, ws_bearer_token, MAX_ATTACH_TOKEN_BYTES,
};
use crate::clock::{in_range, SECOND};
use crate::close_code;
use crate::containment::SecretBytes;
use crate::crypto::{hex_bytes, hex_text, law_hex_bytes_spell_hex_text, sha256_digest};
use crate::killdomain::DomainModel;
use crate::limiter::{counted, FailureWindow, LimiterModel, UpgradeFailureLimiter};
use crate::manager::{
    bumped, AttachedConnection, ManagerModel, SessionCredential, SessionManager,
};
use crate::outbound::{ItemModel, OutboundItem};
use crate::session::{size_in_bounds, InputError, SessionModel, WindowSize};
use crate::token::{
    after_refusal, authorises, minted, refusal_record, AttachVerifier, StoreModel, TokenModel,
};
use crate::wire::{
    control_frame, control_of, frame_members, parse_client_control, pong_frame, pong_members,
    ClientControl, FrameReject, MAX_CONTROL_FRAME_BYTES, MAX_INPUT_FRAME_BYTES,
    MAX_MALFORMED_FRAMES,
};
use crate::{is_session_name, Error, Generation, SessionName};
use vstd::prelude::*;
use vstd::utf8::{decode_utf8, encode_utf8, valid_utf8};

verus! {

/// Admin request body cap. The admin credential travels in a header, never a body,
/// so bodies only ever carry a small JSON object.
pub const MAX_ADMIN_BODY_BYTES: usize = 4 * 1024;

/// Normal closure. A client-initiated detach is not an anomaly, so it deliberately
/// does **not** consume one of the application close codes.
pub const WS_NORMAL_CLOSURE: u16 = 1000;

/// Policy violation: malformed or oversized frames. Frame abuse is a protocol-level
/// fault, distinct from the lifecycle codes in [`crate::close_code`], and mixing the
/// two would make lifecycle reporting lie.
pub const WS_POLICY_VIOLATION: u16 = 1008;

/// Counters for the prevention paths. Audit is detection; these are the prevention
/// side, and they are separate from session metrics on purpose. They go round
/// through zero.
#[derive(Clone, Copy, Debug, PartialEq, Eq, Structural)]
pub struct AbuseMetrics {
    pub malformed_frames: u64,
    pub oversize_frames: u64,
    pub upgrade_failures: u64,
    pub upgrade_bans: u64,
    pub input_backpressure_disconnects: u64,
    pub admin_auth_failures: u64,
}

impl Default for AbuseMetrics {
    fn default() -> (metrics: Self)
        ensures
            metrics == (AbuseMetrics {
                malformed_frames: 0,
                oversize_frames: 0,
                upgrade_failures: 0,
                upgrade_bans: 0,
                input_backpressure_disconnects: 0,
                admin_auth_failures: 0,
            }),
    {
        AbuseMetrics {
            malformed_frames: 0,
            oversize_frames: 0,
            upgrade_failures: 0,
            upgrade_bans: 0,
            input_backpressure_disconnects: 0,
            admin_auth_failures: 0,
        }
    }
}

fn bump(count: u64) -> (next: u64)
    ensures
        next == bumped(count),
{
    count.wrapping_add(1)
}

/// Listener-shaped settings. Spans are nanoseconds.
#[derive(Clone, Debug)]
pub struct ServerConfig {
    pub listen: String,
    pub tls_terminated_upstream: bool,
    /// Grace between the shutdown notice and teardown.
    pub drain_grace: u128,
    /// TTL maintenance interval.
    pub tick_interval: u128,
}

impl Default for ServerConfig {
    fn default() -> (config: Self)
        ensures
            config.listen@ == "127.0.0.1:8090"@,
            config.tls_terminated_upstream,
            config.drain_grace == 3 * SECOND,
            config.tick_interval == 1 * SECOND,
    {
        ServerConfig {
            listen: "127.0.0.1:8090".to_owned(),
            tls_terminated_upstream: true,
            drain_grace: 3 * SECOND,
            tick_interval: 1 * SECOND,
        }
    }
}

/// Everything the routes need.
///
/// Note what is **absent**: no token store. The attach surface holds only an
/// [`AttachVerifier`], which cannot mint; the admin routes reach minting through the
/// [`SessionManager`], which is gated by the admin credential.
pub struct AppState {
    pub manager: SessionManager,
    pub verifier: AttachVerifier,
    pub admin: AdminAuthenticator,
    pub audit: AuditLogger,
    pub config: ServerConfig,
    pub abuse: AbuseMetrics,
    pub upgrades: UpgradeFailureLimiter,
    /// Set once shutdown begins: new attaches and creates are refused so the drain
    /// cannot be extended indefinitely by fresh work.
    pub draining: bool,
}

/// What an [`AppState`] holds.
#[verifier::ext_equal]
pub struct ServerModel {
    pub manager: ManagerModel,
    pub verifier: Seq<AuditRecord>,
    pub admin: AuthModel,
    pub audit: Seq<AuditRecord>,
    pub config: ServerConfig,
    pub abuse: AbuseMetrics,
    pub upgrades: LimiterModel,
    pub draining: bool,
}

impl View for AppState {
    type V = ServerModel;

    open spec fn view(&self) -> ServerModel {
        ServerModel {
            manager: self.manager@,
            verifier: self.verifier@,
            admin: self.admin@,
            audit: self.audit@,
            config: self.config,
            abuse: self.abuse,
            upgrades: self.upgrades@,
            draining: self.draining,
        }
    }
}

impl AppState {
    /// What holds of the state at all times.
    pub open spec fn wf(self) -> bool {
        self.manager@.wf() && self.admin.wf()
    }

    pub fn new(
        manager: SessionManager,
        verifier: AttachVerifier,
        admin: AdminAuthenticator,
        audit: AuditLogger,
        config: ServerConfig,
    ) -> (state: Self)
        ensures
            state.manager@ == manager@,
            state.verifier@ == verifier@,
            state.admin == admin,
            state.audit@ == audit@,
            state.config == config,
            state.abuse == (AbuseMetrics {
                malformed_frames: 0,
                oversize_frames: 0,
                upgrade_failures: 0,
                upgrade_bans: 0,
                input_backpressure_disconnects: 0,
                admin_auth_failures: 0,
            }),
            state.upgrades@.sources == Map::<Seq<char>, FailureWindow>::empty(),
            state.upgrades@.limit == 5,
            state.upgrades@.window == 60_000_000_000,
            state.upgrades@.ban == 60_000_000_000,
            !state.draining,
    {
        AppState {
            manager,
            verifier,
            admin,
            audit,
            config,
            abuse: AbuseMetrics::default(),
            upgrades: UpgradeFailureLimiter::default(),
            draining: false,
        }
    }

    pub fn is_draining(&self) -> (draining: bool)
        ensures
            draining == self.draining,
    {
        self.draining
    }

    /// Shutdown begins.
    pub fn begin_drain(&mut self)
        ensures
            final(self)@ == (ServerModel { draining: true, ..old(self)@ }),
            old(self).wf() ==> final(self).wf(),
    {
        self.draining = true;
    }
}

/// What an attach asks for, besides the session.
#[derive(Clone, Copy, Debug)]
pub struct AttachQuery {
    /// Monotonic byte cursor for incremental reconnect.
    pub since: Option<u64>,
    pub rows: Option<u16>,
    pub cols: Option<u16>,
}

impl Default for AttachQuery {
    fn default() -> (query: Self)
        ensures
            query.since is None,
            query.rows is None,
            query.cols is None,
    {
        AttachQuery { since: None, rows: None, cols: None }
    }
}

/// A request to attach. Header values are there where they are readable text.
#[derive(Debug)]
pub struct AttachRequest {
    pub session: String,
    pub query: AttachQuery,
    pub authorization: Option<String>,
    /// The `Sec-WebSocket-Protocol` offer.
    pub offer: Option<String>,
    /// The peer's address, without its port.
    pub source: String,
    /// The peer's address with its port, for the audit trail.
    pub peer: String,
}

/// How a request to attach is answered.
#[derive(Debug)]
pub enum AttachAnswer {
    /// Too many failures: come back after so many seconds.
    Banned { retry_after_secs: u64 },
    /// The runtime is draining for shutdown.
    Draining,
    /// Everything that fails to authenticate is answered alike: a caller must not be
    /// able to enumerate session names.
    Unauthorized,
    /// Rows or columns out of range.
    BadSize,
    /// Upgrade, then attach.
    Upgrade { name: SessionName, generation: Generation, size: WindowSize, since: Option<u64> },
}

/// The token bytes a request presents, where it presents any that are worth a look.
pub open spec fn presented_token(request: AttachRequest) -> Option<Seq<u8>> {
    match bearer_token(text_view(request.authorization), text_view(request.offer)) {
        Some(token) => if 0 < encode_utf8(token).len() <= MAX_ATTACH_TOKEN_BYTES {
            Some(encode_utf8(token))
        } else {
            None
        },
        None => None,
    }
}

/// Whether a request comes as far as having its token looked at: it has one, and
/// names a session that is there.
pub open spec fn is_examined(server: ServerModel, request: AttachRequest) -> bool {
    &&& presented_token(request) is Some
    &&& is_session_name(request.session@)
    &&& server.manager.sessions.contains_key(request.session@)
}

/// Whether a request to attach authenticates.
pub open spec fn authenticates(server: ServerModel, request: AttachRequest, now: u128) -> bool {
    &&& is_examined(server, request)
    &&& authorises(
        server.manager.tokens,
        request.session@,
        server.manager.sessions[request.session@].generation,
        sha256_digest(presented_token(request)->0),
        now as nat,
    )
}

/// The limiter after a source knocked.
pub open spec fn knocked(limiter: LimiterModel, source: Seq<char>, now: u128) -> LimiterModel {
    if limiter.sources.contains_key(source) {
        LimiterModel {
            sources: limiter.sources.insert(source, limiter.sources[source].seen(now)),
            ..limiter
        }
    } else {
        limiter
    }
}

/// Whether a source is banned.
pub open spec fn is_banned(limiter: LimiterModel, source: Seq<char>, now: u128) -> bool {
    limiter.sources.contains_key(source) && limiter.sources[source].banned(now)
}

/// Whole seconds to wait, at least one.
pub open spec fn wait_secs(wait: int) -> u64 {
    if wait / SECOND as int >= 1 {
        (wait / SECOND as int) as u64
    } else {
        1
    }
}

/// A number that was asked for, or its default.
pub open spec fn or_default(asked: Option<u16>, default: u16) -> u16 {
    match asked {
        Some(n) => n,
        None => default,
    }
}

/// Whether a refused request took `before` to `after`: the failure is counted
/// against its source, and an expired token that was looked at is dropped.
pub open spec fn refused(
    before: ServerModel,
    after: ServerModel,
    request: AttachRequest,
    now: u128,
) -> bool {
    let examined = is_examined(before, request);
    let generation = before.manager.sessions[request.session@].generation;
    &&& exists|tipped: bool| #[trigger]
        counted(
            knocked(before.upgrades, request.source@, now),
            after.upgrades.sources,
            request.source@,
            now,
            tipped,
        ) && after.abuse == (AbuseMetrics {
            upgrade_failures: bumped(before.abuse.upgrade_failures),
            upgrade_bans: if tipped {
                bumped(before.abuse.upgrade_bans)
            } else {
                before.abuse.upgrade_bans
            },
            ..before.abuse
        })
    &&& after == (ServerModel {
        manager: if examined {
            ManagerModel {
                tokens: after_refusal(before.manager.tokens, request.session@, now as nat),
                ..before.manager
            }
        } else {
            before.manager
        },
        verifier: if examined {
            before.verifier.push(refusal_record(request.session@, generation, request.peer@))
        } else {
            before.verifier
        },
        abuse: after.abuse,
        upgrades: LimiterModel { sources: after.upgrades.sources, ..before.upgrades },
        ..before
    })
}

impl AppState {
    /// Decide on a request to attach.
    pub fn attach(&mut self, request: &AttachRequest, now: u128) -> (answer: AttachAnswer)
        requires
            old(self).wf(),
            in_range(now),
        ensures
            final(self).wf(),
            kind_of(answer) == answer_kind(old(self)@, *request, now),
            if is_banned(old(self)@.upgrades, request.source@, now) {
                let until = old(self)@.upgrades.sources[request.source@].banned_until->0;
                &&& answer matches AttachAnswer::Banned { retry_after_secs } && retry_after_secs
                    == wait_secs(until - now)
                &&& final(self)@ == (ServerModel {
                    upgrades: knocked(old(self)@.upgrades, request.source@, now),
                    abuse: AbuseMetrics {
                        upgrade_bans: bumped(old(self)@.abuse.upgrade_bans),
                        ..old(self)@.abuse
                    },
                    ..old(self)@
                })
            } else if old(self)@.draining {
                &&& answer is Draining
                &&& final(self)@ == (ServerModel {
                    upgrades: knocked(old(self)@.upgrades, request.source@, now),
                    ..old(self)@
                })
            } else if authenticates(old(self)@, *request, now) {
                let rows = or_default(request.query.rows, 24);
                let cols = or_default(request.query.cols, 80);
                &&& final(self)@.upgrades == (LimiterModel {
                    sources: old(self)@.upgrades.sources.remove(request.source@),
                    ..old(self)@.upgrades
                })
                &&& final(self)@ == (ServerModel {
                    upgrades: final(self)@.upgrades,
                    ..old(self)@
                })
                &&& if size_in_bounds(rows as int, cols as int) {
                    &&& answer matches AttachAnswer::Upgrade { name, generation, size, since }
                    &&& name@ == request.session@
                    &&& generation == old(self)@.manager.sessions[request.session@].generation
                    &&& size == (WindowSize { rows, cols })
                    &&& since == request.query.since
                } else {
                    answer is BadSize
                }
            } else {
                &&& answer is Unauthorized
                &&& refused(old(self)@, final(self)@, *request, now)
            },
    {
        let ghost before = self@;
        let source = request.source.as_str();
        if let Err(wait) = self.upgrades.check(source, now) {
            self.abuse.upgrade_bans = bump(self.abuse.upgrade_bans);
            let secs: u128 = wait / SECOND;
            let retry_after_secs: u64 = if secs >= 1 {
                secs as u64
            } else {
                1
            };
            return AttachAnswer::Banned { retry_after_secs };
        }
        if self.draining {
            return AttachAnswer::Draining;
        }
        // Everything below fails alike on purpose: an unauthenticated caller must not
        // be able to enumerate session names.
        let token = match self.readable_token(request) {
            Some(token) => token,
            None => {
                self.refuse(request, Ghost(before), now);
                return AttachAnswer::Unauthorized;
            },
        };
        let name = match SessionName::parse(request.session.as_str()) {
            Ok(name) => name,
            Err(_) => {
                self.refuse(request, Ghost(before), now);
                return AttachAnswer::Unauthorized;
            },
        };
        // The generation is read from the live session and checked again when it is
        // attached. A token minted for a superseded generation cannot pass: renew and
        // kill delete the stored hash before exposing the new generation.
        let generation = match self.manager.get(&name) {
            Some(session) => session.generation(),
            None => {
                self.refuse(request, Ghost(before), now);
                return AttachAnswer::Unauthorized;
            },
        };
        let mut presented = token;
        let allowed = self.manager.verify_attach(
            &mut self.verifier,
            &name,
            generation,
            &mut presented,
            Some(request.peer.as_str()),
            now,
        );
        if !allowed {
            self.refuse(request, Ghost(before), now);
            return AttachAnswer::Unauthorized;
        }
        self.upgrades.on_success(source);
        assert(self@.upgrades.sources =~= before.upgrades.sources.remove(request.source@));
        let rows: u16 = match request.query.rows {
            Some(rows) => rows,
            None => 24,
        };
        let cols: u16 = match request.query.cols {
            Some(cols) => cols,
            None => 80,
        };
        match WindowSize::validated(rows, cols) {
            Ok(size) => AttachAnswer::Upgrade { name, generation, size, since: request.query.since },
            Err(_) => AttachAnswer::BadSize,
        }
    }

    /// The token a request presents, if it is worth a look.
    fn readable_token(&self, request: &AttachRequest) -> (token: Option<SecretBytes>)
        ensures
            match token {
                Some(token) => presented_token(*request) == Some(token@),
                None => presented_token(*request) is None,
            },
    {
        let authorization = match &request.authorization {
            Some(value) => Some(value.as_str()),
            None => None,
        };
        let offer = match &request.offer {
            Some(value) => Some(value.as_str()),
            None => None,
        };
        match ws_bearer_token(authorization, offer) {
            None => None,
            Some(token) => {
                let bytes = token.as_str().as_bytes();
                if bytes.len() == 0 || bytes.len() > MAX_ATTACH_TOKEN_BYTES {
                    return None;
                }
                Some(SecretBytes::from_slice(bytes))
            },
        }
    }

    /// Count a refused attach against its source.
    fn refuse(&mut self, request: &AttachRequest, Ghost(before): Ghost<ServerModel>, now: u128)
        requires
            old(self).wf(),
            in_range(now),
            old(self)@.upgrades == knocked(before.upgrades, request.source@, now),
            old(self)@ == (ServerModel {
                manager: old(self)@.manager,
                verifier: old(self)@.verifier,
                upgrades: old(self)@.upgrades,
                ..before
            }),
            old(self)@.manager == if is_examined(before, *request) {
                ManagerModel {
                    tokens: after_refusal(
                        before.manager.tokens,
                        request.session@,
                        now as nat,
                    ),
                    ..before.manager
                }
            } else {
                before.manager
            },
            old(self)@.verifier == if is_examined(before, *request) {
                before.verifier.push(
                    refusal_record(
                        request.session@,
                        before.manager.sessions[request.session@].generation,
                        request.peer@,
                    ),
                )
            } else {
                before.verifier
            },
        ensures
            final(self).wf(),
            refused(before, final(self)@, *request, now),
    {
        self.abuse.upgrade_failures = bump(self.abuse.upgrade_failures);
        let tipped: bool = self.upgrades.record_failure(request.source.as_str(), now);
        if tipped {
            self.abuse.upgrade_bans = bump(self.abuse.upgrade_bans);
        }
        assert(counted(
            knocked(before.upgrades, request.source@, now),
            self@.upgrades.sources,
            request.source@,
            now,
            tipped,
        ));
        assert(self@ =~= (ServerModel {
            manager: self@.manager,
            verifier: self@.verifier,
            abuse: self@.abuse,
            upgrades: LimiterModel { sources: self@.upgrades.sources, ..before.upgrades },
            ..before
        }));
    }
}

/// The ways in which a request to attach is answered.
pub enum AnswerKind {
    Banned,
    Draining,
    Unauthorized,
    BadSize,
    Upgrade,
}

/// The kind of an answer.
pub open spec fn kind_of(answer: AttachAnswer) -> AnswerKind {
    match answer {
        AttachAnswer::Banned { .. } => AnswerKind::Banned,
        AttachAnswer::Draining => AnswerKind::Draining,
        AttachAnswer::Unauthorized => AnswerKind::Unauthorized,
        AttachAnswer::BadSize => AnswerKind::BadSize,
        AttachAnswer::Upgrade { .. } => AnswerKind::Upgrade,
    }
}

/// The way in which a request to attach is answered.
pub open spec fn answer_kind(server: ServerModel, request: AttachRequest, now: u128) -> AnswerKind {
    if is_banned(server.upgrades, request.source@, now) {
        AnswerKind::Banned
    } else if server.draining {
        AnswerKind::Draining
    } else if !authenticates(server, request, now) {
        AnswerKind::Unauthorized
    } else if size_in_bounds(
        or_default(request.query.rows, 24) as int,
        or_default(request.query.cols, 80) as int,
    ) {
        AnswerKind::Upgrade
    } else {
        AnswerKind::BadSize
    }
}

/// Names cannot be enumerated: two requests of one source that do not authenticate
/// are answered in the same way, whether their sessions exist or not.
pub proof fn law_refusals_are_alike(
    server: ServerModel,
    request: AttachRequest,
    other: AttachRequest,
    now: u128,
)
    requires
        request.source@ == other.source@,
        !authenticates(server, request, now),
        !authenticates(server, other, now),
    ensures
        answer_kind(server, request, now) == answer_kind(server, other, now),
{
}

/// Whoever is let in holds a token of a live session, under its current generation.
pub proof fn law_only_token_holders_are_let_in(
    server: ServerModel,
    request: AttachRequest,
    now: u128,
)
    requires
        server.manager.wf(),
        answer_kind(server, request, now) is Upgrade,
    ensures
        server.manager.sessions.contains_key(request.session@),
        server.manager.sessions[request.session@].alive,
        server.manager.tokens.contains_key(request.session@),
        presented_token(request) matches Some(token) && server.manager.tokens[request.session@].hash
            == sha256_digest(token),
        !server.draining,
{
    assert(server.manager.token_fits(request.session@));
}

/// The attach surface mints nothing: whatever is refused there, every token that is
/// stored afterwards was stored before, and no session is touched.
pub proof fn law_attach_surface_mints_nothing(
    before: ServerModel,
    after: ServerModel,
    request: AttachRequest,
    now: u128,
    name: Seq<char>,
)
    requires
        refused(before, after, request, now),
    ensures
        after.manager.tokens.contains_key(name) ==> before.manager.tokens.contains_key(name)
            && after.manager.tokens[name] == before.manager.tokens[name],
        after.manager.sessions == before.manager.sessions,
        after.admin == before.admin,
{
}

/// Map an attach failure onto a close code, so a client is told *why* instead of
/// seeing a bare disconnect.
pub fn attach_failure_close_code(error: &Error) -> (code: u16)
    ensures
        code == match *error {
            Error::SessionDead(_) | Error::NotFound(_) => close_code::SESSION_ENDED,
            Error::Unauthorized => close_code::RENEWED,
            Error::CapacityExceeded { .. } => close_code::CAPACITY,
            Error::Io(_)
            | Error::Config(_)
            | Error::Other(_)
            | Error::InvalidSessionName(_)
            | Error::AlreadyExists(_) => close_code::INTERNAL_ERROR,
        },
{
    match error {
        // The session died between the decision to upgrade and the attach.
        Error::SessionDead(_) | Error::NotFound(_) => close_code::SESSION_ENDED,
        // A renew landed in the same window: the token is for a stale generation.
        Error::Unauthorized => close_code::RENEWED,
        Error::CapacityExceeded { .. } => close_code::CAPACITY,
        // An internal fault is not capacity: that would invite a create loop.
        Error::Io(_)
        | Error::Config(_)
        | Error::Other(_)
        | Error::InvalidSessionName(_)
        | Error::AlreadyExists(_) => close_code::INTERNAL_ERROR,
    }
}

/// Why the read loop ended.
#[derive(Clone, Copy, Debug, PartialEq, Eq, Structural)]
pub enum ReadExit {
    /// Client asked to detach, or closed the socket.
    Detached,
    /// The socket went away or half-open, or the connection lost its session.
    SocketGone,
    /// The client outran the input watermark toward the PTY master.
    Backpressure,
    /// Malformed or oversized frames past the tolerance.
    FrameAbuse,
}

/// The close code of an exit, where nothing closed the connection before.
pub open spec fn exit_code(exit: ReadExit) -> u16 {
    match exit {
        ReadExit::Detached | ReadExit::SocketGone => WS_NORMAL_CLOSURE,
        ReadExit::Backpressure => close_code::CAPACITY,
        ReadExit::FrameAbuse => WS_POLICY_VIOLATION,
    }
}

/// The name of an exit in the audit trail.
pub open spec fn exit_label(exit: ReadExit) -> Seq<char> {
    match exit {
        ReadExit::Detached => "client_detach"@,
        ReadExit::SocketGone => "socket_closed"@,
        ReadExit::Backpressure => "input_backpressure_disconnect"@,
        ReadExit::FrameAbuse => "frame_abuse_disconnect"@,
    }
}

impl ReadExit {
    pub fn close_code(self) -> (code: u16)
        ensures
            code == exit_code(self),
    {
        match self {
            ReadExit::Detached | ReadExit::SocketGone => WS_NORMAL_CLOSURE,
            // Input flooding is an admission bound, which is exactly what the code
            // names. The slow-client code is reserved for the *outbound* watermark and
            // would misreport the direction.
            ReadExit::Backpressure => close_code::CAPACITY,
            ReadExit::FrameAbuse => WS_POLICY_VIOLATION,
        }
    }

    pub fn label(self) -> (label: &'static str)
        ensures
            label@ == exit_label(self),
    {
        match self {
            ReadExit::Detached => "client_detach",
            ReadExit::SocketGone => "socket_closed",
            ReadExit::Backpressure => "input_backpressure_disconnect",
            ReadExit::FrameAbuse => "frame_abuse_disconnect",
        }
    }
}

/// What a client is told with a close code.
pub open spec fn reason_text(code: u16) -> Seq<char> {
    if code == close_code::TTL_EXPIRED {
        "session expired"@
    } else if code == close_code::ADMIN_KILL {
        "session killed by an operator"@
    } else if code == close_code::INTERNAL_ERROR {
        "runtime error: not retryable by re-creating"@
    } else if code == close_code::TAKEOVER {
        "another connection took over"@
    } else if code == close_code::RENEWED {
        "attach token renewed"@
    } else if code == close_code::SESSION_ENDED {
        "session ended"@
    } else if code == close_code::SLOW_CLIENT {
        "client could not keep up"@
    } else if code == close_code::RUNTIME_REPLACED {
        "runtime replaced; ephemeral workspace was reset"@
    } else if code == close_code::CAPACITY {
        "capacity or admission bound reached"@
    } else if code == WS_POLICY_VIOLATION {
        "protocol violation"@
    } else {
        "closed"@
    }
}

/// What a client is told with a close code.
pub fn close_reason(code: u16) -> (reason: &'static str)
    ensures
        reason@ == reason_text(code),
{
    if code == close_code::TTL_EXPIRED {
        "session expired"
    } else if code == close_code::ADMIN_KILL {
        "session killed by an operator"
    } else if code == close_code::INTERNAL_ERROR {
        "runtime error: not retryable by re-creating"
    } else if code == close_code::TAKEOVER {
        "another connection took over"
    } else if code == close_code::RENEWED {
        "attach token renewed"
    } else if code == close_code::SESSION_ENDED {
        "session ended"
    } else if code == close_code::SLOW_CLIENT {
        "client could not keep up"
    } else if code == close_code::RUNTIME_REPLACED {
        // Named separately from every other code so a client can say "your task was
        // replaced, the workspace was reset" instead of a generic network error.
        "runtime replaced; ephemeral workspace was reset"
    } else if code == close_code::CAPACITY {
        "capacity or admission bound reached"
    } else if code == WS_POLICY_VIOLATION {
        "protocol violation"
    } else {
        "closed"
    }
}

/// One frame for the socket of a client.
#[derive(Debug)]
pub enum WireFrame {
    Binary(Vec<u8>),
    Text(String),
    Close { code: u16, reason: &'static str },
}

/// Turn an outbound item into a frame. The attach notice carries the stream offset
/// that live delivery starts at, so a client can maintain its own cursor across a
/// gap it did not choose.
pub fn wire_frame(item: OutboundItem, stream_offset: u64) -> (frame: WireFrame)
    ensures
        match item@ {
            ItemModel::Bytes(bytes) => frame matches WireFrame::Binary(sent) && sent@ == bytes,
            ItemModel::Control(event) => {
                let offset = if event is AttachNotice {
                    Some(stream_offset)
                } else {
                    None
                };
                frame matches WireFrame::Text(text) && text@ == crate::json::json_text(
                    frame_members(event, offset),
                )
            },
            ItemModel::Close(code) => frame matches WireFrame::Close { code: sent, reason } && sent
                == code && reason@ == reason_text(code),
        },
{
    match item {
        OutboundItem::Bytes(bytes) => WireFrame::Binary(bytes),
        OutboundItem::Control(event) => {
            let offset: Option<u64> = match event {
                crate::outbound::ControlEvent::AttachNotice { .. } => Some(stream_offset),
                _ => None,
            };
            WireFrame::Text(control_frame(&event, offset))
        },
        OutboundItem::Close(code) => WireFrame::Close { code, reason: close_reason(code) },
    }
}

/// What the read side of a connection sees.
#[derive(Debug)]
pub enum ClientEvent {
    Binary(Vec<u8>),
    Text(String),
    /// The answer to a protocol-level ping.
    Pong,
    /// A protocol-level ping of the client, which the transport answers itself.
    Ping,
    /// The client closed the socket.
    Close,
    /// The socket ended or failed.
    Gone,
    /// It is time for the next ping.
    PingDue,
}

/// What the read side of a connection does next.
#[derive(Debug)]
pub enum ReadStep {
    /// Read on.
    Continue,
    /// Pass this size on to the terminal, then read on.
    Resize(WindowSize),
    /// Send this text frame, then read on.
    SendText(String),
    /// Send a protocol-level ping, then read on.
    SendPing,
    /// Stop reading.
    Exit(ReadExit),
}

/// The read side of one connection.
#[derive(Clone, Copy, Debug, PartialEq, Eq, Structural)]
pub struct ReadLoop {
    pub malformed: u32,
    pub awaiting_pong: bool,
}

/// The kind of a step, and what it carries.
#[verifier::ext_equal]
pub enum StepModel {
    Continue,
    Resize(WindowSize),
    SendText(Seq<char>),
    SendPing,
    Exit(ReadExit),
}

impl View for ReadStep {
    type V = StepModel;

    open spec fn view(&self) -> StepModel {
        match *self {
            ReadStep::Continue => StepModel::Continue,
            ReadStep::Resize(size) => StepModel::Resize(size),
            ReadStep::SendText(text) => StepModel::SendText(text@),
            ReadStep::SendPing => StepModel::SendPing,
            ReadStep::Exit(exit) => StepModel::Exit(exit),
        }
    }
}

/// Whether a connection owns its session.
pub open spec fn is_owner(manager: ManagerModel, connection: AttachedConnection) -> bool {
    &&& manager.holds(connection.session@, connection.session_id)
    &&& manager.sessions[connection.session@].owned_by(connection.conn)
}

/// The manager after a connection showed that it lives.
pub open spec fn heard_from(
    manager: ManagerModel,
    connection: AttachedConnection,
    now: u128,
) -> ManagerModel {
    if manager.holds(connection.session@, connection.session_id) {
        let session = manager.sessions[connection.session@];
        if session.owned_by(connection.conn) {
            manager.with_session(
                SessionModel { missed_pings: 0, ..session }.touched(manager.epoch, now),
            )
        } else {
            manager.with_session(session.touched(manager.epoch, now))
        }
    } else {
        manager
    }
}

/// What client input is answered.
pub open spec fn input_answer(
    manager: ManagerModel,
    connection: AttachedConnection,
    bytes: Seq<u8>,
) -> Result<(), InputError> {
    if manager.holds(connection.session@, connection.session_id) {
        manager.sessions[connection.session@].input_answer(connection.conn, bytes)
    } else {
        Err(InputError::Evicted)
    }
}

/// The manager after client input.
pub open spec fn after_input(
    manager: ManagerModel,
    connection: AttachedConnection,
    bytes: Seq<u8>,
    now: u128,
) -> ManagerModel {
    if manager.holds(connection.session@, connection.session_id) {
        manager.with_session(
            manager.sessions[connection.session@].after_input(
                connection.conn,
                bytes,
                manager.epoch,
                now,
            ),
        )
    } else {
        manager
    }
}

/// What a control frame leads to.
pub open spec fn control_step(
    reader: ReadLoop,
    manager: ManagerModel,
    connection: AttachedConnection,
    control: Result<ClientControl, FrameReject>,
) -> StepModel {
    match control {
        Ok(ClientControl::Resize(size)) => if is_owner(manager, connection) {
            StepModel::Resize(size)
        } else {
            StepModel::Exit(ReadExit::SocketGone)
        },
        Ok(ClientControl::Ping) => StepModel::SendText(crate::json::json_text(pong_members())),
        Ok(ClientControl::Detach) => StepModel::Exit(ReadExit::Detached),
        Err(_) => if reader.malformed + 1 >= MAX_MALFORMED_FRAMES {
            StepModel::Exit(ReadExit::FrameAbuse)
        } else {
            StepModel::Continue
        },
    }
}

/// Whether a frame is larger than a client may send.
pub open spec fn is_oversize(event: ClientEvent) -> bool {
    match event {
        ClientEvent::Binary(bytes) => bytes@.len() > MAX_INPUT_FRAME_BYTES,
        ClientEvent::Text(text) => encode_utf8(text@).len() > MAX_CONTROL_FRAME_BYTES,
        _ => false,
    }
}

/// The server after a control frame.
pub open spec fn after_control(
    server: ServerModel,
    connection: AttachedConnection,
    control: Result<ClientControl, FrameReject>,
    now: u128,
) -> ServerModel {
    match control {
        Ok(ClientControl::Resize(size)) => if is_owner(server.manager, connection) {
            ServerModel {
                manager: server.manager.with_session(
                    SessionModel { size, ..server.manager.sessions[connection.session@] },
                ),
                ..server
            }
        } else {
            server
        },
        Ok(ClientControl::Ping) => ServerModel {
            manager: heard_from(server.manager, connection, now),
            ..server
        },
        Ok(ClientControl::Detach) => server,
        Err(_) => ServerModel {
            abuse: AbuseMetrics {
                malformed_frames: bumped(server.abuse.malformed_frames),
                ..server.abuse
            },
            ..server
        },
    }
}

impl ReadLoop {
    pub fn new() -> (reader: Self)
        ensures
            reader == (ReadLoop { malformed: 0, awaiting_pong: false }),
    {
        ReadLoop { malformed: 0, awaiting_pong: false }
    }

    /// Whether the loop still runs: abuse past the tolerance has ended it.
    pub open spec fn runs(self) -> bool {
        self.malformed < MAX_MALFORMED_FRAMES
    }

    /// React to a parsed control frame.
    pub fn on_control(
        &mut self,
        state: &mut AppState,
        connection: &AttachedConnection,
        control: Result<ClientControl, FrameReject>,
        now: u128,
    ) -> (step: ReadStep)
        requires
            old(self).runs(),
            old(state).wf(),
        ensures
            final(state).wf(),
            step@ == control_step(*old(self), old(state)@.manager, *connection, control),
            final(state)@ == after_control(old(state)@, *connection, control, now),
            *final(self) == (ReadLoop {
                malformed: if control is Err {
                    (old(self).malformed + 1) as u32
                } else {
                    old(self).malformed
                },
                ..*old(self)
            }),
    {
        match control {
            Ok(ClientControl::Resize(size)) => {
                match state.manager.resize(connection, size) {
                    Ok(()) => ReadStep::Resize(size),
                    Err(_) => ReadStep::Exit(ReadExit::SocketGone),
                }
            },
            Ok(ClientControl::Ping) => {
                state.manager.on_pong(connection, now);
                ReadStep::SendText(pong_frame())
            },
            Ok(ClientControl::Detach) => ReadStep::Exit(ReadExit::Detached),
            Err(_) => {
                state.abuse.malformed_frames = bump(state.abuse.malformed_frames);
                self.malformed = self.malformed + 1;
                if self.malformed >= MAX_MALFORMED_FRAMES {
                    ReadStep::Exit(ReadExit::FrameAbuse)
                } else {
                    ReadStep::Continue
                }
            },
        }
    }

    /// React to what the read side saw.
    pub fn on_event(
        &mut self,
        state: &mut AppState,
        connection: &AttachedConnection,
        event: ClientEvent,
        now: u128,
    ) -> (step: ReadStep)
        requires
            old(self).runs(),
            old(state).wf(),
        ensures
            final(state).wf(),
            match event {
                ClientEvent::Binary(bytes) => {
                    let answer = input_answer(old(state)@.manager, *connection, bytes@);
                    &&& *final(self) == *old(self)
                    &&& if is_oversize(event) {
                        &&& step@ == StepModel::Exit(ReadExit::FrameAbuse)
                        &&& final(state)@ == (ServerModel {
                            abuse: AbuseMetrics {
                                oversize_frames: bumped(old(state)@.abuse.oversize_frames),
                                ..old(state)@.abuse
                            },
                            ..old(state)@
                        })
                    } else {
                        &&& step@ == match answer {
                            Ok(()) => StepModel::Continue,
                            Err(InputError::Backpressure) => StepModel::Exit(
                                ReadExit::Backpressure,
                            ),
                            Err(InputError::Evicted) => StepModel::Exit(ReadExit::SocketGone),
                        }
                        &&& final(state)@ == (ServerModel {
                            manager: after_input(
                                old(state)@.manager,
                                *connection,
                                bytes@,
                                now,
                            ),
                            abuse: if answer == Err::<(), _>(InputError::Backpressure) {
                                AbuseMetrics {
                                    input_backpressure_disconnects: bumped(
                                        old(state)@.abuse.input_backpressure_disconnects,
                                    ),
                                    ..old(state)@.abuse
                                }
                            } else {
                                old(state)@.abuse
                            },
                            ..old(state)@
                        })
                    }
                },
                ClientEvent::Text(text) => if is_oversize(event) {
                    &&& step@ == StepModel::Exit(ReadExit::FrameAbuse)
                    &&& *final(self) == *old(self)
                    &&& final(state)@ == (ServerModel {
                        abuse: AbuseMetrics {
                            oversize_frames: bumped(old(state)@.abuse.oversize_frames),
                            ..old(state)@.abuse
                        },
                        ..old(state)@
                    })
                } else {
                    let control = control_of(crate::json::json_document(text@));
                    &&& step@ == control_step(
                        *old(self),
                        old(state)@.manager,
                        *connection,
                        control,
                    )
                    &&& final(state)@ == after_control(old(state)@, *connection, control, now)
                    &&& *final(self) == (ReadLoop {
                        malformed: if control is Err {
                            (old(self).malformed + 1) as u32
                        } else {
                            old(self).malformed
                        },
                        ..*old(self)
                    })
                },
                ClientEvent::Pong => {
                    &&& step@ == StepModel::Continue
                    &&& *final(self) == (ReadLoop { awaiting_pong: false, ..*old(self) })
                    &&& final(state)@ == (ServerModel {
                        manager: heard_from(old(state)@.manager, *connection, now),
                        ..old(state)@
                    })
                },
                ClientEvent::Ping => {
                    &&& step@ == StepModel::Continue
                    &&& *final(self) == *old(self)
                    &&& final(state)@ == (ServerModel {
                        manager: heard_from(old(state)@.manager, *connection, now),
                        ..old(state)@
                    })
                },
                ClientEvent::Close => {
                    &&& step@ == StepModel::Exit(ReadExit::Detached)
                    &&& *final(self) == *old(self)
                    &&& final(state)@ == old(state)@
                },
                ClientEvent::Gone => {
                    &&& step@ == StepModel::Exit(ReadExit::SocketGone)
                    &&& *final(self) == *old(self)
                    &&& final(state)@ == old(state)@
                },
                ClientEvent::PingDue => {
                    let manager = old(state)@.manager;
                    let session = manager.sessions[connection.session@];
                    let detached = !is_owner(manager, *connection) || session.missed_pings + 1
                        >= session.missed_ping_limit;
                    if !old(self).awaiting_pong {
                        &&& step@ == StepModel::SendPing
                        &&& *final(self) == (ReadLoop { awaiting_pong: true, ..*old(self) })
                        &&& final(state)@ == old(state)@
                    } else {
                        &&& step@ == if detached {
                            StepModel::Exit(ReadExit::SocketGone)
                        } else {
                            StepModel::SendPing
                        }
                        &&& *final(self) == *old(self)
                        &&& final(state)@ == (ServerModel {
                            manager: if !is_owner(manager, *connection) {
                                manager
                            } else {
                                ManagerModel {
                                    links: if detached {
                                        crate::links::closed_link(
                                            manager.links,
                                            session.link,
                                            close_code::TAKEOVER,
                                        )
                                    } else {
                                        manager.links
                                    },
                                    ..manager.with_session(session.ping_missed())
                                }
                            },
                            ..old(state)@
                        })
                    }
                },
            },
    {
        match event {
            ClientEvent::Binary(bytes) => {
                if bytes.len() > MAX_INPUT_FRAME_BYTES {
                    state.abuse.oversize_frames = bump(state.abuse.oversize_frames);
                    return ReadStep::Exit(ReadExit::FrameAbuse);
                }
                match state.manager.write_input(connection, bytes.as_slice(), now) {
                    Ok(()) => ReadStep::Continue,
                    Err(InputError::Backpressure) => {
                        state.abuse.input_backpressure_disconnects = bump(
                            state.abuse.input_backpressure_disconnects,
                        );
                        ReadStep::Exit(ReadExit::Backpressure)
                    },
                    // A takeover or teardown already chose this connection's close
                    // code.
                    Err(InputError::Evicted) => ReadStep::Exit(ReadExit::SocketGone),
                }
            },
            ClientEvent::Text(text) => {
                if text.as_str().as_bytes().len() > MAX_CONTROL_FRAME_BYTES {
                    state.abuse.oversize_frames = bump(state.abuse.oversize_frames);
                    return ReadStep::Exit(ReadExit::FrameAbuse);
                }
                let control = parse_client_control(text.as_str());
                self.on_control(state, connection, control, now)
            },
            ClientEvent::Pong => {
                self.awaiting_pong = false;
                state.manager.on_pong(connection, now);
                ReadStep::Continue
            },
            ClientEvent::Ping => {
                state.manager.on_pong(connection, now);
                ReadStep::Continue
            },
            ClientEvent::Close => ReadStep::Exit(ReadExit::Detached),
            ClientEvent::Gone => ReadStep::Exit(ReadExit::SocketGone),
            ClientEvent::PingDue => {
                if self.awaiting_pong && state.manager.on_missed_ping(connection) {
                    // The session now counts this socket as detached; it evicted the
                    // connection itself, so stop reading it.
                    return ReadStep::Exit(ReadExit::SocketGone);
                }
                self.awaiting_pong = true;
                ReadStep::SendPing
            },
        }
    }
}

/// The third malformed frame ends the connection as a protocol violation, and no
/// earlier one does.
pub proof fn law_frame_abuse_is_bounded(
    reader: ReadLoop,
    manager: ManagerModel,
    connection: AttachedConnection,
    reject: FrameReject,
)
    requires
        reader.runs(),
    ensures
        control_step(reader, manager, connection, Err(reject)) == StepModel::Exit(
            ReadExit::FrameAbuse,
        ) <==> reader.malformed == MAX_MALFORMED_FRAMES - 1,
        control_step(reader, manager, connection, Err(reject)) == StepModel::Continue
            <==> reader.malformed < MAX_MALFORMED_FRAMES - 1,
{
}

/// Protocol abuse is never reported as a lifecycle event, nor input flooding as a
/// slow client.
pub proof fn law_exits_are_told_apart(exit: ReadExit)
    ensures
        exit_code(ReadExit::FrameAbuse) == WS_POLICY_VIOLATION,
        !close_code::all_close_codes().contains(WS_POLICY_VIOLATION),
        !close_code::all_close_codes().contains(WS_NORMAL_CLOSURE),
        exit_code(exit) != close_code::SLOW_CLIENT,
{
}

impl AppState {
    /// The read side of a connection is done: detach where the client left, and close
    /// the write side. A code that the session chose before (takeover, TTL, renew,
    /// shutdown) wins over this one.
    pub fn end_connection(&mut self, connection: &AttachedConnection, exit: ReadExit)
        requires
            old(self).wf(),
        ensures
            final(self).wf(),
            ({
                let manager = old(self)@.manager;
                let left = if (exit == ReadExit::Detached || exit == ReadExit::SocketGone)
                    && is_owner(manager, *connection) {
                    manager.with_session(manager.sessions[connection.session@].detached())
                } else {
                    manager
                };
                final(self)@ == (ServerModel {
                    manager: ManagerModel {
                        links: crate::links::closed_link(
                            manager.links,
                            Some(connection.link),
                            exit_code(exit),
                        ),
                        ..left
                    },
                    ..old(self)@
                })
            }),
    {
        match exit {
            ReadExit::Detached | ReadExit::SocketGone => self.manager.detach(connection),
            ReadExit::Backpressure | ReadExit::FrameAbuse => {},
        }
        self.manager.close_connection(connection.link, exit.close_code());
    }

    /// Record that a connection is over.
    pub fn audit_detach(&mut self, connection: &AttachedConnection, peer: &str, exit: ReadExit)
        ensures
            final(self)@ == (ServerModel {
                audit: old(self)@.audit.push(
                    AuditRecord::of(AuditKind::Detach).with_session(
                        connection.session@,
                        connection.generation,
                    ).with_source(peer@).with_detail(exit_label(exit)),
                ),
                ..old(self)@
            }),
            old(self).wf() ==> final(self).wf(),
    {
        let event = AuditEvent::new(AuditKind::Detach).session(
            &connection.session,
            connection.generation,
        ).source(peer).detail(exit.label());
        self.audit.record(event);
    }
}

/// How a refused admin request is answered.
#[derive(Clone, Copy, Debug, PartialEq, Eq, Structural)]
pub struct AdminRefusal {
    pub status: u16,
    pub retry_after_secs: Option<u64>,
}

/// How a failed admin authentication is answered.
pub open spec fn admin_refusal(failure: AdminAuthFailure) -> AdminRefusal {
    match failure {
        AdminAuthFailure::Invalid => AdminRefusal { status: 401, retry_after_secs: None },
        AdminAuthFailure::TooLarge => AdminRefusal { status: 413, retry_after_secs: None },
        AdminAuthFailure::Busy => AdminRefusal { status: 503, retry_after_secs: None },
        AdminAuthFailure::Throttled { retry_after } => AdminRefusal {
            status: 429,
            retry_after_secs: Some(wait_secs(retry_after as int)),
        },
    }
}

/// How a failed admin authentication is answered.
pub fn admin_failure_response(failure: AdminAuthFailure) -> (refusal: AdminRefusal)
    ensures
        refusal == admin_refusal(failure),
{
    match failure {
        AdminAuthFailure::Invalid => AdminRefusal { status: 401, retry_after_secs: None },
        AdminAuthFailure::TooLarge => AdminRefusal { status: 413, retry_after_secs: None },
        AdminAuthFailure::Busy => AdminRefusal { status: 503, retry_after_secs: None },
        AdminAuthFailure::Throttled { retry_after } => {
            let secs: u128 = retry_after / SECOND;
            AdminRefusal {
                status: 429,
                retry_after_secs: Some(
                    if secs >= 1 {
                        secs as u64
                    } else {
                        1
                    },
                ),
            }
        },
    }
}

/// Whether an admin request was refused as it must be: the failure is counted
/// against its source, and the answer tells no more than the throttle does.
pub open spec fn admin_refused(
    before: ServerModel,
    after: ServerModel,
    source: Seq<char>,
    detail: Seq<char>,
    refusal: Option<AdminRefusal>,
    now: u128,
) -> bool {
    exists|answer: AdminAuthFailure|
        #![trigger admin_refusal(answer)]
        {
            &&& failed(
                before.admin,
                after.admin,
                source,
                detail,
                AdminAuthFailure::Invalid,
                answer,
                now,
            )
            &&& refusal == Some(admin_refusal(answer))
        }
}

impl AppState {
    /// Gate an admin request: `Some` is the refusal to answer with, `None` means the
    /// credential verified.
    ///
    /// `source` is the peer *address*, without its port: every request has a fresh
    /// ephemeral port, so keying by both would throttle nothing. A request with no
    /// usable credential goes through the *same* per-source throttle and audit path as
    /// a wrong one.
    pub fn admin_gate(&mut self, authorization: Option<&str>, source: &str, now: u128) -> (refusal:
        Option<AdminRefusal>)
        requires
            old(self).wf(),
            in_range(now),
        ensures
            final(self).wf(),
            final(self)@ == (ServerModel {
                admin: final(self)@.admin,
                abuse: if refusal is Some {
                    AbuseMetrics {
                        admin_auth_failures: bumped(old(self)@.abuse.admin_auth_failures),
                        ..old(self)@.abuse
                    }
                } else {
                    old(self)@.abuse
                },
                ..old(self)@
            }),
            match crate::bearer::admin_bytes(header_view(authorization)) {
                None => admin_refused(
                    old(self)@,
                    final(self)@,
                    source@,
                    "missing_or_malformed_authorization_header"@,
                    refusal,
                    now,
                ),
                Some(bytes) => if old(self)@.admin.in_flight >= old(self)@.admin.max_in_flight {
                    &&& refusal == Some(admin_refusal(AdminAuthFailure::Busy))
                    &&& final(self)@.admin == (AuthModel {
                        audit: old(self)@.admin.audit.push(
                            failure_record(
                                old(self)@.admin.fingerprint,
                                source@,
                                "verification_concurrency_cap"@,
                            ),
                        ),
                        ..old(self)@.admin
                    })
                } else if sha256_digest(bytes) == old(self)@.admin.verifier {
                    &&& refusal is None
                    &&& final(self)@.admin == (AuthModel {
                        failures: old(self)@.admin.failures.remove(source@),
                        ..old(self)@.admin
                    })
                } else {
                    admin_refused(
                        old(self)@,
                        final(self)@,
                        source@,
                        "invalid_credential"@,
                        refusal,
                        now,
                    )
                },
            },
    {
        let mut presented = match admin_credential(authorization) {
            Some(presented) => presented,
            None => {
                self.abuse.admin_auth_failures = bump(self.abuse.admin_auth_failures);
                let answer = self.admin.reject_unauthenticated(Some(source), now);
                return Some(admin_failure_response(answer));
            },
        };
        match self.admin.verify(&mut presented, Some(source), now) {
            Ok(()) => None,
            Err(failure) => {
                self.abuse.admin_auth_failures = bump(self.abuse.admin_auth_failures);
                Some(admin_failure_response(failure))
            },
        }
    }
}

/// An answer to an admin request that failed.
#[derive(Debug)]
pub struct AdminError {
    pub status: u16,
    pub message: String,
}

/// The status of a failed admin request.
pub open spec fn error_status(error: Error) -> u16 {
    match error {
        Error::InvalidSessionName(_) => 400,
        Error::NotFound(_) => 404,
        Error::AlreadyExists(_) => 409,
        Error::SessionDead(_) => 409,
        Error::CapacityExceeded { .. } => 503,
        Error::Unauthorized => 401,
        Error::Config(_) | Error::Io(_) | Error::Other(_) => 500,
    }
}

/// Map a failed admin request onto a status and a message. Internal faults keep
/// their detail to themselves.
pub fn error_response(error: &Error) -> (answer: AdminError)
    ensures
        answer.status == error_status(*error),
        match *error {
            Error::Config(_) | Error::Io(_) | Error::Other(_) => answer.message@
                == "internal error"@,
            _ => Some(answer.message@) == crate::error_message(*error),
        },
{
    match error {
        Error::InvalidSessionName(_) => AdminError { status: 400, message: error.to_string() },
        Error::NotFound(_) => AdminError { status: 404, message: error.to_string() },
        Error::AlreadyExists(_) => AdminError { status: 409, message: error.to_string() },
        Error::SessionDead(_) => AdminError { status: 409, message: error.to_string() },
        Error::CapacityExceeded { .. } => AdminError { status: 503, message: error.to_string() },
        Error::Unauthorized => AdminError { status: 401, message: "unauthorized".to_owned() },
        Error::Config(_) | Error::Io(_) | Error::Other(_) => AdminError {
            status: 500,
            message: "internal error".to_owned(),
        },
    }
}

/// What a create, a renew or a restart is answered.
#[derive(Debug)]
pub struct CredentialResponse {
    pub session: String,
    pub generation: u64,
    /// Returned **only** here, to the external control client. It is never written to
    /// a PTY master, which is what keeps it out of scrollback and out of every
    /// attached or replaying client.
    pub token: String,
    pub token_expires_in_secs: u64,
}

/// The text that `std` makes of bytes, with a replacement character wherever they are
/// not UTF-8.
pub uninterp spec fn lossy_text(bytes: Seq<u8>) -> Seq<char>;

/// `String::from_utf8_lossy`: the text depends on the bytes alone, and bytes that are
/// valid UTF-8 become the text they encode. What becomes of others is named, not
/// spelled out.
#[verifier::external_body]
fn utf8_text(bytes: &[u8]) -> (text: String)
    ensures
        text@ == lossy_text(bytes@),
        valid_utf8(bytes@) ==> text@ == decode_utf8(bytes@),
{
    String::from_utf8_lossy(bytes).into_owned()
}

/// Hand out a credential, once, and erase the plaintext.
pub fn credential_response(credential: SessionCredential, now: u128) -> (response:
    CredentialResponse)
    ensures
        response.session@ == credential.session@,
        response.generation == credential.generation.0,
        response.token@ == lossy_text(credential.token.plaintext@),
        valid_utf8(credential.token.plaintext@) ==> response.token@
            == decode_utf8(credential.token.plaintext@),
        response.token_expires_in_secs == (crate::session::elapsed(
            now,
            credential.token.grant.expires_at,
        ) / SECOND as int) as u64,
{
    let mut credential = credential;
    let token = utf8_text(credential.token.plaintext.as_bytes());
    let expires_at: u128 = credential.token.grant.expires_at;
    let left: u128 = if expires_at >= now {
        expires_at - now
    } else {
        0
    };
    credential.token.plaintext.zeroize();
    CredentialResponse {
        session: credential.session.to_string(),
        generation: credential.generation.0,
        token,
        token_expires_in_secs: (left / SECOND) as u64,
    }
}

/// Why a request to create a session is refused before it is tried.
#[derive(Debug)]
pub enum CreateRefusal {
    /// The runtime is draining for shutdown.
    Draining,
    Invalid(Error),
}

impl AppState {
    /// Check a request to create a session.
    pub fn admit_create(&self, name: &str, rows: Option<u16>, cols: Option<u16>) -> (result: Result<
        (SessionName, WindowSize),
        CreateRefusal,
    >)
        ensures
            ({
                let rows = or_default(rows, 24);
                let cols = or_default(cols, 80);
                if self.draining {
                    result matches Err(CreateRefusal::Draining)
                } else if !is_session_name(name@) {
                    result matches Err(CreateRefusal::Invalid(Error::InvalidSessionName(given)))
                        && given@ == name@
                } else if !size_in_bounds(rows as int, cols as int) {
                    result matches Err(CreateRefusal::Invalid(Error::Other(message))) && message@
                        == crate::session::size_complaint(rows, cols)
                } else {
                    result matches Ok((session, size)) && session@ == name@ && size
                        == (WindowSize { rows, cols })
                }
            }),
    {
        if self.draining {
            return Err(CreateRefusal::Draining);
        }
        let session = match SessionName::parse(name) {
            Ok(session) => session,
            Err(error) => return Err(CreateRefusal::Invalid(error)),
        };
        let rows: u16 = match rows {
            Some(rows) => rows,
            None => 24,
        };
        let cols: u16 = match cols {
            Some(cols) => cols,
            None => 80,
        };
        match WindowSize::validated(rows, cols) {
            Ok(size) => Ok((session, size)),
            Err(error) => Err(CreateRefusal::Invalid(error)),
        }
    }

    /// Everything recorded since the last call: the manager's events, refused
    /// attaches, refused admin requests, and detaches, each oldest first.
    pub fn drain_audit(&mut self) -> (events: Vec<AuditEvent>)
        requires
            old(self).wf(),
        ensures
            final(self).wf(),
            final(self)@ == without_records(old(self)@),
            events@.len() == recorded_events(old(self)@).len(),
            forall|i: int|
                0 <= i < events@.len() ==> (#[trigger] events@[i])@ == recorded_events(
                    old(self)@,
                )[i],
    {
        let mut events = self.manager.drain_audit();
        let mut refused = self.verifier.drain_audit();
        let mut admin = self.admin.drain_audit();
        let mut own = self.audit.drain();
        events.append(&mut refused);
        events.append(&mut admin);
        events.append(&mut own);
        events
    }
}

/// The server with nothing recorded.
pub open spec fn without_records(server: ServerModel) -> ServerModel {
    ServerModel {
        manager: ManagerModel {
            store: StoreModel { audit: Seq::empty(), ..server.manager.store },
            kill: DomainModel { audit: Seq::empty(), ..server.manager.kill },
            audit: Seq::empty(),
            ..server.manager
        },
        verifier: Seq::empty(),
        admin: AuthModel { audit: Seq::empty(), ..server.admin },
        audit: Seq::empty(),
        ..server
    }
}

/// All that is recorded and not yet written to the log.
pub open spec fn recorded_events(server: ServerModel) -> Seq<AuditRecord> {
    server.manager.store.audit + server.manager.kill.audit + server.manager.audit + server.verifier
        + server.admin.audit + server.audit
}

/// A request that does not carry the credential is refused, with 401 or, while its
/// source is throttled, with 429.
pub proof fn law_bad_credentials_are_refused(
    before: ServerModel,
    after: ServerModel,
    source: Seq<char>,
    detail: Seq<char>,
    refusal: Option<AdminRefusal>,
    now: u128,
)
    requires
        admin_refused(before, after, source, detail, refusal, now),
    ensures
        refusal matches Some(answer) && (answer.status == 401 || answer.status == 429),
{
}

/// The token that a create, renew or restart hands out lets its holder in: sent back
/// as a bearer header, it authenticates an attach to its session until it expires.
pub proof fn law_handed_out_token_lets_in(
    server: ServerModel,
    request: AttachRequest,
    key: Seq<u8>,
    generation: Generation,
    tokens: Map<Seq<char>, TokenModel>,
    expires_at: nat,
    now: u128,
)
    requires
        key.len() == 32,
        is_session_name(request.session@),
        server.manager.sessions.contains_key(request.session@),
        server.manager.sessions[request.session@].generation == generation,
        server.manager.tokens == minted(
            tokens,
            request.session@,
            generation,
            hex_bytes(key),
            expires_at,
        ),
        text_view(request.authorization) == Some("Bearer "@ + decode_utf8(hex_bytes(key))),
        now < expires_at,
    ensures
        authenticates(server, request, now),
{
    law_hex_bytes_spell_hex_text(key);
    let token = hex_text(key);
    let header = "Bearer "@ + token;
    assert("Bearer "@.is_prefix_of(header));
    assert(header.skip("Bearer "@.len() as int) =~= token);
    assert(encode_utf8(token).len() == 64);
}

/// A request to attach is answered in a fixed order of precedence: a ban first, a drain
/// next, then whether it authenticates, and last whether the terminal it asks for, or the
/// usual one of 24 rows and 80 columns, has between one and a thousand of each.
pub proof fn law_attach_is_answered_in_order(server: ServerModel, request: AttachRequest, now: u128)
    ensures
        ({
            let source = request.source@;
            let banned = server.upgrades.sources.contains_key(source)
                && server.upgrades.sources[source].banned_until is Some && now
                < server.upgrades.sources[source].banned_until->0;
            let rows: int = if request.query.rows is Some {
                request.query.rows->0 as int
            } else {
                24
            };
            let cols: int = if request.query.cols is Some {
                request.query.cols->0 as int
            } else {
                80
            };
            let fits = 1 <= rows <= 1000 && 1 <= cols <= 1000;
            let kind = answer_kind(server, request, now);
            &&& kind == AnswerKind::Banned <==> banned
            &&& kind == AnswerKind::Draining <==> !banned && server.draining
            &&& kind == AnswerKind::Unauthorized <==> !banned && !server.draining && !authenticates(
                server,
                request,
                now,
            )
            &&& kind == AnswerKind::BadSize <==> !banned && !server.draining && authenticates(
                server,
                request,
                now,
            ) && !fits
            &&& kind == AnswerKind::Upgrade <==> !banned && !server.draining && authenticates(
                server,
                request,
                now,
            ) && fits
        }),
{
}

/// Whoever presents a token, of at most 512 bytes, whose digest is kept for a session at
/// the session's present generation authenticates until the token expires; nobody else
/// does.
pub proof fn law_a_live_token_authenticates(
    server: ServerModel,
    request: AttachRequest,
    token: Seq<char>,
    now: u128,
)
    requires
        request.authorization matches Some(value) && value@ == "Bearer "@ + token,
        is_session_name(request.session@),
    ensures
        authenticates(server, request, now) <==> {
            let name = request.session@;
            let kept = server.manager.tokens[name];
            &&& 1 <= encode_utf8(token).len() <= 512
            &&& server.manager.sessions.contains_key(name)
            &&& server.manager.tokens.contains_key(name)
            &&& kept.hash == sha256_digest(encode_utf8(token))
            &&& kept.generation == server.manager.sessions[name].generation
            &&& kept.scope == crate::token::TokenScope::AttachOnly
            &&& now < kept.expires_at
        },
{
    crate::bearer::law_header_carries_its_token(token, text_view(request.offer));
}

/// A wait is told in whole seconds, rounded down, but never as none.
pub proof fn law_waits_are_told_in_seconds(wait: int)
    requires
        0 <= wait,
        wait < 1_000_000_000 * u64::MAX,
    ensures
        wait < 1_000_000_000 ==> wait_secs(wait) == 1,
        wait >= 1_000_000_000 ==> wait_secs(wait) * 1_000_000_000 <= wait < (wait_secs(wait) + 1)
            * 1_000_000_000,
{
}

/// A connection closes with the code of its exit: a normal closure where the client left, a
/// policy violation where it sent garbage, and the admission bound where it sent too much.
pub proof fn law_exits_close_with_their_code(exit: ReadExit)
    ensures
        exit_code(exit) == 1000 <==> exit is Detached || exit is SocketGone,
        exit_code(exit) == 1008 <==> exit is FrameAbuse,
        exit_code(exit) == 4007 <==> exit is Backpressure,
{
}

/// Each close code is told in words of its own.
pub proof fn law_close_codes_are_told_in_words(code: u16)
    ensures
        code == 4001 ==> reason_text(code) == "session expired"@,
        code == 4002 ==> reason_text(code) == "another connection took over"@,
        code == 4003 ==> reason_text(code) == "attach token renewed"@,
        code == 4004 ==> reason_text(code) == "session ended"@,
        code == 4005 ==> reason_text(code) == "client could not keep up"@,
        code == 4006 ==> reason_text(code) == "runtime replaced; ephemeral workspace was reset"@,
        code == 4007 ==> reason_text(code) == "capacity or admission bound reached"@,
        code == 4008 ==> reason_text(code) == "session killed by an operator"@,
        code == 4009 ==> reason_text(code) == "runtime error: not retryable by re-creating"@,
        code == 1008 ==> reason_text(code) == "protocol violation"@,
        code < 1008 || 1008 < code < 4001 || code > 4009 ==> reason_text(code) == "closed"@,
{
}

/// A sign of life is put down to the session as traffic, and clears the missed pings where
/// it came from the owner; nothing else changes, and no other session does.
pub proof fn law_sign_of_life_is_noted(
    manager: ManagerModel,
    connection: AttachedConnection,
    other: Seq<char>,
    now: u128,
)
    requires
        manager.wf(),
        manager.holds(connection.session@, connection.session_id),
        manager.epoch <= now,
        now - manager.epoch < 1_000_000 * u64::MAX,
    ensures
        ({
            let name = connection.session@;
            let before = manager.sessions[name];
            let after = heard_from(manager, connection, now).sessions[name];
            &&& after.last_activity_ms * 1_000_000 <= now - manager.epoch
            &&& now - manager.epoch < (after.last_activity_ms + 1) * 1_000_000
            &&& after.missed_pings == if before.owner.0 == connection.conn.0 && before.owner.0 != 0 {
                0
            } else {
                before.missed_pings
            }
            &&& after.owner == before.owner
            &&& after.created_at == before.created_at
            &&& after.input == before.input
            &&& after.size == before.size
        }),
        other != connection.session@ && manager.sessions.contains_key(other) ==> heard_from(
            manager,
            connection,
            now,
        ).sessions[other] == manager.sessions[other],
        heard_from(manager, connection, now).tokens == manager.tokens,
{
}

/// The third malformed frame ends a connection, whatever is wrong with it; a resize is
/// taken from the owner only.
pub proof fn law_third_malformed_frame_ends_the_connection(
    reader: ReadLoop,
    manager: ManagerModel,
    connection: AttachedConnection,
    reject: FrameReject,
    size: WindowSize,
)
    ensures
        control_step(reader, manager, connection, Err(reject)) == (if reader.malformed < 2 {
            StepModel::Continue
        } else {
            StepModel::Exit(ReadExit::FrameAbuse)
        }),
        control_step(reader, manager, connection, Ok(ClientControl::Detach)) == StepModel::Exit(
            ReadExit::Detached,
        ),
        control_step(reader, manager, connection, Ok(ClientControl::Resize(size))) == (
        if manager.holds(connection.session@, connection.session_id)
            && manager.sessions[connection.session@].owned_by(connection.conn) {
            StepModel::Resize(size)
        } else {
            StepModel::Exit(ReadExit::SocketGone)
        }),
{
}

/// A throttled operator is told to wait, and others why they were refused, by status.
pub proof fn law_admin_failures_have_their_status(failure: AdminAuthFailure)
    ensures
        admin_refusal(failure).status == 429 <==> failure is Throttled,
        admin_refusal(failure).status == 401 <==> failure is Invalid,
        admin_refusal(failure).status == 413 <==> failure is TooLarge,
        admin_refusal(failure).status == 503 <==> failure is Busy,
        admin_refusal(failure).retry_after_secs is Some <==> failure is Throttled,
{
}

/// What the caller got wrong is told apart from what the runtime cannot do, by status.
pub proof fn law_errors_have_their_status(error: Error)
    ensures
        error_status(error) == 400 <==> error is InvalidSessionName,
        error_status(error) == 401 <==> error is Unauthorized,
        error_status(error) == 404 <==> error is NotFound,
        error_status(error) == 409 <==> error is AlreadyExists || error is SessionDead,
        error_status(error) == 503 <==> error is CapacityExceeded,
        error_status(error) == 500 <==> error is Config || error is Io || error is Other,
{
}

/// A client may send sixty-four KiB of input in a frame, and four KiB of control.
pub proof fn law_frames_are_bounded(event: ClientEvent)
    ensures
        is_oversize(event) <==> {
            ||| event matches ClientEvent::Binary(bytes) && bytes@.len() > 65_536
            ||| event matches ClientEvent::Text(text) && encode_utf8(text@).len() > 4_096
        },
{
}

/// A refused attach is counted, changes no session and no connection, and costs no token but
/// one that had expired. It is on record where its token was looked at, under the session
/// and the peer it came from, and only there.
pub proof fn law_refused_attach_is_counted(
    before: ServerModel,
    after: ServerModel,
    request: AttachRequest,
    other: Seq<char>,
    now: u128,
)
    requires
        refused(before, after, request, now),
        before.abuse.upgrade_failures < u64::MAX,
        before.abuse.upgrade_bans < u64::MAX,
    ensures
        after.abuse.upgrade_failures == before.abuse.upgrade_failures + 1,
        after.abuse.upgrade_bans == before.abuse.upgrade_bans || after.abuse.upgrade_bans
            == before.abuse.upgrade_bans + 1,
        after.abuse.malformed_frames == before.abuse.malformed_frames,
        after.abuse.admin_auth_failures == before.abuse.admin_auth_failures,
        after.manager.sessions == before.manager.sessions,
        after.manager.links == before.manager.links,
        after.manager.audit == before.manager.audit,
        after.admin == before.admin,
        after.draining == before.draining,
        before.manager.tokens.contains_key(other) && (other != request.session@ || now
            < before.manager.tokens[other].expires_at) ==> after.manager.tokens.contains_key(other)
            && after.manager.tokens[other] == before.manager.tokens[other],
        after.manager.tokens.contains_key(other) ==> before.manager.tokens.contains_key(other),
        ({
            let looked_at = presented_token(request) is Some && is_session_name(request.session@)
                && before.manager.sessions.contains_key(request.session@);
            let n = before.verifier.len() as int;
            if looked_at {
                &&& after.verifier.len() == n + 1
                &&& after.verifier.take(n) == before.verifier
                &&& after.verifier[n].kind == AuditKind::AttachAuthFailure
                &&& after.verifier[n].session == Some(request.session@)
                &&& after.verifier[n].source == Some(request.peer@)
                &&& after.verifier[n].credential_fingerprint is None
            } else {
                after.verifier == before.verifier
            }
        }),
{
    let n = before.verifier.len() as int;
    if is_examined(before, request) {
        assert(after.verifier.take(n) =~= before.verifier);
    }
}

/// Whatever was recorded anywhere is handed to the log, and nothing is recorded twice:
/// what is left afterwards is the same server without its records.
pub proof fn law_no_record_is_lost(server: ServerModel, record: AuditRecord)
    ensures
        recorded_events(server).contains(record) <==> {
            ||| server.manager.store.audit.contains(record)
            ||| server.manager.kill.audit.contains(record)
            ||| server.manager.audit.contains(record)
            ||| server.verifier.contains(record)
            ||| server.admin.audit.contains(record)
            ||| server.audit.contains(record)
        },
        recorded_events(server).len() == server.manager.store.audit.len()
            + server.manager.kill.audit.len() + server.manager.audit.len() + server.verifier.len()
            + server.admin.audit.len() + server.audit.len(),
        recorded_events(without_records(server)).len() == 0,
        without_records(server).manager.sessions == server.manager.sessions,
        without_records(server).manager.tokens == server.manager.tokens,
        without_records(server).manager.store.ttl == server.manager.store.ttl,
        without_records(server).manager.kill.on_record == server.manager.kill.on_record,
        without_records(server).manager.kill.leaked == server.manager.kill.leaked,
        without_records(server).admin.failures == server.admin.failures,
        without_records(server).upgrades == server.upgrades,
        without_records(server).abuse == server.abuse,
{
    let a = server.manager.store.audit;
    let b = server.manager.kill.audit;
    let c = server.manager.audit;
    let d = server.verifier;
    let e = server.admin.audit;
    let f = server.audit;
    lemma_in_either(a, b, record);
    lemma_in_either(a + b, c, record);
    lemma_in_either(a + b + c, d, record);
    lemma_in_either(a + b + c + d, e, record);
    lemma_in_either(a + b + c + d + e, f, record);
}

proof fn lemma_in_either(a: Seq<AuditRecord>, b: Seq<AuditRecord>, record: AuditRecord)
    ensures
        (a + b).contains(record) <==> a.contains(record) || b.contains(record),
{
    if a.contains(record) {
        let i = choose|i: int| 0 <= i < a.len() && a[i] == record;
        assert((a + b)[i] == record);
    }
    if b.contains(record) {
        let i = choose|i: int| 0 <= i < b.len() && b[i] == record;
        assert((a + b)[a.len() + i] == record);
    }
    if (a + b).contains(record) {
        let i = choose|i: int| 0 <= i < (a + b).len() && (a + b)[i] == record;
        if i < a.len() {
            assert(a[i] == record);
        } else {
            assert(b[i - a.len()] == record);
        }
    }
}

/// A counter goes up by one with each event, and starts over from zero when it is full.
pub proof fn law_counters_go_up_by_one(count: u64)
    ensures
        bumped(count) as int == if count as int == 0xffff_ffff_ffff_ffff {
            0
        } else {
            count + 1
        },
{
}

/// A control frame changes what it asks for and nothing else: a malformed one is counted, a
/// resize gives its session the new size, and a detach is left to the end of the
/// connection.
pub proof fn law_control_frames_change_what_they_ask_for(
    server: ServerModel,
    connection: AttachedConnection,
    reject: FrameReject,
    size: WindowSize,
    other: Seq<char>,
    now: u128,
)
    requires
        server.manager.wf(),
        server.abuse.malformed_frames < u64::MAX,
    ensures
        ({
            let after = after_control(server, connection, Err(reject), now);
            &&& after.abuse.malformed_frames == server.abuse.malformed_frames + 1
            &&& after.abuse.oversize_frames == server.abuse.oversize_frames
            &&& after.manager == server.manager
        }),
        after_control(server, connection, Ok(ClientControl::Detach), now) == server,
        ({
            let after = after_control(server, connection, Ok(ClientControl::Resize(size)), now);
            let name = connection.session@;
            let owns = server.manager.sessions.contains_key(name)
                && server.manager.sessions[name].id == connection.session_id
                && server.manager.sessions[name].owner.0 != 0
                && server.manager.sessions[name].owner.0 == connection.conn.0;
            &&& after.abuse == server.abuse
            &&& owns ==> after.manager.sessions[name].size == size
            &&& owns ==> after.manager.sessions[name].last_activity_ms
                == server.manager.sessions[name].last_activity_ms
            &&& server.manager.sessions.contains_key(other) && !(owns && other == name)
                ==> after.manager.sessions[other] == server.manager.sessions[other]
            &&& after.manager.links == server.manager.links
        }),
{
    if server.manager.sessions.contains_key(connection.session@) {
        assert(server.manager.session_fits(connection.session@));
    }
}

} // verus!
