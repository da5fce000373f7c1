//! The session manager: named byte-stream sessions and what binds them together.
//!
//! Three rules govern the design:
//!
//! 1. **Revocation first.** A generation bump and the deletion of the stored token
//!    hash come before anything that exposes the new generation, so a token of the
//!    old one can never win an attach in between.
//! 2. **State, never I/O.** Every operation here only decides and records. Sockets
//!    and processes are served afterwards, fenced by generation and connection, so
//!    a slow or malicious client can never delay renew, expiry, or teardown.
//! 3. **Connection-evict is not session-teardown.** A takeover, a renew, or a
//!    missed ping ends a connection; only a kill, an expiry, a shutdown, or the
//!    child's own exit ends a session.
use crate::audit::{AuditEvent, AuditKind, AuditLogger, AuditRecord, TerminationClass};
use crate::clock::in_range;
use crate::close_code;
use crate::config::{env_view, ConfigModel, PtyConfig};
use crate::containment::{erased, SecretBytes};
use crate::killdomain::{
    less_wrapped, survivor_record, tier_guarantee, tier_label, DomainModel, KillDomain,
    KillDomainTier, SessionDomainModel, SessionKillDomain, TeardownGuarantee, TeardownOutcome,
};
use crate::links::{closed_link, fed_link, told_link, Links};
use crate::order::{ascending, comes_before};
use crate::outbound::{
    ConnGeneration, ControlEvent, ControlModel, OutboundItem, OutboundModel,
};
use crate::ringbuf::{QueueBounds, Replay, ReplayModel, RingModel};
use crate::session::{
    kib_bytes, lemma_next_input_keeps_wf, opened, policy_fault, AttachRejection, InputError, Session, SessionModel,
    SessionPolicy, SessionSetup, TtlDecision, WindowSize,
};
use crate::spawn::{child_env, completed, inherits, SpawnRequest, DEFAULT_TERM};
use crate::table::Table;
use crate::text::{decimal, decimal_text, joined, same_text};
use crate::token::{
    minted, revocation_record, source_name, source_or_unknown, AttachVerifier, MintedAttachToken,
    StoreModel, TokenModel, TokenStore, TokenTable,
};
use crate::{Error, Generation, SessionName};
use vstd::prelude::*;

verus! {

/// Bounded tombstone table so reattach-to-dead keeps working without unbounded
/// growth.
pub const MAX_TOMBSTONES: usize = 32;

/// Counters the program exposes as metrics. They go round through zero.
#[derive(Clone, Copy, Debug, PartialEq, Eq, Structural)]
pub struct Metrics {
    pub sessions_created: u64,
    pub admission_rejected: u64,
    pub takeovers: u64,
    pub takeovers_rate_limited: u64,
    pub ttl_expired: u64,
    pub self_exits: u64,
    pub workspace_full: u64,
}

impl Default for Metrics {
    fn default() -> (metrics: Self)
        ensures
            metrics == (Metrics {
                sessions_created: 0,
                admission_rejected: 0,
                takeovers: 0,
                takeovers_rate_limited: 0,
                ttl_expired: 0,
                self_exits: 0,
                workspace_full: 0,
            }),
    {
        Metrics {
            sessions_created: 0,
            admission_rejected: 0,
            takeovers: 0,
            takeovers_rate_limited: 0,
            ttl_expired: 0,
            self_exits: 0,
            workspace_full: 0,
        }
    }
}

/// A counter after one more event.
pub open spec fn bumped(count: u64) -> u64 {
    if count == u64::MAX {
        0
    } else {
        (count + 1) as u64
    }
}

fn bump(count: u64) -> (next: u64)
    ensures
        next == bumped(count),
{
    count.wrapping_add(1)
}

/// What is remembered of a session that ended, so reattach-to-dead is a distinct
/// error offering restart-in-place instead of an indistinguishable "not found".
#[derive(Debug)]
struct Tombstone {
    name: SessionName,
    generation: Generation,
    class: TerminationClass,
}

/// The content of a tombstone.
#[verifier::ext_equal]
pub struct TombstoneModel {
    pub name: Seq<char>,
    pub generation: Generation,
    pub class: TerminationClass,
}

/// What a [`SessionManager`] holds.
#[verifier::ext_equal]
pub struct ManagerModel {
    pub sessions: Map<Seq<char>, SessionModel>,
    pub links: Map<u64, OutboundModel>,
    /// Oldest first.
    pub tombstones: Seq<TombstoneModel>,
    pub tokens: Map<Seq<char>, TokenModel>,
    pub store: StoreModel,
    pub kill: DomainModel,
    pub metrics: Metrics,
    pub policy: SessionPolicy,
    pub config: ConfigModel,
    pub audit: Seq<AuditRecord>,
    pub epoch: u128,
    pub volume_used_kib: u64,
    pub next_id: u64,
    pub next_link: u64,
}

impl ManagerModel {
    /// What holds of every session a manager holds.
    pub open spec fn session_fits(self, name: Seq<char>) -> bool {
        let session = self.sessions[name];
        &&& session.wf()
        &&& session.name == name
        &&& session.id < self.next_id
        &&& session.link matches Some(link) ==> {
            &&& self.links.contains_key(link)
            &&& self.links[link].conn == session.owner
        }
    }

    /// What holds of every token a manager has stored: it opens a live session,
    /// under its current generation.
    pub open spec fn token_fits(self, name: Seq<char>) -> bool {
        &&& self.sessions.contains_key(name)
        &&& self.sessions[name].alive
        &&& self.sessions[name].generation == self.tokens[name].generation
    }

    /// What holds of every manager.
    pub open spec fn wf(self) -> bool {
        &&& self.policy.fits()
        &&& policy_fault(self.policy) is None
        &&& in_range(self.epoch)
        &&& self.config.outbound_backlog_kib * 4096 <= u64::MAX
        &&& self.sessions.dom().finite()
        &&& self.tombstones.len() <= MAX_TOMBSTONES
        &&& forall|name: Seq<char>| #[trigger]
            self.sessions.contains_key(name) ==> self.session_fits(name)
        &&& forall|name: Seq<char>| #[trigger]
            self.tokens.contains_key(name) ==> self.token_fits(name)
        &&& forall|link: u64| #[trigger] self.links.contains_key(link) ==> link < self.next_link
        &&& forall|a: Seq<char>, b: Seq<char>|
            #![trigger self.sessions[a], self.sessions[b]]
            self.sessions.contains_key(a) && self.sessions.contains_key(b) && a != b
                ==> self.apart(a, b)
    }

    /// Two sessions share neither their number nor a connection.
    pub open spec fn apart(self, a: Seq<char>, b: Seq<char>) -> bool {
        &&& self.sessions[a].id != self.sessions[b].id
        &&& self.sessions[a].link is Some ==> self.sessions[a].link != self.sessions[b].link
    }

    /// Whether no counter of this manager, or of this session, is about to overflow.
    pub open spec fn has_room(self, name: Seq<char>) -> bool {
        &&& self.next_id < u64::MAX
        &&& self.next_link < u64::MAX
        &&& self.sessions.contains_key(name) ==> self.sessions[name].next_conn < u64::MAX
            && self.sessions[name].generation.0 < u64::MAX
        &&& forall|i: int|
            0 <= i < self.tombstones.len() && (#[trigger] self.tombstones[i]).name == name
                ==> self.tombstones[i].generation.0 < u64::MAX
    }

    /// The latest tombstone of a name among the first `n`.
    pub open spec fn tombstone_of(self, name: Seq<char>, n: int) -> Option<int>
        decreases n,
    {
        if n <= 0 {
            None
        } else if self.tombstones[n - 1].name == name {
            Some(n - 1)
        } else {
            self.tombstone_of(name, n - 1)
        }
    }

    /// Where the latest tombstone of a name stands, if there is one.
    pub open spec fn tombstone(self, name: Seq<char>) -> Option<int> {
        self.tombstone_of(name, self.tombstones.len() as int)
    }
}

/// The session manager.
pub struct SessionManager {
    sessions: Table<Session>,
    links: Links,
    tombstones: Vec<Tombstone>,
    table: TokenTable,
    tokens: TokenStore,
    kill: KillDomain,
    metrics: Metrics,
    policy: SessionPolicy,
    config: PtyConfig,
    audit: AuditLogger,
    epoch: u128,
    /// Workspace usage reported by the program, in KiB.
    volume_used_kib: u64,
    next_id: u64,
    next_link: u64,
}

impl View for SessionManager {
    type V = ManagerModel;

    closed spec fn view(&self) -> ManagerModel {
        ManagerModel {
            sessions: Map::new(
                |name: Seq<char>| self.sessions@.contains_key(name),
                |name: Seq<char>| self.sessions@[name]@,
            ),
            links: self.links@,
            tombstones: Seq::new(
                self.tombstones@.len(),
                |i: int|
                    TombstoneModel {
                        name: self.tombstones@[i].name@,
                        generation: self.tombstones@[i].generation,
                        class: self.tombstones@[i].class,
                    },
            ),
            tokens: self.table@,
            store: self.tokens@,
            kill: self.kill@,
            metrics: self.metrics,
            policy: self.policy,
            config: self.config@,
            audit: self.audit@,
            epoch: self.epoch,
            volume_used_kib: self.volume_used_kib,
            next_id: self.next_id,
            next_link: self.next_link,
        }
    }
}

impl SessionManager {
    /// A manager without sessions. `now` becomes its epoch.
    pub fn new(
        config: PtyConfig,
        policy: SessionPolicy,
        tokens: TokenStore,
        audit: AuditLogger,
        kill: KillDomain,
        now: u128,
    ) -> (result: Result<Self, Error>)
        requires
            policy.fits(),
            config.outbound_backlog_kib * 4096 <= u64::MAX,
            in_range(now),
        ensures
            match policy_fault(policy) {
                Some(reason) => result matches Err(Error::Config(message)) && message@ == reason,
                None => {
                    &&& result matches Ok(manager)
                    &&& manager@.wf()
                    &&& manager@.sessions == Map::<Seq<char>, SessionModel>::empty()
                    &&& manager@.links == Map::<u64, OutboundModel>::empty()
                    &&& manager@.tombstones == Seq::<TombstoneModel>::empty()
                    &&& manager@.tokens == Map::<Seq<char>, TokenModel>::empty()
                    &&& manager@.store == tokens@
                    &&& manager@.kill == kill@
                    &&& manager@.metrics == (Metrics {
                        sessions_created: 0,
                        admission_rejected: 0,
                        takeovers: 0,
                        takeovers_rate_limited: 0,
                        ttl_expired: 0,
                        self_exits: 0,
                        workspace_full: 0,
                    })
                    &&& manager@.policy == policy
                    &&& manager@.config == config@
                    &&& manager@.audit == audit@
                    &&& manager@.epoch == now
                    &&& manager@.volume_used_kib == 0
                    &&& manager@.next_id == 0
                    &&& manager@.next_link == 0
                },
            },
    {
        if let Err(error) = policy.validate() {
            return Err(error);
        }
        let manager = SessionManager {
            sessions: Table::new(),
            links: Links::new(),
            tombstones: Vec::new(),
            table: TokenTable::new(),
            tokens,
            kill,
            metrics: Metrics::default(),
            policy,
            config,
            audit,
            epoch: now,
            volume_used_kib: 0,
            next_id: 0,
            next_link: 0,
        };
        assert(manager@.sessions =~= Map::<Seq<char>, SessionModel>::empty());
        assert(manager@.tombstones =~= Seq::<TombstoneModel>::empty());
        Ok(manager)
    }

    pub fn policy(&self) -> (policy: &SessionPolicy)
        ensures
            *policy == self@.policy,
    {
        &self.policy
    }

    pub fn metrics(&self) -> (metrics: &Metrics)
        ensures
            *metrics == self@.metrics,
    {
        &self.metrics
    }

    pub fn kill_domain(&self) -> (kill: &KillDomain)
        ensures
            kill@ == self@.kill,
    {
        &self.kill
    }

    /// Look at a session.
    pub fn get(&self, name: &SessionName) -> (session: Option<&Session>)
        ensures
            match session {
                Some(session) => self@.sessions.contains_key(name@) && session@
                    == self@.sessions[name@],
                None => !self@.sessions.contains_key(name@),
            },
    {
        self.sessions.get(name.as_str())
    }
}

/// A client's handle on an attached connection.
#[derive(Debug)]
pub struct AttachedConnection {
    pub session: SessionName,
    /// Which session of that name.
    pub session_id: u64,
    pub generation: Generation,
    pub conn: ConnGeneration,
    /// The number of the connection's outbound queue.
    pub link: u64,
}

/// Why an attach is refused.
pub enum AttachFault {
    Missing,
    Dead,
    Stale,
    Limited,
}

/// The notice every attach starts with.
pub open spec fn attach_notice(best_effort: bool) -> ControlModel {
    ControlModel::AttachNotice {
        ephemeral_workspace: true,
        teardown_best_effort: best_effort,
        externalise_with: "git push (lifecycle hooks are backup, not primary)"@,
    }
}

/// What a client is replayed at attach: what it missed since its cursor, where it
/// has one; otherwise all that is retained, where the operator asked for that.
pub open spec fn attach_replay(ring: RingModel, replay_all: bool, since: Option<u64>) -> Option<
    ReplayModel,
> {
    match since {
        Some(since) => Some(ring.replay(since as nat)),
        None => if replay_all && ring.capacity > 0 {
            Some(ring.replay(0))
        } else {
            None
        },
    }
}

/// What a new connection's queue holds: the notice, then the replay.
pub open spec fn greeting(
    session: SessionModel,
    conn: ConnGeneration,
    replay_all: bool,
    since: Option<u64>,
) -> OutboundModel {
    let noticed = OutboundModel::open(conn, session.backlog).told(
        attach_notice(session.tier_best_effort),
    );
    match attach_replay(session.ring, replay_all, since) {
        None => noticed,
        Some(ReplayModel::Contiguous { bytes, .. }) => noticed.told_bytes(bytes),
        Some(ReplayModel::Gap { bytes_dropped, bytes, .. }) => noticed.told(
            ControlModel::Gap { bytes_dropped: bytes_dropped as u64 },
        ).told_bytes(bytes),
    }
}

/// The record of an attach.
pub open spec fn attach_record(
    name: Seq<char>,
    generation: Generation,
    source: Seq<char>,
) -> AuditRecord {
    AuditRecord::of(AuditKind::Attach).with_session(name, generation).with_source(source)
}

/// The record of a takeover, or of a refused one.
pub open spec fn takeover_record(
    name: Seq<char>,
    generation: Generation,
    source: Seq<char>,
    detail: Seq<char>,
) -> AuditRecord {
    AuditRecord::of(AuditKind::TakeoverAnomaly).with_session(name, generation).with_source(
        source,
    ).with_detail(detail)
}

impl ManagerModel {
    /// Why an attach is refused, if it is.
    pub open spec fn attach_fault(
        self,
        name: Seq<char>,
        generation: Generation,
        now: u128,
    ) -> Option<AttachFault> {
        let session = self.sessions[name];
        if !self.sessions.contains_key(name) {
            if self.tombstone(name) is Some {
                Some(AttachFault::Dead)
            } else {
                Some(AttachFault::Missing)
            }
        } else if !session.alive {
            Some(AttachFault::Dead)
        } else if session.generation != generation {
            Some(AttachFault::Stale)
        } else if session.owner.0 != 0 && !session.takeovers.permits(
            generation,
            now,
            self.policy,
        ) {
            Some(AttachFault::Limited)
        } else {
            None
        }
    }

    /// The manager after an attach that the takeover budget refused.
    pub open spec fn rate_limited(
        self,
        name: Seq<char>,
        source: Seq<char>,
        now: u128,
    ) -> ManagerModel {
        let session = self.sessions[name];
        ManagerModel {
            sessions: self.sessions.insert(
                name,
                SessionModel {
                    takeovers: session.takeovers.charged(session.generation, now, self.policy),
                    ..session
                },
            ),
            metrics: Metrics {
                takeovers_rate_limited: bumped(self.metrics.takeovers_rate_limited),
                ..self.metrics
            },
            audit: self.audit.push(
                takeover_record(name, session.generation, source, "takeover_rate_limited"@),
            ),
            ..self
        }
    }

    /// The manager after an attach: the session has a new owner, whose queue holds
    /// the greeting, and the previous owner is closed.
    pub open spec fn attached(
        self,
        name: Seq<char>,
        size: WindowSize,
        source: Seq<char>,
        since: Option<u64>,
        now: u128,
    ) -> ManagerModel {
        let session = self.sessions[name];
        let conn = ConnGeneration(session.next_conn);
        ManagerModel {
            sessions: self.sessions.insert(
                name,
                session.claimed(size, self.next_link, now, self.policy).touched(self.epoch, now),
            ),
            links: closed_link(self.links, session.link, close_code::TAKEOVER).insert(
                self.next_link,
                greeting(session, conn, self.config.scrollback_replay, since),
            ),
            metrics: if session.link is Some {
                Metrics { takeovers: bumped(self.metrics.takeovers), ..self.metrics }
            } else {
                self.metrics
            },
            audit: (if session.link is Some {
                self.audit.push(
                    takeover_record(name, session.generation, source, "connection_preempted"@),
                )
            } else {
                self.audit
            }).push(attach_record(name, session.generation, source)),
            next_link: (self.next_link + 1) as u64,
            ..self
        }
    }
}

/// Whether the same connections have a queue before and after.
pub open spec fn same_queues(
    links: Map<u64, OutboundModel>,
    after: Map<u64, OutboundModel>,
) -> bool {
    &&& after.dom() =~= links.dom()
    &&& forall|link: u64| #[trigger]
        links.contains_key(link) ==> after[link].conn == links[link].conn
}

/// An operation on one session keeps the manager whole.
proof fn lemma_one_session_changed(before: ManagerModel, after: ManagerModel, name: Seq<char>)
    requires
        before.wf(),
        before.sessions.contains_key(name),
        after.sessions == before.sessions.insert(name, after.sessions[name]),
        after.sessions[name].wf(),
        after.sessions[name].name == name,
        after.sessions[name].id == before.sessions[name].id,
        after.sessions[name].link is Some ==> after.sessions[name].link
            == before.sessions[name].link && after.sessions[name].owner
            == before.sessions[name].owner,
        same_queues(before.links, after.links),
        after.tokens == before.tokens && after.sessions[name].alive == before.sessions[name].alive
            && after.sessions[name].generation == before.sessions[name].generation || after.tokens
            == before.tokens.remove(name),
        after.tombstones.len() <= MAX_TOMBSTONES,
        after.policy == before.policy,
        after.config == before.config,
        after.epoch == before.epoch,
        after.next_id == before.next_id,
        after.next_link == before.next_link,
    ensures
        after.wf(),
{
    assert forall|other: Seq<char>| #[trigger] after.sessions.contains_key(
        other,
    ) implies after.session_fits(other) by {
        assert(before.sessions.contains_key(other));
        assert(before.session_fits(other));
        if other != name {
            assert(after.sessions[other] == before.sessions[other]);
        }
    }
    assert forall|other: Seq<char>| #[trigger] after.tokens.contains_key(
        other,
    ) implies after.token_fits(other) by {
        assert(before.tokens.contains_key(other));
        assert(before.token_fits(other));
    }
    assert forall|a: Seq<char>, b: Seq<char>|
        #![trigger after.sessions[a], after.sessions[b]]
        after.sessions.contains_key(a) && after.sessions.contains_key(b) && a
            != b implies after.apart(a, b) by {
        assert(before.sessions.contains_key(a) && before.sessions.contains_key(b));
        let x = before.sessions[a];
        let y = before.sessions[b];
        assert(before.apart(a, b));
        assert(before.apart(b, a));
    }
}

proof fn lemma_attached_wf(
    before: ManagerModel,
    name: Seq<char>,
    size: WindowSize,
    source: Seq<char>,
    since: Option<u64>,
    now: u128,
)
    requires
        before.wf(),
        before.sessions.contains_key(name),
        before.sessions[name].alive,
        before.has_room(name),
    ensures
        before.attached(name, size, source, since, now).wf(),
{
    let after = before.attached(name, size, source, since, now);
    let session = before.sessions[name];
    assert(before.session_fits(name));
    assert(after.sessions[name].wf());
    assert forall|other: Seq<char>| #[trigger] after.sessions.contains_key(
        other,
    ) implies after.session_fits(other) by {
        assert(before.sessions.contains_key(other));
        assert(before.session_fits(other));
        if other != name {
            assert(after.sessions[other] == before.sessions[other]);
        }
    }
    assert forall|other: Seq<char>| #[trigger] after.tokens.contains_key(
        other,
    ) implies after.token_fits(other) by {
        assert(before.token_fits(other));
    }
    assert forall|a: Seq<char>, b: Seq<char>|
        #![trigger after.sessions[a], after.sessions[b]]
        after.sessions.contains_key(a) && after.sessions.contains_key(b) && a
            != b implies after.apart(a, b) by {
        assert(before.sessions.contains_key(a) && before.sessions.contains_key(b));
        assert(before.session_fits(a) && before.session_fits(b));
        let x = before.sessions[a];
        let y = before.sessions[b];
        assert(before.apart(a, b));
        assert(before.apart(b, a));
    }
    assert forall|link: u64| #[trigger] after.links.contains_key(link) implies link
        < after.next_link by {
        if link != before.next_link {
            assert(before.links.contains_key(link));
        }
    }
}

impl SessionManager {
    /// Where the latest tombstone of a name stands.
    fn tombstone_index(&self, name: &SessionName) -> (found: Option<usize>)
        ensures
            match found {
                Some(i) => self@.tombstone(name@) == Some(i as int),
                None => self@.tombstone(name@) is None,
            },
            found matches Some(i) ==> i < self.tombstones@.len() && self@.tombstones[i as int].name
                == name@,
    {
        let mut n: usize = self.tombstones.len();
        while n > 0
            invariant
                n <= self.tombstones@.len(),
                self@.tombstone_of(name@, n as int) == self@.tombstone(name@),
            decreases n,
        {
            assert(self@.tombstones[n - 1].name == self.tombstones@[n - 1].name@);
            if same_text(self.tombstones[n - 1].name.as_str(), name.as_str()) {
                return Some(n - 1);
            }
            n -= 1;
        }
        None
    }

    fn audit_takeover(
        &mut self,
        name: &SessionName,
        generation: Generation,
        source: &str,
        detail: &str,
    )
        ensures
            final(self)@ == (ManagerModel {
                audit: old(self)@.audit.push(
                    takeover_record(name@, generation, source@, detail@),
                ),
                ..old(self)@
            }),
    {
        let event = AuditEvent::new(AuditKind::TakeoverAnomaly).session(name, generation).source(
            source,
        ).detail(detail);
        self.audit.record(event);
        assert(self@ =~= (ManagerModel {
            audit: old(self)@.audit.push(takeover_record(name@, generation, source@, detail@)),
            ..old(self)@
        }));
    }

    /// Attach. The token must already have been verified by the attach surface;
    /// the generation is checked again here as the authoritative fence.
    pub fn attach(
        &mut self,
        name: &SessionName,
        generation: Generation,
        size: WindowSize,
        source: Option<&str>,
        now: u128,
    ) -> (result: Result<AttachedConnection, Error>)
        requires
            old(self)@.wf(),
            old(self)@.has_room(name@),
        ensures
            final(self)@.wf(),
            match old(self)@.attach_fault(name@, generation, now) {
                Some(AttachFault::Missing) => {
                    &&& result matches Err(Error::NotFound(missing)) && missing@ == name@
                    &&& final(self)@ == old(self)@
                },
                Some(AttachFault::Dead) => {
                    &&& result matches Err(Error::SessionDead(dead)) && dead@ == name@
                    &&& final(self)@ == old(self)@
                },
                Some(AttachFault::Stale) => {
                    &&& result matches Err(Error::Unauthorized)
                    &&& final(self)@ == old(self)@
                },
                Some(AttachFault::Limited) => {
                    &&& result matches Err(Error::CapacityExceeded { limit }) && limit == old(
                        self,
                    )@.policy.max_takeovers_per_window
                    &&& final(self)@ == old(self)@.rate_limited(name@, source_name(source), now)
                },
                None => {
                    &&& result matches Ok(connection)
                    &&& connection.session@ == name@
                    &&& connection.session_id == old(self)@.sessions[name@].id
                    &&& connection.generation == generation
                    &&& connection.conn == ConnGeneration(old(self)@.sessions[name@].next_conn)
                    &&& connection.link == old(self)@.next_link
                    &&& final(self)@ == old(self)@.attached(
                        name@,
                        size,
                        source_name(source),
                        None,
                        now,
                    )
                },
            },
    {
        match self.attach_with_replay(name, generation, size, source, None, now) {
            Ok(attached) => Ok(attached.0),
            Err(error) => Err(error),
        }
    }

    /// Attach with a cursor: the client is handed what it missed since `since`.
    /// Answers the stream offset at which live delivery starts too.
    ///
    /// Claiming the session and reading the replay are one step: bytes written from
    /// here on go to the new connection, not into the replay.
    pub fn attach_with_replay(
        &mut self,
        name: &SessionName,
        generation: Generation,
        size: WindowSize,
        source: Option<&str>,
        since: Option<u64>,
        now: u128,
    ) -> (result: Result<(AttachedConnection, u64), Error>)
        requires
            old(self)@.wf(),
            old(self)@.has_room(name@),
        ensures
            final(self)@.wf(),
            match old(self)@.attach_fault(name@, generation, now) {
                Some(AttachFault::Missing) => {
                    &&& result matches Err(Error::NotFound(missing)) && missing@ == name@
                    &&& final(self)@ == old(self)@
                },
                Some(AttachFault::Dead) => {
                    &&& result matches Err(Error::SessionDead(dead)) && dead@ == name@
                    &&& final(self)@ == old(self)@
                },
                Some(AttachFault::Stale) => {
                    &&& result matches Err(Error::Unauthorized)
                    &&& final(self)@ == old(self)@
                },
                Some(AttachFault::Limited) => {
                    &&& result matches Err(Error::CapacityExceeded { limit }) && limit == old(
                        self,
                    )@.policy.max_takeovers_per_window
                    &&& final(self)@ == old(self)@.rate_limited(name@, source_name(source), now)
                },
                None => {
                    &&& result matches Ok((connection, offset))
                    &&& connection.session@ == name@
                    &&& connection.session_id == old(self)@.sessions[name@].id
                    &&& connection.generation == generation
                    &&& connection.conn == ConnGeneration(old(self)@.sessions[name@].next_conn)
                    &&& connection.link == old(self)@.next_link
                    &&& offset == old(self)@.sessions[name@].ring.written
                    &&& final(self)@ == old(self)@.attached(
                        name@,
                        size,
                        source_name(source),
                        since,
                        now,
                    )
                },
            },
    {
        let ghost before = self@;
        let ghost session_before = before.sessions[name@];
        let source = source_or_unknown(source);
        let mut session = match self.sessions.remove(name.as_str()) {
            Some(session) => session,
            None => {
                assert(self@ =~= before);
                // Distinct from "no such session": the caller offers
                // restart-in-place.
                return Err(
                    if self.tombstone_index(name).is_some() {
                        Error::SessionDead(name.clone())
                    } else {
                        Error::NotFound(name.clone())
                    },
                );
            },
        };
        assert(before.sessions.contains_key(name@));
        assert(session@ == session_before);
        assert(before.session_fits(name@));
        if !session.is_alive() {
            self.sessions.insert(name.to_string(), session);
            assert(self@ =~= before);
            return Err(Error::SessionDead(name.clone()));
        }
        let previous = session.link();
        let id: u64 = session.id();
        let link: u64 = self.next_link;
        let offset: u64 = session.total_written();
        let best_effort: bool = session.tier_best_effort();
        let bounds = session.backlog();
        let replay: Option<Replay> = match since {
            Some(since) => Some(session.read_since(since)),
            None => if self.config.scrollback_replay && session.retention_enabled() {
                Some(session.read_since(0))
            } else {
                None
            },
        };
        let conn = match session.claim(generation, size, link, now, &self.policy) {
            Ok(conn) => conn,
            Err(AttachRejection::StaleGeneration) => {
                self.sessions.insert(name.to_string(), session);
                assert(self@ =~= before);
                return Err(Error::Unauthorized);
            },
            Err(AttachRejection::TakeoverRateLimited) => {
                self.sessions.insert(name.to_string(), session);
                self.metrics.takeovers_rate_limited = bump(self.metrics.takeovers_rate_limited);
                self.audit_takeover(name, generation, source, "takeover_rate_limited");
                proof {
                    assert(self@ =~= before.rate_limited(name@, source@, now));
                    lemma_one_session_changed(before, self@, name@);
                }
                return Err(
                    Error::CapacityExceeded {
                        limit: self.policy.max_takeovers_per_window as usize,
                    },
                );
            },
        };
        session.touch(self.epoch, now);
        self.sessions.insert(name.to_string(), session);
        self.links.close(previous, close_code::TAKEOVER);
        self.next_link = link + 1;
        if previous.is_some() {
            // The replaced connection's write path is already dead: the owner
            // changed before its socket was touched.
            self.metrics.takeovers = bump(self.metrics.takeovers);
            self.audit_takeover(name, generation, source, "connection_preempted");
        }
        let ghost closed = self.links@;
        self.links.open(link, conn, bounds);
        let notice = ControlEvent::AttachNotice {
            ephemeral_workspace: true,
            teardown_best_effort: best_effort,
            externalise_with: "git push (lifecycle hooks are backup, not primary)",
        };
        self.links.tell(Some(link), notice);
        match replay {
            None => {},
            Some(Replay::Contiguous { bytes, .. }) => {
                self.links.feed(Some(link), bytes.as_slice());
            },
            Some(Replay::Gap { bytes_dropped, bytes, .. }) => {
                self.links.tell(Some(link), ControlEvent::Gap { bytes_dropped });
                self.links.feed(Some(link), bytes.as_slice());
            },
        }
        assert(self.links@ =~= closed.insert(
            link,
            greeting(session_before, conn, before.config.scrollback_replay, since),
        ));
        let event = AuditEvent::new(AuditKind::Attach).session(name, generation).source(source);
        self.audit.record(event);
        proof {
            assert(self@ =~= before.attached(name@, size, source@, since, now));
            lemma_attached_wf(before, name@, size, source@, since, now);
        }
        Ok(
            (
                AttachedConnection {
                    session: name.clone(),
                    session_id: id,
                    generation,
                    conn,
                    link,
                },
                offset,
            ),
        )
    }
}

impl ManagerModel {
    /// Whether this very session, not another of its name, is still here.
    pub open spec fn holds(self, name: Seq<char>, id: u64) -> bool {
        self.sessions.contains_key(name) && self.sessions[name].id == id
    }

    /// The manager with one session changed.
    pub open spec fn with_session(self, session: SessionModel) -> ManagerModel {
        ManagerModel { sessions: self.sessions.insert(session.name, session), ..self }
    }
}

impl SessionManager {
    /// Whether no counter is about to overflow.
    pub fn has_room(&self, name: &SessionName) -> (room: bool)
        ensures
            room == self@.has_room(name@),
    {
        if self.next_id == u64::MAX || self.next_link == u64::MAX {
            return false;
        }
        if let Some(session) = self.get(name) {
            if session.next_conn() == u64::MAX || session.generation().0 == u64::MAX {
                return false;
            }
        }
        let mut i: usize = 0;
        while i < self.tombstones.len()
            invariant
                0 <= i <= self.tombstones@.len(),
                forall|k: int|
                    0 <= k < i && (#[trigger] self@.tombstones[k]).name == name@
                        ==> self@.tombstones[k].generation.0 < u64::MAX,
            decreases self.tombstones@.len() - i,
        {
            assert(self@.tombstones[i as int].name == self.tombstones@[i as int].name@);
            if self.tombstones[i].generation.0 == u64::MAX && same_text(
                self.tombstones[i].name.as_str(),
                name.as_str(),
            ) {
                return false;
            }
            i += 1;
        }
        true
    }

    /// Take a session out to change it.
    fn take_session(&mut self, name: &SessionName, id: u64) -> (taken: Option<Session>)
        ensures
            match taken {
                Some(session) => {
                    &&& old(self)@.holds(name@, id)
                    &&& session@ == old(self)@.sessions[name@]
                    &&& final(self)@ == (ManagerModel {
                        sessions: old(self)@.sessions.remove(name@),
                        ..old(self)@
                    })
                },
                None => !old(self)@.holds(name@, id) && final(self)@ == old(self)@,
            },
    {
        match self.sessions.position(name.as_str()) {
            None => None,
            Some(i) => {
                if self.sessions.value_at(i).id() != id {
                    return None;
                }
                let session = self.sessions.remove_at(i);
                assert(self@ =~= (ManagerModel {
                    sessions: old(self)@.sessions.remove(name@),
                    ..old(self)@
                }));
                Some(session)
            },
        }
    }

    /// Put a session back.
    fn put_session(&mut self, session: Session)
        ensures
            final(self)@ == old(self)@.with_session(session@),
    {
        let name = session.name().to_string();
        self.sessions.insert(name, session);
        assert(self@ =~= old(self)@.with_session(session@));
    }

    /// Client input. A connection that lost its session is refused before anything
    /// else is looked at.
    pub fn write_input(&mut self, connection: &AttachedConnection, bytes: &[u8], now: u128) -> (answer:
        Result<(), InputError>)
        requires
            old(self)@.wf(),
        ensures
            final(self)@.wf(),
            if old(self)@.holds(connection.session@, connection.session_id) {
                let session = old(self)@.sessions[connection.session@];
                &&& answer == session.input_answer(connection.conn, bytes@)
                &&& final(self)@ == old(self)@.with_session(
                    session.after_input(connection.conn, bytes@, old(self)@.epoch, now),
                )
            } else {
                answer == Err::<(), _>(InputError::Evicted) && final(self)@ == old(self)@
            },
    {
        let ghost before = self@;
        match self.take_session(&connection.session, connection.session_id) {
            None => Err(InputError::Evicted),
            Some(mut session) => {
                assert(before.session_fits(connection.session@));
                let answer = session.write_input(connection.conn, bytes, self.epoch, now);
                self.put_session(session);
                proof {
                    assert(self@ =~= before.with_session(session@));
                    lemma_one_session_changed(before, self@, connection.session@);
                }
                answer
            },
        }
    }

    /// The next input for a session's PTY master.
    pub fn next_input(&mut self, name: &SessionName, id: u64) -> (chunk: Option<Vec<u8>>)
        requires
            old(self)@.wf(),
        ensures
            final(self)@.wf(),
            if old(self)@.holds(name@, id) {
                let session = old(self)@.sessions[name@];
                &&& match chunk {
                    Some(bytes) => session.next_input() == Some(bytes@),
                    None => session.next_input() is None,
                }
                &&& final(self)@ == old(self)@.with_session(session.after_next_input())
            } else {
                chunk is None && final(self)@ == old(self)@
            },
    {
        let ghost before = self@;
        match self.take_session(name, id) {
            None => None,
            Some(mut session) => {
                assert(before.session_fits(name@));
                let chunk = session.next_input();
                self.put_session(session);
                proof {
                    lemma_next_input_keeps_wf(before.sessions[name@]);
                    assert(self@ =~= before.with_session(session@));
                    lemma_one_session_changed(before, self@, name@);
                }
                chunk
            },
        }
    }

    /// A session's PTY master takes no more input.
    pub fn close_input(&mut self, name: &SessionName, id: u64)
        requires
            old(self)@.wf(),
        ensures
            final(self)@.wf(),
            final(self)@ == if old(self)@.holds(name@, id) {
                old(self)@.with_session(
                    SessionModel { input_open: false, ..old(self)@.sessions[name@] },
                )
            } else {
                old(self)@
            },
    {
        let ghost before = self@;
        if let Some(mut session) = self.take_session(name, id) {
            assert(before.session_fits(name@));
            session.close_input();
            self.put_session(session);
            proof {
                assert(self@ =~= before.with_session(session@));
                lemma_one_session_changed(before, self@, name@);
            }
        }
    }

    /// A new window size from the owner of a session. The caller passes it on to
    /// the terminal.
    pub fn resize(&mut self, connection: &AttachedConnection, size: WindowSize) -> (result: Result<
        (),
        Error,
    >)
        requires
            old(self)@.wf(),
        ensures
            final(self)@.wf(),
            if old(self)@.holds(connection.session@, connection.session_id) && old(
                self,
            )@.sessions[connection.session@].owned_by(connection.conn) {
                &&& result is Ok
                &&& final(self)@ == old(self)@.with_session(
                    SessionModel { size, ..old(self)@.sessions[connection.session@] },
                )
            } else {
                result == Err::<(), _>(Error::Unauthorized) && final(self)@ == old(self)@
            },
    {
        let ghost before = self@;
        match self.take_session(&connection.session, connection.session_id) {
            None => Err(Error::Unauthorized),
            Some(mut session) => {
                assert(before.session_fits(connection.session@));
                let result = session.resize(connection.conn, size);
                self.put_session(session);
                proof {
                    assert(self@ =~= before.with_session(session@));
                    lemma_one_session_changed(before, self@, connection.session@);
                    if !before.sessions[connection.session@].owned_by(connection.conn) {
                        assert(self@ =~= before);
                    }
                }
                result
            },
        }
    }

    /// A pong clears the missed-ping counter and counts as liveness.
    pub fn on_pong(&mut self, connection: &AttachedConnection, now: u128)
        requires
            old(self)@.wf(),
        ensures
            final(self)@.wf(),
            final(self)@ == if old(self)@.holds(connection.session@, connection.session_id) {
                let session = old(self)@.sessions[connection.session@];
                if session.owned_by(connection.conn) {
                    old(self)@.with_session(
                        SessionModel { missed_pings: 0, ..session }.touched(old(self)@.epoch, now),
                    )
                } else {
                    old(self)@.with_session(session.touched(old(self)@.epoch, now))
                }
            } else {
                old(self)@
            },
    {
        let ghost before = self@;
        if let Some(mut session) = self.take_session(
            &connection.session,
            connection.session_id,
        ) {
            assert(before.session_fits(connection.session@));
            session.on_pong(connection.conn, self.epoch, now);
            self.put_session(session);
            proof {
                assert(self@ =~= before.with_session(session@));
                lemma_one_session_changed(before, self@, connection.session@);
            }
        }
    }

    /// A missed ping. Answers `true` once the socket counts as detached, at which
    /// point the server should stop treating it as attached. The process survives a
    /// half-open socket.
    pub fn on_missed_ping(&mut self, connection: &AttachedConnection) -> (detached: bool)
        requires
            old(self)@.wf(),
        ensures
            final(self)@.wf(),
            if old(self)@.holds(connection.session@, connection.session_id) && old(
                self,
            )@.sessions[connection.session@].owned_by(connection.conn) {
                let session = old(self)@.sessions[connection.session@];
                &&& detached == (session.missed_pings + 1 >= session.missed_ping_limit)
                &&& final(self)@ == (ManagerModel {
                    links: if detached {
                        closed_link(old(self)@.links, session.link, close_code::TAKEOVER)
                    } else {
                        old(self)@.links
                    },
                    ..old(self)@.with_session(session.ping_missed())
                })
            } else {
                detached && final(self)@ == old(self)@
            },
    {
        let ghost before = self@;
        match self.take_session(&connection.session, connection.session_id) {
            None => true,
            Some(mut session) => {
                assert(before.session_fits(connection.session@));
                let answer = session.on_missed_ping(connection.conn);
                self.put_session(session);
                assert(self@ =~= before.with_session(session@));
                self.links.close(answer.1, close_code::TAKEOVER);
                proof {
                    assert(self@ =~= (ManagerModel {
                        links: closed_link(before.links, answer.1, close_code::TAKEOVER),
                        ..before.with_session(session@)
                    }));
                    lemma_one_session_changed(before, self@, connection.session@);
                    if !before.sessions[connection.session@].owned_by(connection.conn) {
                        assert(self@ =~= before);
                    }
                }
                answer.0
            },
        }
    }

    /// Voluntary detach, by a control frame or a closed socket. A connection that
    /// was replaced changes nothing.
    pub fn detach(&mut self, connection: &AttachedConnection)
        requires
            old(self)@.wf(),
        ensures
            final(self)@.wf(),
            final(self)@ == if old(self)@.holds(connection.session@, connection.session_id) && old(
                self,
            )@.sessions[connection.session@].owned_by(connection.conn) {
                old(self)@.with_session(old(self)@.sessions[connection.session@].detached())
            } else {
                old(self)@
            },
    {
        let ghost before = self@;
        if let Some(mut session) = self.take_session(
            &connection.session,
            connection.session_id,
        ) {
            assert(before.session_fits(connection.session@));
            session.detach(connection.conn);
            self.put_session(session);
            proof {
                assert(self@ =~= before.with_session(session@));
                lemma_one_session_changed(before, self@, connection.session@);
                if !before.sessions[connection.session@].owned_by(connection.conn) {
                    assert(self@ =~= before);
                }
            }
        }
    }

    /// PTY output of a session: retain it, then hand it to the current connection.
    pub fn on_output(&mut self, name: &SessionName, id: u64, bytes: &[u8], now: u128)
        requires
            old(self)@.wf(),
        ensures
            final(self)@.wf(),
            final(self)@ == if old(self)@.holds(name@, id) {
                let session = old(self)@.sessions[name@];
                ManagerModel {
                    links: fed_link(old(self)@.links, session.link, bytes@),
                    ..old(self)@.with_session(session.emitted(bytes@, old(self)@.epoch, now))
                }
            } else {
                old(self)@
            },
    {
        let ghost before = self@;
        if let Some(mut session) = self.take_session(name, id) {
            assert(before.session_fits(name@));
            let link = session.link();
            session.emit(bytes, self.epoch, now);
            self.put_session(session);
            assert(self@ =~= before.with_session(session@));
            self.links.feed(link, bytes);
            proof {
                assert(self@ =~= (ManagerModel {
                    links: fed_link(before.links, link, bytes@),
                    ..before.with_session(session@)
                }));
                lemma_one_session_changed(before, self@, name@);
            }
        }
    }

    /// Incremental reconnect within the retained window.
    pub fn replay_since(&self, name: &SessionName, since: u64) -> (result: Result<Replay, Error>)
        ensures
            if self@.sessions.contains_key(name@) {
                result matches Ok(replay) && replay@ == self@.sessions[name@].ring.replay(
                    since as nat,
                )
            } else {
                result matches Err(Error::NotFound(missing)) && missing@ == name@
            },
    {
        match self.get(name) {
            Some(session) => Ok(session.read_since(since)),
            None => Err(Error::NotFound(name.clone())),
        }
    }
}

/// Result of a create, renew or restart: the one-time attach token plus the fence
/// it is bound to.
pub struct SessionCredential {
    pub session: SessionName,
    pub generation: Generation,
    pub token: MintedAttachToken,
}

/// Whether a credential opens this session at this generation for as long as
/// tokens live.
pub open spec fn credential_for(
    credential: SessionCredential,
    name: Seq<char>,
    generation: Generation,
    expires_at: int,
) -> bool {
    &&& credential.session@ == name
    &&& credential.generation == generation
    &&& credential.token.grant.session@ == name
    &&& credential.token.grant.generation == generation
    &&& credential.token.grant.scope == crate::token::TokenScope::AttachOnly
    &&& credential.token.grant.expires_at == expires_at
    &&& exists|key: Seq<u8>|
        key.len() == 32 && credential.token.plaintext@ == #[trigger] crate::crypto::hex_bytes(key)
}

impl ManagerModel {
    /// What the token store has recorded after the tokens of a session were
    /// revoked.
    pub open spec fn after_revoking(self, name: Seq<char>, generation: Generation) -> StoreModel {
        StoreModel {
            ttl: self.store.ttl,
            audit: if self.tokens.contains_key(name) {
                self.store.audit.push(
                    revocation_record(name, generation, self.tokens[name].hash),
                )
            } else {
                self.store.audit
            },
        }
    }

    /// The manager after a session moved to its next generation: its tokens are
    /// revoked, and its connection is closed.
    pub open spec fn rotated(self, name: Seq<char>) -> ManagerModel {
        let session = self.sessions[name];
        ManagerModel {
            tokens: self.tokens.remove(name),
            store: self.after_revoking(name, session.renewed().generation),
            links: closed_link(self.links, session.link, close_code::RENEWED),
            ..self.with_session(session.renewed())
        }
    }

    /// The manager after it minted this token for a session.
    pub open spec fn with_token(
        self,
        name: Seq<char>,
        generation: Generation,
        plaintext: Seq<u8>,
        now: u128,
    ) -> ManagerModel {
        ManagerModel {
            tokens: minted(
                self.tokens,
                name,
                generation,
                plaintext,
                (now + self.store.ttl) as nat,
            ),
            ..self
        }
    }

    /// The manager with one more record.
    pub open spec fn noting(self, record: AuditRecord) -> ManagerModel {
        ManagerModel { audit: self.audit.push(record), ..self }
    }
}

proof fn lemma_minted_wf(
    before: ManagerModel,
    name: Seq<char>,
    generation: Generation,
    plaintext: Seq<u8>,
    now: u128,
    record: AuditRecord,
)
    requires
        before.wf(),
        before.sessions.contains_key(name),
        before.sessions[name].alive,
        before.sessions[name].generation == generation,
    ensures
        before.with_token(name, generation, plaintext, now).noting(record).wf(),
{
    let after = before.with_token(name, generation, plaintext, now).noting(record);
    assert forall|other: Seq<char>| #[trigger] after.sessions.contains_key(
        other,
    ) implies after.session_fits(other) by {
        assert(before.session_fits(other));
    }
    assert forall|other: Seq<char>| #[trigger] after.tokens.contains_key(
        other,
    ) implies after.token_fits(other) by {
        if other != name {
            assert(before.tokens.contains_key(other));
            assert(before.token_fits(other));
        }
    }
    assert forall|a: Seq<char>, b: Seq<char>|
        #![trigger after.sessions[a], after.sessions[b]]
        after.sessions.contains_key(a) && after.sessions.contains_key(b) && a
            != b implies after.apart(a, b) by {
        let x = before.sessions[a];
        let y = before.sessions[b];
        assert(before.apart(a, b));
    }
}

impl SessionManager {
    /// Remote-admin `renew`: the process survives, the generation bumps, every
    /// outstanding token dies, and an attached connection is **evicted** with a
    /// renew-distinct close code so the client can tell renewal from a takeover.
    pub fn renew(&mut self, name: &SessionName, now: u128) -> (result: Result<
        SessionCredential,
        Error,
    >)
        requires
            old(self)@.wf(),
            old(self)@.has_room(name@),
            in_range(now),
        ensures
            final(self)@.wf(),
            !old(self)@.sessions.contains_key(name@) ==> {
                &&& result matches Err(Error::NotFound(missing)) && missing@ == name@
                &&& final(self)@ == old(self)@
            },
            old(self)@.sessions.contains_key(name@) && !old(self)@.sessions[name@].alive ==> {
                &&& result matches Err(Error::SessionDead(dead)) && dead@ == name@
                &&& final(self)@ == old(self)@
            },
            old(self)@.sessions.contains_key(name@) && old(self)@.sessions[name@].alive ==> {
                let generation = Generation(
                    (old(self)@.sessions[name@].generation.0 + 1) as u64,
                );
                if old(self)@.store.ttl == 0 {
                    &&& result matches Err(Error::Other(message)) && message@
                        == "attach token TTL must be non-zero"@
                    &&& final(self)@ == old(self)@.rotated(name@)
                } else {
                    &&& result matches Ok(credential)
                    &&& credential_for(
                        credential,
                        name@,
                        generation,
                        now + old(self)@.store.ttl,
                    )
                    &&& final(self)@ == old(self)@.rotated(name@).with_token(
                        name@,
                        generation,
                        credential.token.plaintext@,
                        now,
                    ).noting(
                        AuditRecord::of(AuditKind::SessionRenew).with_session(name@, generation),
                    )
                }
            },
    {
        let ghost before = self@;
        let mut session = match self.sessions.remove(name.as_str()) {
            Some(session) => session,
            None => {
                assert(self@ =~= before);
                return Err(Error::NotFound(name.clone()));
            },
        };
        assert(before.sessions.contains_key(name@));
        assert(before.session_fits(name@));
        if !session.is_alive() {
            self.sessions.insert(name.to_string(), session);
            assert(self@ =~= before);
            return Err(Error::SessionDead(name.clone()));
        }
        // Revocation before anything else: a token from the old generation must not
        // be able to win an attach in between.
        let evicted = session.renew();
        let generation = session.generation();
        self.tokens.revoke_session(&mut self.table, name, generation);
        self.sessions.insert(name.to_string(), session);
        self.links.close(evicted, close_code::RENEWED);
        proof {
            assert(self@ =~= before.rotated(name@));
            lemma_one_session_changed(before, self@, name@);
        }
        let ghost rotated = self@;
        match self.tokens.mint_for_session(&mut self.table, name.clone(), generation, now) {
            Err(error) => {
                assert(self@ =~= rotated);
                Err(error)
            },
            Ok(token) => {
                let event = AuditEvent::new(AuditKind::SessionRenew).session(name, generation);
                self.audit.record(event);
                proof {
                    assert(self@ =~= rotated.with_token(
                        name@,
                        generation,
                        token.plaintext@,
                        now,
                    ).noting(
                        AuditRecord::of(AuditKind::SessionRenew).with_session(name@, generation),
                    ));
                    lemma_minted_wf(
                        rotated,
                        name@,
                        generation,
                        token.plaintext@,
                        now,
                        AuditRecord::of(AuditKind::SessionRenew).with_session(name@, generation),
                    );
                }
                Ok(SessionCredential { session: name.clone(), generation, token })
            },
        }
    }
}

/// Why a session is torn down.
#[derive(Clone, Copy, Debug, PartialEq, Eq, Structural)]
pub enum EndReason {
    /// An operator killed it.
    AdminKill,
    /// A TTL elapsed.
    Expired { absolute: bool },
    /// The child exited on its own.
    SelfExit,
    /// The runtime is shutting down.
    Shutdown,
    /// It makes room for its successor.
    Restart,
}

/// Who ended a session that ends for this reason.
pub open spec fn reason_class(reason: EndReason) -> TerminationClass {
    match reason {
        EndReason::AdminKill => TerminationClass::UserKill,
        EndReason::Expired { .. } => TerminationClass::UserKill,
        EndReason::SelfExit => TerminationClass::SelfExit,
        EndReason::Shutdown => TerminationClass::RuntimeShutdown,
        EndReason::Restart => TerminationClass::UserKill,
    }
}

/// What an attached client is told of a session that ends for this reason.
pub open spec fn reason_code(reason: EndReason) -> u16 {
    match reason {
        EndReason::AdminKill => close_code::ADMIN_KILL,
        EndReason::Expired { .. } => close_code::TTL_EXPIRED,
        EndReason::SelfExit => close_code::SESSION_ENDED,
        EndReason::Shutdown => close_code::RUNTIME_REPLACED,
        EndReason::Restart => close_code::SESSION_ENDED,
    }
}

/// Whether a session that ends for this reason can be restarted by name.
pub open spec fn reason_remembered(reason: EndReason) -> bool {
    match reason {
        EndReason::AdminKill | EndReason::Expired { .. } | EndReason::SelfExit => true,
        EndReason::Shutdown | EndReason::Restart => false,
    }
}

impl EndReason {
    pub fn class(self) -> (class: TerminationClass)
        ensures
            class == reason_class(self),
    {
        match self {
            EndReason::AdminKill => TerminationClass::UserKill,
            EndReason::Expired { .. } => TerminationClass::UserKill,
            EndReason::SelfExit => TerminationClass::SelfExit,
            EndReason::Shutdown => TerminationClass::RuntimeShutdown,
            EndReason::Restart => TerminationClass::UserKill,
        }
    }

    pub fn close_code(self) -> (code: u16)
        ensures
            code == reason_code(self),
    {
        match self {
            EndReason::AdminKill => close_code::ADMIN_KILL,
            EndReason::Expired { .. } => close_code::TTL_EXPIRED,
            EndReason::SelfExit => close_code::SESSION_ENDED,
            EndReason::Shutdown => close_code::RUNTIME_REPLACED,
            EndReason::Restart => close_code::SESSION_ENDED,
        }
    }

    fn is_remembered(self) -> (remembered: bool)
        ensures
            remembered == reason_remembered(self),
    {
        match self {
            EndReason::AdminKill | EndReason::Expired { .. } | EndReason::SelfExit => true,
            EndReason::Shutdown | EndReason::Restart => false,
        }
    }
}

/// A teardown that has begun: the session is dead and its connection closed, and
/// what is left to do is to kill what it left behind.
#[derive(Debug)]
pub struct TeardownTicket {
    session: SessionName,
    session_id: u64,
    generation: Generation,
    reason: EndReason,
    domain: SessionKillDomain,
}

/// The content of a [`TeardownTicket`].
#[verifier::ext_equal]
pub struct TicketModel {
    pub session: Seq<char>,
    pub session_id: u64,
    pub generation: Generation,
    pub reason: EndReason,
    pub domain: SessionDomainModel,
}

impl View for TeardownTicket {
    type V = TicketModel;

    closed spec fn view(&self) -> TicketModel {
        TicketModel {
            session: self.session@,
            session_id: self.session_id,
            generation: self.generation,
            reason: self.reason,
            domain: self.domain@,
        }
    }
}

impl TeardownTicket {
    pub fn session(&self) -> (name: &SessionName)
        ensures
            name@ == self@.session,
    {
        &self.session
    }

    pub fn session_id(&self) -> (id: u64)
        ensures
            id == self@.session_id,
    {
        self.session_id
    }

    pub fn generation(&self) -> (generation: Generation)
        ensures
            generation == self@.generation,
    {
        self.generation
    }

    /// What there is to kill.
    pub fn domain(&self) -> (domain: &SessionKillDomain)
        ensures
            domain@ == self@.domain,
    {
        &self.domain
    }
}

/// Report from a teardown, for audit and status.
#[derive(Clone, Debug)]
pub struct TeardownReport {
    pub session: String,
    pub generation: u64,
    pub class: TerminationClass,
    pub close_code: u16,
    pub kill_domain: TeardownOutcome,
}

impl ManagerModel {
    /// The manager after a teardown began: the session is dead, its tokens are
    /// revoked and its connection is closed.
    pub open spec fn ending(self, name: Seq<char>, reason: EndReason) -> ManagerModel {
        let session = self.sessions[name];
        let ended = self.with_session(session.ended(reason_class(reason)));
        let revoked = if session.alive {
            ManagerModel {
                tokens: self.tokens.remove(name),
                store: self.after_revoking(name, session.generation),
                ..ended
            }
        } else {
            ended
        };
        ManagerModel {
            links: closed_link(self.links, session.link, reason_code(reason)),
            ..revoked
        }
    }

    /// The ticket of that teardown.
    pub open spec fn ticket(self, name: Seq<char>, reason: EndReason) -> TicketModel {
        TicketModel {
            session: name,
            session_id: self.sessions[name].id,
            generation: self.sessions[name].generation,
            reason,
            domain: self.sessions[name].domain,
        }
    }
}

impl SessionManager {
    /// **Session-teardown** begins: notify the client, close its socket. Both are
    /// non-blocking: teardown must not wait for a client to drain, or a non-reading
    /// client could delay expiry. The caller then kills what the ticket names, and
    /// reports back with [`SessionManager::finish_teardown`].
    fn begin_teardown(&mut self, name: &SessionName, id: u64, reason: EndReason) -> (ticket: Option<
        TeardownTicket,
    >)
        requires
            old(self)@.wf(),
        ensures
            final(self)@.wf(),
            match ticket {
                Some(ticket) => {
                    &&& old(self)@.holds(name@, id)
                    &&& ticket@ == old(self)@.ticket(name@, reason)
                    &&& final(self)@ == old(self)@.ending(name@, reason)
                },
                None => !old(self)@.holds(name@, id) && final(self)@ == old(self)@,
            },
    {
        let ghost before = self@;
        match self.take_session(name, id) {
            None => None,
            Some(mut session) => {
                assert(before.session_fits(name@));
                let was_alive: bool = session.is_alive();
                let generation = session.generation();
                let (domain, link) = session.end(reason.class());
                self.put_session(session);
                assert(self@ =~= before.with_session(session@));
                if was_alive {
                    self.tokens.revoke_session(&mut self.table, name, generation);
                }
                self.links.close(link, reason.close_code());
                proof {
                    assert(self@ =~= before.ending(name@, reason));
                    lemma_one_session_changed(before, self@, name@);
                }
                Some(
                    TeardownTicket {
                        session: name.clone(),
                        session_id: id,
                        generation,
                        reason,
                        domain,
                    },
                )
            },
        }
    }

    /// Remote-admin `kill`. The caller runs the teardown that the ticket stands
    /// for.
    pub fn kill(&mut self, name: &SessionName) -> (result: Result<TeardownTicket, Error>)
        requires
            old(self)@.wf(),
        ensures
            final(self)@.wf(),
            if old(self)@.sessions.contains_key(name@) {
                &&& result matches Ok(ticket)
                &&& ticket@ == old(self)@.ticket(name@, EndReason::AdminKill)
                &&& final(self)@ == old(self)@.ending(name@, EndReason::AdminKill)
            } else {
                &&& result matches Err(Error::NotFound(missing)) && missing@ == name@
                &&& final(self)@ == old(self)@
            },
    {
        let id: u64 = match self.get(name) {
            Some(session) => session.id(),
            None => return Err(Error::NotFound(name.clone())),
        };
        match self.begin_teardown(name, id, EndReason::AdminKill) {
            Some(ticket) => Ok(ticket),
            None => Err(Error::NotFound(name.clone())),
        }
    }

    /// Runtime shutdown of one session: it ends with the runtime-replaced code, so
    /// its client can say "your task was replaced, the workspace was reset". `None`
    /// where the session is gone already.
    pub fn shutdown(&mut self, name: &SessionName, id: u64) -> (ticket: Option<TeardownTicket>)
        requires
            old(self)@.wf(),
        ensures
            final(self)@.wf(),
            if old(self)@.holds(name@, id) {
                &&& ticket matches Some(ticket)
                &&& ticket@ == old(self)@.ticket(name@, EndReason::Shutdown)
                &&& final(self)@ == old(self)@.ending(name@, EndReason::Shutdown)
            } else {
                ticket is None && final(self)@ == old(self)@
            },
    {
        self.begin_teardown(name, id, EndReason::Shutdown)
    }

    /// The child exited on its own. `None` where the session is dead or gone
    /// already, which is no self-exit.
    pub fn handle_self_exit(&mut self, name: &SessionName, id: u64) -> (ticket: Option<
        TeardownTicket,
    >)
        requires
            old(self)@.wf(),
        ensures
            final(self)@.wf(),
            if old(self)@.holds(name@, id) && old(self)@.sessions[name@].alive {
                &&& ticket matches Some(ticket)
                &&& ticket@ == old(self)@.ticket(name@, EndReason::SelfExit)
                &&& final(self)@ == (ManagerModel {
                    metrics: Metrics {
                        self_exits: bumped(old(self)@.metrics.self_exits),
                        ..old(self)@.metrics
                    },
                    ..old(self)@.ending(name@, EndReason::SelfExit)
                })
            } else {
                ticket is None && final(self)@ == old(self)@
            },
    {
        let alive: bool = match self.get(name) {
            Some(session) => session.id() == id && session.is_alive(),
            None => false,
        };
        if !alive {
            return None;
        }
        let ticket = self.begin_teardown(name, id, EndReason::SelfExit);
        let ghost ended = self@;
        self.metrics.self_exits = bump(self.metrics.self_exits);
        proof {
            assert(self@ =~= (ManagerModel {
                metrics: Metrics {
                    self_exits: bumped(old(self)@.metrics.self_exits),
                    ..old(self)@.metrics
                },
                ..ended
            }));
            lemma_books_keep_wf(ended, self@);
        }
        ticket
    }
}

/// Counting and recording keep the manager whole.
proof fn lemma_books_keep_wf(before: ManagerModel, after: ManagerModel)
    requires
        before.wf(),
        after.sessions == before.sessions,
        after.links == before.links,
        after.tokens == before.tokens,
        after.tombstones.len() <= MAX_TOMBSTONES,
        after.policy == before.policy,
        after.config == before.config,
        after.epoch == before.epoch,
        after.next_id == before.next_id,
        after.next_link == before.next_link,
    ensures
        after.wf(),
{
    assert forall|other: Seq<char>| #[trigger] after.sessions.contains_key(
        other,
    ) implies after.session_fits(other) by {
        assert(before.session_fits(other));
    }
    assert forall|other: Seq<char>| #[trigger] after.tokens.contains_key(
        other,
    ) implies after.token_fits(other) by {
        assert(before.token_fits(other));
    }
    assert forall|a: Seq<char>, b: Seq<char>|
        #![trigger after.sessions[a], after.sessions[b]]
        after.sessions.contains_key(a) && after.sessions.contains_key(b) && a
            != b implies after.apart(a, b) by {
        assert(before.apart(a, b));
    }
}

/// A yes-or-no as it is printed.
pub open spec fn truth(value: bool) -> Seq<char> {
    if value {
        "true"@
    } else {
        "false"@
    }
}

/// The record of a finished teardown.
pub open spec fn kill_record(ticket: TicketModel, survivors: nat) -> AuditRecord {
    AuditRecord::of(AuditKind::SessionKill).with_session(
        ticket.session,
        ticket.generation,
    ).with_termination(reason_class(ticket.reason)).with_detail(
        tier_label(ticket.domain.tier) + "; survivors="@ + decimal(survivors) + "; best_effort="@
            + truth(tier_guarantee(ticket.domain.tier) == TeardownGuarantee::BestEffort),
    )
}

/// The kill domain after a teardown: survivors are counted and recorded, and the
/// session's tracking budget is returned.
pub open spec fn kill_after(
    kill: DomainModel,
    domain: SessionDomainModel,
    survivors: Seq<i32>,
) -> DomainModel {
    let concluded = if survivors.len() == 0 {
        kill
    } else {
        DomainModel {
            leaked: (kill.leaked + survivors.len()) % 0x1_0000_0000_0000_0000,
            audit: kill.audit.push(survivor_record(domain, survivors)),
            ..kill
        }
    };
    DomainModel {
        on_record: less_wrapped(concluded.on_record, domain.children.len()),
        ..concluded
    }
}

/// The tombstones after one more: the oldest make room.
pub open spec fn buried(
    tombstones: Seq<TombstoneModel>,
    tombstone: TombstoneModel,
) -> Seq<TombstoneModel> {
    let all = tombstones.push(tombstone);
    if all.len() > MAX_TOMBSTONES {
        all.drop_first()
    } else {
        all
    }
}

impl ManagerModel {
    /// The manager after a teardown: the session's name is free again.
    pub open spec fn finished(self, ticket: TicketModel, survivors: Seq<i32>) -> ManagerModel {
        ManagerModel {
            sessions: if self.holds(ticket.session, ticket.session_id)
                && !self.sessions[ticket.session].alive {
                self.sessions.remove(ticket.session)
            } else {
                self.sessions
            },
            tombstones: if reason_remembered(ticket.reason) {
                buried(
                    self.tombstones,
                    TombstoneModel {
                        name: ticket.session,
                        generation: ticket.generation,
                        class: reason_class(ticket.reason),
                    },
                )
            } else {
                self.tombstones
            },
            kill: kill_after(self.kill, ticket.domain, survivors),
            metrics: if ticket.reason is Expired {
                Metrics { ttl_expired: bumped(self.metrics.ttl_expired), ..self.metrics }
            } else {
                self.metrics
            },
            audit: self.audit.push(kill_record(ticket, survivors.len())),
            ..self
        }
    }
}

/// Freeing the name of a dead session keeps the manager whole.
proof fn lemma_forgotten_wf(before: ManagerModel, after: ManagerModel, name: Seq<char>)
    requires
        before.wf(),
        before.sessions.contains_key(name),
        !before.sessions[name].alive,
        after.sessions == before.sessions.remove(name),
        after.links == before.links,
        after.tokens == before.tokens,
        after.tombstones.len() <= MAX_TOMBSTONES,
        after.policy == before.policy,
        after.config == before.config,
        after.epoch == before.epoch,
        after.next_id == before.next_id,
        after.next_link == before.next_link,
    ensures
        after.wf(),
{
    assert forall|other: Seq<char>| #[trigger] after.sessions.contains_key(
        other,
    ) implies after.session_fits(other) by {
        assert(before.sessions.contains_key(other));
        assert(before.session_fits(other));
    }
    assert forall|other: Seq<char>| #[trigger] after.tokens.contains_key(
        other,
    ) implies after.token_fits(other) by {
        assert(before.token_fits(other));
    }
    assert forall|a: Seq<char>, b: Seq<char>|
        #![trigger after.sessions[a], after.sessions[b]]
        after.sessions.contains_key(a) && after.sessions.contains_key(b) && a
            != b implies after.apart(a, b) by {
        assert(before.sessions.contains_key(a) && before.sessions.contains_key(b));
        let x = before.sessions[a];
        let y = before.sessions[b];
        assert(before.apart(a, b));
    }
}

impl SessionManager {
    /// Remember a session that ended. The oldest tombstone makes room.
    fn remember_dead(&mut self, tombstone: Tombstone)
        requires
            old(self)@.tombstones.len() <= MAX_TOMBSTONES,
        ensures
            final(self)@ == (ManagerModel {
                tombstones: buried(
                    old(self)@.tombstones,
                    TombstoneModel {
                        name: tombstone.name@,
                        generation: tombstone.generation,
                        class: tombstone.class,
                    },
                ),
                ..old(self)@
            }),
            final(self)@.tombstones.len() <= MAX_TOMBSTONES,
    {
        assert(self@.tombstones.len() == self.tombstones@.len());
        self.tombstones.push(tombstone);
        let ghost grown = self.tombstones@;
        if self.tombstones.len() > MAX_TOMBSTONES {
            let _ = self.tombstones.remove(0);
            assert(self.tombstones@ =~= grown.drop_first());
        }
        assert(self@ =~= (ManagerModel {
            tombstones: buried(
                old(self)@.tombstones,
                TombstoneModel {
                    name: tombstone.name@,
                    generation: tombstone.generation,
                    class: tombstone.class,
                },
            ),
            ..old(self)@
        }));
    }

    /// A teardown is over: what the ticket named was killed, but for `survivors`.
    /// Buffers are dropped, the tracking budget and the name are released, and the
    /// session is remembered so it can be restarted. Answers the report, and the
    /// name of the session cgroup, which the caller removes.
    pub fn finish_teardown(
        &mut self,
        ticket: TeardownTicket,
        survivors: Vec<i32>,
        started: u128,
        now: u128,
    ) -> (result: (TeardownReport, Option<String>))
        requires
            old(self)@.wf(),
            started <= now,
        ensures
            final(self)@.wf(),
            final(self)@ == old(self)@.finished(ticket@, survivors@),
            result.0.session@ == ticket@.session,
            result.0.generation == ticket@.generation.0,
            result.0.class == reason_class(ticket@.reason),
            result.0.close_code == reason_code(ticket@.reason),
            result.0.kill_domain.tier == ticket@.domain.tier,
            result.0.kill_domain.guarantee == tier_guarantee(ticket@.domain.tier),
            result.0.kill_domain.survivors@ == survivors@,
            result.0.kill_domain.elapsed_ms == ((now - started)
                / crate::clock::MILLISECOND as int) as u64,
            crate::audit::text_view(result.1) == ticket@.domain.cgroup,
    {
        let ghost before = self@;
        let TeardownTicket { session, session_id, generation, reason, domain } = ticket;
        let mut domain = domain;
        let outcome = domain.conclude(&mut self.kill, survivors, started, now);
        let cgroup = domain.release(&mut self.kill);
        assert(self.kill@ =~= kill_after(before.kill, ticket@.domain, survivors@));
        let head = joined(outcome.tier.label(), "; survivors=");
        let count = joined(
            head.as_str(),
            decimal_text(outcome.survivors.len() as u128).as_str(),
        );
        let label = joined(count.as_str(), "; best_effort=");
        let detail = joined(
            label.as_str(),
            if outcome.is_best_effort() {
                "true"
            } else {
                "false"
            },
        );
        let event = AuditEvent::new(AuditKind::SessionKill).session(
            &session,
            generation,
        ).termination(reason.class()).detail(detail.as_str());
        self.audit.record(event);
        let dead: bool = match self.sessions.get(session.as_str()) {
            Some(found) => found.id() == session_id && !found.is_alive(),
            None => false,
        };
        let ghost noted = self@;
        assert(noted =~= (ManagerModel {
            kill: kill_after(before.kill, ticket@.domain, survivors@),
            audit: before.audit.push(kill_record(ticket@, survivors@.len())),
            ..before
        }));
        proof {
            lemma_books_keep_wf(before, noted);
        }
        if dead {
            let _ = self.sessions.remove(session.as_str());
            proof {
                assert(self@ =~= (ManagerModel {
                    sessions: before.sessions.remove(session@),
                    ..noted
                }));
                lemma_forgotten_wf(noted, self@, session@);
            }
        }
        let ghost forgotten = self@;
        if reason.is_remembered() {
            self.remember_dead(
                Tombstone { name: session.clone(), generation, class: reason.class() },
            );
        }
        if let EndReason::Expired { .. } = reason {
            self.metrics.ttl_expired = bump(self.metrics.ttl_expired);
        }
        proof {
            assert(self@ =~= before.finished(ticket@, survivors@));
            lemma_books_keep_wf(forgotten, self@);
        }
        (
            TeardownReport {
                session: session.to_string(),
                generation: generation.0,
                class: reason.class(),
                close_code: reason.close_code(),
                kill_domain: outcome,
            },
            cgroup,
        )
    }
}

/// What a [`SessionManager::tick`] did.
#[derive(Clone, Debug, PartialEq, Eq)]
pub enum TtlAction {
    Warned { session: SessionName, absolute: bool },
    Expired { session: SessionName, absolute: bool },
}

impl ManagerModel {
    /// The manager after a warning was sent.
    pub open spec fn warned(
        self,
        name: Seq<char>,
        absolute: bool,
        seconds_remaining: u64,
    ) -> ManagerModel {
        let session = self.sessions[name];
        ManagerModel {
            links: told_link(
                self.links,
                session.link,
                ControlModel::TtlWarning { seconds_remaining, absolute },
            ),
            ..self.with_session(
                session.after_ttl(Some(TtlDecision::Warn { absolute, seconds_remaining })),
            )
        }
    }
}

impl SessionManager {
    /// TTL maintenance of one session. Answers what it did, and the teardown that
    /// the caller runs where the session expired.
    ///
    /// Expiry is client-visible: a warning control frame precedes forced teardown,
    /// and teardown closes with [`close_code::TTL_EXPIRED`].
    pub fn tick(&mut self, name: &SessionName, id: u64, now: u128) -> (done: (
        Option<TtlAction>,
        Option<TeardownTicket>,
    ))
        requires
            old(self)@.wf(),
            in_range(now),
        ensures
            final(self)@.wf(),
            if !old(self)@.holds(name@, id) {
                done.0 is None && done.1 is None && final(self)@ == old(self)@
            } else {
                match old(self)@.sessions[name@].ttl_decision(
                    old(self)@.policy,
                    old(self)@.epoch,
                    now,
                ) {
                    None => done.0 is None && done.1 is None && final(self)@ == old(self)@,
                    Some(TtlDecision::Warn { absolute, seconds_remaining }) => {
                        &&& done.0 matches Some(TtlAction::Warned { session, absolute: which })
                            && session@ == name@ && which == absolute
                        &&& done.1 is None
                        &&& final(self)@ == old(self)@.warned(name@, absolute, seconds_remaining)
                    },
                    Some(TtlDecision::Expire { absolute }) => {
                        &&& done.0 matches Some(TtlAction::Expired { session, absolute: which })
                            && session@ == name@ && which == absolute
                        &&& done.1 matches Some(ticket) && ticket@ == old(self)@.ticket(
                            name@,
                            EndReason::Expired { absolute },
                        )
                        &&& final(self)@ == old(self)@.ending(
                            name@,
                            EndReason::Expired { absolute },
                        )
                    },
                }
            },
    {
        let ghost before = self@;
        let mut session = match self.take_session(name, id) {
            None => return (None, None),
            Some(session) => session,
        };
        assert(before.session_fits(name@));
        let decision = session.check_ttl(&self.policy, self.epoch, now);
        let link = session.link();
        self.put_session(session);
        assert(self@ =~= before.with_session(session@));
        match decision {
            None => {
                assert(self@ =~= before);
                (None, None)
            },
            Some(TtlDecision::Warn { absolute, seconds_remaining }) => {
                self.links.tell(link, ControlEvent::TtlWarning { seconds_remaining, absolute });
                proof {
                    assert(self@ =~= before.warned(name@, absolute, seconds_remaining));
                    lemma_one_session_changed(before, self@, name@);
                }
                (Some(TtlAction::Warned { session: name.clone(), absolute }), None)
            },
            Some(TtlDecision::Expire { absolute }) => {
                assert(self@ =~= before);
                let ticket = self.begin_teardown(name, id, EndReason::Expired { absolute });
                (Some(TtlAction::Expired { session: name.clone(), absolute }), ticket)
            },
        }
    }
}

/// One session, as opposed to others of its name.
#[derive(Debug)]
pub struct SessionKey {
    pub name: SessionName,
    pub id: u64,
}

/// The names in a list of keys.
pub open spec fn key_names(keys: Seq<SessionKey>) -> Seq<Seq<char>> {
    Seq::new(keys.len(), |i: int| keys[i].name@)
}

/// Snapshot for admin `list` output.
#[derive(Clone, Debug)]
pub struct SessionStatus {
    pub name: String,
    pub generation: u64,
    pub alive: bool,
    pub attached: bool,
    pub bytes_written: u64,
    pub disk_used_kib: u64,
    pub tier: KillDomainTier,
    /// Repeated per session because the guarantee is per runtime but consumed per
    /// session.
    pub teardown_best_effort: bool,
    pub absolute_ttl_best_effort: bool,
}

/// Whether a status says what is known of a session.
pub open spec fn describes(
    status: SessionStatus,
    session: SessionModel,
    tier: KillDomainTier,
) -> bool {
    &&& status.name@ == session.name
    &&& status.generation == session.generation.0
    &&& status.alive == session.alive
    &&& status.attached == (session.owner.0 != 0)
    &&& status.bytes_written == session.ring.written
    &&& status.disk_used_kib == session.disk_used_kib
    &&& status.tier == tier
    &&& status.teardown_best_effort == (tier == KillDomainTier::Tier1BestEffortProcessGroup)
    &&& status.absolute_ttl_best_effort == (tier == KillDomainTier::Tier1BestEffortProcessGroup)
}

impl SessionManager {
    /// Every session there is, in order of name.
    pub fn session_keys(&self) -> (keys: Vec<SessionKey>)
        requires
            self@.wf(),
        ensures
            ascending(key_names(keys@)),
            forall|i: int|
                0 <= i < keys@.len() ==> self@.holds((#[trigger] keys@[i]).name@, keys@[i].id),
            forall|name: Seq<char>| #[trigger]
                self@.sessions.contains_key(name) ==> key_names(keys@).contains(name),
    {
        let mut keys: Vec<SessionKey> = Vec::new();
        let n: usize = self.sessions.len();
        let mut i: usize = 0;
        while i < n
            invariant
                0 <= i <= n,
                self@.wf(),
                n == self.sessions.entries().len(),
                crate::table::unique_keys(self.sessions.entries()),
                ascending(key_names(keys@)),
                forall|k: int|
                    0 <= k < keys@.len() ==> self@.holds((#[trigger] keys@[k]).name@, keys@[k].id),
                forall|k: int|
                    0 <= k < keys@.len() ==> exists|j: int|
                        0 <= j < i && self.sessions.entries()[j].0 == (#[trigger] keys@[k]).name@,
                forall|j: int|
                    0 <= j < i ==> key_names(keys@).contains(
                        (#[trigger] self.sessions.entries()[j]).0,
                    ),
            decreases n - i,
        {
            let ghost before = keys@;
            let ghost entries = self.sessions.entries();
            let session = self.sessions.value_at(i);
            proof {
                self.lemma_entry(i as int);
            }
            let name = session.name().clone();
            let mut at: usize = 0;
            while at < keys.len() && comes_before(keys[at].name.as_str(), name.as_str())
                invariant
                    0 <= at <= keys@.len(),
                    keys@ == before,
                    forall|k: int|
                        0 <= k < at ==> crate::order::text_less(
                            (#[trigger] before[k]).name@,
                            name@,
                        ),
                decreases keys@.len() - at,
            {
                at += 1;
            }
            assert forall|k: int| 0 <= k < before.len() implies (#[trigger] before[k]).name@
                != name@ by {
                let j = choose|j: int| 0 <= j < i && entries[j].0 == before[k].name@;
                assert(entries[j].0 != entries[i as int].0);
            }
            let ghost key = SessionKey { name, id: session@.id };
            keys.insert(at, SessionKey { name, id: session.id() });
            proof {
                if at < before.len() {
                    crate::order::lemma_less_total(before[at as int].name@, name@);
                }
                lemma_keys_insert(before, at as int, key);
                assert(keys@ =~= before.insert(at as int, key));
                assert forall|k: int| 0 <= k < keys@.len() implies exists|j: int|
                    0 <= j < i + 1 && entries[j].0 == (#[trigger] keys@[k]).name@ by {
                    if k == at {
                        assert(entries[i as int].0 == keys@[k].name@);
                    } else {
                        let o = if k < at {
                            k
                        } else {
                            k - 1
                        };
                        let j = choose|j: int| 0 <= j < i && entries[j].0 == before[o].name@;
                        assert(entries[j].0 == keys@[k].name@);
                    }
                }
                assert forall|j: int| 0 <= j < i + 1 implies key_names(keys@).contains(
                    (#[trigger] entries[j]).0,
                ) by {
                    if j == i {
                        assert(key_names(keys@)[at as int] == entries[j].0);
                    } else {
                        let o = choose|o: int|
                            0 <= o < key_names(before).len() && key_names(before)[o]
                                == entries[j].0;
                        let g = if o < at {
                            o
                        } else {
                            o + 1
                        };
                        assert(key_names(keys@)[g] == entries[j].0);
                    }
                }
                assert forall|k: int| 0 <= k < keys@.len() implies self@.holds(
                    (#[trigger] keys@[k]).name@,
                    keys@[k].id,
                ) by {
                    if k != at {
                        let o = if k < at {
                            k
                        } else {
                            k - 1
                        };
                        assert(self@.holds(before[o].name@, before[o].id));
                    }
                }
            }
            i += 1;
        }
        proof {
            assert forall|name: Seq<char>| #[trigger] self@.sessions.contains_key(
                name,
            ) implies key_names(keys@).contains(name) by {
                crate::table::lemma_unique_find(self.sessions.entries(), name);
            }
        }
        keys
    }

    /// An entry of the session table stands under its session's name.
    proof fn lemma_entry(&self, i: int)
        requires
            self@.wf(),
            crate::table::unique_keys(self.sessions.entries()),
            0 <= i < self.sessions.entries().len(),
        ensures
            self.sessions.entries()[i].0 == self.sessions.entries()[i].1@.name,
            self@.sessions.contains_key(self.sessions.entries()[i].0),
            self@.sessions[self.sessions.entries()[i].0] == self.sessions.entries()[i].1@,
    {
        let entry = self.sessions.entries()[i];
        crate::table::lemma_unique_find(self.sessions.entries(), entry.0);
        assert(self@.sessions.contains_key(entry.0));
        assert(self@.session_fits(entry.0));
    }

    /// What is known of every session, in order of name.
    pub fn list(&self) -> (statuses: Vec<SessionStatus>)
        requires
            self@.wf(),
        ensures
            ascending(Seq::new(statuses@.len(), |i: int| statuses@[i].name@)),
            forall|i: int|
                0 <= i < statuses@.len() ==> {
                    &&& self@.sessions.contains_key((#[trigger] statuses@[i]).name@)
                    &&& describes(
                        statuses@[i],
                        self@.sessions[statuses@[i].name@],
                        self@.kill.selection.tier,
                    )
                },
            forall|name: Seq<char>| #[trigger]
                self@.sessions.contains_key(name) ==> exists|i: int|
                    0 <= i < statuses@.len() && (#[trigger] statuses@[i]).name@ == name,
    {
        let keys = self.session_keys();
        let tier = self.kill.tier();
        let mut statuses: Vec<SessionStatus> = Vec::new();
        let mut i: usize = 0;
        while i < keys.len()
            invariant
                0 <= i <= keys@.len(),
                self@.wf(),
                tier == self@.kill.selection.tier,
                statuses@.len() == i,
                forall|k: int|
                    0 <= k < keys@.len() ==> self@.holds((#[trigger] keys@[k]).name@, keys@[k].id),
                forall|k: int|
                    0 <= k < i ==> {
                        &&& (#[trigger] statuses@[k]).name@ == keys@[k].name@
                        &&& describes(statuses@[k], self@.sessions[keys@[k].name@], tier)
                    },
            decreases keys@.len() - i,
        {
            assert(self@.holds(keys@[i as int].name@, keys@[i as int].id));
            if let Some(session) = self.get(&keys[i].name) {
                assert(self@.session_fits(keys@[i as int].name@));
                statuses.push(
                    SessionStatus {
                        name: session.name().to_string(),
                        generation: session.generation().0,
                        alive: session.is_alive(),
                        attached: session.is_attached(),
                        bytes_written: session.total_written(),
                        disk_used_kib: session.disk_used_kib(),
                        tier,
                        teardown_best_effort: tier.is_best_effort(),
                        absolute_ttl_best_effort: tier.is_best_effort(),
                    },
                );
            }
            i += 1;
        }
        proof {
            assert(Seq::new(statuses@.len(), |i: int| statuses@[i].name@) =~= key_names(keys@));
            assert forall|name: Seq<char>| #[trigger] self@.sessions.contains_key(
                name,
            ) implies exists|i: int|
                0 <= i < statuses@.len() && (#[trigger] statuses@[i]).name@ == name by {
                let k = choose|k: int|
                    0 <= k < key_names(keys@).len() && key_names(keys@)[k] == name;
                assert(statuses@[k].name@ == name);
            }
            assert forall|i: int| 0 <= i < statuses@.len() implies self@.sessions.contains_key(
                (#[trigger] statuses@[i]).name@,
            ) by {
                assert(self@.holds(keys@[i].name@, keys@[i].id));
            }
        }
        statuses
    }
}

proof fn lemma_keys_insert(keys: Seq<SessionKey>, at: int, key: SessionKey)
    requires
        ascending(key_names(keys)),
        0 <= at <= keys.len(),
        forall|k: int|
            0 <= k < at ==> crate::order::text_less((#[trigger] keys[k]).name@, key.name@),
        at < keys.len() ==> crate::order::text_less(key.name@, keys[at].name@),
    ensures
        ascending(key_names(keys.insert(at, key))),
{
    let grown = keys.insert(at, key);
    assert forall|i: int, j: int| 0 <= i < j < grown.len() implies crate::order::text_less(
        #[trigger] key_names(grown)[i],
        #[trigger] key_names(grown)[j],
    ) by {
        let oi = if i < at {
            i
        } else {
            i - 1
        };
        let oj = if j < at {
            j
        } else {
            j - 1
        };
        if i != at && j != at {
            assert(crate::order::text_less(key_names(keys)[oi], key_names(keys)[oj]));
        } else if i == at {
            if oj > at {
                assert(crate::order::text_less(key_names(keys)[at], key_names(keys)[oj]));
                crate::order::lemma_less_transitive(
                    key.name@,
                    keys[at].name@,
                    keys[oj].name@,
                );
            }
        } else {
            assert(crate::order::text_less(keys[oi].name@, key.name@));
        }
    }
}

/// A spawn that was decided on. The caller starts the child, and reports back with
/// [`SessionManager::spawn_session`].
#[derive(Debug)]
pub struct SpawnPlan {
    request: SpawnRequest,
    generation: Generation,
    containment: SessionKillDomain,
    restart: bool,
}

/// The content of a [`SpawnPlan`].
#[verifier::ext_equal]
pub struct PlanModel {
    pub session: Seq<char>,
    pub command: Seq<char>,
    pub cwd: Seq<char>,
    pub env: Seq<(Seq<char>, Seq<char>)>,
    pub size: WindowSize,
    pub generation: Generation,
    pub containment: SessionDomainModel,
    pub restart: bool,
}

impl View for SpawnPlan {
    type V = PlanModel;

    closed spec fn view(&self) -> PlanModel {
        PlanModel {
            session: self.request.session@,
            command: self.request.command@,
            cwd: self.request.cwd@,
            env: env_view(self.request.env@),
            size: self.request.size,
            generation: self.generation,
            containment: self.containment@,
            restart: self.restart,
        }
    }
}

impl SpawnPlan {
    /// Nothing is on record of a child that is not there yet.
    #[verifier::type_invariant]
    spec fn untouched(self) -> bool {
        self.containment@.children.len() == 0
    }

    /// What to start.
    pub fn request(&self) -> (request: &SpawnRequest)
        ensures
            request.session@ == self@.session,
            request.command@ == self@.command,
            request.cwd@ == self@.cwd,
            env_view(request.env@) == self@.env,
            request.size == self@.size,
    {
        &self.request
    }

    /// Where to start it.
    pub fn containment(&self) -> (containment: &SessionKillDomain)
        ensures
            containment@ == self@.containment,
    {
        &self.containment
    }
}

/// Whether a session may be created.
pub enum Admission {
    Open,
    Exists,
    Full,
    VolumeFull,
}

impl ManagerModel {
    /// The names of the live sessions.
    pub open spec fn live(self) -> Set<Seq<char>> {
        self.sessions.dom().filter(|name: Seq<char>| self.sessions[name].alive)
    }

    /// Whether a session of this name may be created.
    pub open spec fn admission(self, name: Seq<char>) -> Admission {
        if self.sessions.contains_key(name) {
            Admission::Exists
        } else if self.live().len() >= self.config.max_sessions {
            Admission::Full
        } else if self.volume_used_kib >= self.config.volume_capacity_kib {
            Admission::VolumeFull
        } else {
            Admission::Open
        }
    }

    /// Whether the selected tier can contain a session at all.
    pub open spec fn can_contain(self) -> bool {
        !(self.kill.selection.tier == KillDomainTier::Tier2GuaranteedCgroup
            && self.kill.selection.cgroup_base is None)
    }

    /// Whether this is the plan for a child of that session.
    pub open spec fn planned(
        self,
        plan: PlanModel,
        name: Seq<char>,
        size: WindowSize,
        generation: Generation,
        env: Seq<(Seq<char>, Seq<char>)>,
        workspace: Seq<char>,
        restart: bool,
    ) -> bool {
        &&& plan.session == name
        &&& plan.command == self.config.command
        &&& plan.cwd == workspace
        &&& exists|kept: Seq<(Seq<char>, Seq<char>)>| #[trigger]
            inherits(kept, env) && plan.env == completed(kept, workspace, DEFAULT_TERM@)
        &&& plan.size == size
        &&& plan.generation == generation
        &&& plan.containment == (SessionDomainModel {
            session: name,
            generation,
            tier: self.kill.selection.tier,
            cgroup: if self.kill.selection.tier == KillDomainTier::Tier2GuaranteedCgroup {
                Some("oab-pty-"@ + name)
            } else {
                None
            },
            leader_pgid: None,
            children: Seq::empty(),
        })
        &&& plan.restart == restart
    }
}

impl SessionManager {
    fn plan_spawn(
        &self,
        name: SessionName,
        size: WindowSize,
        generation: Generation,
        env: Vec<(String, String)>,
        workspace: &str,
        restart: bool,
    ) -> (result: Result<SpawnPlan, Error>)
        ensures
            if self@.can_contain() {
                &&& result matches Ok(plan)
                &&& self@.planned(
                    plan@,
                    name@,
                    size,
                    generation,
                    env_view(env@),
                    workspace@,
                    restart,
                )
            } else {
                result matches Err(Error::Other(message)) && message@
                    == "tier 2 selected without a delegated cgroup base"@
            },
    {
        let containment = match self.kill.open_session(&name, generation) {
            Ok(containment) => containment,
            Err(error) => return Err(error),
        };
        let env = child_env(env, workspace, Some(DEFAULT_TERM));
        let request = SpawnRequest {
            session: name,
            command: self.config.command.clone(),
            cwd: workspace.to_owned(),
            env,
            size,
        };
        Ok(SpawnPlan { request, generation, containment, restart })
    }

    /// How many sessions are alive.
    fn live_sessions(&self) -> (live: usize)
        requires
            self@.wf(),
        ensures
            live == self@.live().len(),
    {
        let n: usize = self.sessions.len();
        let mut live: usize = 0;
        let mut i: usize = 0;
        let ghost mut counted: Set<Seq<char>> = Set::empty();
        while i < n
            invariant
                0 <= i <= n,
                live <= i,
                self@.wf(),
                n == self.sessions.entries().len(),
                crate::table::unique_keys(self.sessions.entries()),
                counted.finite(),
                counted.len() == live,
                forall|name: Seq<char>| #[trigger]
                    counted.contains(name) <==> exists|j: int|
                        0 <= j < i && (#[trigger] self.sessions.entries()[j]).0 == name
                            && self.sessions.entries()[j].1@.alive,
            decreases n - i,
        {
            let ghost entries = self.sessions.entries();
            let ghost before = counted;
            if self.sessions.value_at(i).is_alive() {
                proof {
                    assert(!counted.contains(entries[i as int].0));
                    counted = counted.insert(entries[i as int].0);
                    assert forall|name: Seq<char>| #[trigger]
                        counted.contains(name) implies exists|j: int|
                        0 <= j < i + 1 && (#[trigger] entries[j]).0 == name
                            && entries[j].1@.alive by {
                        if name == entries[i as int].0 {
                            assert(entries[i as int].0 == name);
                        } else {
                            assert(before.contains(name));
                        }
                    }
                }
                live += 1;
            }
            i += 1;
        }
        proof {
            assert forall|name: Seq<char>| #[trigger] counted.contains(name) == self@.live().contains(
                name,
            ) by {
                if counted.contains(name) {
                    let j = choose|j: int|
                        0 <= j < i && (#[trigger] self.sessions.entries()[j]).0 == name
                            && self.sessions.entries()[j].1@.alive;
                    self.lemma_entry(j);
                }
                if self@.live().contains(name) {
                    crate::table::lemma_unique_find(self.sessions.entries(), name);
                    let j = choose|j: int|
                        0 <= j < self.sessions.entries().len() && self.sessions.entries()[j] == (
                            name,
                            self.sessions@[name],
                        );
                    assert(self.sessions.entries()[j].0 == name);
                }
            }
            assert(counted =~= self@.live());
        }
        live
    }

    /// Remote-admin `create`, up to the spawn: admission, then the plan. `env` is
    /// the runtime's own environment, `workspace` the child's home and working
    /// directory.
    pub fn create(
        &mut self,
        name: SessionName,
        size: WindowSize,
        env: Vec<(String, String)>,
        workspace: &str,
    ) -> (result: Result<SpawnPlan, Error>)
        requires
            old(self)@.wf(),
        ensures
            final(self)@.wf(),
            match old(self)@.admission(name@) {
                Admission::Exists => {
                    &&& result matches Err(Error::AlreadyExists(taken)) && taken@ == name@
                    &&& final(self)@ == old(self)@
                },
                Admission::Full => {
                    &&& result matches Err(Error::CapacityExceeded { limit }) && limit == old(
                        self,
                    )@.config.max_sessions
                    &&& final(self)@ == (ManagerModel {
                        metrics: Metrics {
                            admission_rejected: bumped(old(self)@.metrics.admission_rejected),
                            ..old(self)@.metrics
                        },
                        ..old(self)@
                    })
                },
                Admission::VolumeFull => {
                    &&& result matches Err(Error::Other(message)) && message@
                        == "workspace volume full: refusing to create a session"@
                    &&& final(self)@ == (ManagerModel {
                        metrics: Metrics {
                            admission_rejected: bumped(old(self)@.metrics.admission_rejected),
                            workspace_full: bumped(old(self)@.metrics.workspace_full),
                            ..old(self)@.metrics
                        },
                        ..old(self)@
                    })
                },
                Admission::Open => {
                    &&& final(self)@ == old(self)@
                    &&& if old(self)@.can_contain() {
                        &&& result matches Ok(plan)
                        &&& old(self)@.planned(
                            plan@,
                            name@,
                            size,
                            Generation(1),
                            env_view(env@),
                            workspace@,
                            false,
                        )
                    } else {
                        result matches Err(Error::Other(message)) && message@
                            == "tier 2 selected without a delegated cgroup base"@
                    }
                },
            },
    {
        let ghost before = self@;
        if self.get(&name).is_some() {
            return Err(Error::AlreadyExists(name));
        }
        if self.live_sessions() >= self.config.max_sessions {
            self.metrics.admission_rejected = bump(self.metrics.admission_rejected);
            proof {
                assert(self@ =~= (ManagerModel { metrics: self@.metrics, ..before }));
                lemma_books_keep_wf(before, self@);
            }
            return Err(Error::CapacityExceeded { limit: self.config.max_sessions });
        }
        if self.volume_used_kib >= self.config.volume_capacity_kib as u64 {
            self.metrics.admission_rejected = bump(self.metrics.admission_rejected);
            self.metrics.workspace_full = bump(self.metrics.workspace_full);
            proof {
                assert(self@ =~= (ManagerModel { metrics: self@.metrics, ..before }));
                lemma_books_keep_wf(before, self@);
            }
            return Err(
                Error::Other("workspace volume full: refusing to create a session".to_owned()),
            );
        }
        self.plan_spawn(name, size, Generation(1), env, workspace, false)
    }
}

/// How far a client may fall behind before it is dropped: four times its backlog.
pub open spec fn backlog_bounds(kib: nat) -> QueueBounds {
    QueueBounds {
        capacity_bytes: kib_bytes(kib) as usize,
        max_dropped_bytes: Some((kib_bytes(kib) * 4) as u64),
    }
}

/// The kill domain after a child was put on record.
pub open spec fn with_child(kill: DomainModel, pid: Option<i32>) -> DomainModel {
    match pid {
        Some(_) => DomainModel { on_record: kill.on_record + 1, ..kill },
        None => kill,
    }
}

/// The session's own domain after its leader was put on record.
pub open spec fn led_by(domain: SessionDomainModel, pid: Option<i32>) -> SessionDomainModel {
    match pid {
        Some(pid) => SessionDomainModel {
            leader_pgid: Some(pid),
            children: domain.children.push(pid),
            ..domain
        },
        None => domain,
    }
}

/// The limit that keeps one more process from going on record, if one does.
pub open spec fn tracking_limit(kill: DomainModel, pid: Option<i32>) -> Option<int> {
    if pid is None {
        None
    } else if kill.limits.max_tracked_per_session == 0 {
        Some(0)
    } else if kill.on_record >= kill.ceiling {
        Some(kill.ceiling)
    } else {
        None
    }
}

impl ManagerModel {
    /// The manager after a child was started.
    pub open spec fn spawned(
        self,
        plan: PlanModel,
        pid: Option<i32>,
        plaintext: Seq<u8>,
        now: u128,
    ) -> ManagerModel {
        let created = AuditRecord::of(AuditKind::SessionCreate).with_session(
            plan.session,
            plan.generation,
        ).with_detail("kill_domain="@ + tier_label(self.kill.selection.tier));
        let restarted = AuditRecord::of(AuditKind::SessionRestart).with_session(
            plan.session,
            plan.generation,
        ).with_detail("restart_in_place: fresh process, empty scrollback"@);
        let session = opened(
            plan.session,
            self.next_id,
            plan.generation,
            plan.size,
            led_by(plan.containment, pid),
            kib_bytes(self.config.scrollback_kib),
            backlog_bounds(self.config.outbound_backlog_kib),
            self.kill.selection.tier == KillDomainTier::Tier1BestEffortProcessGroup,
            self.policy.missed_pings_before_detached,
            now,
        );
        ManagerModel {
            kill: with_child(self.kill, pid),
            metrics: Metrics {
                sessions_created: bumped(self.metrics.sessions_created),
                ..self.metrics
            },
            audit: if plan.restart {
                self.audit.push(created).push(restarted)
            } else {
                self.audit.push(created)
            },
            next_id: (self.next_id + 1) as u64,
            ..self.with_session(session).with_token(
                plan.session,
                plan.generation,
                plaintext,
                now,
            )
        }
    }
}

proof fn lemma_spawned_wf(
    before: ManagerModel,
    plan: PlanModel,
    pid: Option<i32>,
    plaintext: Seq<u8>,
    now: u128,
)
    requires
        before.wf(),
        !before.sessions.contains_key(plan.session),
        before.next_id < u64::MAX,
        in_range(now),
    ensures
        before.spawned(plan, pid, plaintext, now).wf(),
{
    let after = before.spawned(plan, pid, plaintext, now);
    let name = plan.session;
    assert(after.sessions[name].wf());
    assert forall|other: Seq<char>| #[trigger] after.sessions.contains_key(
        other,
    ) implies after.session_fits(other) by {
        if other != name {
            assert(before.sessions.contains_key(other));
            assert(before.session_fits(other));
            assert(after.sessions[other] == before.sessions[other]);
        }
    }
    assert forall|other: Seq<char>| #[trigger] after.tokens.contains_key(
        other,
    ) implies after.token_fits(other) by {
        if other != name {
            assert(before.tokens.contains_key(other));
            assert(before.token_fits(other));
        }
    }
    assert forall|a: Seq<char>, b: Seq<char>|
        #![trigger after.sessions[a], after.sessions[b]]
        after.sessions.contains_key(a) && after.sessions.contains_key(b) && a
            != b implies after.apart(a, b) by {
        if a != name {
            assert(before.session_fits(a));
        }
        if b != name {
            assert(before.session_fits(b));
        }
        if a != name && b != name {
            let x = before.sessions[a];
            let y = before.sessions[b];
            assert(before.apart(a, b));
        }
    }
}

impl SessionManager {
    /// A planned child was started, or could not be: `spawned` is its pid, where
    /// the system told it, or why there is none. A failed spawn leaves no session
    /// and holds no tracking budget. Where the child is refused although it runs,
    /// the caller kills it.
    pub fn spawn_session(
        &mut self,
        plan: SpawnPlan,
        spawned: Result<Option<i32>, Error>,
        now: u128,
    ) -> (result: Result<SessionCredential, Error>)
        requires
            old(self)@.wf(),
            old(self)@.has_room(plan@.session),
            in_range(now),
        ensures
            final(self)@.wf(),
            match spawned {
                Err(error) => {
                    &&& result == Err::<SessionCredential, Error>(error)
                    &&& final(self)@ == old(self)@
                },
                Ok(pid) => if old(self)@.sessions.contains_key(plan@.session) {
                    &&& result matches Err(Error::AlreadyExists(taken)) && taken@ == plan@.session
                    &&& final(self)@ == old(self)@
                } else if tracking_limit(old(self)@.kill, pid) is Some {
                    &&& result matches Err(Error::CapacityExceeded { limit }) && limit
                        == tracking_limit(old(self)@.kill, pid)->0
                    &&& final(self)@ == old(self)@
                } else if old(self)@.store.ttl == 0 {
                    &&& result matches Err(Error::Other(message)) && message@
                        == "attach token TTL must be non-zero"@
                    &&& final(self)@ == old(self)@
                } else {
                    &&& result matches Ok(credential)
                    &&& credential_for(
                        credential,
                        plan@.session,
                        plan@.generation,
                        now + old(self)@.store.ttl,
                    )
                    &&& final(self)@ == old(self)@.spawned(
                        plan@,
                        pid,
                        credential.token.plaintext@,
                        now,
                    )
                },
            },
    {
        let ghost before = self@;
        proof {
            use_type_invariant(&plan);
        }
        let SpawnPlan { request, generation, containment, restart } = plan;
        let mut containment = containment;
        let name = request.session;
        let pid = match spawned {
            Ok(pid) => pid,
            Err(error) => return Err(error),
        };
        if self.get(&name).is_some() {
            return Err(Error::AlreadyExists(name));
        }
        if let Some(pid) = pid {
            // The child leads its own process group: pgid == pid is Tier 1's signal
            // path.
            if let Err(error) = containment.set_leader(&mut self.kill, pid) {
                assert(self@ =~= before);
                return Err(error);
            }
        }
        assert(containment@ =~= led_by(plan@.containment, pid));
        assert(self.kill@ =~= with_child(before.kill, pid));
        let token = match self.tokens.mint_for_session(
            &mut self.table,
            name.clone(),
            generation,
            now,
        ) {
            Ok(token) => token,
            Err(error) => {
                let _ = containment.release(&mut self.kill);
                assert(self.kill@ =~= before.kill);
                assert(self@ =~= before);
                return Err(error);
            },
        };
        let backlog: usize = match self.config.outbound_backlog_kib.checked_mul(1024) {
            Some(bytes) => bytes,
            None => usize::MAX,
        };
        assert(backlog * 4 <= u64::MAX);
        let session = Session::open(
            SessionSetup {
                name: name.clone(),
                id: self.next_id,
                generation,
                size: request.size,
                domain: containment,
                scrollback_kib: self.config.scrollback_kib,
                backlog: QueueBounds::new(backlog, Some(backlog as u64 * 4)),
                tier_best_effort: self.kill.tier().is_best_effort(),
                missed_ping_limit: self.policy.missed_pings_before_detached,
            },
            now,
        );
        self.next_id = self.next_id + 1;
        self.sessions.insert(name.to_string(), session);
        self.metrics.sessions_created = bump(self.metrics.sessions_created);
        let detail = joined("kill_domain=", self.kill.tier().label());
        let event = AuditEvent::new(AuditKind::SessionCreate).session(&name, generation).detail(
            detail.as_str(),
        );
        self.audit.record(event);
        if restart {
            let event = AuditEvent::new(AuditKind::SessionRestart).session(
                &name,
                generation,
            ).detail("restart_in_place: fresh process, empty scrollback");
            self.audit.record(event);
        }
        proof {
            assert(self@ =~= before.spawned(plan@, pid, token.plaintext@, now));
            lemma_spawned_wf(before, plan@, pid, token.plaintext@, now);
        }
        Ok(SessionCredential { session: name, generation, token })
    }
}

/// How a restart goes on.
#[derive(Debug)]
pub enum RestartStep {
    /// The session is alive: tear it down first, then resume.
    Teardown(TeardownTicket),
    /// Nothing is in the way: start the successor.
    Spawn(SpawnPlan),
}

impl ManagerModel {
    /// The manager after a dead session, or what is remembered of one, made way for
    /// its successor.
    pub open spec fn cleared_way(self, name: Seq<char>) -> ManagerModel {
        if self.sessions.contains_key(name) {
            ManagerModel { sessions: self.sessions.remove(name), ..self }
        } else {
            match self.tombstone(name) {
                Some(i) => ManagerModel { tombstones: self.tombstones.remove(i), ..self },
                None => self,
            }
        }
    }

    /// The generation a restart gives a session, where there is one to restart.
    pub open spec fn restart_generation(self, name: Seq<char>) -> Option<Generation> {
        if self.sessions.contains_key(name) {
            Some(Generation((self.sessions[name].generation.0 + 1) as u64))
        } else {
            match self.tombstone(name) {
                Some(i) => Some(Generation((self.tombstones[i].generation.0 + 1) as u64)),
                None => None,
            }
        }
    }
}

impl SessionManager {
    /// Restart-in-place: same name, fresh process, new generation, empty
    /// scrollback. Old tokens are invalid because the generation changed. A session
    /// that is alive is torn down first; the caller then goes on with
    /// [`SessionManager::resume_restart`].
    pub fn restart_in_place(
        &mut self,
        name: &SessionName,
        env: Vec<(String, String)>,
        workspace: &str,
    ) -> (result: Result<RestartStep, Error>)
        requires
            old(self)@.wf(),
            old(self)@.has_room(name@),
        ensures
            final(self)@.wf(),
            if old(self)@.sessions.contains_key(name@) && old(self)@.sessions[name@].alive {
                &&& result matches Ok(RestartStep::Teardown(ticket))
                &&& ticket@ == old(self)@.ticket(name@, EndReason::Restart)
                &&& final(self)@ == old(self)@.ending(name@, EndReason::Restart)
            } else {
                match old(self)@.restart_generation(name@) {
                    None => {
                        &&& result matches Err(Error::NotFound(missing)) && missing@ == name@
                        &&& final(self)@ == old(self)@
                    },
                    Some(generation) => {
                        &&& final(self)@ == old(self)@.cleared_way(name@)
                        &&& if old(self)@.can_contain() {
                            &&& result matches Ok(RestartStep::Spawn(plan))
                            &&& old(self)@.planned(
                                plan@,
                                name@,
                                (WindowSize { rows: 24, cols: 80 }),
                                generation,
                                env_view(env@),
                                workspace@,
                                true,
                            )
                        } else {
                            result matches Err(Error::Other(message)) && message@
                                == "tier 2 selected without a delegated cgroup base"@
                        }
                    },
                }
            },
    {
        let ghost before = self@;
        let found: Option<(u64, bool, Generation)> = match self.get(name) {
            Some(session) => Some((session.id(), session.is_alive(), session.generation())),
            None => None,
        };
        let generation = match found {
            Some((id, true, _)) => {
                return match self.begin_teardown(name, id, EndReason::Restart) {
                    Some(ticket) => Ok(RestartStep::Teardown(ticket)),
                    None => Err(Error::NotFound(name.clone())),
                };
            },
            Some((_, false, generation)) => {
                let _ = self.sessions.remove(name.as_str());
                proof {
                    assert(self@ =~= before.cleared_way(name@));
                    lemma_forgotten_wf(before, self@, name@);
                }
                Generation(generation.0 + 1)
            },
            None => match self.tombstone_index(name) {
                None => return Err(Error::NotFound(name.clone())),
                Some(i) => {
                    assert(self@.tombstones[i as int].generation == self.tombstones@[i as int].generation);
                    let tombstone = self.tombstones.remove(i);
                    proof {
                        assert(self@.tombstones =~= before.tombstones.remove(i as int));
                        assert(self@ =~= before.cleared_way(name@));
                        lemma_books_keep_wf(before, self@);
                    }
                    Generation(tombstone.generation.0 + 1)
                },
            },
        };
        match self.plan_spawn(
            name.clone(),
            WindowSize::default(),
            generation,
            env,
            workspace,
            true,
        ) {
            Ok(plan) => Ok(RestartStep::Spawn(plan)),
            Err(error) => Err(error),
        }
    }

    /// Go on with a restart whose session has been torn down: `ended` is the
    /// generation that the teardown ended.
    pub fn resume_restart(
        &self,
        name: &SessionName,
        ended: Generation,
        env: Vec<(String, String)>,
        workspace: &str,
    ) -> (result: Result<SpawnPlan, Error>)
        requires
            ended.0 < u64::MAX,
        ensures
            if self@.can_contain() {
                &&& result matches Ok(plan)
                &&& self@.planned(
                    plan@,
                    name@,
                    (WindowSize { rows: 24, cols: 80 }),
                    Generation((ended.0 + 1) as u64),
                    env_view(env@),
                    workspace@,
                    true,
                )
            } else {
                result matches Err(Error::Other(message)) && message@
                    == "tier 2 selected without a delegated cgroup base"@
            },
    {
        self.plan_spawn(
            name.clone(),
            WindowSize::default(),
            Generation(ended.0 + 1),
            env,
            workspace,
            true,
        )
    }
}

impl ManagerModel {
    /// Whether some session's connection has this queue.
    pub open spec fn in_use(self, link: u64) -> bool {
        exists|name: Seq<char>| #[trigger]
            self.sessions.contains_key(name) && self.sessions[name].link == Some(link)
    }

    /// The queues after every attached client was told something.
    pub open spec fn told_all(self, event: ControlModel) -> Map<u64, OutboundModel> {
        Map::new(
            |link: u64| self.links.contains_key(link),
            |link: u64|
                if self.in_use(link) {
                    self.links[link].told(event)
                } else {
                    self.links[link]
                },
        )
    }
}

impl SessionManager {
    /// Admission-relevant workspace usage, reported by the program: the manager does
    /// not look at the volume itself.
    pub fn report_volume_usage(&mut self, used_kib: u64)
        ensures
            final(self)@ == (ManagerModel { volume_used_kib: used_kib, ..old(self)@ }),
            old(self)@.wf() ==> final(self)@.wf(),
    {
        self.volume_used_kib = used_kib;
        proof {
            assert(self@ =~= (ManagerModel { volume_used_kib: used_kib, ..old(self)@ }));
            if old(self)@.wf() {
                lemma_books_keep_wf(old(self)@, self@);
            }
        }
    }

    /// Record a session's workspace usage. Answers the first-class condition when
    /// the per-session budget is exhausted, and tells the attached client through
    /// its own control frame rather than an opaque write error.
    pub fn report_session_disk_usage(&mut self, name: &SessionName, used_kib: u64) -> (full: bool)
        requires
            old(self)@.wf(),
        ensures
            final(self)@.wf(),
            if !old(self)@.sessions.contains_key(name@) {
                !full && final(self)@ == old(self)@
            } else {
                let session = old(self)@.sessions[name@];
                let noted = old(self)@.with_session(
                    SessionModel { disk_used_kib: used_kib, ..session },
                );
                &&& full == (used_kib >= old(self)@.config.per_session_disk_kib)
                &&& final(self)@ == if full {
                    ManagerModel {
                        links: told_link(
                            old(self)@.links,
                            session.link,
                            ControlModel::WorkspaceVolumeFull {
                                used_kib,
                                budget_kib: old(self)@.config.per_session_disk_kib as u64,
                            },
                        ),
                        metrics: Metrics {
                            workspace_full: bumped(old(self)@.metrics.workspace_full),
                            ..old(self)@.metrics
                        },
                        ..noted
                    }
                } else {
                    noted
                }
            },
    {
        let ghost before = self@;
        let id: u64 = match self.get(name) {
            Some(session) => session.id(),
            None => return false,
        };
        let budget_kib: u64 = self.config.per_session_disk_kib as u64;
        let full: bool = used_kib >= budget_kib;
        if let Some(mut session) = self.take_session(name, id) {
            assert(before.session_fits(name@));
            session.set_disk_usage(used_kib);
            let link = session.link();
            self.put_session(session);
            assert(self@ =~= before.with_session(session@));
            if full {
                self.metrics.workspace_full = bump(self.metrics.workspace_full);
                self.links.tell(
                    link,
                    ControlEvent::WorkspaceVolumeFull { used_kib, budget_kib },
                );
            }
            proof {
                assert(self@ =~= (ManagerModel {
                    links: self@.links,
                    metrics: self@.metrics,
                    ..before.with_session(session@)
                }));
                lemma_one_session_changed(before, self@, name@);
            }
        }
        full
    }

    /// Tell every attached client that the runtime is about to go: the warning that
    /// precedes forced teardown.
    pub fn notify_shutdown(&mut self, grace: u128)
        requires
            old(self)@.wf(),
            in_range(grace),
        ensures
            final(self)@.wf(),
            final(self)@ == (ManagerModel {
                links: old(self)@.told_all(
                    ControlModel::TtlWarning {
                        seconds_remaining: (grace / crate::clock::SECOND) as u64,
                        absolute: true,
                    },
                ),
                ..old(self)@
            }),
    {
        let ghost before = self@;
        let event = ControlEvent::TtlWarning {
            seconds_remaining: crate::clock::as_secs(grace),
            absolute: true,
        };
        let n: usize = self.sessions.len();
        let ghost entries = self.sessions.entries();
        let mut i: usize = 0;
        while i < n
            invariant
                0 <= i <= n,
                before.wf(),
                before == old(self)@,
                n == entries.len(),
                entries == self.sessions.entries(),
                self.sessions == old(self).sessions,
                crate::table::unique_keys(entries),
                self@ == (ManagerModel { links: self@.links, ..before }),
                self@.links.dom() == before.links.dom(),
                forall|link: u64| #[trigger]
                    before.links.contains_key(link) ==> self@.links[link] == if exists|j: int|
                        0 <= j < i && (#[trigger] entries[j]).1@.link == Some(link) {
                        before.links[link].told(event@)
                    } else {
                        before.links[link]
                    },
            decreases n - i,
        {
            let link = self.sessions.value_at(i).link();
            let ghost current = self@.links;
            proof {
                old(self).lemma_entry(i as int);
                assert(before.session_fits(entries[i as int].0));
            }
            self.links.tell(link, event);
            proof {
                assert(self@.links == told_link(current, link, event@));
                assert(self@ =~= (ManagerModel { links: self@.links, ..before }));
                assert(self@.links.dom() =~= before.links.dom());
                assert forall|l: u64| #[trigger]
                    before.links.contains_key(l) implies self@.links[l] == if exists|j: int|
                    0 <= j < i + 1 && (#[trigger] entries[j]).1@.link == Some(l) {
                    before.links[l].told(event@)
                } else {
                    before.links[l]
                } by {
                    if link == Some(l) {
                        assert(entries[i as int].1@.link == Some(l));
                        assert forall|j: int| 0 <= j < i implies (#[trigger] entries[j]).1@.link
                            != Some(l) by {
                            old(self).lemma_entry(j);
                            assert(entries[j].0 != entries[i as int].0);
                            let x = before.sessions[entries[j].0];
                            let y = before.sessions[entries[i as int].0];
                            assert(before.apart(entries[j].0, entries[i as int].0));
                        }
                    } else {
                        assert(self@.links[l] == current[l]);
                        if exists|j: int|
                            0 <= j < i + 1 && (#[trigger] entries[j]).1@.link == Some(l) {
                            let j = choose|j: int|
                                0 <= j < i + 1 && (#[trigger] entries[j]).1@.link == Some(l);
                            assert(j != i);
                        }
                    }
                }
            }
            i += 1;
        }
        proof {
            assert forall|l: u64| #[trigger] before.links.contains_key(l) implies before.in_use(l)
                == (exists|j: int| 0 <= j < n && (#[trigger] entries[j]).1@.link == Some(l)) by {
                if before.in_use(l) {
                    let name = choose|name: Seq<char>| #[trigger]
                        before.sessions.contains_key(name) && before.sessions[name].link == Some(
                            l,
                        );
                    crate::table::lemma_unique_find(entries, name);
                    let j = choose|j: int|
                        0 <= j < entries.len() && entries[j] == (
                            name,
                            old(self).sessions@[name],
                        );
                    assert(entries[j].1@.link == Some(l));
                }
                if exists|j: int| 0 <= j < n && (#[trigger] entries[j]).1@.link == Some(l) {
                    let j = choose|j: int|
                        0 <= j < n && (#[trigger] entries[j]).1@.link == Some(l);
                    old(self).lemma_entry(j);
                    assert(before.sessions.contains_key(entries[j].0));
                }
            }
            assert(self@.links =~= before.told_all(event@));
            lemma_queues_changed(before, self@);
        }
    }

    /// The next item for the socket of a connection.
    pub fn next_outbound(&mut self, link: u64) -> (item: Option<OutboundItem>)
        requires
            old(self)@.wf(),
        ensures
            final(self)@.wf(),
            if old(self)@.links.contains_key(link) {
                &&& final(self)@ == (ManagerModel {
                    links: old(self)@.links.insert(link, old(self)@.links[link].after_next()),
                    ..old(self)@
                })
                &&& match item {
                    Some(item) => old(self)@.links[link].next_item() == Some(item@),
                    None => old(self)@.links[link].next_item() is None,
                }
            } else {
                item is None && final(self)@ == old(self)@
            },
    {
        let item = self.links.next(link);
        proof {
            assert(self@ =~= (ManagerModel { links: self@.links, ..old(self)@ }));
            lemma_queues_changed(old(self)@, self@);
        }
        item
    }

    /// Look at the queue of a connection.
    pub fn outbound(&self, link: u64) -> (queue: Option<&crate::outbound::Outbound>)
        ensures
            match queue {
                Some(queue) => self@.links.contains_key(link) && queue@ == self@.links[link],
                None => !self@.links.contains_key(link),
            },
    {
        self.links.get(link)
    }

    /// End a connection. A code that its session chose before stays.
    pub fn close_connection(&mut self, link: u64, code: u16)
        requires
            old(self)@.wf(),
        ensures
            final(self)@.wf(),
            final(self)@ == (ManagerModel {
                links: closed_link(old(self)@.links, Some(link), code),
                ..old(self)@
            }),
    {
        self.links.close(Some(link), code);
        proof {
            assert(self@ =~= (ManagerModel { links: self@.links, ..old(self)@ }));
            lemma_queues_changed(old(self)@, self@);
        }
    }

    /// Forget the queue of a connection whose socket is done with it. Answers
    /// `false`, and keeps it, while a session still delivers to it.
    pub fn release_connection(&mut self, link: u64) -> (released: bool)
        requires
            old(self)@.wf(),
        ensures
            final(self)@.wf(),
            released == !old(self)@.in_use(link),
            final(self)@ == if released {
                ManagerModel { links: old(self)@.links.remove(link), ..old(self)@ }
            } else {
                old(self)@
            },
    {
        let ghost before = self@;
        let n: usize = self.sessions.len();
        let mut i: usize = 0;
        while i < n
            invariant
                0 <= i <= n,
                before.wf(),
                before == self@,
                n == self.sessions.entries().len(),
                crate::table::unique_keys(self.sessions.entries()),
                forall|j: int|
                    0 <= j < i ==> (#[trigger] self.sessions.entries()[j]).1@.link != Some(link),
            decreases n - i,
        {
            proof {
                self.lemma_entry(i as int);
            }
            if self.sessions.value_at(i).link() == Some(link) {
                assert(before.sessions.contains_key(self.sessions.entries()[i as int].0));
                return false;
            }
            i += 1;
        }
        proof {
            assert forall|name: Seq<char>| #[trigger]
                before.sessions.contains_key(name) implies before.sessions[name].link != Some(
                link,
            ) by {
                crate::table::lemma_unique_find(self.sessions.entries(), name);
                let j = choose|j: int|
                    0 <= j < self.sessions.entries().len() && self.sessions.entries()[j] == (
                        name,
                        self.sessions@[name],
                    );
                assert(self.sessions.entries()[j].1@.link != Some(link));
            }
        }
        self.links.discard(link);
        proof {
            assert(self@ =~= (ManagerModel { links: before.links.remove(link), ..before }));
            lemma_queue_released(before, self@, link);
        }
        true
    }

    /// Verify an attach token against the stored hashes, and erase what was
    /// presented. The attach surface holds only an [`AttachVerifier`], which cannot
    /// mint.
    pub fn verify_attach(
        &mut self,
        verifier: &mut AttachVerifier,
        name: &SessionName,
        generation: Generation,
        presented: &mut SecretBytes,
        source: Option<&str>,
        now: u128,
    ) -> (allowed: bool)
        requires
            old(self)@.wf(),
        ensures
            final(self)@.wf(),
            final(presented)@ == erased(old(presented)@.len()),
            allowed == crate::token::authorises(
                old(self)@.tokens,
                name@,
                generation,
                crate::crypto::sha256_digest(old(presented)@),
                now as nat,
            ),
            final(self)@ == if allowed {
                old(self)@
            } else {
                ManagerModel {
                    tokens: crate::token::after_refusal(old(self)@.tokens, name@, now as nat),
                    ..old(self)@
                }
            },
            final(verifier)@ == if allowed {
                old(verifier)@
            } else {
                old(verifier)@.push(
                    crate::token::refusal_record(name@, generation, source_name(source)),
                )
            },
    {
        let ghost before = self@;
        let result = verifier.verify(&mut self.table, name, generation, presented, source, now);
        proof {
            assert(self@ =~= (ManagerModel { tokens: self@.tokens, ..before }));
            lemma_tokens_dropped(before, self@);
        }
        result.is_ok()
    }

    /// Record that a session's `cgroup.kill` could not be written.
    pub fn note_cgroup_kill_failure(&mut self, ticket: &TeardownTicket, error: &str)
        requires
            old(self)@.wf(),
        ensures
            final(self)@.wf(),
            final(self)@ == (ManagerModel {
                kill: DomainModel {
                    audit: old(self)@.kill.audit.push(
                        crate::killdomain::cgroup_kill_record(ticket@.domain, error@),
                    ),
                    ..old(self)@.kill
                },
                ..old(self)@
            }),
    {
        let ghost before = self@;
        ticket.domain.note_cgroup_kill_failure(&mut self.kill, error);
        proof {
            assert(self@ =~= (ManagerModel { kill: self@.kill, ..before }));
            lemma_books_keep_wf(before, self@);
        }
    }

    /// Everything recorded since the last call: revocations, then what the kill
    /// domain saw, then the manager's own events, each oldest first.
    pub fn drain_audit(&mut self) -> (events: Vec<AuditEvent>)
        requires
            old(self)@.wf(),
        ensures
            final(self)@.wf(),
            final(self)@ == (ManagerModel {
                store: StoreModel { audit: Seq::<AuditRecord>::empty(), ..old(self)@.store },
                kill: DomainModel { audit: Seq::<AuditRecord>::empty(), ..old(self)@.kill },
                audit: Seq::<AuditRecord>::empty(),
                ..old(self)@
            }),
            events@.len() == (old(self)@.store.audit + old(self)@.kill.audit
                + old(self)@.audit).len(),
            forall|i: int|
                0 <= i < events@.len() ==> (#[trigger] events@[i])@ == (old(self)@.store.audit
                    + old(self)@.kill.audit + old(self)@.audit)[i],
    {
        let ghost before = self@;
        let mut events = self.tokens.drain_audit();
        let mut seen = self.kill.drain_audit();
        let mut own = self.audit.drain();
        events.append(&mut seen);
        events.append(&mut own);
        proof {
            assert(self@ =~= (ManagerModel {
                store: StoreModel { audit: Seq::<AuditRecord>::empty(), ..before.store },
                kill: DomainModel { audit: Seq::<AuditRecord>::empty(), ..before.kill },
                audit: Seq::<AuditRecord>::empty(),
                ..before
            }));
            lemma_books_keep_wf(before, self@);
        }
        events
    }
}

/// What is queued for a connection is no business of the sessions.
proof fn lemma_queues_changed(before: ManagerModel, after: ManagerModel)
    requires
        before.wf(),
        after == (ManagerModel { links: after.links, ..before }),
        same_queues(before.links, after.links),
    ensures
        after.wf(),
{
    assert forall|other: Seq<char>| #[trigger] after.sessions.contains_key(
        other,
    ) implies after.session_fits(other) by {
        assert(before.session_fits(other));
    }
    assert forall|other: Seq<char>| #[trigger] after.tokens.contains_key(
        other,
    ) implies after.token_fits(other) by {
        assert(before.token_fits(other));
    }
    assert forall|a: Seq<char>, b: Seq<char>|
        #![trigger after.sessions[a], after.sessions[b]]
        after.sessions.contains_key(a) && after.sessions.contains_key(b) && a
            != b implies after.apart(a, b) by {
        assert(before.apart(a, b));
    }
}

/// A queue that no session delivers to can go.
proof fn lemma_queue_released(before: ManagerModel, after: ManagerModel, link: u64)
    requires
        before.wf(),
        !before.in_use(link),
        after == (ManagerModel { links: before.links.remove(link), ..before }),
    ensures
        after.wf(),
{
    assert forall|other: Seq<char>| #[trigger] after.sessions.contains_key(
        other,
    ) implies after.session_fits(other) by {
        assert(before.sessions.contains_key(other));
        assert(before.session_fits(other));
    }
    assert forall|other: Seq<char>| #[trigger] after.tokens.contains_key(
        other,
    ) implies after.token_fits(other) by {
        assert(before.token_fits(other));
    }
    assert forall|a: Seq<char>, b: Seq<char>|
        #![trigger after.sessions[a], after.sessions[b]]
        after.sessions.contains_key(a) && after.sessions.contains_key(b) && a
            != b implies after.apart(a, b) by {
        assert(before.apart(a, b));
    }
}

/// Dropping tokens keeps the manager whole.
proof fn lemma_tokens_dropped(before: ManagerModel, after: ManagerModel)
    requires
        before.wf(),
        after == (ManagerModel { tokens: after.tokens, ..before }),
        after.tokens.submap_of(before.tokens),
    ensures
        after.wf(),
{
    assert forall|other: Seq<char>| #[trigger] after.sessions.contains_key(
        other,
    ) implies after.session_fits(other) by {
        assert(before.session_fits(other));
    }
    assert forall|other: Seq<char>| #[trigger] after.tokens.contains_key(
        other,
    ) implies after.token_fits(other) by {
        assert(before.tokens.dom().contains(other));
        assert(before.token_fits(other));
    }
    assert forall|a: Seq<char>, b: Seq<char>|
        #![trigger after.sessions[a], after.sessions[b]]
        after.sessions.contains_key(a) && after.sessions.contains_key(b) && a
            != b implies after.apart(a, b) by {
        assert(before.apart(a, b));
    }
}

} // verus!
