//! What the session manager promises across its operations.
use crate::close_code;
use crate::crypto::sha256_digest;
use crate::links::fed_link;
use crate::audit::{AuditKind, TerminationClass};
use crate::killdomain::KillDomainTier;
use crate::links::{closed_link, told_link};
use crate::manager::{
    attach_notice, attach_replay, buried, describes, greeting, kill_record, reason_class, reason_code,
    reason_remembered, tracking_limit, Admission, AttachFault, EndReason, ManagerModel, PlanModel,
    SessionStatus, TicketModel, TombstoneModel, MAX_TOMBSTONES,
};
use crate::outbound::{ConnGeneration, ControlModel, ItemModel, OutboundModel};
use crate::ringbuf::ReplayModel;
use crate::session::{SessionModel, WindowSize};
use crate::token::authorises;
use crate::Generation;
use vstd::prelude::*;

verus! {

/// A token opens nothing but a live session under its current generation: whatever
/// else changed, no token of a superseded generation and no token of a dead session
/// is ever let in.
pub proof fn law_tokens_open_live_sessions_only(
    manager: ManagerModel,
    name: Seq<char>,
    generation: Generation,
    digest: Seq<u8>,
    now: nat,
)
    requires
        manager.wf(),
        authorises(manager.tokens, name, generation, digest, now),
    ensures
        manager.sessions.contains_key(name),
        manager.sessions[name].alive,
        manager.sessions[name].generation == generation,
{
    assert(manager.token_fits(name));
}

/// A takeover closes the incumbent with its own code, and touches no other
/// connection; the successor's queue is open.
pub proof fn law_takeover_closes_only_the_incumbent(
    manager: ManagerModel,
    name: Seq<char>,
    size: WindowSize,
    source: Seq<char>,
    since: Option<u64>,
    now: u128,
    incumbent: u64,
    other: u64,
)
    requires
        manager.wf(),
        manager.sessions.contains_key(name),
        manager.sessions[name].link == Some(incumbent),
        manager.links[incumbent].close_code is None,
        manager.links.contains_key(other),
        other != incumbent,
    ensures
        ({
            let after = manager.attached(name, size, source, since, now);
            &&& after.links[incumbent].close_code == Some(close_code::TAKEOVER)
            &&& after.links[other] == manager.links[other]
            &&& after.sessions[name].link == Some(manager.next_link)
        }),
{
    assert(manager.session_fits(name));
    assert(manager.links.contains_key(incumbent));
}

/// An operation on one session leaves every other session alone.
pub proof fn law_sessions_are_independent(
    manager: ManagerModel,
    name: Seq<char>,
    other: Seq<char>,
    size: WindowSize,
    source: Seq<char>,
    since: Option<u64>,
    reason: EndReason,
    now: u128,
)
    requires
        manager.wf(),
        manager.sessions.contains_key(name),
        manager.sessions.contains_key(other),
        name != other,
    ensures
        manager.attached(name, size, source, since, now).sessions[other]
            == manager.sessions[other],
        manager.rotated(name).sessions[other] == manager.sessions[other],
        manager.ending(name, reason).sessions[other] == manager.sessions[other],
        manager.sessions[other].link matches Some(link) ==> {
            &&& manager.attached(name, size, source, since, now).links[link] == manager.links[link]
            &&& manager.rotated(name).links[link] == manager.links[link]
            &&& manager.ending(name, reason).links[link] == manager.links[link]
        },
        manager.rotated(name).tokens.contains_key(other) == manager.tokens.contains_key(other),
        manager.ending(name, reason).tokens.contains_key(other) == manager.tokens.contains_key(
            other,
        ),
{
    assert(manager.session_fits(name));
    assert(manager.session_fits(other));
    let x = manager.sessions[name];
    let y = manager.sessions[other];
    assert(manager.apart(name, other));
}

/// The bytes that a client is replayed at attach.
pub open spec fn replayed(session: SessionModel, replay_all: bool, since: Option<u64>) -> Seq<u8> {
    match attach_replay(session.ring, replay_all, since) {
        None => Seq::empty(),
        Some(ReplayModel::Contiguous { bytes, .. }) => bytes,
        Some(ReplayModel::Gap { bytes, .. }) => bytes,
    }
}

/// An attach tells the client what it must know before anything else. Only where
/// the replay is larger than the client's backlog does one frame come before it:
/// the count of the bytes that did not fit.
pub proof fn law_attach_starts_with_the_notice(
    session: SessionModel,
    conn: ConnGeneration,
    replay_all: bool,
    since: Option<u64>,
)
    requires
        replayed(session, replay_all, since).len() <= u64::MAX,
    ensures
        ({
            let greeting = greeting(session, conn, replay_all, since);
            let notice = Some(ItemModel::Control(attach_notice(session.tier_best_effort)));
            let size = replayed(session, replay_all, since).len();
            let room = session.backlog.capacity_bytes;
            if size <= room {
                greeting.next_item() == notice
            } else {
                &&& greeting.next_item() == Some(
                    ItemModel::Control(ControlModel::Gap { bytes_dropped: (size - room) as u64 }),
                )
                &&& greeting.after_next().next_item() == notice
            }
        }),
{
    let noticed = OutboundModel::open(conn, session.backlog).told(
        attach_notice(session.tier_best_effort),
    );
    assert(noticed.controls.first() == attach_notice(session.tier_best_effort));
    assert(forall|event: ControlModel| #[trigger]
        noticed.controls.push(event).first() == noticed.controls.first());
}

/// A client that comes back with its cursor is sent exactly what it missed, and
/// told of no gap, where all of that is still retained and fits its backlog.
pub proof fn law_reconnect_delivers_what_was_missed(
    session: SessionModel,
    conn: ConnGeneration,
    replay_all: bool,
    stream: Seq<u8>,
    since: u64,
)
    requires
        session.ring.tracks(stream),
        session.ring.capacity > 0,
        session.ring.earliest() <= since <= stream.len(),
        stream.len() - since <= session.backlog.capacity_bytes,
    ensures
        ({
            let queue = greeting(session, conn, replay_all, Some(since));
            &&& queue.queue.queued == stream.skip(since as int)
            &&& queue.queue.unreported == 0
            &&& queue.controls == seq![attach_notice(session.tier_best_effort)]
            &&& queue.close_code is None
        }),
{
    crate::ringbuf::law_replay_is_what_was_missed(session.ring, stream, since as nat);
    let queue = greeting(session, conn, replay_all, Some(since));
    assert(Seq::<u8>::empty() + stream.skip(since as int) =~= stream.skip(since as int));
    assert(queue.controls =~= seq![attach_notice(session.tier_best_effort)]);
}

/// Where the replay was incomplete, the client is told so: it gets the notice, then
/// how many bytes are lost to it, then all that follows them.
pub proof fn law_reconnect_tells_what_was_lost(
    session: SessionModel,
    conn: ConnGeneration,
    replay_all: bool,
    stream: Seq<u8>,
    since: u64,
)
    requires
        session.ring.tracks(stream),
        since < session.ring.earliest(),
        session.ring.retained.len() <= session.backlog.capacity_bytes,
        stream.len() <= u64::MAX,
    ensures
        ({
            let queue = greeting(session, conn, replay_all, Some(since));
            let lost = (session.ring.earliest() - since) as u64;
            &&& queue.controls == seq![
                attach_notice(session.tier_best_effort),
                ControlModel::Gap { bytes_dropped: lost },
            ]
            &&& queue.queue.queued == stream.skip(since + lost)
            &&& queue.queue.unreported == 0
            &&& queue.close_code is None
        }),
{
    crate::ringbuf::law_replay_is_what_was_missed(session.ring, stream, since as nat);
    let queue = greeting(session, conn, replay_all, Some(since));
    let lost = (session.ring.earliest() - since) as u64;
    assert(session.ring.retained =~= stream.skip(session.ring.earliest()));
    assert(Seq::<u8>::empty() + stream.skip(since + lost) =~= stream.skip(since + lost));
    assert(queue.controls =~= seq![
        attach_notice(session.tier_best_effort),
        ControlModel::Gap { bytes_dropped: lost },
    ]);
}

/// The replay hands over to live output without a seam: what the child writes after
/// an attach follows what the client was replayed, each byte exactly once, while the
/// client keeps up.
pub proof fn law_replay_hands_over_to_live_output(
    manager: ManagerModel,
    name: Seq<char>,
    size: WindowSize,
    source: Seq<char>,
    stream: Seq<u8>,
    since: u64,
    output: Seq<u8>,
    now: u128,
    later: u128,
)
    requires
        manager.wf(),
        manager.sessions.contains_key(name),
        manager.sessions[name].ring.tracks(stream),
        manager.sessions[name].ring.capacity > 0,
        manager.sessions[name].ring.earliest() <= since <= stream.len(),
        stream.len() - since + output.len() <= manager.sessions[name].backlog.capacity_bytes,
        stream.len() + output.len() <= u64::MAX,
    ensures
        ({
            let attached = manager.attached(name, size, source, Some(since), now);
            let session = attached.sessions[name];
            let links = fed_link(attached.links, session.link, output);
            let queue = links[manager.next_link];
            &&& session.link == Some(manager.next_link)
            &&& queue.queue.queued == (stream + output).skip(since as int)
            &&& queue.queue.unreported == 0
            &&& queue.close_code is None
            &&& session.emitted(output, manager.epoch, later).ring.tracks(stream + output)
        }),
{
    let before = manager.sessions[name];
    let attached = manager.attached(name, size, source, Some(since), now);
    law_reconnect_delivers_what_was_missed(
        before,
        ConnGeneration(before.next_conn),
        manager.config.scrollback_replay,
        stream,
        since,
    );
    crate::ringbuf::law_writes_extend_the_stream(before.ring, stream, output);
    assert(stream.skip(since as int) + output =~= (stream + output).skip(since as int));
    assert(attached.sessions[name].ring == before.ring);
}

/// A cursor survives a lost connection: a client that adds the live output it
/// received to the offset it was told, and comes back with that, is sent exactly
/// what the child wrote since, where that is still retained and fits its backlog.
///
/// The offset is where live output starts. What was replayed at the attach ends
/// there, so it is already counted: a client that added it too would come back
/// with a cursor that lies that much too far along.
pub proof fn law_cursor_resumes_the_stream(
    session: SessionModel,
    conn: ConnGeneration,
    replay_all: bool,
    since: Option<u64>,
    stream: Seq<u8>,
    received: Seq<u8>,
    missed: Seq<u8>,
    epoch: u128,
    now: u128,
)
    requires
        session.ring.tracks(stream),
        session.ring.capacity > 0,
        missed.len() <= session.ring.capacity,
        missed.len() <= session.backlog.capacity_bytes,
        stream.len() + received.len() + missed.len() <= u64::MAX,
    ensures
        ({
            let offset = session.ring.written;
            let later = session.emitted(received, epoch, now).emitted(missed, epoch, now);
            let cursor = (offset + received.len()) as u64;
            let queue = greeting(later, conn, replay_all, Some(cursor));
            let replay = replayed(session, replay_all, since);
            &&& replay.len() <= offset
            &&& replay == stream.subrange(offset - replay.len(), offset as int)
            &&& queue.queue.queued == missed
            &&& queue.queue.unreported == 0
            &&& queue.controls == seq![attach_notice(session.tier_best_effort)]
            &&& queue.close_code is None
        }),
{
    let later = session.emitted(received, epoch, now).emitted(missed, epoch, now);
    let whole = stream + received + missed;
    let cursor = (session.ring.written + received.len()) as u64;
    crate::ringbuf::law_writes_extend_the_stream(session.ring, stream, received);
    crate::ringbuf::law_writes_extend_the_stream(
        session.ring.wrote(received),
        stream + received,
        missed,
    );
    assert(later.ring.tracks(whole));
    assert(later.ring.retained.len() >= missed.len());
    law_reconnect_delivers_what_was_missed(later, conn, replay_all, whole, cursor);
    assert(whole.skip(cursor as int) =~= missed);
    let offset = session.ring.written;
    let replay = replayed(session, replay_all, since);
    assert(replay =~= stream.subrange(offset - replay.len(), offset as int));
}

/// Renewal invalidates every old token and admits exactly the new one, evicts the
/// attached connection with a code of its own, and leaves the process alive.
pub proof fn law_renew_rotates_the_credential(
    manager: ManagerModel,
    name: Seq<char>,
    plaintext: Seq<u8>,
    generation: Generation,
    digest: Seq<u8>,
    now: u128,
    later: nat,
)
    requires
        manager.wf(),
        manager.has_room(name),
        manager.sessions.contains_key(name),
        manager.sessions[name].alive,
    ensures
        ({
            let next = manager.sessions[name].renewed().generation;
            let rotated = manager.rotated(name);
            let after = rotated.with_token(name, next, plaintext, now);
            &&& !authorises(rotated.tokens, name, generation, digest, later)
            &&& authorises(after.tokens, name, generation, digest, later) <==> generation == next
                && digest == sha256_digest(plaintext) && later < now + manager.store.ttl
            &&& next.0 > manager.sessions[name].generation.0
            &&& after.sessions[name].alive
            &&& after.sessions[name].owner == ConnGeneration(0)
            &&& manager.sessions[name].link matches Some(link) ==> (
            manager.links[link].close_code is None ==> after.links[link].close_code == Some(
                close_code::RENEWED,
            ))
        }),
{
    assert(manager.session_fits(name));
}

/// Teardown is announced and final: the session is dead, none of its tokens works
/// any more, and its client is told the reason, unless something closed it before.
pub proof fn law_teardown_is_final(
    manager: ManagerModel,
    name: Seq<char>,
    reason: EndReason,
    generation: Generation,
    digest: Seq<u8>,
    later: nat,
    now: u128,
)
    requires
        manager.wf(),
        manager.sessions.contains_key(name),
    ensures
        ({
            let after = manager.ending(name, reason);
            &&& !after.sessions[name].alive
            &&& !authorises(after.tokens, name, generation, digest, later)
            &&& after.attach_fault(name, generation, now) == Some(AttachFault::Dead)
            &&& manager.sessions[name].link matches Some(link) ==> (
            manager.links[link].close_code is None ==> after.links[link].close_code == Some(
                reason_code(reason),
            ))
        }),
{
    assert(manager.session_fits(name));
    if manager.tokens.contains_key(name) {
        assert(manager.token_fits(name));
    }
}

/// A client can tell an operator's kill from an expiry from the child's own exit
/// from a replaced runtime.
pub proof fn law_endings_are_told_apart(absolute: bool)
    ensures
        ({
            let kill = reason_code(EndReason::AdminKill);
            let expiry = reason_code(EndReason::Expired { absolute });
            let exit = reason_code(EndReason::SelfExit);
            let replaced = reason_code(EndReason::Shutdown);
            &&& kill != expiry
            &&& kill != exit
            &&& kill != replaced
            &&& expiry != exit
            &&& expiry != replaced
            &&& exit != replaced
            &&& kill != close_code::TAKEOVER && kill != close_code::RENEWED
            &&& expiry != close_code::TAKEOVER && expiry != close_code::RENEWED
            &&& exit != close_code::TAKEOVER && exit != close_code::RENEWED
            &&& replaced != close_code::TAKEOVER && replaced != close_code::RENEWED
        }),
        reason_class(EndReason::AdminKill) != reason_class(EndReason::SelfExit),
        reason_class(EndReason::SelfExit) != reason_class(EndReason::Shutdown),
        reason_class(EndReason::AdminKill) != reason_class(EndReason::Shutdown),
{
}

/// A session that was killed, expired or exited is remembered: an attach to it is
/// told that it is dead, not that it never was, and a restart gives it a later
/// generation than any token of it can have.
pub proof fn law_dead_sessions_can_be_restarted(
    manager: ManagerModel,
    ticket: TicketModel,
    survivors: Seq<i32>,
    generation: Generation,
    now: u128,
)
    requires
        manager.wf(),
        reason_remembered(ticket.reason),
        manager.holds(ticket.session, ticket.session_id),
        !manager.sessions[ticket.session].alive,
        ticket.generation.0 < u64::MAX,
    ensures
        ({
            let after = manager.finished(ticket, survivors);
            &&& after.attach_fault(ticket.session, generation, now) == Some(AttachFault::Dead)
            &&& after.restart_generation(ticket.session) == Some(
                Generation((ticket.generation.0 + 1) as u64),
            )
            &&& match after.restart_generation(ticket.session) {
                Some(next) => ticket.generation.0 < next.0,
                None => false,
            }
        }),
{
    let after = manager.finished(ticket, survivors);
    let n = after.tombstones.len() as int;
    let all = manager.tombstones.push(
        TombstoneModel {
            name: ticket.session,
            generation: ticket.generation,
            class: reason_class(ticket.reason),
        },
    );
    assert(after.tombstones[n - 1] == all[all.len() - 1]);
    assert(after.tombstone(ticket.session) == Some(n - 1));
}

/// A shutdown leaves nothing to restart: the workspace is gone with the runtime.
pub proof fn law_shutdown_is_not_remembered(
    manager: ManagerModel,
    ticket: TicketModel,
    survivors: Seq<i32>,
)
    requires
        ticket.reason == EndReason::Shutdown,
    ensures
        manager.finished(ticket, survivors).tombstones == manager.tombstones,
{
}

/// The memory of dead sessions is bounded, and the latest are kept.
pub proof fn law_tombstones_are_bounded(
    tombstones: Seq<TombstoneModel>,
    tombstone: TombstoneModel,
)
    requires
        tombstones.len() <= MAX_TOMBSTONES,
    ensures
        crate::manager::buried(tombstones, tombstone).len() <= MAX_TOMBSTONES,
        crate::manager::buried(tombstones, tombstone).last() == tombstone,
{
}

/// A session is created only while there is room: an admitted session is at most
/// the last that the operator allows.
pub proof fn law_admission_respects_capacity(
    manager: ManagerModel,
    plan: PlanModel,
    pid: Option<i32>,
    plaintext: Seq<u8>,
    now: u128,
)
    requires
        manager.wf(),
        manager.admission(plan.session) is Open,
    ensures
        ({
            let after = manager.spawned(plan, pid, plaintext, now);
            &&& after.live().len() == manager.live().len() + 1
            &&& after.live().len() <= manager.config.max_sessions
            &&& after.live().contains(plan.session)
        }),
{
    let after = manager.spawned(plan, pid, plaintext, now);
    assert(after.live() =~= manager.live().insert(plan.session));
    assert(!manager.live().contains(plan.session));
    assert(manager.live().finite());
}

/// A fresh session has empty scrollback, no owner, and opens to its new token only.
pub proof fn law_fresh_session_is_fresh(
    manager: ManagerModel,
    plan: PlanModel,
    pid: Option<i32>,
    plaintext: Seq<u8>,
    generation: Generation,
    digest: Seq<u8>,
    now: u128,
    later: nat,
)
    requires
        manager.wf(),
        !manager.sessions.contains_key(plan.session),
    ensures
        ({
            let after = manager.spawned(plan, pid, plaintext, now);
            let session = after.sessions[plan.session];
            &&& session.alive
            &&& session.generation == plan.generation
            &&& session.owner == ConnGeneration(0)
            &&& session.ring.written == 0 && session.ring.retained.len() == 0
            &&& authorises(after.tokens, plan.session, generation, digest, later) <==> generation
                == plan.generation && digest == sha256_digest(plaintext) && later < now
                + manager.store.ttl
        }),
{
}

/// An attach with the current generation succeeds while nobody is attached, however
/// spent the takeover budget is.
pub proof fn law_detached_session_can_be_attached(
    manager: ManagerModel,
    name: Seq<char>,
    now: u128,
)
    requires
        manager.wf(),
        manager.sessions.contains_key(name),
        manager.sessions[name].alive,
        manager.sessions[name].owner.0 == 0,
    ensures
        manager.attach_fault(name, manager.sessions[name].generation, now) is None,
{
}

/// After a renew the first attach always passes, so a thief who spent the takeover
/// budget cannot lock the owner out of recovery.
pub proof fn law_renew_reopens_a_spent_budget(manager: ManagerModel, name: Seq<char>, now: u128)
    requires
        manager.wf(),
        manager.sessions.contains_key(name),
        manager.sessions[name].alive,
    ensures
        manager.rotated(name).attach_fault(
            name,
            manager.sessions[name].renewed().generation,
            now,
        ) is None,
{
}

/// Tracking budget is neither lost nor made: what a session's child took, its
/// teardown returns.
pub proof fn law_teardown_returns_the_tracking_budget(
    manager: ManagerModel,
    plan: PlanModel,
    pid: Option<i32>,
    plaintext: Seq<u8>,
    reason: EndReason,
    survivors: Seq<i32>,
    now: u128,
)
    requires
        !manager.sessions.contains_key(plan.session),
        plan.containment.children.len() == 0,
    ensures
        ({
            let spawned = manager.spawned(plan, pid, plaintext, now);
            let ended = spawned.ending(plan.session, reason);
            let after = ended.finished(spawned.ticket(plan.session, reason), survivors);
            after.kill.on_record == manager.kill.on_record
        }),
{
}

/// The latest tombstone of a name: it bears the name, and none after it does.
proof fn lemma_tombstone(manager: ManagerModel, name: Seq<char>, n: int)
    requires
        0 <= n <= manager.tombstones.len(),
    ensures
        match manager.tombstone_of(name, n) {
            Some(at) => {
                &&& 0 <= at < n
                &&& manager.tombstones[at].name == name
                &&& forall|i: int| at < i < n ==> (#[trigger] manager.tombstones[i]).name != name
            },
            None => forall|i: int| 0 <= i < n ==> (#[trigger] manager.tombstones[i]).name != name,
        },
    decreases n,
{
    if n > 0 && manager.tombstones[n - 1].name != name {
        lemma_tombstone(manager, name, n - 1);
    }
}

/// An attach is refused as missing where no such session is or was, as dead where there
/// was one, as stale where its token is of another generation, and as one too many only
/// where it would take the session over; otherwise it passes.
pub proof fn law_attach_is_refused_for_its_reason(
    manager: ManagerModel,
    name: Seq<char>,
    generation: Generation,
    now: u128,
)
    ensures
        ({
            let here = manager.sessions.contains_key(name);
            let session = manager.sessions[name];
            let buried = exists|i: int|
                0 <= i < manager.tombstones.len() && (#[trigger] manager.tombstones[i]).name
                    == name;
            let budget = session.takeovers.permits(generation, now, manager.policy);
            let fault = manager.attach_fault(name, generation, now);
            let current = here && session.alive && session.generation == generation;
            &&& fault == Some(AttachFault::Missing) <==> !here && !buried
            &&& fault == Some(AttachFault::Dead) <==> (here && !session.alive) || (!here && buried)
            &&& fault == Some(AttachFault::Stale) <==> here && session.alive && session.generation
                != generation
            &&& fault == Some(AttachFault::Limited) <==> current && session.owner.0 != 0 && !budget
            &&& fault is None <==> current && (session.owner.0 == 0 || budget)
        }),
{
    lemma_tombstone(manager, name, manager.tombstones.len() as int);
}

/// An attach makes the connection the owner and changes nothing else of the session but
/// its size, its missed pings and what it last heard: not its age, not its generation, not
/// what it retains or has yet to write. Both parties to a takeover are on record, and only
/// a takeover counts as one.
pub proof fn law_attach_changes_the_owner(
    manager: ManagerModel,
    name: Seq<char>,
    size: WindowSize,
    source: Seq<char>,
    since: Option<u64>,
    now: u128,
)
    requires
        manager.wf(),
        manager.has_room(name),
        manager.sessions.contains_key(name),
        manager.metrics.takeovers < u64::MAX,
    ensures
        ({
            let before = manager.sessions[name];
            let after = manager.attached(name, size, source, since, now);
            let session = after.sessions[name];
            let n = manager.audit.len() as int;
            let record = after.audit[after.audit.len() - 1];
            &&& session.owner.0 == before.next_conn
            &&& session.next_conn == before.next_conn + 1
            &&& session.attached_since == Some(now)
            &&& session.link == Some(manager.next_link)
            &&& session.missed_pings == 0
            &&& session.size == size
            &&& session.created_at == before.created_at
            &&& session.generation == before.generation
            &&& session.alive == before.alive
            &&& session.ring == before.ring
            &&& session.input == before.input
            &&& session.disk_used_kib == before.disk_used_kib
            &&& session.warned_absolute == before.warned_absolute
            &&& after.links[manager.next_link].conn == session.owner
            &&& after.next_link == manager.next_link + 1
            &&& after.next_id == manager.next_id
            &&& after.tokens == manager.tokens
            &&& after.tombstones == manager.tombstones
            &&& after.metrics.takeovers == manager.metrics.takeovers + (if before.link is Some {
                1int
            } else {
                0
            })
            &&& after.metrics.takeovers_rate_limited == manager.metrics.takeovers_rate_limited
            &&& after.audit.len() == n + (if before.link is Some {
                2int
            } else {
                1
            })
            &&& record.kind == AuditKind::Attach
            &&& record.session == Some(name)
            &&& record.generation == Some(before.generation.0)
            &&& record.source == Some(source)
            &&& before.link is Some ==> {
                &&& after.audit[n].kind == AuditKind::TakeoverAnomaly
                &&& after.audit[n].session == Some(name)
                &&& after.audit[n].source == Some(source)
                &&& after.audit[n].detail == Some("connection_preempted"@)
            }
            &&& before.link matches Some(link) ==> (manager.links[link].close_code is None
                ==> after.links[link].close_code == Some(4002u16))
        }),
{
    assert(manager.session_fits(name));
}

/// A refused takeover is counted and recorded; it leaves the owner, every connection and
/// every token alone.
pub proof fn law_refused_takeover_changes_nothing(
    manager: ManagerModel,
    name: Seq<char>,
    source: Seq<char>,
    now: u128,
)
    requires
        manager.sessions.contains_key(name),
        manager.metrics.takeovers_rate_limited < u64::MAX,
    ensures
        ({
            let before = manager.sessions[name];
            let after = manager.rate_limited(name, source, now);
            let record = after.audit[after.audit.len() - 1];
            &&& after.sessions[name].owner == before.owner
            &&& after.sessions[name].link == before.link
            &&& after.sessions[name].last_activity_ms == before.last_activity_ms
            &&& after.sessions[name].missed_pings == before.missed_pings
            &&& after.links == manager.links
            &&& after.tokens == manager.tokens
            &&& after.metrics.takeovers == manager.metrics.takeovers
            &&& after.metrics.takeovers_rate_limited == manager.metrics.takeovers_rate_limited + 1
            &&& after.audit.len() == manager.audit.len() + 1
            &&& record.kind == AuditKind::TakeoverAnomaly
            &&& record.session == Some(name)
            &&& record.source == Some(source)
            &&& record.detail == Some("takeover_rate_limited"@)
        }),
{
}

/// A renewal moves a session to the next generation and takes its owner from it; its age,
/// its process and what it retains stay. The revocation of a token is recorded where there
/// was one.
pub proof fn law_renewal_keeps_the_session(manager: ManagerModel, name: Seq<char>)
    requires
        manager.wf(),
        manager.has_room(name),
        manager.sessions.contains_key(name),
    ensures
        ({
            let before = manager.sessions[name];
            let after = manager.rotated(name);
            let session = after.sessions[name];
            let n = manager.store.audit.len() as int;
            &&& session.generation.0 == before.generation.0 + 1
            &&& session.owner.0 == 0
            &&& session.link is None
            &&& session.attached_since is None
            &&& session.created_at == before.created_at
            &&& session.last_activity_ms == before.last_activity_ms
            &&& session.next_conn == before.next_conn
            &&& session.alive == before.alive
            &&& session.ring == before.ring
            &&& session.domain == before.domain
            &&& !after.tokens.contains_key(name)
            &&& after.store.ttl == manager.store.ttl
            &&& if manager.tokens.contains_key(name) {
                &&& after.store.audit.len() == n + 1
                &&& after.store.audit[n].kind == AuditKind::TokenRevoked
                &&& after.store.audit[n].session == Some(name)
            } else {
                after.store.audit == manager.store.audit
            }
            &&& before.link matches Some(link) ==> (manager.links[link].close_code is None
                ==> after.links[link].close_code == Some(4003u16))
        }),
{
    assert(manager.session_fits(name));
}

/// Each ending is told with its own code, is put down to whoever caused it, and is
/// remembered unless the session makes way for its successor or the runtime goes.
pub proof fn law_endings_have_their_codes(reason: EndReason)
    ensures
        reason_code(reason) == 4008 <==> reason == EndReason::AdminKill,
        reason_code(reason) == 4001 <==> reason is Expired,
        reason_code(reason) == 4004 <==> reason == EndReason::SelfExit || reason
            == EndReason::Restart,
        reason_code(reason) == 4006 <==> reason == EndReason::Shutdown,
        reason_class(reason) == TerminationClass::SelfExit <==> reason == EndReason::SelfExit,
        reason_class(reason) == TerminationClass::RuntimeShutdown <==> reason
            == EndReason::Shutdown,
        reason_class(reason) == TerminationClass::UserKill <==> reason == EndReason::AdminKill
            || reason is Expired || reason == EndReason::Restart,
        reason_remembered(reason) <==> reason != EndReason::Shutdown && reason
            != EndReason::Restart,
{
}

/// A finished teardown frees the name of the session it was begun for, and of no other:
/// not of a successor under the same name, and not of one that lives. It is recorded, an
/// expiry is counted, and survivors are.
pub proof fn law_finish_frees_only_its_session(
    manager: ManagerModel,
    ticket: TicketModel,
    survivors: Seq<i32>,
    other: Seq<char>,
)
    requires
        manager.metrics.ttl_expired < u64::MAX,
        0 <= manager.kill.leaked,
        manager.kill.leaked + survivors.len() <= u64::MAX,
    ensures
        ({
            let after = manager.finished(ticket, survivors);
            let record = after.audit[after.audit.len() - 1];
            &&& after.sessions.contains_key(other) <==> manager.sessions.contains_key(other) && !(
            other == ticket.session && manager.sessions[other].id == ticket.session_id
                && !manager.sessions[other].alive)
            &&& after.sessions.contains_key(other) ==> after.sessions[other]
                == manager.sessions[other]
            &&& after.tokens == manager.tokens
            &&& after.links == manager.links
            &&& after.metrics.ttl_expired == manager.metrics.ttl_expired + (
            if ticket.reason is Expired {
                1int
            } else {
                0
            })
            &&& after.kill.leaked == manager.kill.leaked + survivors.len()
            &&& after.kill.audit.len() == manager.kill.audit.len() + (if survivors.len() > 0 {
                1int
            } else {
                0
            })
            &&& after.audit.len() == manager.audit.len() + 1
            &&& record.kind == AuditKind::SessionKill
            &&& record.session == Some(ticket.session)
            &&& record.generation == Some(ticket.generation.0)
        }),
{
    vstd::arithmetic::div_mod::lemma_small_mod(
        (manager.kill.leaked + survivors.len()) as nat,
        0x1_0000_0000_0000_0000,
    );
}

/// The last thirty-two dead sessions are remembered, in the order in which they died.
pub proof fn law_the_last_dead_are_remembered(
    tombstones: Seq<TombstoneModel>,
    tombstone: TombstoneModel,
)
    requires
        tombstones.len() <= 32,
    ensures
        tombstones.len() < 32 ==> buried(tombstones, tombstone) == tombstones + seq![tombstone],
        tombstones.len() == 32 ==> buried(tombstones, tombstone) == tombstones.skip(1) + seq![
            tombstone,
        ],
{
    assert(tombstones.push(tombstone) =~= tombstones + seq![tombstone]);
    if tombstones.len() == 32 {
        assert(tombstones.push(tombstone).drop_first() =~= tombstones.skip(1) + seq![tombstone]);
    }
}

/// A session may be created where its name is free, fewer live than the operator allows, and
/// the volume is not full; dead sessions take no place.
pub proof fn law_admission_is_decided_by_room(manager: ManagerModel, name: Seq<char>)
    ensures
        ({
            let taken = manager.sessions.contains_key(name);
            let living = manager.sessions.dom().filter(
                |other: Seq<char>| manager.sessions[other].alive,
            ).len();
            let full = manager.config.max_sessions <= living;
            let no_space = manager.config.volume_capacity_kib <= manager.volume_used_kib;
            let admission = manager.admission(name);
            &&& admission is Exists <==> taken
            &&& admission is Full <==> !taken && full
            &&& admission is VolumeFull <==> !taken && !full && no_space
            &&& admission is Open <==> !taken && !full && !no_space
        }),
{
    assert(manager.live() =~= manager.sessions.dom().filter(
        |other: Seq<char>| manager.sessions[other].alive,
    ));
}

/// A new session is set up as the operator said: with so many KiB of scrollback, a
/// backlog of so many KiB beyond which its client may lose four times as much, and the
/// policy's patience. It is created now, and is on record.
pub proof fn law_new_session_is_set_up_as_configured(
    manager: ManagerModel,
    plan: PlanModel,
    pid: Option<i32>,
    plaintext: Seq<u8>,
    now: u128,
)
    requires
        manager.wf(),
        manager.has_room(plan.session),
        manager.metrics.sessions_created < u64::MAX,
        manager.config.scrollback_kib * 1024 <= usize::MAX,
        manager.config.outbound_backlog_kib * 1024 <= usize::MAX,
        plan.containment.children.len() == 0,
    ensures
        ({
            let after = manager.spawned(plan, pid, plaintext, now);
            let session = after.sessions[plan.session];
            let n = manager.audit.len() as int;
            &&& session.name == plan.session
            &&& session.id == manager.next_id
            &&& after.next_id == manager.next_id + 1
            &&& session.generation == plan.generation
            &&& session.size == plan.size
            &&& session.created_at == now
            &&& session.owner.0 == 0 && session.link is None
            &&& session.ring.capacity == manager.config.scrollback_kib * 1024
            &&& session.backlog.capacity_bytes == manager.config.outbound_backlog_kib * 1024
            &&& session.backlog.max_dropped_bytes == Some(
                (manager.config.outbound_backlog_kib * 4096) as u64,
            )
            &&& session.missed_ping_limit == manager.policy.missed_pings_before_detached
            &&& session.tier_best_effort <==> manager.kill.selection.tier
                == KillDomainTier::Tier1BestEffortProcessGroup
            &&& session.input.len() == 0 && session.input_open
            &&& session.next_conn == 1 && session.missed_pings == 0
            &&& session.stripped.sequences == 0 && session.stripped.bytes == 0
            &&& session.disk_used_kib == 0 && session.last_activity_ms == 0
            &&& session.attached_since is None && session.termination is None
            &&& !session.warned_absolute && !session.warned_idle
            &&& after.metrics.sessions_created == manager.metrics.sessions_created + 1
            &&& after.audit[n].kind == AuditKind::SessionCreate
            &&& after.audit[n].session == Some(plan.session)
            &&& after.audit[n].generation == Some(plan.generation.0)
            &&& plan.restart ==> after.audit.len() == n + 2 && after.audit[n + 1].kind
                == AuditKind::SessionRestart
            &&& !plan.restart ==> after.audit.len() == n + 1
            &&& pid matches Some(pid) ==> {
                &&& session.domain.leader_pgid == Some(pid)
                &&& session.domain.children == seq![pid]
                &&& after.kill.on_record == manager.kill.on_record + 1
            }
            &&& pid is None ==> {
                &&& session.domain == plan.containment
                &&& after.kill.on_record == manager.kill.on_record
            }
        }),
{
    if let Some(pid) = pid {
        assert(plan.containment.children.push(pid) =~= seq![pid]);
    }
}

/// A child goes on record unless nothing may, or the whole runtime has as many on record as
/// it can; the limit it ran into is named.
pub proof fn law_tracking_is_refused_at_its_limit(manager: ManagerModel, pid: Option<i32>)
    ensures
        ({
            let limit = tracking_limit(manager.kill, pid);
            let none_allowed = manager.kill.limits.max_tracked_per_session == 0;
            &&& limit is None <==> pid is None || (!none_allowed && manager.kill.on_record
                < manager.kill.ceiling)
            &&& limit matches Some(n) ==> n == if none_allowed {
                0
            } else {
                manager.kill.ceiling as int
            }
        }),
{
}

/// A restart takes up where the session of that name left off, one generation later: the
/// one that is there, or else the last of that name that died.
pub proof fn law_restart_succeeds_the_last_of_its_name(
    manager: ManagerModel,
    name: Seq<char>,
    last: int,
)
    requires
        manager.has_room(name),
        !manager.sessions.contains_key(name) ==> {
            &&& 0 <= last < manager.tombstones.len()
            &&& manager.tombstones[last].name == name
            &&& forall|i: int|
                last < i < manager.tombstones.len() ==> (#[trigger] manager.tombstones[i]).name
                    != name
        },
    ensures
        ({
            let after = manager.cleared_way(name);
            let next = manager.restart_generation(name);
            &&& !after.sessions.contains_key(name)
            &&& next is Some
            &&& if manager.sessions.contains_key(name) {
                &&& (next->Some_0).0 == manager.sessions[name].generation.0 + 1
                &&& after.sessions == manager.sessions.remove(name)
                &&& after.tombstones == manager.tombstones
            } else {
                &&& (next->Some_0).0 == manager.tombstones[last].generation.0 + 1
                &&& after.sessions == manager.sessions
                &&& after.tombstones == manager.tombstones.remove(last)
            }
            &&& after.tokens == manager.tokens
            &&& after.links == manager.links
        }),
{
    lemma_tombstone(manager, name, manager.tombstones.len() as int);
    if !manager.sessions.contains_key(name) {
        assert(manager.tombstones[last].name == name);
        if let Some(at) = manager.tombstone(name) {
            if at < last {
                assert(manager.tombstones[last].name != name);
            }
            if last < at {
                assert(manager.tombstones[at].name != name);
            }
        }
    }
}

/// A name that no session bears or bore has nothing to restart.
pub proof fn law_unknown_names_are_not_restarted(manager: ManagerModel, name: Seq<char>)
    requires
        !manager.sessions.contains_key(name),
        forall|i: int|
            0 <= i < manager.tombstones.len() ==> (#[trigger] manager.tombstones[i]).name != name,
    ensures
        manager.restart_generation(name) is None,
        manager.cleared_way(name) == manager,
{
    lemma_tombstone(manager, name, manager.tombstones.len() as int);
}

/// What all clients are told, every attached client is told, and nobody who was replaced.
pub proof fn law_every_attached_client_is_told(
    manager: ManagerModel,
    event: ControlModel,
    name: Seq<char>,
    link: u64,
)
    requires
        manager.wf(),
        manager.links.contains_key(link),
    ensures
        ({
            let after = manager.told_all(event);
            &&& after.contains_key(link)
            &&& manager.sessions.contains_key(name) && manager.sessions[name].link == Some(link)
                ==> after[link].controls == manager.links[link].controls + seq![event]
                && after[link].queue == manager.links[link].queue
            &&& (forall|other: Seq<char>| #[trigger]
                manager.sessions.contains_key(other) ==> manager.sessions[other].link != Some(link))
                ==> after[link] == manager.links[link]
        }),
{
    assert(manager.links[link].controls.push(event) =~= manager.links[link].controls + seq![event]);
}

/// A warning goes to the session's client, is given once of each kind, and changes neither
/// the owner nor the lifetime of the session.
pub proof fn law_warning_is_given_to_the_client(
    manager: ManagerModel,
    name: Seq<char>,
    absolute: bool,
    seconds: u64,
)
    requires
        manager.wf(),
        manager.sessions.contains_key(name),
    ensures
        ({
            let before = manager.sessions[name];
            let after = manager.warned(name, absolute, seconds);
            let session = after.sessions[name];
            let event = ControlModel::TtlWarning { seconds_remaining: seconds, absolute };
            &&& session.warned_absolute == (before.warned_absolute || absolute)
            &&& session.warned_idle == (before.warned_idle || !absolute)
            &&& session.owner == before.owner
            &&& session.created_at == before.created_at
            &&& session.last_activity_ms == before.last_activity_ms
            &&& before.link matches Some(link) ==> after.links[link].controls
                == manager.links[link].controls + seq![event]
            &&& before.link is None ==> after.links == manager.links
        }),
{
    assert(manager.session_fits(name));
    if let Some(link) = manager.sessions[name].link {
        let event = ControlModel::TtlWarning { seconds_remaining: seconds, absolute };
        assert(manager.links[link].controls.push(event) =~= manager.links[link].controls + seq![
            event,
        ]);
    }
}

/// A child is started as the operator configured it, in the workspace, with nothing of the
/// runtime's own environment but what it may inherit, and in Tier 2 in a cgroup of its own.
pub proof fn law_child_is_started_as_configured(
    manager: ManagerModel,
    plan: PlanModel,
    name: Seq<char>,
    size: WindowSize,
    generation: Generation,
    env: Seq<(Seq<char>, Seq<char>)>,
    workspace: Seq<char>,
    restart: bool,
    i: int,
)
    requires
        manager.planned(plan, name, size, generation, env, workspace, restart),
        0 <= i < plan.env.len(),
    ensures
        plan.command == manager.config.command,
        plan.cwd == workspace,
        plan.session == name && plan.generation == generation && plan.size == size,
        env.contains(plan.env[i]) || plan.env[i] == ("HOME"@, workspace) || plan.env[i] == (
            "TERM"@,
            "xterm-256color"@,
        ),
        plan.env[i].0 == "TERM"@ || plan.env[i].0 == "LANG"@ || plan.env[i].0 == "PATH"@
            || plan.env[i].0 == "HOME"@ || plan.env[i].0 == "USER"@ || plan.env[i].0 == "SHELL"@
            || "LC_"@.is_prefix_of(plan.env[i].0),
        plan.containment.tier == manager.kill.selection.tier,
        plan.containment.session == name && plan.containment.generation == generation,
        plan.containment.leader_pgid is None && plan.containment.children.len() == 0,
        manager.kill.selection.tier == KillDomainTier::Tier2GuaranteedCgroup
            ==> plan.containment.cgroup == Some("oab-pty-"@ + name),
        manager.kill.selection.tier == KillDomainTier::Tier1BestEffortProcessGroup
            ==> plan.containment.cgroup is None,
        plan.restart == restart,
{
    let kept = choose|kept: Seq<(Seq<char>, Seq<char>)>| #[trigger]
        crate::spawn::inherits(kept, env) && plan.env == crate::spawn::completed(
            kept,
            workspace,
            crate::spawn::DEFAULT_TERM@,
        );
    crate::spawn::law_child_env_is_an_allowlist(
        kept,
        env,
        workspace,
        crate::spawn::DEFAULT_TERM@,
        i,
    );
    crate::spawn::law_inheritable_variables_are_these(plan.env[i].0);
}

/// A queue that is closed, told or fed is the one that was meant: the others stay as they
/// are, and none appears or goes.
pub proof fn law_links_are_apart(
    links: Map<u64, OutboundModel>,
    link: u64,
    other: u64,
    code: u16,
    event: ControlModel,
    bytes: Seq<u8>,
)
    requires
        links.contains_key(link),
        other != link,
    ensures
        closed_link(links, Some(link), code).dom() == links.dom(),
        told_link(links, Some(link), event).dom() == links.dom(),
        fed_link(links, Some(link), bytes).dom() == links.dom(),
        links.contains_key(other) ==> {
            &&& closed_link(links, Some(link), code)[other] == links[other]
            &&& told_link(links, Some(link), event)[other] == links[other]
            &&& fed_link(links, Some(link), bytes)[other] == links[other]
        },
        closed_link(links, Some(link), code)[link].close_code == (match links[link].close_code {
            Some(first) => Some(first),
            None => Some(code),
        }),
        closed_link(links, Some(link), code)[link].queue == links[link].queue,
        told_link(links, Some(link), event)[link].controls == links[link].controls + seq![event],
        closed_link(links, None, code) == links,
        told_link(links, None, event) == links,
        fed_link(links, None, bytes) == links,
{
    assert(closed_link(links, Some(link), code).dom() =~= links.dom());
    assert(told_link(links, Some(link), event).dom() =~= links.dom());
    assert(fed_link(links, Some(link), bytes).dom() =~= links.dom());
    assert(links[link].controls.push(event) =~= links[link].controls + seq![event]);
}

/// A status tells what is so: who it is about, whether it lives and has a client, how much
/// it wrote and how much disk it took. Where the tier promises nothing, it says so.
pub proof fn law_status_tells_what_is_so(
    status: SessionStatus,
    session: SessionModel,
    tier: KillDomainTier,
)
    requires
        describes(status, session, tier),
    ensures
        status.name@ == session.name,
        status.generation == session.generation.0,
        status.alive <==> session.alive,
        status.attached <==> session.owner.0 > 0,
        status.bytes_written == session.ring.written,
        status.disk_used_kib == session.disk_used_kib,
        status.tier == tier,
        status.teardown_best_effort <==> tier is Tier1BestEffortProcessGroup,
        status.absolute_ttl_best_effort <==> tier is Tier1BestEffortProcessGroup,
{
}

/// The record of a teardown ends with how many survived and with whether that was to be
/// expected.
pub proof fn law_teardown_record_tells_the_outcome(ticket: TicketModel, survivors: nat)
    ensures
        ({
            let record = kill_record(ticket, survivors);
            let told = if ticket.domain.tier is Tier1BestEffortProcessGroup {
                "; best_effort=true"@
            } else {
                "; best_effort=false"@
            };
            let count = "; survivors="@ + crate::text::decimal(survivors) + told;
            &&& record.kind == AuditKind::SessionKill
            &&& record.termination == Some(reason_class(ticket.reason))
            &&& record.detail matches Some(detail)
            &&& detail.len() >= count.len()
            &&& detail.skip(detail.len() - count.len()) == count
        }),
{
    let record = kill_record(ticket, survivors);
    let detail = record.detail->Some_0;
    let told = if ticket.domain.tier is Tier1BestEffortProcessGroup {
        "; best_effort=true"@
    } else {
        "; best_effort=false"@
    };
    let count = "; survivors="@ + crate::text::decimal(survivors) + told;
    reveal_strlit("; best_effort=");
    reveal_strlit("; best_effort=true");
    reveal_strlit("; best_effort=false");
    reveal_strlit("true");
    reveal_strlit("false");
    assert("; best_effort="@ + "true"@ =~= "; best_effort=true"@);
    assert("; best_effort="@ + "false"@ =~= "; best_effort=false"@);
    assert(detail =~= crate::killdomain::tier_label(ticket.domain.tier) + count);
    assert(detail.skip(detail.len() - count.len()) =~= count);
}

} // verus!
