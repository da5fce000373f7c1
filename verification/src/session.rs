//! One named byte-stream session.
//!
//! A PTY session is an unbounded byte stream with its own liveness definition:
//! bytes and sockets, not turns. This module holds what a session knows and how
//! each event changes it; [`crate::manager`] holds the sessions together.
use crate::audit::TerminationClass;
use crate::clock::{in_range, MAX_SPAN, MILLISECOND, SECOND};
use crate::close_code;
use crate::config::PtyConfig;
use crate::killdomain::{SessionDomainModel, SessionKillDomain};
use crate::outbound::ConnGeneration;
use crate::ringbuf::{QueueBounds, Replay, RingBuffer, RingModel};
use crate::termfilter::{filtered, response_count, wrapped, StripCounts, TermFilter};
use crate::text::{decimal, decimal_text, joined};
use crate::{Error, Generation, SessionName};
use std::collections::VecDeque;
use vstd::prelude::*;

verus! {

/// Number of input chunks that may sit between the socket and the PTY master
/// before the client is considered unable to keep up (fail closed).
pub const INPUT_QUEUE_CHUNKS: usize = 64;

/// Liveness, TTL, and abuse-control knobs. Spans are nanoseconds.
#[derive(Clone, Copy, Debug, PartialEq, Eq, Structural)]
pub struct SessionPolicy {
    /// Detached-idle TTL.
    pub detached_idle_ttl: u128,
    /// Absolute lifetime cap; applies even while attached, so an open browser tab
    /// cannot pin capacity forever.
    pub absolute_ttl: u128,
    /// WebSocket ping interval, 15 to 30 seconds.
    pub ping_interval: u128,
    /// Missed pings before a half-open socket counts as detached: 2 or 3.
    pub missed_pings_before_detached: u32,
    /// How long before forced teardown the client-visible warning is sent.
    pub ttl_warning_lead: u128,
    /// Takeovers allowed per window, per session generation.
    pub max_takeovers_per_window: u32,
    pub takeover_window: u128,
    /// `SIGTERM`-to-`SIGKILL` grace handed to the kill domain.
    pub teardown_grace: u128,
}

/// What is wrong with a policy, if anything: the first fault found.
pub open spec fn policy_fault(policy: SessionPolicy) -> Option<Seq<char>> {
    if policy.ping_interval < 15 * SECOND || policy.ping_interval > 30 * SECOND {
        Some("ping_interval must be between 15s and 30s"@)
    } else if policy.missed_pings_before_detached < 2 || policy.missed_pings_before_detached > 3 {
        Some("missed_pings_before_detached must be 2 or 3"@)
    } else if policy.detached_idle_ttl == 0 || policy.absolute_ttl == 0 {
        Some("TTLs must be non-zero"@)
    } else if policy.max_takeovers_per_window == 0 || policy.takeover_window == 0 {
        Some("takeover rate limit must permit at least one takeover per window"@)
    } else {
        None
    }
}

impl Default for SessionPolicy {
    fn default() -> (policy: Self)
        ensures
            policy == (SessionPolicy {
                detached_idle_ttl: (30 * 60 * SECOND) as u128,
                absolute_ttl: (12 * 60 * 60 * SECOND) as u128,
                ping_interval: (20 * SECOND) as u128,
                missed_pings_before_detached: 3,
                ttl_warning_lead: (30 * SECOND) as u128,
                max_takeovers_per_window: 3,
                takeover_window: (60 * SECOND) as u128,
                teardown_grace: (5 * SECOND) as u128,
            }),
    {
        SessionPolicy {
            detached_idle_ttl: 30 * 60 * SECOND,
            absolute_ttl: 12 * 60 * 60 * SECOND,
            ping_interval: 20 * SECOND,
            missed_pings_before_detached: 3,
            ttl_warning_lead: 30 * SECOND,
            max_takeovers_per_window: 3,
            takeover_window: 60 * SECOND,
            teardown_grace: 5 * SECOND,
        }
    }
}

impl SessionPolicy {
    /// Whether every span is one a clock can show.
    pub open spec fn fits(self) -> bool {
        &&& in_range(self.detached_idle_ttl)
        &&& in_range(self.absolute_ttl)
        &&& in_range(self.ping_interval)
        &&& in_range(self.ttl_warning_lead)
        &&& in_range(self.takeover_window)
        &&& in_range(self.teardown_grace)
    }

    /// Take the absolute TTL from the delivered projection, keep the defaults for
    /// the rest.
    pub fn from_config(config: &PtyConfig) -> (policy: Self)
        ensures
            policy == (SessionPolicy {
                absolute_ttl: config.absolute_session_ttl,
                detached_idle_ttl: (30 * 60 * SECOND) as u128,
                ping_interval: (20 * SECOND) as u128,
                missed_pings_before_detached: 3,
                ttl_warning_lead: (30 * SECOND) as u128,
                max_takeovers_per_window: 3,
                takeover_window: (60 * SECOND) as u128,
                teardown_grace: (5 * SECOND) as u128,
            }),
    {
        let mut policy = SessionPolicy::default();
        policy.absolute_ttl = config.absolute_session_ttl;
        policy
    }

    /// Reject values outside the stated bands rather than silently serving a
    /// liveness model nobody chose.
    pub fn validate(&self) -> (result: Result<(), Error>)
        ensures
            match policy_fault(*self) {
                Some(reason) => result matches Err(Error::Config(message)) && message@ == reason,
                None => result is Ok,
            },
    {
        if self.ping_interval < 15 * SECOND || self.ping_interval > 30 * SECOND {
            return Err(Error::Config("ping_interval must be between 15s and 30s".to_owned()));
        }
        if self.missed_pings_before_detached < 2 || self.missed_pings_before_detached > 3 {
            return Err(Error::Config("missed_pings_before_detached must be 2 or 3".to_owned()));
        }
        if self.detached_idle_ttl == 0 || self.absolute_ttl == 0 {
            return Err(Error::Config("TTLs must be non-zero".to_owned()));
        }
        if self.max_takeovers_per_window == 0 || self.takeover_window == 0 {
            return Err(
                Error::Config(
                    "takeover rate limit must permit at least one takeover per window".to_owned(),
                ),
            );
        }
        Ok(())
    }
}

/// Terminal size, propagated to the child.
#[derive(Clone, Copy, Debug, PartialEq, Eq, Structural)]
pub struct WindowSize {
    pub rows: u16,
    pub cols: u16,
}

impl Default for WindowSize {
    fn default() -> (size: Self)
        ensures
            size == (WindowSize { rows: 24, cols: 80 }),
    {
        WindowSize { rows: 24, cols: 80 }
    }
}

/// Whether a terminal may have this size.
pub open spec fn size_in_bounds(rows: int, cols: int) -> bool {
    1 <= rows <= 1000 && 1 <= cols <= 1000
}

/// The complaint about a size that is out of bounds.
pub open spec fn size_complaint(rows: u16, cols: u16) -> Seq<char> {
    "resize out of bounds: "@ + decimal(rows as nat) + "x"@ + decimal(cols as nat)
        + " (1..=1000)"@
}

impl WindowSize {
    /// Bounds-checked per the strict control-frame allowlist.
    pub fn validated(rows: u16, cols: u16) -> (result: Result<Self, Error>)
        ensures
            if size_in_bounds(rows as int, cols as int) {
                result matches Ok(size) && size == (WindowSize { rows, cols })
            } else {
                result matches Err(Error::Other(message)) && message@ == size_complaint(rows, cols)
            },
    {
        if rows < 1 || rows > 1000 || cols < 1 || cols > 1000 {
            let head = joined("resize out of bounds: ", decimal_text(rows as u128).as_str());
            let with_x = joined(head.as_str(), "x");
            let size = joined(with_x.as_str(), decimal_text(cols as u128).as_str());
            return Err(Error::Other(joined(size.as_str(), " (1..=1000)")));
        }
        Ok(WindowSize { rows, cols })
    }
}

/// Why a client write was refused.
#[derive(Clone, Copy, Debug, PartialEq, Eq, Structural)]
pub enum InputError {
    /// This connection lost its place (takeover) or the session ended. Its write
    /// path is dropped before its socket closes, so this is observable first.
    Evicted,
    /// The client exceeded the input watermark toward the PTY master. Fail closed:
    /// the server disconnects rather than growing a queue.
    Backpressure,
}

/// Why an attach was refused, with the close code the server should use.
#[derive(Clone, Copy, Debug, PartialEq, Eq, Structural)]
pub enum AttachRejection {
    /// Preempt budget exhausted for this generation.
    TakeoverRateLimited,
    /// Generation fence mismatch: the token belongs to a superseded generation.
    StaleGeneration,
}

impl AttachRejection {
    pub fn close_code(self) -> (code: u16)
        ensures
            code == match self {
                AttachRejection::TakeoverRateLimited => close_code::CAPACITY,
                AttachRejection::StaleGeneration => close_code::RENEWED,
            },
    {
        match self {
            AttachRejection::TakeoverRateLimited => close_code::CAPACITY,
            AttachRejection::StaleGeneration => close_code::RENEWED,
        }
    }
}

/// How long after `earlier` the instant `later` is; nothing where it is not later.
pub open spec fn elapsed(earlier: u128, later: u128) -> int {
    if later >= earlier {
        later - earlier
    } else {
        0
    }
}

fn span_between(earlier: u128, later: u128) -> (span: u128)
    ensures
        span == elapsed(earlier, later),
{
    if later >= earlier {
        later - earlier
    } else {
        0
    }
}

/// Milliseconds from `epoch` to `now`, as a 64-bit counter keeps them.
pub open spec fn millis_since(epoch: u128, now: u128) -> u64 {
    (elapsed(epoch, now) as u128 / MILLISECOND) as u64
}

/// Per-session takeover budget, scoped to the session generation.
///
/// The scoping is the security property: a thief who exhausts the bucket must not
/// be able to lock the victim out of the renew recovery path, so a generation bump
/// resets the bucket and the first attach under a new generation always passes.
#[derive(Clone, Copy, Debug, PartialEq, Eq, Structural)]
pub struct TakeoverLimiter {
    pub generation: Generation,
    pub window_start: u128,
    pub count: u32,
    pub first_attach_of_generation: bool,
}

impl TakeoverLimiter {
    /// A full budget.
    pub open spec fn fresh(generation: Generation, now: u128) -> TakeoverLimiter {
        TakeoverLimiter {
            generation,
            window_start: now,
            count: 0,
            first_attach_of_generation: true,
        }
    }

    /// The budget of this generation.
    pub open spec fn of_generation(self, generation: Generation, now: u128) -> TakeoverLimiter {
        if self.generation != generation {
            TakeoverLimiter::fresh(generation, now)
        } else {
            self
        }
    }

    /// The budget in the window that `now` falls into.
    pub open spec fn in_window(self, now: u128, policy: SessionPolicy) -> TakeoverLimiter {
        if elapsed(self.window_start, now) >= policy.takeover_window {
            TakeoverLimiter { window_start: now, count: 0, ..self }
        } else {
            self
        }
    }

    /// Whether an attach of this generation may go ahead.
    pub open spec fn permits(
        self,
        generation: Generation,
        now: u128,
        policy: SessionPolicy,
    ) -> bool {
        let current = self.of_generation(generation, now);
        current.first_attach_of_generation || current.in_window(now, policy).count
            < policy.max_takeovers_per_window
    }

    /// The budget after an attach of this generation was judged.
    pub open spec fn charged(
        self,
        generation: Generation,
        now: u128,
        policy: SessionPolicy,
    ) -> TakeoverLimiter {
        let current = self.of_generation(generation, now);
        let windowed = current.in_window(now, policy);
        if current.first_attach_of_generation {
            TakeoverLimiter { first_attach_of_generation: false, ..current }
        } else if windowed.count < policy.max_takeovers_per_window {
            TakeoverLimiter { count: (windowed.count + 1) as u32, ..windowed }
        } else {
            windowed
        }
    }

    pub fn new(generation: Generation, now: u128) -> (limiter: Self)
        ensures
            limiter == TakeoverLimiter::fresh(generation, now),
    {
        TakeoverLimiter {
            generation,
            window_start: now,
            count: 0,
            first_attach_of_generation: true,
        }
    }

    /// Judge an attach, and charge it to the budget.
    pub fn allow(&mut self, generation: Generation, now: u128, policy: &SessionPolicy) -> (allowed:
        bool)
        ensures
            allowed == old(self).permits(generation, now, *policy),
            *final(self) == old(self).charged(generation, now, *policy),
    {
        if self.generation != generation {
            *self = TakeoverLimiter::new(generation, now);
        }
        if self.first_attach_of_generation {
            self.first_attach_of_generation = false;
            return true;
        }
        if span_between(self.window_start, now) >= policy.takeover_window {
            self.window_start = now;
            self.count = 0;
        }
        if self.count >= policy.max_takeovers_per_window {
            return false;
        }
        self.count = self.count + 1;
        true
    }
}

/// A generation bump always reopens the recovery path: however spent the budget
/// is, the first attach under a new generation passes.
pub proof fn law_new_generation_reopens_recovery(
    limiter: TakeoverLimiter,
    generation: Generation,
    now: u128,
    policy: SessionPolicy,
)
    requires
        limiter.generation != generation,
    ensures
        limiter.permits(generation, now, policy),
{
}

/// Within one window a generation grants no more than its allowance: an attach
/// that passes is charged, and an exhausted budget refuses.
pub proof fn law_takeovers_are_rate_limited(
    limiter: TakeoverLimiter,
    now: u128,
    policy: SessionPolicy,
)
    requires
        !limiter.first_attach_of_generation,
        elapsed(limiter.window_start, now) < policy.takeover_window,
    ensures
        limiter.permits(limiter.generation, now, policy) <==> limiter.count
            < policy.max_takeovers_per_window,
        limiter.permits(limiter.generation, now, policy) ==> limiter.charged(
            limiter.generation,
            now,
            policy,
        ).count == limiter.count + 1,
{
}

/// A chunk of client input on its way to the PTY master.
#[derive(Debug)]
struct InputChunk {
    conn: ConnGeneration,
    bytes: Vec<u8>,
}

/// The content of a chunk of client input.
#[verifier::ext_equal]
pub struct InputModel {
    pub conn: ConnGeneration,
    pub bytes: Seq<u8>,
}

/// What the TTLs ask for.
#[derive(Clone, Copy, Debug, PartialEq, Eq, Structural)]
pub enum TtlDecision {
    Warn { absolute: bool, seconds_remaining: u64 },
    Expire { absolute: bool },
}

/// What a session knows.
#[verifier::ext_equal]
pub struct SessionModel {
    pub name: Seq<char>,
    /// Distinguishes this session from others that had or will have its name.
    pub id: u64,
    pub generation: Generation,
    /// The connection that owns the session; zero while it is detached.
    pub owner: ConnGeneration,
    pub next_conn: u64,
    pub created_at: u128,
    pub attached_since: Option<u128>,
    pub missed_pings: u32,
    pub alive: bool,
    pub termination: Option<TerminationClass>,
    pub warned_absolute: bool,
    pub warned_idle: bool,
    pub size: WindowSize,
    pub takeovers: TakeoverLimiter,
    pub disk_used_kib: u64,
    pub last_activity_ms: u64,
    /// The outbound queue of the owning connection.
    pub link: Option<u64>,
    pub ring: RingModel,
    pub stripped: StripCounts,
    pub domain: SessionDomainModel,
    pub backlog: QueueBounds,
    pub input: Seq<InputModel>,
    pub input_open: bool,
    pub tier_best_effort: bool,
    pub missed_ping_limit: u32,
}

impl SessionModel {
    /// What holds of every session.
    pub open spec fn wf(self) -> bool {
        &&& 1 <= self.missed_ping_limit
        &&& self.owner.0 < self.next_conn
        &&& self.owner.0 != 0 ==> self.missed_pings < self.missed_ping_limit
        &&& self.owner.0 != 0 <==> self.link is Some
        &&& !self.alive ==> self.owner.0 == 0
        &&& self.input.len() <= INPUT_QUEUE_CHUNKS
        &&& in_range(self.created_at)
    }

    /// Whether this connection owns the session.
    pub open spec fn owned_by(self, conn: ConnGeneration) -> bool {
        conn.0 != 0 && self.owner == conn
    }

    /// The session after traffic was seen.
    pub open spec fn touched(self, epoch: u128, now: u128) -> SessionModel {
        SessionModel { last_activity_ms: millis_since(epoch, now), ..self }
    }

    /// The session without an owner.
    pub open spec fn detached(self) -> SessionModel {
        SessionModel {
            owner: ConnGeneration(0),
            attached_since: None,
            missed_pings: 0,
            link: None,
            ..self
        }
    }

    /// The session after an attach took it.
    pub open spec fn claimed(
        self,
        size: WindowSize,
        link: u64,
        now: u128,
        policy: SessionPolicy,
    ) -> SessionModel {
        SessionModel {
            owner: ConnGeneration(self.next_conn),
            next_conn: (self.next_conn + 1) as u64,
            attached_since: Some(now),
            missed_pings: 0,
            size,
            link: Some(link),
            takeovers: self.takeovers.charged(self.generation, now, policy),
            ..self
        }
    }

    /// The session after its owner missed a ping. At the limit it is detached.
    pub open spec fn ping_missed(self) -> SessionModel {
        let missed = SessionModel { missed_pings: (self.missed_pings + 1) as u32, ..self };
        if missed.missed_pings < self.missed_ping_limit {
            missed
        } else {
            SessionModel { owner: ConnGeneration(0), attached_since: None, link: None, ..missed }
        }
    }

    /// The session under its next generation, without an owner.
    pub open spec fn renewed(self) -> SessionModel {
        SessionModel { generation: Generation((self.generation.0 + 1) as u64), ..self.detached() }
    }

    /// The session at the start of its teardown.
    pub open spec fn ended(self, class: TerminationClass) -> SessionModel {
        SessionModel {
            alive: false,
            termination: Some(class),
            owner: ConnGeneration(0),
            link: None,
            domain: self.domain.emptied(),
            ..self
        }
    }

    /// The session after PTY output passed through it.
    pub open spec fn emitted(self, bytes: Seq<u8>, epoch: u128, now: u128) -> SessionModel {
        SessionModel { ring: self.ring.wrote(bytes), ..self.touched(epoch, now) }
    }

    /// The session after its filter saw client input.
    pub open spec fn screened(self, bytes: Seq<u8>) -> SessionModel {
        SessionModel {
            stripped: StripCounts {
                sequences: wrapped(self.stripped.sequences + response_count(bytes)),
                bytes: wrapped(self.stripped.bytes + bytes.len() - filtered(bytes).len()),
            },
            ..self
        }
    }

    /// What client input is answered.
    pub open spec fn input_answer(self, conn: ConnGeneration, bytes: Seq<u8>) -> Result<
        (),
        InputError,
    > {
        if !self.alive || !self.owned_by(conn) {
            Err(InputError::Evicted)
        } else if filtered(bytes).len() == 0 {
            Ok(())
        } else if !self.input_open {
            Err(InputError::Evicted)
        } else if self.input.len() >= INPUT_QUEUE_CHUNKS {
            Err(InputError::Backpressure)
        } else {
            Ok(())
        }
    }

    /// The session after client input came.
    pub open spec fn after_input(
        self,
        conn: ConnGeneration,
        bytes: Seq<u8>,
        epoch: u128,
        now: u128,
    ) -> SessionModel {
        if !self.alive || !self.owned_by(conn) {
            self
        } else if self.input_answer(conn, bytes) is Err || filtered(bytes).len() == 0 {
            self.screened(bytes)
        } else {
            SessionModel {
                input: self.input.push(InputModel { conn, bytes: filtered(bytes) }),
                ..self.screened(bytes)
            }.touched(epoch, now)
        }
    }

    /// Where the first chunk of the owner stands in the input queue, or its end.
    pub open spec fn first_fresh(self, from: int) -> int
        decreases self.input.len() - from,
    {
        if from < 0 || from >= self.input.len() {
            self.input.len() as int
        } else if self.input[from].conn == self.owner {
            from
        } else {
            self.first_fresh(from + 1)
        }
    }

    /// What the PTY master is written next: the first chunk of the owner.
    pub open spec fn next_input(self) -> Option<Seq<u8>> {
        let at = self.first_fresh(0);
        if at < self.input.len() {
            Some(self.input[at].bytes)
        } else {
            None
        }
    }

    /// The session after the PTY master asked for input: what was taken is gone,
    /// and so is all that stood before it, which came from evicted connections.
    pub open spec fn after_next_input(self) -> SessionModel {
        let at = self.first_fresh(0);
        SessionModel {
            input: if at < self.input.len() {
                self.input.skip(at + 1)
            } else {
                Seq::empty()
            },
            ..self
        }
    }

    /// When the absolute TTL ends.
    pub open spec fn absolute_deadline(self, policy: SessionPolicy) -> int {
        self.created_at + policy.absolute_ttl
    }

    /// When the detached-idle TTL ends. It runs only while nobody is attached.
    pub open spec fn idle_deadline(self, policy: SessionPolicy, epoch: u128) -> Option<int> {
        if self.owner.0 == 0 {
            Some(epoch + self.last_activity_ms * MILLISECOND + policy.detached_idle_ttl)
        } else {
            None
        }
    }

    /// What the TTLs ask for at this instant.
    pub open spec fn ttl_decision(self, policy: SessionPolicy, epoch: u128, now: u128) -> Option<
        TtlDecision,
    > {
        let absolute = self.absolute_deadline(policy);
        let idle = self.idle_deadline(policy, epoch);
        if !self.alive {
            None
        } else if now >= absolute {
            Some(TtlDecision::Expire { absolute: true })
        } else if idle is Some && now >= idle->0 {
            Some(TtlDecision::Expire { absolute: false })
        } else if !self.warned_absolute && now + policy.ttl_warning_lead >= absolute {
            Some(
                TtlDecision::Warn {
                    absolute: true,
                    seconds_remaining: ((absolute - now) / SECOND as int) as u64,
                },
            )
        } else if !self.warned_idle && idle is Some && now + policy.ttl_warning_lead >= idle->0 {
            Some(
                TtlDecision::Warn {
                    absolute: false,
                    seconds_remaining: ((idle->0 - now) / SECOND as int) as u64,
                },
            )
        } else {
            None
        }
    }

    /// The session after the TTLs were looked at: a warning is given once.
    pub open spec fn after_ttl(self, decision: Option<TtlDecision>) -> SessionModel {
        match decision {
            Some(TtlDecision::Warn { absolute, .. }) => if absolute {
                SessionModel { warned_absolute: true, ..self }
            } else {
                SessionModel { warned_idle: true, ..self }
            },
            _ => self,
        }
    }
}

/// One session.
#[derive(Debug)]
pub struct Session {
    name: SessionName,
    id: u64,
    generation: Generation,
    owner: ConnGeneration,
    next_conn: u64,
    created_at: u128,
    attached_since: Option<u128>,
    missed_pings: u32,
    alive: bool,
    termination: Option<TerminationClass>,
    warned_absolute: bool,
    warned_idle: bool,
    size: WindowSize,
    takeovers: TakeoverLimiter,
    disk_used_kib: u64,
    /// Millis since the manager's epoch. Written by both directions of traffic.
    last_activity_ms: u64,
    link: Option<u64>,
    /// Retained scrollback.
    ring: RingBuffer,
    filter: TermFilter,
    domain: SessionKillDomain,
    backlog: QueueBounds,
    input: VecDeque<InputChunk>,
    input_open: bool,
    tier_best_effort: bool,
    /// Copied from the policy so the ping path needs no manager.
    missed_ping_limit: u32,
}

impl View for Session {
    type V = SessionModel;

    closed spec fn view(&self) -> SessionModel {
        SessionModel {
            name: self.name@,
            id: self.id,
            generation: self.generation,
            owner: self.owner,
            next_conn: self.next_conn,
            created_at: self.created_at,
            attached_since: self.attached_since,
            missed_pings: self.missed_pings,
            alive: self.alive,
            termination: self.termination,
            warned_absolute: self.warned_absolute,
            warned_idle: self.warned_idle,
            size: self.size,
            takeovers: self.takeovers,
            disk_used_kib: self.disk_used_kib,
            last_activity_ms: self.last_activity_ms,
            link: self.link,
            ring: self.ring@,
            stripped: self.filter@,
            domain: self.domain@,
            backlog: self.backlog,
            input: Seq::new(
                self.input@.len(),
                |i: int| InputModel { conn: self.input@[i].conn, bytes: self.input@[i].bytes@ },
            ),
            input_open: self.input_open,
            tier_best_effort: self.tier_best_effort,
            missed_ping_limit: self.missed_ping_limit,
        }
    }
}

/// What a session is opened with.
pub struct SessionSetup {
    pub name: SessionName,
    pub id: u64,
    pub generation: Generation,
    pub size: WindowSize,
    pub domain: SessionKillDomain,
    pub scrollback_kib: usize,
    pub backlog: QueueBounds,
    pub tier_best_effort: bool,
    pub missed_ping_limit: u32,
}

/// The most bytes a number of KiB can stand for on this machine.
pub open spec fn kib_bytes(kib: nat) -> nat {
    if kib * 1024 <= usize::MAX {
        kib * 1024
    } else {
        usize::MAX as nat
    }
}

/// A fresh session.
pub open spec fn opened(
    name: Seq<char>,
    id: u64,
    generation: Generation,
    size: WindowSize,
    domain: SessionDomainModel,
    capacity: nat,
    backlog: QueueBounds,
    tier_best_effort: bool,
    missed_ping_limit: u32,
    now: u128,
) -> SessionModel {
    SessionModel {
        name,
        id,
        generation,
        owner: ConnGeneration(0),
        next_conn: 1,
        created_at: now,
        attached_since: None,
        missed_pings: 0,
        alive: true,
        termination: None,
        warned_absolute: false,
        warned_idle: false,
        size,
        takeovers: TakeoverLimiter::fresh(generation, now),
        disk_used_kib: 0,
        last_activity_ms: 0,
        link: None,
        ring: RingModel::empty(capacity),
        stripped: StripCounts { sequences: 0, bytes: 0 },
        domain,
        backlog,
        input: Seq::empty(),
        input_open: true,
        tier_best_effort,
        missed_ping_limit,
    }
}

impl Session {
    pub(crate) fn open(setup: SessionSetup, now: u128) -> (session: Self)
        ensures
            session@ == opened(
                setup.name@,
                setup.id,
                setup.generation,
                setup.size,
                setup.domain@,
                kib_bytes(setup.scrollback_kib as nat),
                setup.backlog,
                setup.tier_best_effort,
                setup.missed_ping_limit,
                now,
            ),
    {
        let session = Session {
            name: setup.name,
            id: setup.id,
            generation: setup.generation,
            owner: ConnGeneration(0),
            next_conn: 1,
            created_at: now,
            attached_since: None,
            missed_pings: 0,
            alive: true,
            termination: None,
            warned_absolute: false,
            warned_idle: false,
            size: setup.size,
            takeovers: TakeoverLimiter::new(setup.generation, now),
            disk_used_kib: 0,
            last_activity_ms: 0,
            link: None,
            ring: RingBuffer::with_scrollback_kib(setup.scrollback_kib),
            filter: TermFilter::new(),
            domain: setup.domain,
            backlog: setup.backlog,
            input: VecDeque::new(),
            input_open: true,
            tier_best_effort: setup.tier_best_effort,
            missed_ping_limit: setup.missed_ping_limit,
        };
        assert(session@.input =~= Seq::<InputModel>::empty());
        session
    }

    pub fn name(&self) -> (name: &SessionName)
        ensures
            name@ == self@.name,
    {
        &self.name
    }

    pub fn id(&self) -> (id: u64)
        ensures
            id == self@.id,
    {
        self.id
    }

    pub fn generation(&self) -> (generation: Generation)
        ensures
            generation == self@.generation,
    {
        self.generation
    }

    pub fn is_alive(&self) -> (alive: bool)
        ensures
            alive == self@.alive,
    {
        self.alive
    }

    pub fn is_attached(&self) -> (attached: bool)
        ensures
            attached == (self@.owner.0 != 0),
    {
        self.owner.0 != 0
    }

    pub fn window_size(&self) -> (size: WindowSize)
        ensures
            size == self@.size,
    {
        self.size
    }

    pub fn total_written(&self) -> (written: u64)
        ensures
            written == self@.ring.written,
    {
        self.ring.total_written()
    }

    pub(crate) fn disk_used_kib(&self) -> (used: u64)
        ensures
            used == self@.disk_used_kib,
    {
        self.disk_used_kib
    }

    pub(crate) fn link(&self) -> (link: Option<u64>)
        ensures
            link == self@.link,
    {
        self.link
    }

    pub(crate) fn next_conn(&self) -> (next: u64)
        ensures
            next == self@.next_conn,
    {
        self.next_conn
    }

    pub(crate) fn backlog(&self) -> (bounds: QueueBounds)
        ensures
            bounds == self@.backlog,
    {
        self.backlog
    }

    pub(crate) fn tier_best_effort(&self) -> (best_effort: bool)
        ensures
            best_effort == self@.tier_best_effort,
    {
        self.tier_best_effort
    }

    pub(crate) fn retention_enabled(&self) -> (enabled: bool)
        ensures
            enabled == (self@.ring.capacity > 0),
    {
        self.ring.retention_enabled()
    }

    pub(crate) fn read_since(&self, since: u64) -> (replay: Replay)
        ensures
            replay@ == self@.ring.replay(since as nat),
    {
        self.ring.read_since(since)
    }

    /// Take the session for a new connection, if its takeover budget allows. The
    /// generation fence comes first.
    pub(crate) fn claim(
        &mut self,
        generation: Generation,
        size: WindowSize,
        link: u64,
        now: u128,
        policy: &SessionPolicy,
    ) -> (result: Result<ConnGeneration, AttachRejection>)
        requires
            old(self)@.next_conn < u64::MAX,
        ensures
            if old(self)@.generation != generation {
                &&& result == Err::<ConnGeneration, _>(AttachRejection::StaleGeneration)
                &&& final(self)@ == old(self)@
            } else if old(self)@.owner.0 != 0 && !old(self)@.takeovers.permits(
                generation,
                now,
                *policy,
            ) {
                &&& result == Err::<ConnGeneration, _>(AttachRejection::TakeoverRateLimited)
                &&& final(self)@ == (SessionModel {
                    takeovers: old(self)@.takeovers.charged(generation, now, *policy),
                    ..old(self)@
                })
            } else {
                &&& result == Ok::<_, AttachRejection>(ConnGeneration(old(self)@.next_conn))
                &&& final(self)@ == old(self)@.claimed(size, link, now, *policy)
            },
    {
        if self.generation != generation {
            return Err(AttachRejection::StaleGeneration);
        }
        // An attach that preempts nobody is charged too, so that a later takeover
        // is charged to the right bucket.
        let allowed = self.takeovers.allow(generation, now, policy);
        if self.owner.0 != 0 && !allowed {
            assert(self@ =~= (SessionModel {
                takeovers: old(self)@.takeovers.charged(generation, now, *policy),
                ..old(self)@
            }));
            return Err(AttachRejection::TakeoverRateLimited);
        }
        let conn = ConnGeneration(self.next_conn);
        self.next_conn = self.next_conn + 1;
        self.owner = conn;
        self.attached_since = Some(now);
        self.missed_pings = 0;
        self.size = size;
        self.link = Some(link);
        assert(self@ =~= old(self)@.claimed(size, link, now, *policy));
        Ok(conn)
    }

    /// Note traffic.
    pub(crate) fn touch(&mut self, epoch: u128, now: u128)
        ensures
            final(self)@ == old(self)@.touched(epoch, now),
    {
        self.last_activity_ms = (span_between(epoch, now) / MILLISECOND) as u64;
        assert(self@ =~= old(self)@.touched(epoch, now));
    }

    /// Client input. Capability responses are stripped here, at the single
    /// chokepoint, so every emulator is protected rather than each being asked to
    /// behave.
    pub(crate) fn write_input(
        &mut self,
        conn: ConnGeneration,
        bytes: &[u8],
        epoch: u128,
        now: u128,
    ) -> (answer: Result<(), InputError>)
        ensures
            answer == old(self)@.input_answer(conn, bytes@),
            final(self)@ == old(self)@.after_input(conn, bytes@, epoch, now),
    {
        if !self.alive || conn.0 == 0 || self.owner != conn {
            return Err(InputError::Evicted);
        }
        let screened = self.filter.filter(bytes);
        let kept = vstd::slice::slice_to_vec(borrowed(&screened));
        assert(self@ =~= old(self)@.screened(bytes@));
        if kept.len() == 0 {
            return Ok(());
        }
        if !self.input_open {
            return Err(InputError::Evicted);
        }
        if self.input.len() >= INPUT_QUEUE_CHUNKS {
            return Err(InputError::Backpressure);
        }
        self.input.push_back(InputChunk { conn, bytes: kept });
        assert(self@.input =~= old(self)@.input.push(
            InputModel { conn, bytes: filtered(bytes@) },
        ));
        self.touch(epoch, now);
        assert(self@ =~= old(self)@.after_input(conn, bytes@, epoch, now));
        Ok(())
    }

    /// The next chunk for the PTY master. Only the owner's input is honoured, so
    /// bytes from a replaced connection are discarded even if they were already in
    /// flight.
    pub(crate) fn next_input(&mut self) -> (chunk: Option<Vec<u8>>)
        ensures
            final(self)@ == old(self)@.after_next_input(),
            match chunk {
                Some(bytes) => old(self)@.next_input() == Some(bytes@),
                None => old(self)@.next_input() is None,
            },
    {
        let ghost before = self@;
        let ghost mut at: int = 0;
        assert(before.input.skip(0) =~= before.input);
        loop
            invariant
                before == old(self)@,
                0 <= at <= before.input.len(),
                self@ == (SessionModel { input: before.input.skip(at), ..before }),
                before.first_fresh(0) == before.first_fresh(at),
            decreases before.input.len() - at,
        {
            let ghost held = self.input@;
            assert(self@.input.len() == held.len());
            match self.input.pop_front() {
                None => {
                    assert(self@ =~= before.after_next_input());
                    return None;
                },
                Some(chunk) => {
                    assert(before.input.skip(at)[0] == before.input[at]);
                    assert(before.input[at] == (InputModel {
                        conn: chunk.conn,
                        bytes: chunk.bytes@,
                    }));
                    assert forall|i: int| 0 <= i < self.input@.len() implies self@.input[i]
                        == before.input.skip(at + 1)[i] by {
                        assert(self.input@[i] == held[i + 1]);
                        assert(before.input.skip(at)[i + 1] == (InputModel {
                            conn: held[i + 1].conn,
                            bytes: held[i + 1].bytes@,
                        }));
                    }
                    assert(self@.input =~= before.input.skip(at + 1));
                    if chunk.conn == self.owner {
                        assert(self@ =~= before.after_next_input());
                        return Some(chunk.bytes);
                    }
                    proof {
                        at = at + 1;
                    }
                    assert(self@ =~= (SessionModel { input: before.input.skip(at), ..before }));
                },
            }
        }
    }

    /// The PTY master takes no more input.
    pub(crate) fn close_input(&mut self)
        ensures
            final(self)@ == (SessionModel { input_open: false, ..old(self)@ }),
    {
        self.input_open = false;
        assert(self@ =~= (SessionModel { input_open: false, ..old(self)@ }));
    }

    /// A new window size from the owner.
    pub(crate) fn resize(&mut self, conn: ConnGeneration, size: WindowSize) -> (result: Result<
        (),
        Error,
    >)
        ensures
            if old(self)@.owned_by(conn) {
                result is Ok && final(self)@ == (SessionModel { size, ..old(self)@ })
            } else {
                result == Err::<(), _>(Error::Unauthorized) && final(self)@ == old(self)@
            },
    {
        if conn.0 == 0 || self.owner != conn {
            return Err(Error::Unauthorized);
        }
        self.size = size;
        assert(self@ =~= (SessionModel { size, ..old(self)@ }));
        Ok(())
    }

    /// A pong clears the missed-ping counter of the owner, and counts as traffic
    /// whoever sent it.
    pub(crate) fn on_pong(&mut self, conn: ConnGeneration, epoch: u128, now: u128)
        ensures
            final(self)@ == if old(self)@.owned_by(conn) {
                SessionModel { missed_pings: 0, ..old(self)@ }.touched(epoch, now)
            } else {
                old(self)@.touched(epoch, now)
            },
    {
        if conn.0 != 0 && self.owner == conn {
            self.missed_pings = 0;
            assert(self@ =~= (SessionModel { missed_pings: 0, ..old(self)@ }));
        }
        self.touch(epoch, now);
    }

    /// A missed ping. Answers whether the socket counts as detached, and hands out
    /// the link of a connection that this ping evicted.
    pub(crate) fn on_missed_ping(&mut self, conn: ConnGeneration) -> (answer: (bool, Option<u64>))
        requires
            old(self)@.wf(),
        ensures
            if old(self)@.owned_by(conn) {
                &&& final(self)@ == old(self)@.ping_missed()
                &&& answer.0 == (old(self)@.missed_pings + 1 >= old(self)@.missed_ping_limit)
                &&& answer.1 == if answer.0 {
                    old(self)@.link
                } else {
                    None
                }
            } else {
                final(self)@ == old(self)@ && answer == (true, None::<u64>)
            },
    {
        if conn.0 == 0 || self.owner != conn {
            return (true, None);
        }
        self.missed_pings = self.missed_pings + 1;
        if self.missed_pings < self.missed_ping_limit {
            assert(self@ =~= old(self)@.ping_missed());
            return (false, None);
        }
        self.attached_since = None;
        self.owner = ConnGeneration(0);
        let link = self.link;
        self.link = None;
        assert(self@ =~= old(self)@.ping_missed());
        (true, link)
    }

    /// Voluntary detach.
    pub(crate) fn detach(&mut self, conn: ConnGeneration)
        ensures
            final(self)@ == if old(self)@.owned_by(conn) {
                old(self)@.detached()
            } else {
                old(self)@
            },
    {
        if conn.0 == 0 || self.owner != conn {
            return ;
        }
        self.owner = ConnGeneration(0);
        self.attached_since = None;
        self.missed_pings = 0;
        self.link = None;
        assert(self@ =~= old(self)@.detached());
    }

    /// Move to the next generation, without an owner. Hands out the link of the
    /// evicted connection.
    pub(crate) fn renew(&mut self) -> (evicted: Option<u64>)
        requires
            old(self)@.generation.0 < u64::MAX,
        ensures
            final(self)@ == old(self)@.renewed(),
            evicted == old(self)@.link,
    {
        self.generation = Generation(self.generation.0 + 1);
        self.owner = ConnGeneration(0);
        self.attached_since = None;
        self.missed_pings = 0;
        let link = self.link;
        self.link = None;
        assert(self@ =~= old(self)@.renewed());
        link
    }

    /// Start the teardown: the session is dead from here on. Hands out its kill
    /// domain and the link of its connection.
    pub(crate) fn end(&mut self, class: TerminationClass) -> (taken: (
        SessionKillDomain,
        Option<u64>,
    ))
        ensures
            final(self)@ == old(self)@.ended(class),
            taken.0@ == old(self)@.domain,
            taken.1 == old(self)@.link,
    {
        self.alive = false;
        self.termination = Some(class);
        self.owner = ConnGeneration(0);
        let link = self.link;
        self.link = None;
        let domain = self.domain.take();
        assert(self@ =~= old(self)@.ended(class));
        (domain, link)
    }

    /// PTY output: retain it, and note the traffic.
    pub(crate) fn emit(&mut self, bytes: &[u8], epoch: u128, now: u128)
        ensures
            final(self)@ == old(self)@.emitted(bytes@, epoch, now),
    {
        let _ = self.ring.write(bytes);
        assert(self@ =~= (SessionModel { ring: old(self)@.ring.wrote(bytes@), ..old(self)@ }));
        self.touch(epoch, now);
        assert(self@ =~= old(self)@.emitted(bytes@, epoch, now));
    }

    pub(crate) fn set_disk_usage(&mut self, used_kib: u64)
        ensures
            final(self)@ == (SessionModel { disk_used_kib: used_kib, ..old(self)@ }),
    {
        self.disk_used_kib = used_kib;
        assert(self@ =~= (SessionModel { disk_used_kib: used_kib, ..old(self)@ }));
    }

    /// Look at the TTLs. A warning is given once.
    pub(crate) fn check_ttl(&mut self, policy: &SessionPolicy, epoch: u128, now: u128) -> (decision:
        Option<TtlDecision>)
        requires
            old(self)@.wf(),
            policy.fits(),
            in_range(epoch),
            in_range(now),
        ensures
            decision == old(self)@.ttl_decision(*policy, epoch, now),
            final(self)@ == old(self)@.after_ttl(decision),
    {
        if !self.alive {
            return None;
        }
        let absolute: u128 = self.created_at + policy.absolute_ttl;
        let idle: Option<u128> = if self.owner.0 == 0 {
            assert(self.last_activity_ms * MILLISECOND <= MAX_SPAN);
            Some(epoch + self.last_activity_ms as u128 * MILLISECOND + policy.detached_idle_ttl)
        } else {
            None
        };
        if now >= absolute {
            return Some(TtlDecision::Expire { absolute: true });
        }
        if let Some(deadline) = idle {
            if now >= deadline {
                return Some(TtlDecision::Expire { absolute: false });
            }
        }
        if !self.warned_absolute && now + policy.ttl_warning_lead >= absolute {
            self.warned_absolute = true;
            let seconds_remaining: u64 = ((absolute - now) / SECOND) as u64;
            assert(self@ =~= (SessionModel { warned_absolute: true, ..old(self)@ }));
            return Some(TtlDecision::Warn { absolute: true, seconds_remaining });
        }
        if let Some(deadline) = idle {
            if !self.warned_idle && now + policy.ttl_warning_lead >= deadline {
                self.warned_idle = true;
                let seconds_remaining: u64 = ((deadline - now) / SECOND) as u64;
                assert(self@ =~= (SessionModel { warned_idle: true, ..old(self)@ }));
                return Some(TtlDecision::Warn { absolute: false, seconds_remaining });
            }
        }
        None
    }
}

/// The bytes behind a borrowed-or-owned slice.
fn borrowed<'a>(bytes: &'a std::borrow::Cow<'a, [u8]>) -> (slice: &'a [u8])
    ensures
        slice@ == bytes@,
{
    match bytes {
        std::borrow::Cow::Borrowed(slice) => slice,
        std::borrow::Cow::Owned(owned) => owned.as_slice(),
    }
}

/// Every event leaves a session that satisfies what holds of every session.
pub proof fn law_events_keep_a_session_whole(
    session: SessionModel,
    conn: ConnGeneration,
    size: WindowSize,
    link: u64,
    bytes: Seq<u8>,
    class: TerminationClass,
    policy: SessionPolicy,
    epoch: u128,
    now: u128,
)
    requires
        session.wf(),
    ensures
        session.alive && session.next_conn < u64::MAX ==> session.claimed(
            size,
            link,
            now,
            policy,
        ).wf(),
        session.touched(epoch, now).wf(),
        session.detached().wf(),
        session.owned_by(conn) ==> session.ping_missed().wf(),
        session.renewed().wf(),
        session.ended(class).wf(),
        session.emitted(bytes, epoch, now).wf(),
        session.after_input(conn, bytes, epoch, now).wf(),
        session.after_next_input().wf(),
        session.after_ttl(session.ttl_decision(policy, epoch, now)).wf(),
{
    lemma_next_input_keeps_wf(session);
}

proof fn lemma_first_fresh(session: SessionModel, from: int)
    requires
        0 <= from,
    ensures
        session.first_fresh(from) <= session.input.len(),
        session.first_fresh(from) < session.input.len() ==> {
            &&& from <= session.first_fresh(from)
            &&& session.input[session.first_fresh(from)].conn == session.owner
        },
        forall|k: int|
            from <= k < session.first_fresh(from) && k < session.input.len() ==> (
            #[trigger] session.input[k]).conn != session.owner,
    decreases session.input.len() - from,
{
    if from < session.input.len() && session.input[from].conn != session.owner {
        lemma_first_fresh(session, from + 1);
    }
}

pub(crate) proof fn lemma_next_input_keeps_wf(session: SessionModel)
    requires
        session.wf(),
    ensures
        session.after_next_input().wf(),
{
    lemma_first_fresh(session, 0);
}

/// Nothing reaches the PTY master but what the owner sent: what is written next is
/// the first of the owner's chunks, and none of the owner's chunks is skipped.
pub proof fn law_only_the_owner_is_heard(session: SessionModel, k: int)
    requires
        0 <= k < session.input.len(),
        session.input[k].conn == session.owner,
    ensures
        session.next_input() is Some,
        session.first_fresh(0) <= k,
        session.input[session.first_fresh(0)].conn == session.owner,
{
    lemma_first_fresh(session, 0);
}

/// A takeover kills the replaced connection's write path at once: its input is
/// refused, and the successor owns the session.
pub proof fn law_takeover_evicts_the_incumbent(
    session: SessionModel,
    size: WindowSize,
    link: u64,
    bytes: Seq<u8>,
    policy: SessionPolicy,
    now: u128,
)
    requires
        session.wf(),
        session.alive,
        session.next_conn < u64::MAX,
    ensures
        ({
            let after = session.claimed(size, link, now, policy);
            &&& after.owned_by(ConnGeneration(session.next_conn))
            &&& !after.owned_by(session.owner)
            &&& after.input_answer(session.owner, bytes) == Err::<(), _>(InputError::Evicted)
        }),
{
}

/// Tearing down a replaced connection cannot affect its successor: neither its
/// detach nor its missed pings change the session.
pub proof fn law_replaced_connection_changes_nothing(
    session: SessionModel,
    old_conn: ConnGeneration,
    bytes: Seq<u8>,
    epoch: u128,
    now: u128,
)
    requires
        !session.owned_by(old_conn),
    ensures
        session.after_input(old_conn, bytes, epoch, now) == session,
        session.input_answer(old_conn, bytes) == Err::<(), _>(InputError::Evicted),
{
}

/// A half-open socket never kills a session: missed pings detach it at the limit
/// and leave it alive.
pub proof fn law_missed_pings_only_detach(session: SessionModel)
    requires
        session.wf(),
        session.owner.0 != 0,
    ensures
        session.ping_missed().alive == session.alive,
        session.ping_missed().owner.0 == 0 <==> session.missed_pings + 1
            >= session.missed_ping_limit,
{
}

/// The absolute TTL applies even while a client is attached.
pub proof fn law_absolute_ttl_applies_while_attached(
    session: SessionModel,
    policy: SessionPolicy,
    epoch: u128,
    now: u128,
)
    requires
        session.alive,
        now >= session.absolute_deadline(policy),
    ensures
        session.ttl_decision(policy, epoch, now) == Some(TtlDecision::Expire { absolute: true }),
{
}

/// The detached-idle TTL runs only while nobody is attached: a live socket is
/// liveness, however idle its user.
pub proof fn law_idle_ttl_spares_attached_sessions(
    session: SessionModel,
    policy: SessionPolicy,
    epoch: u128,
    now: u128,
)
    requires
        session.owner.0 != 0,
    ensures
        session.ttl_decision(policy, epoch, now) != Some(TtlDecision::Expire { absolute: false }),
        now < session.absolute_deadline(policy) ==> !(session.ttl_decision(policy, epoch, now)
            matches Some(TtlDecision::Expire { .. })),
{
}

/// Expiry is visible before it comes: a session looked at within the warning lead
/// of its absolute deadline, and not yet due, is warned, and only once.
pub proof fn law_expiry_is_announced_once(
    session: SessionModel,
    policy: SessionPolicy,
    epoch: u128,
    now: u128,
    later: u128,
)
    requires
        session.alive,
        now < session.absolute_deadline(policy) <= now + policy.ttl_warning_lead,
        session.owner.0 != 0,
    ensures
        ({
            let decision = session.ttl_decision(policy, epoch, now);
            let after = session.after_ttl(decision);
            &&& after.warned_absolute
            &&& !session.warned_absolute ==> (decision matches Some(
                TtlDecision::Warn { absolute, .. },
            ) && absolute)
            &&& !(after.ttl_decision(policy, epoch, later) matches Some(TtlDecision::Warn { .. }))
        }),
{
}

/// A dead session has no deadline left.
pub proof fn law_dead_sessions_do_not_expire(
    session: SessionModel,
    class: TerminationClass,
    policy: SessionPolicy,
    epoch: u128,
    now: u128,
)
    ensures
        session.ended(class).ttl_decision(policy, epoch, now) is None,
{
}

/// Whether a session is expired as idle exactly from the instant `due` on: while it is
/// alive and nobody is attached, and its absolute lifetime is not over.
pub open spec fn idles_out_at(
    session: SessionModel,
    due: int,
    policy: SessionPolicy,
    epoch: u128,
    now: u128,
) -> bool {
    session.ttl_decision(policy, epoch, now) == Some(TtlDecision::Expire { absolute: false })
        <==> session.alive && session.owner.0 == 0 && due <= now && now < session.created_at
        + policy.absolute_ttl
}

proof fn lemma_idles_out_after_traffic(
    session: SessionModel,
    policy: SessionPolicy,
    epoch: u128,
    traffic: u128,
    now: u128,
)
    requires
        epoch <= traffic,
        (traffic - epoch) / 1_000_000 <= u64::MAX,
        session.last_activity_ms == millis_since(epoch, traffic),
    ensures
        idles_out_at(
            session,
            epoch + (traffic - epoch) / 1_000_000 * 1_000_000 + policy.detached_idle_ttl,
            policy,
            epoch,
            now,
        ),
{
    assert(session.last_activity_ms as int == (traffic - epoch) / 1_000_000);
}

/// A detached session is expired as idle exactly when the idle TTL has passed since its
/// last traffic, to the millisecond: whether that was output of the child, input that
/// was accepted, an attach, or any other sign of life, and however its client then went
/// away. No traffic, however old the session is, is followed by an earlier expiry.
pub proof fn law_idle_ttl_runs_from_the_last_traffic(
    session: SessionModel,
    conn: ConnGeneration,
    bytes: Seq<u8>,
    size: WindowSize,
    link: u64,
    policy: SessionPolicy,
    epoch: u128,
    traffic: u128,
    now: u128,
)
    requires
        epoch <= traffic,
        (traffic - epoch) / 1_000_000 <= u64::MAX,
    ensures
        ({
            let due = epoch + (traffic - epoch) / 1_000_000 * 1_000_000
                + policy.detached_idle_ttl;
            let seen = session.touched(epoch, traffic);
            let output = session.emitted(bytes, epoch, traffic);
            let input = session.after_input(conn, bytes, epoch, traffic);
            let attached = session.claimed(size, link, traffic, policy).touched(epoch, traffic);
            let heard = session.input_answer(conn, bytes) is Ok && filtered(bytes).len() > 0;
            &&& idles_out_at(seen, due, policy, epoch, now)
            &&& idles_out_at(seen.detached(), due, policy, epoch, now)
            &&& idles_out_at(seen.ping_missed(), due, policy, epoch, now)
            &&& idles_out_at(seen.renewed(), due, policy, epoch, now)
            &&& idles_out_at(output, due, policy, epoch, now)
            &&& idles_out_at(output.detached(), due, policy, epoch, now)
            &&& heard ==> idles_out_at(input, due, policy, epoch, now) && idles_out_at(
                input.detached(),
                due,
                policy,
                epoch,
                now,
            )
            &&& idles_out_at(attached, due, policy, epoch, now)
            &&& idles_out_at(attached.detached(), due, policy, epoch, now)
        }),
{
    let seen = session.touched(epoch, traffic);
    let output = session.emitted(bytes, epoch, traffic);
    let input = session.after_input(conn, bytes, epoch, traffic);
    let attached = session.claimed(size, link, traffic, policy).touched(epoch, traffic);
    lemma_idles_out_after_traffic(seen, policy, epoch, traffic, now);
    lemma_idles_out_after_traffic(seen.detached(), policy, epoch, traffic, now);
    lemma_idles_out_after_traffic(seen.ping_missed(), policy, epoch, traffic, now);
    lemma_idles_out_after_traffic(seen.renewed(), policy, epoch, traffic, now);
    lemma_idles_out_after_traffic(output, policy, epoch, traffic, now);
    lemma_idles_out_after_traffic(output.detached(), policy, epoch, traffic, now);
    if session.input_answer(conn, bytes) is Ok && filtered(bytes).len() > 0 {
        lemma_idles_out_after_traffic(input, policy, epoch, traffic, now);
        lemma_idles_out_after_traffic(input.detached(), policy, epoch, traffic, now);
    }
    lemma_idles_out_after_traffic(attached, policy, epoch, traffic, now);
    lemma_idles_out_after_traffic(attached.detached(), policy, epoch, traffic, now);
}

/// The absolute TTL runs from the creation of a session and from nothing else: a live
/// session is expired by it exactly from that instant on, attached or not.
pub proof fn law_absolute_ttl_runs_from_creation(
    session: SessionModel,
    policy: SessionPolicy,
    epoch: u128,
    now: u128,
)
    ensures
        session.ttl_decision(policy, epoch, now) == Some(TtlDecision::Expire { absolute: true })
            <==> session.alive && now >= session.created_at + policy.absolute_ttl,
        !session.alive ==> session.ttl_decision(policy, epoch, now) is None,
{
}

/// A session is created at the instant it is opened: it is expired as too old exactly one
/// absolute TTL later.
pub proof fn law_new_session_lives_one_absolute_ttl(
    name: Seq<char>,
    id: u64,
    generation: Generation,
    size: WindowSize,
    domain: SessionDomainModel,
    capacity: nat,
    backlog: QueueBounds,
    tier_best_effort: bool,
    missed_ping_limit: u32,
    policy: SessionPolicy,
    epoch: u128,
    now: u128,
    later: u128,
)
    ensures
        ({
            let session = opened(
                name,
                id,
                generation,
                size,
                domain,
                capacity,
                backlog,
                tier_best_effort,
                missed_ping_limit,
                now,
            );
            &&& session.ttl_decision(policy, epoch, later) == Some(
                TtlDecision::Expire { absolute: true },
            ) <==> later >= now + policy.absolute_ttl
            &&& session.takeovers.permits(generation, later, policy)
            &&& !session.warned_absolute && !session.warned_idle
        }),
{
}

/// A warning comes once, no earlier than the lead before the expiry it announces, and
/// names the whole seconds that are left. It comes as soon as the lead begins, the
/// absolute TTL's before the idle TTL's.
pub proof fn law_warning_precedes_expiry_by_the_lead(
    session: SessionModel,
    policy: SessionPolicy,
    epoch: u128,
    now: u128,
)
    requires
        policy.fits(),
        in_range(now),
        in_range(epoch),
        in_range(session.created_at),
    ensures
        ({
            let old_age = session.created_at + policy.absolute_ttl;
            let idle = epoch + session.last_activity_ms * 1_000_000 + policy.detached_idle_ttl;
            let idles = session.owner.0 == 0;
            let expired = now >= old_age || (idles && now >= idle);
            let ages = session.alive && !expired && !session.warned_absolute && now
                + policy.ttl_warning_lead >= old_age;
            let fades = session.alive && !expired && !ages && idles && !session.warned_idle && now
                + policy.ttl_warning_lead >= idle;
            match session.ttl_decision(policy, epoch, now) {
                Some(TtlDecision::Warn { absolute, seconds_remaining }) => {
                    let due = if absolute {
                        old_age
                    } else {
                        idle
                    };
                    &&& if absolute {
                        ages
                    } else {
                        fades
                    }
                    &&& due - now <= u64::MAX * 1_000_000_000 ==> seconds_remaining * 1_000_000_000
                        <= due - now < (seconds_remaining + 1) * 1_000_000_000
                },
                _ => !ages && !fades,
            }
        }),
        session.after_ttl(
            Some(TtlDecision::Warn { absolute: true, seconds_remaining: 0 }),
        ).warned_absolute,
        session.after_ttl(
            Some(TtlDecision::Warn { absolute: false, seconds_remaining: 0 }),
        ).warned_idle,
{
}

/// The takeover budget after `n` attaches of its generation, one at each instant.
pub open spec fn budget_after(
    limiter: TakeoverLimiter,
    instants: Seq<u128>,
    policy: SessionPolicy,
    n: nat,
) -> TakeoverLimiter
    decreases n,
{
    if n == 0 {
        limiter
    } else {
        budget_after(limiter, instants, policy, (n - 1) as nat).charged(
            limiter.generation,
            instants[n - 1],
            policy,
        )
    }
}

proof fn lemma_budget_within_a_window(
    limiter: TakeoverLimiter,
    instants: Seq<u128>,
    policy: SessionPolicy,
    n: nat,
)
    requires
        !limiter.first_attach_of_generation,
        limiter.count == 0,
        forall|i: int|
            0 <= i < n ==> limiter.window_start <= #[trigger] instants[i] < limiter.window_start
                + policy.takeover_window,
    ensures
        ({
            let after = budget_after(limiter, instants, policy, n);
            &&& after.generation == limiter.generation
            &&& after.window_start == limiter.window_start
            &&& !after.first_attach_of_generation
            &&& after.count == if n < policy.max_takeovers_per_window {
                n as int
            } else {
                policy.max_takeovers_per_window as int
            }
        }),
    decreases n,
{
    if n > 0 {
        lemma_budget_within_a_window(limiter, instants, policy, (n - 1) as nat);
        assert(limiter.window_start <= instants[n - 1] < limiter.window_start
            + policy.takeover_window);
    }
}

/// Within one window exactly the allowance passes: of the attaches that come in it, the
/// first so many go ahead and every later one is refused.
pub proof fn law_window_grants_its_allowance(
    limiter: TakeoverLimiter,
    instants: Seq<u128>,
    policy: SessionPolicy,
    n: nat,
)
    requires
        !limiter.first_attach_of_generation,
        limiter.count == 0,
        forall|i: int|
            0 <= i <= n ==> limiter.window_start <= #[trigger] instants[i] < limiter.window_start
                + policy.takeover_window,
    ensures
        budget_after(limiter, instants, policy, n).permits(
            limiter.generation,
            instants[n as int],
            policy,
        ) <==> n < policy.max_takeovers_per_window,
{
    lemma_budget_within_a_window(limiter, instants, policy, n);
    assert(limiter.window_start <= instants[n as int]);
}

/// When a window is over the budget is whole again, and the new window begins with the
/// attach that found it so; the first attach of a generation costs nothing.
pub proof fn law_window_ends_and_begins_anew(
    limiter: TakeoverLimiter,
    generation: Generation,
    now: u128,
    policy: SessionPolicy,
)
    requires
        policy.max_takeovers_per_window > 0,
    ensures
        !limiter.first_attach_of_generation && now >= limiter.window_start
            + policy.takeover_window ==> {
            &&& limiter.permits(limiter.generation, now, policy)
            &&& limiter.charged(limiter.generation, now, policy).count == 1
            &&& limiter.charged(limiter.generation, now, policy).window_start == now
        },
        limiter.first_attach_of_generation ==> {
            &&& limiter.permits(limiter.generation, now, policy)
            &&& limiter.charged(limiter.generation, now, policy).count == limiter.count
            &&& !limiter.charged(limiter.generation, now, policy).first_attach_of_generation
        },
        generation != limiter.generation ==> {
            let after = limiter.charged(generation, now, policy);
            &&& after.generation == generation
            &&& after.count == 0
            &&& after.window_start == now
            &&& !after.first_attach_of_generation
        },
{
}

/// What is typed reaches the queue once, last, and without the capability replies in it;
/// a queue of sixty-four chunks takes no more and keeps what it has.
pub proof fn law_input_is_queued_in_order(
    session: SessionModel,
    conn: ConnGeneration,
    bytes: Seq<u8>,
    epoch: u128,
    now: u128,
)
    requires
        session.alive,
        session.owner == conn,
        conn.0 != 0,
        session.input_open,
        filtered(bytes).len() > 0,
    ensures
        ({
            let after = session.after_input(conn, bytes, epoch, now);
            if session.input.len() < 64 {
                &&& session.input_answer(conn, bytes) is Ok
                &&& after.input == session.input.push(InputModel { conn, bytes: filtered(bytes) })
            } else {
                &&& session.input_answer(conn, bytes) == Err::<(), InputError>(
                    InputError::Backpressure,
                )
                &&& after.input == session.input
            }
        }),
{
}

/// Queued input is written to the child oldest first, each chunk once.
pub proof fn law_input_is_written_in_order(session: SessionModel)
    requires
        session.input.len() > 0,
        session.input[0].conn == session.owner,
    ensures
        session.next_input() == Some(session.input[0].bytes),
        session.after_next_input().input == session.input.skip(1),
{
}

/// A client is given up exactly when it has missed as many pings in a row as the policy
/// allows; until then only the count goes up.
pub proof fn law_pings_are_counted_to_the_limit(session: SessionModel)
    requires
        session.wf(),
        session.owner.0 != 0,
    ensures
        ({
            let after = session.ping_missed();
            &&& after.missed_pings == session.missed_pings + 1
            &&& after.owner == if session.missed_pings + 1 < session.missed_ping_limit {
                session.owner
            } else {
                ConnGeneration(0)
            }
            &&& after.link == if session.missed_pings + 1 < session.missed_ping_limit {
                session.link
            } else {
                None
            }
        }),
{
}

/// A policy is served exactly where it lies in its bands: pings every fifteen to thirty
/// seconds, two or three of them missed, and TTLs and takeover budget that are not zero.
pub proof fn law_policy_lies_in_its_bands(policy: SessionPolicy)
    ensures
        policy_fault(policy) is None <==> {
            &&& 15_000_000_000 <= policy.ping_interval <= 30_000_000_000
            &&& 2 <= policy.missed_pings_before_detached <= 3
            &&& policy.detached_idle_ttl > 0
            &&& policy.absolute_ttl > 0
            &&& policy.max_takeovers_per_window > 0
            &&& policy.takeover_window > 0
        },
{
}

/// A terminal has one to a thousand rows, and one to a thousand columns.
pub proof fn law_terminal_size_is_bounded(rows: int, cols: int)
    ensures
        size_in_bounds(rows, cols) <==> 0 < rows && rows <= 1000 && 0 < cols && cols <= 1000,
{
}

/// A session whose client left has no owner, no connection and no missed pings, and is
/// otherwise as it was: it goes on, and what it was told to write is still to be written.
pub proof fn law_detached_session_goes_on(session: SessionModel)
    ensures
        ({
            let after = session.detached();
            &&& after.owner.0 == 0
            &&& after.link is None
            &&& after.attached_since is None
            &&& after.missed_pings == 0
            &&& after.alive == session.alive
            &&& after.generation == session.generation
            &&& after.next_conn == session.next_conn
            &&& after.created_at == session.created_at
            &&& after.last_activity_ms == session.last_activity_ms
            &&& after.ring == session.ring
            &&& after.input == session.input
            &&& after.takeovers == session.takeovers
            &&& after.domain == session.domain
            &&& after.size == session.size
            &&& after.warned_absolute == session.warned_absolute
            &&& after.warned_idle == session.warned_idle
        }),
{
}

/// A session at the start of its teardown is dead for the given reason and has no client;
/// its processes and its cgroup are handed to the teardown, and its history stays.
pub proof fn law_ended_session_is_dead(session: SessionModel, class: TerminationClass)
    ensures
        ({
            let after = session.ended(class);
            &&& !after.alive
            &&& after.termination == Some(class)
            &&& after.owner.0 == 0 && after.link is None
            &&& after.domain.children.len() == 0 && after.domain.cgroup is None
            &&& after.domain.leader_pgid == session.domain.leader_pgid
            &&& after.generation == session.generation
            &&& after.ring == session.ring
            &&& after.created_at == session.created_at
        }),
{
}

/// What the filter takes out of the input of a session is counted, and changes nothing else.
pub proof fn law_what_is_stripped_is_counted(session: SessionModel, bytes: Seq<u8>)
    requires
        session.stripped.sequences + response_count(bytes) <= u64::MAX,
        session.stripped.bytes + bytes.len() <= u64::MAX,
        0 <= session.stripped.sequences,
        0 <= session.stripped.bytes,
    ensures
        ({
            let after = session.screened(bytes);
            &&& after.stripped.sequences == session.stripped.sequences + response_count(bytes)
            &&& after.stripped.bytes == session.stripped.bytes + (bytes.len() - filtered(
                bytes,
            ).len())
            &&& after.input == session.input
            &&& after.owner == session.owner
            &&& after.last_activity_ms == session.last_activity_ms
        }),
{
    crate::termfilter::law_filtering_only_removes(bytes);
    vstd::arithmetic::div_mod::lemma_small_mod(
        (session.stripped.sequences + response_count(bytes)) as nat,
        0x1_0000_0000_0000_0000,
    );
    vstd::arithmetic::div_mod::lemma_small_mod(
        (session.stripped.bytes + bytes.len() - filtered(bytes).len()) as nat,
        0x1_0000_0000_0000_0000,
    );
}

} // verus!
