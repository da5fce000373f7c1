//! The kill domain: two tiers, selected by startup detection.
//!
//! Two problems are solved separately here:
//!
//! * **Attribution**: which session does a live process belong to? Only the
//!   kernel can answer this. Tier 2 asks it (`cgroup.procs`). Tier 1 cannot, and
//!   says so.
//! * **Reaping**: collecting exited children. `PR_SET_CHILD_SUBREAPER` plus a
//!   `pidfd` per child on record covers this in both tiers.
//!
//! Ancestry is never used for attribution: reaping succeeds exactly where
//! attribution fails, so lineage is only ever used to *reap*, never to decide who
//! owns a process.
//!
//! | Tier | Mechanism | Teardown convergence | Absolute TTL |
//! |---|---|---|---|
//! | [`KillDomainTier::Tier1BestEffortProcessGroup`] | `setsid`/pgid + `SIGTERM`→`SIGKILL`, subreaper, pidfd | **best effort** | **best effort** |
//! | [`KillDomainTier::Tier2GuaranteedCgroup`] | one cgroup per session, `cgroup.kill` | hard guarantee | hard guarantee |
//!
//! Tier 1 is best-effort because a child that calls `setsid` or double-forks
//! leaves the process group, and nothing short of a kernel-authoritative
//! membership primitive can find it again. Survivors that *can* be seen are
//! audited as anomalies and counted on [`KillDomain::leaked_process_count`], so
//! the condition is observable rather than silent.
use crate::audit::{AuditEvent, AuditKind, AuditLogger, AuditRecord};
use crate::clock::{in_range, MILLISECOND, SECOND};
use crate::config::KillDomainRequirement;
use crate::text::{
    decimal, decimal_text, joined, occurs_at, signed_decimal, signed_decimal_text,
};
use crate::{Error, Generation, SessionName};
use vstd::prelude::*;

verus! {

/// The active containment tier. The variant names carry the guarantee because
/// this value reaches operators through logs and status output.
#[derive(Clone, Copy, Debug, PartialEq, Eq, Structural)]
pub enum KillDomainTier {
    /// Default. No prerequisites, and **best-effort** teardown and TTL.
    Tier1BestEffortProcessGroup,
    /// Optional hardening. Requires delegated cgroup v2 reaching the container's
    /// own cgroup; teardown convergence becomes a hard guarantee.
    Tier2GuaranteedCgroup,
}

/// Whether teardown convergence is guaranteed. Kept as its own type so a
/// best-effort outcome cannot be mistaken for a successful containment claim.
#[derive(Clone, Copy, Debug, PartialEq, Eq, Structural)]
pub enum TeardownGuarantee {
    BestEffort,
    Hard,
}

/// The label of a tier.
pub open spec fn tier_label(tier: KillDomainTier) -> Seq<char> {
    match tier {
        KillDomainTier::Tier1BestEffortProcessGroup => "tier1-best-effort-process-group"@,
        KillDomainTier::Tier2GuaranteedCgroup => "tier2-guaranteed-cgroup"@,
    }
}

/// The guarantee of a tier.
pub open spec fn tier_guarantee(tier: KillDomainTier) -> TeardownGuarantee {
    match tier {
        KillDomainTier::Tier1BestEffortProcessGroup => TeardownGuarantee::BestEffort,
        KillDomainTier::Tier2GuaranteedCgroup => TeardownGuarantee::Hard,
    }
}

impl KillDomainTier {
    /// True when convergence is not guaranteed. Callers must surface this.
    pub fn is_best_effort(self) -> (best_effort: bool)
        ensures
            best_effort == (self == KillDomainTier::Tier1BestEffortProcessGroup),
    {
        match self {
            KillDomainTier::Tier1BestEffortProcessGroup => true,
            KillDomainTier::Tier2GuaranteedCgroup => false,
        }
    }

    pub fn guarantee(self) -> (guarantee: TeardownGuarantee)
        ensures
            guarantee == tier_guarantee(self),
    {
        match self {
            KillDomainTier::Tier1BestEffortProcessGroup => TeardownGuarantee::BestEffort,
            KillDomainTier::Tier2GuaranteedCgroup => TeardownGuarantee::Hard,
        }
    }

    pub fn label(self) -> (label: &'static str)
        ensures
            label@ == tier_label(self),
    {
        match self {
            KillDomainTier::Tier1BestEffortProcessGroup => "tier1-best-effort-process-group",
            KillDomainTier::Tier2GuaranteedCgroup => "tier2-guaranteed-cgroup",
        }
    }

    /// The tier as it is printed.
    pub fn to_string(&self) -> (text: String)
        ensures
            text@ == tier_label(*self),
    {
        self.label().to_owned()
    }
}

/// Why Tier 2 is not active. Each of these points at a different operator
/// remedy.
#[derive(Debug, PartialEq, Eq)]
pub enum Tier2Unavailable {
    /// `mkdir` returned `EROFS`: no writable cgroup mount. Denied at the mount,
    /// so ownership is irrelevant; the default container contract lands here.
    NoWritableCgroupMount,
    /// `EACCES`/`EPERM`: a cgroup mount exists but the subtree is not delegated
    /// to this container's own cgroup.
    SubtreeNotDelegated,
    /// `ENOENT`: the path is outside this container's cgroup namespace (a
    /// pod-level sibling fails here under `nsdelegate`).
    OutsideCgroupNamespace,
    /// A required syscall was filtered (seccomp commonly blocks `prctl` and
    /// `pidfd_open`).
    SyscallBlocked(String),
    /// Not Linux: cgroups do not exist. Never reported as containment.
    NotLinux,
    /// The active PTY spawner cannot write the child's pid to `cgroup.procs`
    /// before `execv`. The kernel is willing, the spawn primitive is not, and a
    /// post-`exec` migration is refused because adversary code would then have
    /// run outside its cgroup.
    SpawnerCannotJoinCgroupPreExec,
    /// The end-to-end probe (create → populate → `cgroup.kill` → remove) failed
    /// for a reason not covered above.
    ProbeFailed(String),
}

impl Clone for Tier2Unavailable {
    fn clone(&self) -> (copy: Self)
        ensures
            copy == *self,
    {
        match self {
            Tier2Unavailable::NoWritableCgroupMount => Tier2Unavailable::NoWritableCgroupMount,
            Tier2Unavailable::SubtreeNotDelegated => Tier2Unavailable::SubtreeNotDelegated,
            Tier2Unavailable::OutsideCgroupNamespace => Tier2Unavailable::OutsideCgroupNamespace,
            Tier2Unavailable::SyscallBlocked(what) => Tier2Unavailable::SyscallBlocked(
                what.clone(),
            ),
            Tier2Unavailable::NotLinux => Tier2Unavailable::NotLinux,
            Tier2Unavailable::SpawnerCannotJoinCgroupPreExec =>
                Tier2Unavailable::SpawnerCannotJoinCgroupPreExec,
            Tier2Unavailable::ProbeFailed(what) => Tier2Unavailable::ProbeFailed(what.clone()),
        }
    }
}

/// The wording of a reason.
pub open spec fn reason_text(reason: Tier2Unavailable) -> Seq<char> {
    match reason {
        Tier2Unavailable::NoWritableCgroupMount => "EROFS: no writable cgroup2 mount"@,
        Tier2Unavailable::SubtreeNotDelegated =>
            "EACCES: cgroup subtree is not delegated to this container"@,
        Tier2Unavailable::OutsideCgroupNamespace =>
            "ENOENT: path is outside this container's cgroup namespace"@,
        Tier2Unavailable::SyscallBlocked(what) => "syscall blocked: "@ + what@,
        Tier2Unavailable::NotLinux => "not Linux: cgroup containment does not exist here"@,
        Tier2Unavailable::SpawnerCannotJoinCgroupPreExec =>
            "spawner cannot write cgroup.procs before execv; refusing post-exec migration"@,
        Tier2Unavailable::ProbeFailed(what) => "probe failed: "@ + what@,
    }
}

impl Tier2Unavailable {
    /// The reason as it is printed.
    pub fn to_string(&self) -> (text: String)
        ensures
            text@ == reason_text(*self),
    {
        match self {
            Tier2Unavailable::NoWritableCgroupMount =>
                "EROFS: no writable cgroup2 mount".to_owned(),
            Tier2Unavailable::SubtreeNotDelegated =>
                "EACCES: cgroup subtree is not delegated to this container".to_owned(),
            Tier2Unavailable::OutsideCgroupNamespace =>
                "ENOENT: path is outside this container's cgroup namespace".to_owned(),
            Tier2Unavailable::SyscallBlocked(what) => joined("syscall blocked: ", what.as_str()),
            Tier2Unavailable::NotLinux =>
                "not Linux: cgroup containment does not exist here".to_owned(),
            Tier2Unavailable::SpawnerCannotJoinCgroupPreExec =>
                "spawner cannot write cgroup.procs before execv; refusing post-exec migration".to_owned(),
            Tier2Unavailable::ProbeFailed(what) => joined("probe failed: ", what.as_str()),
        }
    }
}

/// What the PTY spawner is able to do at fork time. Tier 2's guarantee depends on
/// the pid landing in the cgroup *before* `execv`, so the spawner's capability is
/// part of tier selection rather than an afterthought.
#[derive(Clone, Copy, Debug, PartialEq, Eq, Structural)]
pub enum SpawnCapability {
    /// Can run a pre-`execv` hook and write the child's own pid to a pre-opened
    /// `cgroup.procs` descriptor.
    PreExecCgroupJoin,
    /// Can only place the child in its own process group.
    ProcessGroupOnly,
}

/// Outcome of tier selection.
#[derive(Clone, Debug)]
pub struct KillDomainSelection {
    pub tier: KillDomainTier,
    /// Present whenever Tier 2 is not active; carries the distinguishing reason.
    pub tier2_unavailable: Option<Tier2Unavailable>,
    /// The delegated cgroup directory session cgroups are created under. Always a
    /// descendant of the runtime's own cgroup.
    pub cgroup_base: Option<String>,
}

/// `kill domain: <tier> (...)`: the line an operator reads at startup.
pub open spec fn selection_line(selection: KillDomainSelection) -> Seq<char> {
    match selection.tier2_unavailable {
        None => "kill domain: "@ + tier_label(selection.tier) + " (convergence guaranteed)"@,
        Some(reason) => "kill domain: "@ + tier_label(selection.tier)
            + " (teardown and absolute TTL are BEST-EFFORT); tier 2 unavailable: "@
            + reason_text(reason),
    }
}

impl KillDomainSelection {
    pub fn tier1(reason: Tier2Unavailable) -> (selection: Self)
        ensures
            selection.tier == KillDomainTier::Tier1BestEffortProcessGroup,
            selection.tier2_unavailable == Some(reason),
            selection.cgroup_base is None,
    {
        KillDomainSelection {
            tier: KillDomainTier::Tier1BestEffortProcessGroup,
            tier2_unavailable: Some(reason),
            cgroup_base: None,
        }
    }

    /// One log line an operator can act on: which tier is active and, when it is
    /// the best-effort one, exactly why the hard guarantee is unavailable.
    pub fn describe(&self) -> (line: String)
        ensures
            line@ == selection_line(*self),
    {
        let head = joined("kill domain: ", self.tier.label());
        match &self.tier2_unavailable {
            None => joined(head.as_str(), " (convergence guaranteed)"),
            Some(reason) => joined(
                joined(
                    head.as_str(),
                    " (teardown and absolute TTL are BEST-EFFORT); tier 2 unavailable: ",
                ).as_str(),
                reason.to_string().as_str(),
            ),
        }
    }
}

/// Select the tier from the operator requirement, the probe result, and the
/// spawner's capability. A required Tier 2 is refused where it is not to be had,
/// never silently downgraded.
pub fn resolve_tier(
    requirement: KillDomainRequirement,
    probe: Result<String, Tier2Unavailable>,
    capability: SpawnCapability,
) -> (result: Result<KillDomainSelection, Error>)
    ensures
        match (requirement, probe, capability) {
            (_, Ok(base), SpawnCapability::PreExecCgroupJoin) => {
                &&& result matches Ok(selection)
                &&& selection.tier == KillDomainTier::Tier2GuaranteedCgroup
                &&& selection.tier2_unavailable is None
                &&& selection.cgroup_base == Some(base)
            },
            (
                KillDomainRequirement::Tier2Required,
                Ok(_),
                SpawnCapability::ProcessGroupOnly,
            ) => result matches Err(Error::Config(message)) && message@
                == "kill_domain_tier = tier2-required, but "@ + reason_text(
                Tier2Unavailable::SpawnerCannotJoinCgroupPreExec,
            ),
            (KillDomainRequirement::Tier1Allowed, Ok(_), SpawnCapability::ProcessGroupOnly) => {
                &&& result matches Ok(selection)
                &&& selection.tier == KillDomainTier::Tier1BestEffortProcessGroup
                &&& selection.tier2_unavailable == Some(
                    Tier2Unavailable::SpawnerCannotJoinCgroupPreExec,
                )
                &&& selection.cgroup_base is None
            },
            (KillDomainRequirement::Tier2Required, Err(reason), _) => result matches Err(
                Error::Config(message),
            ) && message@ == "kill_domain_tier = tier2-required, but tier 2 is unavailable: "@
                + reason_text(reason),
            (KillDomainRequirement::Tier1Allowed, Err(reason), _) => {
                &&& result matches Ok(selection)
                &&& selection.tier == KillDomainTier::Tier1BestEffortProcessGroup
                &&& selection.tier2_unavailable == Some(reason)
                &&& selection.cgroup_base is None
            },
        },
        requirement == KillDomainRequirement::Tier2Required ==> (result matches Ok(selection)
            ==> selection.tier == KillDomainTier::Tier2GuaranteedCgroup),
{
    match probe {
        Ok(base) => match capability {
            SpawnCapability::PreExecCgroupJoin => Ok(
                KillDomainSelection {
                    tier: KillDomainTier::Tier2GuaranteedCgroup,
                    tier2_unavailable: None,
                    cgroup_base: Some(base),
                },
            ),
            SpawnCapability::ProcessGroupOnly => match requirement {
                KillDomainRequirement::Tier2Required => Err(
                    Error::Config(
                        joined(
                            "kill_domain_tier = tier2-required, but ",
                            Tier2Unavailable::SpawnerCannotJoinCgroupPreExec.to_string().as_str(),
                        ),
                    ),
                ),
                KillDomainRequirement::Tier1Allowed => Ok(
                    KillDomainSelection::tier1(Tier2Unavailable::SpawnerCannotJoinCgroupPreExec),
                ),
            },
        },
        Err(reason) => match requirement {
            KillDomainRequirement::Tier2Required => Err(
                Error::Config(
                    joined(
                        "kill_domain_tier = tier2-required, but tier 2 is unavailable: ",
                        reason.to_string().as_str(),
                    ),
                ),
            ),
            KillDomainRequirement::Tier1Allowed => Ok(KillDomainSelection::tier1(reason)),
        },
    }
}

/// Result of `PR_SET_CHILD_SUBREAPER`.
///
/// Not fail-closed: reaping is not a confidentiality property, and Tier 1 is
/// already labelled best-effort, so a filtered `prctl` is logged and degrades
/// reaping to direct children.
#[derive(Debug, PartialEq, Eq)]
pub enum SubreaperStatus {
    Active,
    /// Linux refused, typically a seccomp filter.
    Unavailable(String),
    /// Not Linux: there is no subreaper concept. Never reported as active.
    Unsupported,
}

impl Clone for SubreaperStatus {
    fn clone(&self) -> (copy: Self)
        ensures
            copy == *self,
    {
        match self {
            SubreaperStatus::Active => SubreaperStatus::Active,
            SubreaperStatus::Unavailable(why) => SubreaperStatus::Unavailable(why.clone()),
            SubreaperStatus::Unsupported => SubreaperStatus::Unsupported,
        }
    }
}

/// Caps on recorded processes and their pidfds, per session and globally, with FD
/// headroom reserved for control and WebSocket sockets.
///
/// Hitting a cap is **fail-closed**: [`SessionKillDomain::track`] returns an error
/// and the caller kills the session rather than tracking it partially.
#[derive(Clone, Copy, Debug, PartialEq, Eq, Structural)]
pub struct TrackingLimits {
    pub max_tracked_per_session: usize,
    pub max_tracked_global: usize,
    pub reserved_fd_headroom: usize,
}

impl Default for TrackingLimits {
    fn default() -> (limits: Self)
        ensures
            limits == (TrackingLimits {
                max_tracked_per_session: 64,
                max_tracked_global: 512,
                reserved_fd_headroom: 128,
            }),
    {
        TrackingLimits {
            max_tracked_per_session: 64,
            max_tracked_global: 512,
            reserved_fd_headroom: 128,
        }
    }
}

/// POSIX signals used by the escalation. Deliberately not a general signal type.
#[derive(Clone, Copy, Debug, PartialEq, Eq, Structural)]
pub enum Signal {
    Term,
    Kill,
}

/// The process-signalling surface that teardown needs, behind a trait so the
/// escalation ladder can be exercised against a simulated process table instead
/// of real processes.
pub trait ProcessSignals {
    fn signal_group(&self, pgid: i32, signal: Signal) -> Result<(), std::io::Error>;

    fn signal_pid(&self, pid: i32, signal: Signal) -> Result<(), std::io::Error>;

    fn group_alive(&self, pgid: i32) -> bool;

    fn pid_alive(&self, pid: i32) -> bool;

    /// Non-blocking reap. `true` when the pid was collected or is already gone.
    fn reap_nonblocking(&self, pid: i32) -> bool;
}

/// How many processes may be on record at once: the operator's cap, or what the
/// open-file limit leaves after the reserved headroom, whichever is less.
pub open spec fn tracking_ceiling(limits: TrackingLimits, open_file_limit: Option<usize>) -> int {
    let budget = match open_file_limit {
        Some(soft) => if soft >= limits.reserved_fd_headroom {
            soft - limits.reserved_fd_headroom
        } else {
            0
        },
        None => usize::MAX as int,
    };
    if limits.max_tracked_global <= budget {
        limits.max_tracked_global as int
    } else {
        budget
    }
}

/// Manager-level kill domain: the selected tier plus global tracking budgets.
#[derive(Debug)]
pub struct KillDomain {
    selection: KillDomainSelection,
    subreaper: SubreaperStatus,
    limits: TrackingLimits,
    /// Ceiling on recorded processes.
    ceiling: usize,
    on_record: usize,
    leaked: u64,
    audit: AuditLogger,
}

/// What a [`KillDomain`] knows.
#[verifier::ext_equal]
pub struct DomainModel {
    pub selection: KillDomainSelection,
    pub subreaper: SubreaperStatus,
    pub limits: TrackingLimits,
    pub ceiling: int,
    /// How many processes are on record over all sessions.
    pub on_record: nat,
    /// Visible survivors observed across all teardowns.
    pub leaked: int,
    pub audit: Seq<AuditRecord>,
}

impl View for KillDomain {
    type V = DomainModel;

    closed spec fn view(&self) -> DomainModel {
        DomainModel {
            selection: self.selection,
            subreaper: self.subreaper,
            limits: self.limits,
            ceiling: self.ceiling as int,
            on_record: self.on_record as nat,
            leaked: self.leaked as int,
            audit: self.audit@,
        }
    }
}

/// Operator-facing status. Every field an operator could mistake for a
/// containment guarantee is labelled.
#[derive(Clone, Debug)]
pub struct KillDomainStatus {
    pub tier: KillDomainTier,
    pub teardown_guarantee: TeardownGuarantee,
    /// Duplicated as an explicit boolean so a status consumer cannot miss it.
    pub teardown_best_effort: bool,
    pub absolute_ttl_best_effort: bool,
    pub tier2_unavailable: Option<Tier2Unavailable>,
    pub subreaper: SubreaperStatus,
    pub tracked_processes: usize,
    pub tracked_process_ceiling: usize,
    /// Tier 1 leak metric: visible survivors observed across all teardowns.
    pub leaked_processes: u64,
}

/// One session's kill domain.
#[derive(Debug)]
pub struct SessionKillDomain {
    session: SessionName,
    generation: Generation,
    tier: KillDomainTier,
    cgroup: Option<String>,
    leader_pgid: Option<i32>,
    children: Vec<i32>,
}

/// What a [`SessionKillDomain`] knows.
#[verifier::ext_equal]
pub struct SessionDomainModel {
    pub session: Seq<char>,
    pub generation: Generation,
    pub tier: KillDomainTier,
    /// The directory name of the session's cgroup, under the delegated base.
    pub cgroup: Option<Seq<char>>,
    pub leader_pgid: Option<i32>,
    /// The processes on record, in the order in which they came.
    pub children: Seq<i32>,
}

impl View for SessionKillDomain {
    type V = SessionDomainModel;

    closed spec fn view(&self) -> SessionDomainModel {
        SessionDomainModel {
            session: self.session@,
            generation: self.generation,
            tier: self.tier,
            cgroup: match self.cgroup {
                Some(name) => Some(name@),
                None => None,
            },
            leader_pgid: self.leader_pgid,
            children: self.children@,
        }
    }
}

/// Result of a teardown. `guarantee` is what distinguishes "we saw no survivors"
/// from "there can be no survivors".
#[derive(Clone, Debug)]
pub struct TeardownOutcome {
    pub tier: KillDomainTier,
    pub guarantee: TeardownGuarantee,
    /// Processes still alive after escalation. In Tier 1 this is only the
    /// *visible* remainder: process-group escapees that were never on record are,
    /// by construction, invisible here.
    pub survivors: Vec<i32>,
    pub elapsed_ms: u64,
}

impl TeardownOutcome {
    /// True when nothing visible survived. In Tier 1 this is still a best-effort
    /// statement, see [`TeardownOutcome::guarantee`].
    pub fn converged(&self) -> (converged: bool)
        ensures
            converged == (self.survivors@.len() == 0),
    {
        self.survivors.len() == 0
    }

    pub fn is_best_effort(&self) -> (best_effort: bool)
        ensures
            best_effort == (self.guarantee == TeardownGuarantee::BestEffort),
    {
        self.guarantee == TeardownGuarantee::BestEffort
    }
}

impl KillDomain {
    /// A kill domain for the selected tier. `subreaper` is what the kernel
    /// answered when asked to reparent orphans to this process;
    /// `open_file_limit` is the soft limit on open files, where it is known.
    pub fn new(
        selection: KillDomainSelection,
        limits: TrackingLimits,
        audit: AuditLogger,
        subreaper: SubreaperStatus,
        open_file_limit: Option<usize>,
    ) -> (domain: Self)
        ensures
            domain@ == (DomainModel {
                selection,
                subreaper,
                limits,
                ceiling: tracking_ceiling(limits, open_file_limit),
                on_record: 0,
                leaked: 0,
                audit: audit@,
            }),
    {
        let budget: usize = match open_file_limit {
            Some(soft) => if soft >= limits.reserved_fd_headroom {
                soft - limits.reserved_fd_headroom
            } else {
                0
            },
            None => usize::MAX,
        };
        let ceiling: usize = if limits.max_tracked_global <= budget {
            limits.max_tracked_global
        } else {
            budget
        };
        KillDomain { selection, subreaper, limits, ceiling, on_record: 0, leaked: 0, audit }
    }

    pub fn tier(&self) -> (tier: KillDomainTier)
        ensures
            tier == self@.selection.tier,
    {
        self.selection.tier
    }

    pub fn selection(&self) -> (selection: &KillDomainSelection)
        ensures
            *selection == self@.selection,
    {
        &self.selection
    }

    pub fn leaked_process_count(&self) -> (n: u64)
        ensures
            n == self@.leaked,
    {
        self.leaked
    }

    pub fn status(&self) -> (status: KillDomainStatus)
        ensures
            status.tier == self@.selection.tier,
            status.teardown_guarantee == tier_guarantee(self@.selection.tier),
            status.teardown_best_effort == (self@.selection.tier
                == KillDomainTier::Tier1BestEffortProcessGroup),
            status.absolute_ttl_best_effort == status.teardown_best_effort,
            status.tier2_unavailable == self@.selection.tier2_unavailable,
            status.subreaper == self@.subreaper,
            status.tracked_processes == self@.on_record,
            status.tracked_process_ceiling == self@.ceiling,
            status.leaked_processes == self@.leaked,
    {
        let best_effort: bool = self.selection.tier.is_best_effort();
        KillDomainStatus {
            tier: self.selection.tier,
            teardown_guarantee: self.selection.tier.guarantee(),
            teardown_best_effort: best_effort,
            // The absolute TTL depends on teardown actually reclaiming the
            // session, so it inherits the same qualifier.
            absolute_ttl_best_effort: best_effort,
            tier2_unavailable: match &self.selection.tier2_unavailable {
                Some(reason) => Some(reason.clone()),
                None => None,
            },
            subreaper: self.subreaper.clone(),
            tracked_processes: self.on_record,
            tracked_process_ceiling: self.ceiling,
            leaked_processes: self.leaked,
        }
    }

    /// Prepare a session's kill domain. In Tier 2 this names the session's
    /// cgroup, which the caller creates under the delegated base.
    ///
    /// `generation` is carried only so anomaly audits name the fence the
    /// processes were spawned under; restart-in-place opens a new domain with the
    /// new generation rather than mutating this one.
    pub fn open_session(&self, session: &SessionName, generation: Generation) -> (result: Result<
        SessionKillDomain,
        Error,
    >)
        ensures
            if self@.selection.tier == KillDomainTier::Tier2GuaranteedCgroup
                && self@.selection.cgroup_base is None {
                result matches Err(Error::Other(message)) && message@
                    == "tier 2 selected without a delegated cgroup base"@
            } else {
                &&& result matches Ok(domain)
                &&& domain@ == (SessionDomainModel {
                    session: session@,
                    generation,
                    tier: self@.selection.tier,
                    cgroup: if self@.selection.tier == KillDomainTier::Tier2GuaranteedCgroup {
                        Some("oab-pty-"@ + session@)
                    } else {
                        None
                    },
                    leader_pgid: None,
                    children: Seq::empty(),
                })
            },
    {
        let cgroup = match self.selection.tier {
            KillDomainTier::Tier2GuaranteedCgroup => {
                if self.selection.cgroup_base.is_none() {
                    return Err(
                        Error::Other("tier 2 selected without a delegated cgroup base".to_owned()),
                    );
                }
                Some(joined("oab-pty-", session.as_str()))
            },
            KillDomainTier::Tier1BestEffortProcessGroup => None,
        };
        let domain = SessionKillDomain {
            session: session.clone(),
            generation,
            tier: self.selection.tier,
            cgroup,
            leader_pgid: None,
            children: Vec::new(),
        };
        assert(domain@.children =~= Seq::<i32>::empty());
        Ok(domain)
    }
}

impl SessionKillDomain {
    pub fn tier(&self) -> (tier: KillDomainTier)
        ensures
            tier == self@.tier,
    {
        self.tier
    }

    /// The directory name of the session's cgroup, under the delegated base.
    /// `None` in Tier 1, where there is no cgroup to join.
    pub fn cgroup_name(&self) -> (name: Option<&str>)
        ensures
            match self@.cgroup {
                Some(expected) => name matches Some(text) && text@ == expected,
                None => name is None,
            },
    {
        match &self.cgroup {
            Some(name) => Some(name.as_str()),
            None => None,
        }
    }

    pub fn leader_pgid(&self) -> (pgid: Option<i32>)
        ensures
            pgid == self@.leader_pgid,
    {
        self.leader_pgid
    }

    pub fn tracked_pids(&self) -> (pids: Vec<i32>)
        ensures
            pids@ == self@.children,
    {
        vstd::slice::slice_to_vec(self.children.as_slice())
    }

    /// Record the session leader. A spawner that calls `setsid` makes the child a
    /// session and process-group leader with `pgid == pid`; that group is Tier 1's
    /// signal path.
    pub fn set_leader(&mut self, domain: &mut KillDomain, pid: i32) -> (result: Result<(), Error>)
        ensures
            recorded(
                (SessionDomainModel { leader_pgid: Some(pid), ..old(self)@ }),
                final(self)@,
                old(domain)@,
                final(domain)@,
                pid,
                result,
            ),
    {
        self.leader_pgid = Some(pid);
        assert(self@ =~= (SessionDomainModel { leader_pgid: Some(pid), ..old(self)@ }));
        self.track(domain, pid)
    }

    /// Put a process on record for reaping and defence-in-depth signalling.
    ///
    /// Fail-closed on capacity: the caller must kill the session rather than
    /// continue with partial tracking.
    pub fn track(&mut self, domain: &mut KillDomain, pid: i32) -> (result: Result<(), Error>)
        ensures
            recorded(old(self)@, final(self)@, old(domain)@, final(domain)@, pid, result),
    {
        if self.children.len() >= domain.limits.max_tracked_per_session {
            return Err(
                Error::CapacityExceeded { limit: domain.limits.max_tracked_per_session },
            );
        }
        if domain.on_record >= domain.ceiling {
            return Err(Error::CapacityExceeded { limit: domain.ceiling });
        }
        domain.on_record = domain.on_record + 1;
        self.children.push(pid);
        assert(self@ =~= (SessionDomainModel {
            children: old(self)@.children.push(pid),
            ..old(self)@
        }));
        Ok(())
    }

    /// Release tracking slots, as the last step of the session-teardown sequence.
    /// Returns the name of the session cgroup, which the caller removes.
    pub fn release(&mut self, domain: &mut KillDomain) -> (cgroup: Option<String>)
        ensures
            final(self)@ == old(self)@.emptied(),
            final(domain)@ == (DomainModel {
                on_record: less_wrapped(
                    old(domain)@.on_record,
                    old(self)@.children.len(),
                ),
                ..old(domain)@
            }),
            crate::audit::text_view(cgroup) == old(self)@.cgroup,
    {
        domain.on_record = domain.on_record.wrapping_sub(self.children.len());
        self.children = Vec::new();
        let cgroup = self.cgroup.take();
        assert(self@ =~= old(self)@.emptied());
        cgroup
    }
}

impl SessionDomainModel {
    /// What is left of a domain once its processes and its cgroup went elsewhere.
    pub open spec fn emptied(self) -> SessionDomainModel {
        SessionDomainModel { children: Seq::empty(), cgroup: None, ..self }
    }
}

impl SessionKillDomain {
    /// Hand the domain out for teardown, leaving one with nothing on record.
    pub fn take(&mut self) -> (taken: SessionKillDomain)
        ensures
            taken@ == old(self)@,
            final(self)@ == old(self)@.emptied(),
    {
        let mut children: Vec<i32> = Vec::new();
        std::mem::swap(&mut children, &mut self.children);
        let cgroup = self.cgroup.take();
        let taken = SessionKillDomain {
            session: self.session.clone(),
            generation: self.generation,
            tier: self.tier,
            cgroup,
            leader_pgid: self.leader_pgid,
            children,
        };
        assert(taken@ =~= old(self)@);
        assert(self@ =~= old(self)@.emptied());
        taken
    }
}

/// A counter that goes round through zero.
pub open spec fn less_wrapped(from: nat, n: nat) -> nat {
    if n <= from {
        (from - n) as nat
    } else {
        (from - n + usize::MAX + 1) as nat
    }
}

/// Whether an attempt to put `pid` on record did what it must: refuse where the
/// session or the whole runtime is full, naming the limit that was hit and
/// changing nothing, and otherwise put it on record and count it.
pub open spec fn recorded(
    session: SessionDomainModel,
    session_after: SessionDomainModel,
    domain: DomainModel,
    domain_after: DomainModel,
    pid: i32,
    result: Result<(), Error>,
) -> bool {
    if session.children.len() >= domain.limits.max_tracked_per_session {
        &&& result matches Err(Error::CapacityExceeded { limit })
        &&& limit == domain.limits.max_tracked_per_session
        &&& session_after == session
        &&& domain_after == domain
    } else if domain.on_record >= domain.ceiling {
        &&& result matches Err(Error::CapacityExceeded { limit })
        &&& limit == domain.ceiling
        &&& session_after == session
        &&& domain_after == domain
    } else {
        &&& result is Ok
        &&& session_after == (SessionDomainModel {
            children: session.children.push(pid),
            ..session
        })
        &&& domain_after == (DomainModel { on_record: domain.on_record + 1, ..domain })
    }
}

/// Tracking never exceeds either cap, whatever is asked.
pub proof fn law_tracking_is_capped(
    session: SessionDomainModel,
    session_after: SessionDomainModel,
    domain: DomainModel,
    domain_after: DomainModel,
    pid: i32,
    result: Result<(), Error>,
)
    requires
        recorded(session, session_after, domain, domain_after, pid, result),
        session.children.len() <= domain.limits.max_tracked_per_session,
        domain.on_record <= domain.ceiling,
    ensures
        session_after.children.len() <= domain.limits.max_tracked_per_session,
        domain_after.on_record <= domain_after.ceiling,
{
}

/// Everything that is on record in a runtime: its kill domain, and the kill domains
/// of the sessions opened from it.
pub struct TrackingModel {
    pub domain: DomainModel,
    pub sessions: Seq<SessionDomainModel>,
}

/// How many processes some sessions have on record.
pub open spec fn records_held(sessions: Seq<SessionDomainModel>) -> nat
    decreases sessions.len(),
{
    if sessions.len() == 0 {
        0
    } else {
        records_held(sessions.drop_last()) + sessions.last().children.len()
    }
}

impl TrackingModel {
    /// A runtime that has just been set up, with no session yet.
    pub open spec fn fresh(self, open_file_limit: Option<usize>) -> bool {
        &&& self.domain.on_record == 0
        &&& self.domain.ceiling == tracking_ceiling(self.domain.limits, open_file_limit)
        &&& self.sessions.len() == 0
    }

    /// Whether a session was opened.
    pub open spec fn opened(self, after: TrackingModel) -> bool {
        &&& after.domain == self.domain
        &&& after.sessions.len() == self.sessions.len() + 1
        &&& after.sessions == self.sessions.push(after.sessions.last())
        &&& after.sessions.last().children.len() == 0
    }

    /// Whether session `i` was asked to put `pid` on record, as its leader or not,
    /// with whatever result.
    pub open spec fn asked_to_record(
        self,
        after: TrackingModel,
        i: int,
        pid: i32,
        result: Result<(), Error>,
    ) -> bool {
        let session = self.sessions[i];
        &&& 0 <= i < self.sessions.len()
        &&& after.sessions == self.sessions.update(i, after.sessions[i])
        &&& recorded(session, after.sessions[i], self.domain, after.domain, pid, result)
            || recorded(
            (SessionDomainModel { leader_pgid: Some(pid), ..session }),
            after.sessions[i],
            self.domain,
            after.domain,
            pid,
            result,
        )
    }

    /// Whether session `i` released what it had on record.
    pub open spec fn released(self, after: TrackingModel, i: int) -> bool {
        &&& 0 <= i < self.sessions.len()
        &&& after.sessions == self.sessions.update(i, self.sessions[i].emptied())
        &&& after.domain == (DomainModel {
            on_record: less_wrapped(self.domain.on_record, self.sessions[i].children.len()),
            ..self.domain
        })
    }

    /// Whether session `i` was handed out for teardown.
    pub open spec fn handed_out(self, after: TrackingModel, i: int) -> bool {
        &&& 0 <= i < self.sessions.len()
        &&& after.sessions == self.sessions.update(i, self.sessions[i].emptied()).push(
            self.sessions[i],
        )
        &&& after.domain == self.domain
    }

    /// Whether a teardown was reported, which counts survivors and leaves an audit
    /// record.
    pub open spec fn reported(self, after: TrackingModel) -> bool {
        &&& after.sessions == self.sessions
        &&& after.domain == (DomainModel {
            leaked: after.domain.leaked,
            audit: after.domain.audit,
            ..self.domain
        })
    }

    /// Whether one operation leads from here to `after`.
    pub open spec fn steps_to(self, after: TrackingModel) -> bool {
        ||| self.opened(after)
        ||| exists|i: int, pid: i32, result: Result<(), Error>|
            self.asked_to_record(after, i, pid, result)
        ||| exists|i: int| self.released(after, i)
        ||| exists|i: int| self.handed_out(after, i)
        ||| self.reported(after)
    }

    /// Whether the count is that of the sessions' records and keeps to its caps.
    pub open spec fn within_caps(self) -> bool {
        &&& self.domain.on_record == records_held(self.sessions)
        &&& self.domain.on_record <= self.domain.ceiling
        &&& self.domain.ceiling <= self.domain.limits.max_tracked_global
        &&& forall|i: int|
            0 <= i < self.sessions.len() ==> (#[trigger] self.sessions[i]).children.len()
                <= self.domain.limits.max_tracked_per_session
    }
}

/// Replacing one session changes the number of records by what that session held.
proof fn lemma_records_held_update(
    sessions: Seq<SessionDomainModel>,
    i: int,
    session: SessionDomainModel,
)
    requires
        0 <= i < sessions.len(),
    ensures
        records_held(sessions.update(i, session)) + sessions[i].children.len() == records_held(
            sessions,
        ) + session.children.len(),
    decreases sessions.len(),
{
    let after = sessions.update(i, session);
    if i == sessions.len() - 1 {
        assert(after.drop_last() =~= sessions.drop_last());
    } else {
        lemma_records_held_update(sessions.drop_last(), i, session);
        assert(after.drop_last() =~= sessions.drop_last().update(i, session));
        assert(after.last() == sessions.last());
    }
}

proof fn lemma_step_keeps_caps(before: TrackingModel, after: TrackingModel)
    requires
        before.within_caps(),
        before.steps_to(after),
    ensures
        after.within_caps(),
{
    let sessions = before.sessions;
    if before.opened(after) {
        assert(after.sessions.drop_last() =~= sessions);
    } else if exists|i: int, pid: i32, result: Result<(), Error>|
        before.asked_to_record(after, i, pid, result) {
        let (i, pid, result) = choose|i: int, pid: i32, result: Result<(), Error>|
            before.asked_to_record(after, i, pid, result);
        lemma_records_held_update(sessions, i, after.sessions[i]);
    } else if exists|i: int| before.released(after, i) {
        let i = choose|i: int| before.released(after, i);
        lemma_records_held_update(sessions, i, sessions[i].emptied());
    } else if exists|i: int| before.handed_out(after, i) {
        let i = choose|i: int| before.handed_out(after, i);
        lemma_records_held_update(sessions, i, sessions[i].emptied());
        assert(after.sessions.drop_last() =~= sessions.update(i, sessions[i].emptied()));
    }
}

/// After any operations on a runtime, the processes on record are at most its
/// ceiling, and so at most the operator's cap; they are exactly those that its
/// sessions hold, and no session holds more than its own cap.
pub proof fn law_tracking_stays_within_its_caps(
    history: Seq<TrackingModel>,
    open_file_limit: Option<usize>,
)
    requires
        history.len() > 0,
        history[0].fresh(open_file_limit),
        forall|i: int| 0 <= i < history.len() - 1 ==> (#[trigger] history[i]).steps_to(
            history[i + 1],
        ),
    ensures
        forall|i: int| 0 <= i < history.len() ==> (#[trigger] history[i]).within_caps(),
    decreases history.len(),
{
    if history.len() > 1 {
        let earlier = history.drop_last();
        assert forall|i: int| 0 <= i < earlier.len() - 1 implies (#[trigger] earlier[i]).steps_to(
            earlier[i + 1],
        ) by {
            assert(history[i].steps_to(history[i + 1]));
        }
        law_tracking_stays_within_its_caps(earlier, open_file_limit);
        let last = history.len() - 1;
        assert(earlier[last - 1].within_caps());
        assert(history[last - 1].steps_to(history[last - 1 + 1]));
        lemma_step_keeps_caps(history[last - 1], history[last]);
        assert forall|i: int| 0 <= i < history.len() implies (#[trigger] history[i]).within_caps() by {
            if i < last {
                assert(earlier[i].within_caps());
            }
        }
    }
}

/// Releasing a session returns exactly the budget that its tracking took.
pub proof fn law_release_returns_the_budget(
    session: SessionDomainModel,
    session_after: SessionDomainModel,
    domain: DomainModel,
    domain_after: DomainModel,
    pid: i32,
    result: Result<(), Error>,
)
    requires
        recorded(session, session_after, domain, domain_after, pid, result),
        session.children.len() <= domain.on_record,
    ensures
        less_wrapped(domain_after.on_record, session_after.children.len()) == less_wrapped(
            domain.on_record,
            session.children.len(),
        ),
{
}

/// One signal to send.
#[derive(Clone, Copy, Debug, PartialEq, Eq, Structural)]
pub enum SignalOrder {
    Group { pgid: i32, signal: Signal },
    Pid { pid: i32, signal: Signal },
}

/// The signals that reach everything a session can reach: its process group
/// first, then each process on record. The second pass is defence in depth: a
/// child that left the group but is still on record is reachable.
pub open spec fn signal_orders(session: SessionDomainModel, signal: Signal) -> Seq<SignalOrder> {
    let group = match session.leader_pgid {
        Some(pgid) => seq![SignalOrder::Group { pgid, signal }],
        None => Seq::empty(),
    };
    group + Seq::new(
        session.children.len(),
        |i: int| SignalOrder::Pid { pid: session.children[i], signal },
    )
}

/// Whether an order was handed to `signals`, whatever came of it.
pub open spec fn order_given<S: ProcessSignals>(signals: &S, order: SignalOrder) -> bool {
    match order {
        SignalOrder::Group { pgid, signal } => exists|sent: Result<(), std::io::Error>|
            call_ensures(S::signal_group, (signals, pgid, signal), sent),
        SignalOrder::Pid { pid, signal } => exists|sent: Result<(), std::io::Error>|
            call_ensures(S::signal_pid, (signals, pid, signal), sent),
    }
}

/// Whether `signals` was asked to reap a process, whatever came of it.
pub open spec fn reap_tried<S: ProcessSignals>(signals: &S, pid: i32) -> bool {
    exists|gone: bool| call_ensures(S::reap_nonblocking, (signals, pid), gone)
}

/// Whether a look at a session's processes reaps them first. In Tier 1 it always
/// does, since a zombie would read as alive. In Tier 2 the kernel says who is left,
/// so nothing is reaped before the cgroup is empty.
pub open spec fn reaps_at(session: SessionDomainModel, cgroup_members: Seq<i32>) -> bool {
    match session.tier {
        KillDomainTier::Tier1BestEffortProcessGroup => true,
        KillDomainTier::Tier2GuaranteedCgroup => session.cgroup is Some && cgroup_members.len()
            == 0,
    }
}

/// What a look at a session's processes showed.
#[derive(Debug)]
pub struct Observation {
    /// For each process on record, in order, whether it is alive.
    pub alive: Vec<bool>,
    /// Whether the leader's process group still has a live member.
    pub group_alive: bool,
    /// What the kernel lists in the session's cgroup.
    pub cgroup_members: Vec<i32>,
}

/// The processes that `alive` marks.
pub open spec fn marked(children: Seq<i32>, alive: Seq<bool>) -> Seq<i32>
    decreases children.len(),
{
    if children.len() == 0 {
        Seq::empty()
    } else if alive[children.len() - 1] {
        marked(children.drop_last(), alive).push(children.last())
    } else {
        marked(children.drop_last(), alive)
    }
}

/// Whether anything that a session can see is alive.
pub open spec fn anything_alive(session: SessionDomainModel, seen: Observation) -> bool {
    ||| exists|i: int| 0 <= i < session.children.len() && seen.alive@[i]
    ||| session.leader_pgid is Some && seen.group_alive
}

/// What is left of a session: the processes on record that are alive, and the
/// leader's group where it is alive and not listed yet.
pub open spec fn left_alive(session: SessionDomainModel, seen: Observation) -> Seq<i32> {
    let children = marked(session.children, seen.alive@);
    match session.leader_pgid {
        Some(pgid) => if seen.group_alive && !children.contains(pgid) {
            children.push(pgid)
        } else {
            children
        },
        None => children,
    }
}

impl SessionKillDomain {
    /// The signals to send, in order.
    pub fn orders(&self, signal: Signal) -> (orders: Vec<SignalOrder>)
        ensures
            orders@ == signal_orders(self@, signal),
    {
        let mut orders: Vec<SignalOrder> = Vec::new();
        if let Some(pgid) = self.leader_pgid {
            orders.push(SignalOrder::Group { pgid, signal });
        }
        let ghost group = orders@;
        let mut i: usize = 0;
        while i < self.children.len()
            invariant
                0 <= i <= self.children@.len(),
                orders@ == group + Seq::new(
                    i as nat,
                    |k: int| SignalOrder::Pid { pid: self.children@[k], signal },
                ),
            decreases self.children@.len() - i,
        {
            orders.push(SignalOrder::Pid { pid: self.children[i], signal });
            i += 1;
            assert(orders@ =~= group + Seq::new(
                i as nat,
                |k: int| SignalOrder::Pid { pid: self.children@[k], signal },
            ));
        }
        assert(orders@ =~= signal_orders(self@, signal));
        orders
    }

    /// Send the signals. A signal that cannot be delivered is no reason to stop:
    /// what counts is who is still alive afterwards.
    pub fn deliver<S: ProcessSignals>(&self, signals: &S, signal: Signal)
        ensures
            forall|i: int|
                0 <= i < signal_orders(self@, signal).len() ==> order_given(
                    signals,
                    #[trigger] signal_orders(self@, signal)[i],
                ),
    {
        let orders = self.orders(signal);
        let mut i: usize = 0;
        while i < orders.len()
            invariant
                0 <= i <= orders@.len(),
                forall|k: int| 0 <= k < i ==> order_given(signals, #[trigger] orders@[k]),
            decreases orders@.len() - i,
        {
            match orders[i] {
                SignalOrder::Group { pgid, signal } => {
                    let sent = signals.signal_group(pgid, signal);
                    assert(call_ensures(S::signal_group, (signals, pgid, signal), sent));
                },
                SignalOrder::Pid { pid, signal } => {
                    let sent = signals.signal_pid(pid, signal);
                    assert(call_ensures(S::signal_pid, (signals, pid, signal), sent));
                },
            }
            i += 1;
        }
    }

    /// Reap every process on record, unconditionally.
    ///
    /// The attempt must not depend on the process looking dead: a zombie is still
    /// signalable, so it reads as alive until it is reaped.
    pub fn reap<S: ProcessSignals>(&self, signals: &S)
        ensures
            forall|i: int|
                0 <= i < self@.children.len() ==> reap_tried(signals, #[trigger] self@.children[i]),
    {
        let mut i: usize = 0;
        while i < self.children.len()
            invariant
                0 <= i <= self.children@.len(),
                forall|k: int| 0 <= k < i ==> reap_tried(signals, #[trigger] self.children@[k]),
            decreases self.children@.len() - i,
        {
            let pid: i32 = self.children[i];
            let gone = signals.reap_nonblocking(pid);
            assert(call_ensures(S::reap_nonblocking, (signals, pid), gone));
            i += 1;
        }
    }

    /// Reap where it is time to, then look who is alive. `cgroup_members` is what the
    /// kernel lists in the session's cgroup, where it has one.
    pub fn observe<S: ProcessSignals>(&self, signals: &S, cgroup_members: Vec<i32>) -> (seen:
        Observation)
        ensures
            seen.alive@.len() == self@.children.len(),
            reaps_at(self@, cgroup_members@) ==> forall|i: int|
                0 <= i < self@.children.len() ==> reap_tried(signals, #[trigger] self@.children[i]),
            forall|i: int|
                0 <= i < self@.children.len() ==> call_ensures(
                    S::pid_alive,
                    (signals, self@.children[i]),
                    #[trigger] seen.alive@[i],
                ),
            self@.leader_pgid is None ==> !seen.group_alive,
            self@.leader_pgid is Some ==> call_ensures(
                S::group_alive,
                (signals, self@.leader_pgid->0),
                seen.group_alive,
            ),
            seen.cgroup_members@ == cgroup_members@,
    {
        let reaps: bool = match self.tier {
            KillDomainTier::Tier1BestEffortProcessGroup => true,
            KillDomainTier::Tier2GuaranteedCgroup => self.cgroup.is_some() && cgroup_members.len()
                == 0,
        };
        if reaps {
            self.reap(signals);
        }
        let mut alive: Vec<bool> = Vec::new();
        let mut i: usize = 0;
        while i < self.children.len()
            invariant
                0 <= i <= self.children@.len(),
                alive@.len() == i,
                forall|k: int|
                    0 <= k < i ==> call_ensures(
                        S::pid_alive,
                        (signals, self.children@[k]),
                        #[trigger] alive@[k],
                    ),
            decreases self.children@.len() - i,
        {
            alive.push(signals.pid_alive(self.children[i]));
            i += 1;
        }
        let group_alive: bool = match self.leader_pgid {
            Some(pgid) => signals.group_alive(pgid),
            None => false,
        };
        Observation { alive, group_alive, cgroup_members }
    }

    /// Live membership. Tier 2 has it from the kernel. Tier 1 can only report the
    /// processes on record that are still alive plus, if the leader's group still
    /// exists, the leader; an escapee that left the group is not discoverable at
    /// all.
    pub fn members(&self, seen: &Observation) -> (members: Vec<i32>)
        requires
            seen.alive@.len() == self@.children.len(),
        ensures
            members@ == match self@.cgroup {
                Some(_) => seen.cgroup_members@,
                None => left_alive(self@, *seen),
            },
    {
        match &self.cgroup {
            Some(_) => vstd::slice::slice_to_vec(seen.cgroup_members.as_slice()),
            None => self.survivors(seen),
        }
    }

    fn alive_children(&self, seen: &Observation) -> (members: Vec<i32>)
        requires
            seen.alive@.len() == self@.children.len(),
        ensures
            members@ == marked(self@.children, seen.alive@),
    {
        let mut members: Vec<i32> = Vec::new();
        let mut i: usize = 0;
        assert(self.children@.take(0) =~= Seq::empty());
        while i < self.children.len()
            invariant
                0 <= i <= self.children@.len(),
                seen.alive@.len() == self.children@.len(),
                members@ == marked(self.children@.take(i as int), seen.alive@),
            decreases self.children@.len() - i,
        {
            assert(self.children@.take(i + 1).drop_last() =~= self.children@.take(i as int));
            if seen.alive[i] {
                members.push(self.children[i]);
            }
            i += 1;
        }
        assert(self.children@.take(i as int) =~= self.children@);
        members
    }

    /// Whether the leader on record has exited, without blocking. `pidfd_exited`
    /// is what the leader's `pidfd` says, where it has one: it cannot be confused
    /// by pid reuse.
    pub fn leader_exited(&self, pidfd_exited: Option<bool>, leader_alive: bool) -> (exited: bool)
        ensures
            exited == (self@.leader_pgid is Some && match pidfd_exited {
                Some(exited) => exited,
                None => !leader_alive,
            }),
    {
        match self.leader_pgid {
            None => false,
            Some(_) => match pidfd_exited {
                Some(exited) => exited,
                None => !leader_alive,
            },
        }
    }

    /// Whether anything that can be seen is alive.
    pub fn any_alive(&self, seen: &Observation) -> (alive: bool)
        requires
            seen.alive@.len() == self@.children.len(),
        ensures
            alive == anything_alive(self@, *seen),
    {
        if self.leader_pgid.is_some() && seen.group_alive {
            return true;
        }
        let mut i: usize = 0;
        while i < self.children.len()
            invariant
                0 <= i <= self.children@.len(),
                seen.alive@.len() == self.children@.len(),
                forall|k: int| 0 <= k < i ==> !seen.alive@[k],
            decreases self.children@.len() - i,
        {
            if seen.alive[i] {
                return true;
            }
            i += 1;
        }
        false
    }

    /// What is left of the session.
    pub fn survivors(&self, seen: &Observation) -> (survivors: Vec<i32>)
        requires
            seen.alive@.len() == self@.children.len(),
        ensures
            survivors@ == left_alive(self@, *seen),
    {
        let mut survivors = self.alive_children(seen);
        if let Some(pgid) = self.leader_pgid {
            if seen.group_alive {
                let mut listed: bool = false;
                let mut i: usize = 0;
                while i < survivors.len()
                    invariant
                        0 <= i <= survivors@.len(),
                        listed == exists|k: int| 0 <= k < i && survivors@[k] == pgid,
                    decreases survivors@.len() - i,
                {
                    if survivors[i] == pgid {
                        listed = true;
                    }
                    i += 1;
                }
                assert(listed == survivors@.contains(pgid));
                if !listed {
                    survivors.push(pgid);
                }
            }
        }
        survivors
    }
}

/// Nothing that was seen alive is left out of the report.
pub proof fn law_report_names_every_visible_survivor(
    session: SessionDomainModel,
    seen: Observation,
    i: int,
)
    requires
        0 <= i < session.children.len(),
        seen.alive@[i],
    ensures
        left_alive(session, seen).contains(session.children[i]),
{
    lemma_marked_contains(session.children, seen.alive@, i);
    let children = marked(session.children, seen.alive@);
    let k = choose|k: int| 0 <= k < children.len() && children[k] == session.children[i];
    assert(left_alive(session, seen)[k] == session.children[i]);
}

proof fn lemma_marked_contains(children: Seq<i32>, alive: Seq<bool>, i: int)
    requires
        0 <= i < children.len(),
        alive[i],
    ensures
        marked(children, alive).contains(children[i]),
    decreases children.len(),
{
    if i == children.len() - 1 {
        let all = marked(children, alive);
        assert(all[all.len() - 1] == children[i]);
    } else {
        lemma_marked_contains(children.drop_last(), alive, i);
        let before = marked(children.drop_last(), alive);
        let k = choose|k: int| 0 <= k < before.len() && before[k] == children[i];
        assert(marked(children, alive)[k] == children[i]);
    }
}

/// Where nothing was seen alive, nothing is reported.
pub proof fn law_nothing_alive_nothing_reported(session: SessionDomainModel, seen: Observation)
    requires
        !anything_alive(session, seen),
    ensures
        left_alive(session, seen).len() == 0,
{
    lemma_marked_empty(session.children, seen.alive@);
}

proof fn lemma_marked_empty(children: Seq<i32>, alive: Seq<bool>)
    requires
        forall|i: int| 0 <= i < children.len() ==> !alive[i],
    ensures
        marked(children, alive).len() == 0,
    decreases children.len(),
{
    if children.len() > 0 {
        lemma_marked_empty(children.drop_last(), alive);
    }
}

/// A list of pids as it is printed: `[1, 2, 3]`.
pub open spec fn pid_list(pids: Seq<i32>) -> Seq<char> {
    "["@ + pid_items(pids) + "]"@
}

/// Pids separated by commas.
pub open spec fn pid_items(pids: Seq<i32>) -> Seq<char>
    decreases pids.len(),
{
    if pids.len() == 0 {
        Seq::empty()
    } else if pids.len() == 1 {
        signed_decimal(pids[0] as int)
    } else {
        pid_items(pids.drop_last()) + ", "@ + signed_decimal(pids.last() as int)
    }
}

fn print_pids(pids: &Vec<i32>) -> (text: String)
    ensures
        text@ == pid_list(pids@),
{
    let mut items = String::new();
    let mut i: usize = 0;
    assert(pids@.take(0) =~= Seq::empty());
    assert(items@ =~= Seq::empty());
    while i < pids.len()
        invariant
            0 <= i <= pids@.len(),
            items@ == pid_items(pids@.take(i as int)),
        decreases pids@.len() - i,
    {
        assert(pids@.take(i + 1).drop_last() =~= pids@.take(i as int));
        assert(pids@.take(i + 1).last() == pids@[i as int]);
        let item = signed_decimal_text(pids[i] as i64);
        if i > 0 {
            items.append(", ");
        } else {
            assert(items@ + item@ =~= item@);
        }
        items.append(item.as_str());
        i += 1;
    }
    assert(pids@.take(i as int) =~= pids@);
    joined(joined("[", items.as_str()).as_str(), "]")
}

/// The record of a teardown that left survivors. A Tier 1 survivor is the
/// documented best-effort outcome; Tier 2 not converging is a kernel-level anomaly
/// that rides on the kill event with an unambiguous detail.
pub open spec fn survivor_record(session: SessionDomainModel, survivors: Seq<i32>) -> AuditRecord {
    let kind = match session.tier {
        KillDomainTier::Tier1BestEffortProcessGroup => AuditKind::Tier1SurvivorDetected,
        KillDomainTier::Tier2GuaranteedCgroup => AuditKind::SessionKill,
    };
    AuditRecord::of(kind).with_session(session.session, session.generation).with_detail(
        tier_label(session.tier) + ": "@ + decimal(survivors.len())
            + " survivor(s) after teardown; pids="@ + pid_list(survivors),
    )
}

/// The record of a `cgroup.kill` that could not be written.
pub open spec fn cgroup_kill_record(session: SessionDomainModel, error: Seq<char>) -> AuditRecord {
    AuditRecord::of(AuditKind::SessionKill).with_session(
        session.session,
        session.generation,
    ).with_detail("cgroup.kill write failed: "@ + error)
}

impl SessionKillDomain {
    /// Close the books on a teardown: state its outcome, and count and record the
    /// survivors, if there are any.
    pub fn conclude(
        &self,
        domain: &mut KillDomain,
        survivors: Vec<i32>,
        started: u128,
        now: u128,
    ) -> (outcome: TeardownOutcome)
        requires
            started <= now,
        ensures
            outcome.tier == self@.tier,
            outcome.guarantee == tier_guarantee(self@.tier),
            outcome.survivors@ == survivors@,
            outcome.elapsed_ms == ((now - started) / MILLISECOND as int) as u64,
            final(domain)@ == if survivors@.len() == 0 {
                old(domain)@
            } else {
                DomainModel {
                    leaked: (old(domain)@.leaked + survivors@.len()) % 0x1_0000_0000_0000_0000,
                    audit: old(domain)@.audit.push(survivor_record(self@, survivors@)),
                    ..old(domain)@
                }
            },
    {
        if survivors.len() > 0 {
            domain.leaked = domain.leaked.wrapping_add(survivors.len() as u64);
            let kind = match self.tier {
                KillDomainTier::Tier1BestEffortProcessGroup => AuditKind::Tier1SurvivorDetected,
                KillDomainTier::Tier2GuaranteedCgroup => AuditKind::SessionKill,
            };
            let head = joined(self.tier.label(), ": ");
            let count = joined(head.as_str(), decimal_text(survivors.len() as u128).as_str());
            let what = joined(count.as_str(), " survivor(s) after teardown; pids=");
            let detail = joined(what.as_str(), print_pids(&survivors).as_str());
            let event = AuditEvent::new(kind).session(&self.session, self.generation).detail(
                detail.as_str(),
            );
            domain.audit.record(event);
        }
        TeardownOutcome {
            tier: self.tier,
            guarantee: self.tier.guarantee(),
            survivors,
            elapsed_ms: ((now - started) / MILLISECOND) as u64,
        }
    }

    /// Record that `cgroup.kill` could not be written.
    pub fn note_cgroup_kill_failure(&self, domain: &mut KillDomain, error: &str)
        ensures
            final(domain)@ == (DomainModel {
                audit: old(domain)@.audit.push(cgroup_kill_record(self@, error@)),
                ..old(domain)@
            }),
    {
        let detail = joined("cgroup.kill write failed: ", error);
        let event = AuditEvent::new(AuditKind::SessionKill).session(
            &self.session,
            self.generation,
        ).detail(detail.as_str());
        domain.audit.record(event);
    }
}

impl KillDomain {
    /// Everything recorded since the last call, oldest first.
    pub fn drain_audit(&mut self) -> (events: Vec<AuditEvent>)
        ensures
            final(self)@ == (DomainModel { audit: Seq::<AuditRecord>::empty(), ..old(self)@ }),
            events@.len() == old(self)@.audit.len(),
            forall|i: int|
                0 <= i < events@.len() ==> (#[trigger] events@[i])@ == old(self)@.audit[i],
    {
        self.audit.drain()
    }
}

/// Polling step while waiting for a process group to drain, in nanoseconds. Small
/// enough that teardown is not perceptibly slower than the kernel, large enough
/// not to spin.
pub const TIER1_POLL_STEP: u128 = 25 * MILLISECOND;

/// Polling step for cgroup emptiness, in nanoseconds. `cgroup.kill` converges in
/// about ten milliseconds, so this resolves in one or two iterations.
pub const TIER2_POLL_STEP: u128 = 5 * MILLISECOND;

/// Bound on the post-`SIGKILL` drain wait, in nanoseconds. `SIGKILL` is not
/// catchable, so this only covers scheduling latency.
pub const TIER1_KILL_WAIT: u128 = 500 * MILLISECOND;

/// Bound on the Tier 2 wait-for-empty, in nanoseconds. Exceeding it is a
/// kernel-level anomaly, and a bounded wait is what keeps teardown non-blockable
/// by a client.
pub const TIER2_CONVERGENCE_BUDGET: u128 = 2 * SECOND;

/// How far a teardown has come.
#[derive(Clone, Copy, Debug, PartialEq, Eq, Structural)]
pub enum TeardownStage {
    /// `SIGTERM` was sent; the group may drain until the deadline.
    TermGrace { deadline: u128 },
    /// `SIGKILL` was sent; the group may drain until the deadline.
    KillWait { deadline: u128 },
    /// Nothing more is sent; the next look decides the report.
    Report,
    /// `cgroup.kill` was written; the cgroup may drain until the deadline.
    CgroupDrain { deadline: u128 },
    /// The report is made.
    Done,
}

/// What a teardown asks for next.
#[derive(Debug)]
pub enum TeardownAction {
    /// Send this signal to everything the session can reach, then look again.
    Deliver { signal: Signal },
    /// Write `cgroup.kill`, then look again.
    KillCgroup,
    /// Sleep this many nanoseconds, then look again.
    Wait { nanos: u128 },
    /// Look again at once.
    Look,
    /// The teardown is over.
    Finish { survivors: Vec<i32> },
}

/// The content of a [`TeardownAction`].
#[verifier::ext_equal]
pub enum ActionModel {
    Deliver { signal: Signal },
    KillCgroup,
    Wait { nanos: u128 },
    Look,
    Finish { survivors: Seq<i32> },
}

impl View for TeardownAction {
    type V = ActionModel;

    open spec fn view(&self) -> ActionModel {
        match *self {
            TeardownAction::Deliver { signal } => ActionModel::Deliver { signal },
            TeardownAction::KillCgroup => ActionModel::KillCgroup,
            TeardownAction::Wait { nanos } => ActionModel::Wait { nanos },
            TeardownAction::Look => ActionModel::Look,
            TeardownAction::Finish { survivors } => ActionModel::Finish {
                survivors: survivors@,
            },
        }
    }
}

/// The first stage of a teardown, and the first thing to do.
pub open spec fn teardown_start(tier: KillDomainTier, grace: u128, now: u128) -> (
    TeardownStage,
    ActionModel,
) {
    match tier {
        KillDomainTier::Tier1BestEffortProcessGroup => (
            TeardownStage::TermGrace { deadline: (now + grace) as u128 },
            ActionModel::Deliver { signal: Signal::Term },
        ),
        KillDomainTier::Tier2GuaranteedCgroup => (
            TeardownStage::CgroupDrain {
                deadline: (now + if grace < TIER2_CONVERGENCE_BUDGET {
                    grace
                } else {
                    TIER2_CONVERGENCE_BUDGET
                }) as u128,
            },
            ActionModel::KillCgroup,
        ),
    }
}

/// The next stage of a teardown, and the next thing to do, by what was seen.
pub open spec fn teardown_next(
    stage: TeardownStage,
    session: SessionDomainModel,
    seen: Observation,
    now: u128,
) -> (TeardownStage, ActionModel) {
    match stage {
        TeardownStage::TermGrace { deadline } => if !anything_alive(session, seen) {
            (TeardownStage::Report, ActionModel::Look)
        } else if now >= deadline {
            (
                TeardownStage::KillWait { deadline: (now + TIER1_KILL_WAIT) as u128 },
                ActionModel::Deliver { signal: Signal::Kill },
            )
        } else {
            (stage, ActionModel::Wait { nanos: TIER1_POLL_STEP })
        },
        TeardownStage::KillWait { deadline } => if !anything_alive(session, seen) || now
            >= deadline {
            (TeardownStage::Report, ActionModel::Look)
        } else {
            (stage, ActionModel::Wait { nanos: TIER1_POLL_STEP })
        },
        TeardownStage::Report => (
            TeardownStage::Done,
            ActionModel::Finish { survivors: left_alive(session, seen) },
        ),
        TeardownStage::CgroupDrain { deadline } => if seen.cgroup_members@.len() == 0 || now
            >= deadline {
            (TeardownStage::Done, ActionModel::Finish { survivors: seen.cgroup_members@ })
        } else {
            (stage, ActionModel::Wait { nanos: TIER2_POLL_STEP })
        },
        TeardownStage::Done => (
            TeardownStage::Done,
            ActionModel::Finish { survivors: Seq::empty() },
        ),
    }
}

/// A teardown under way. It never blocks: it says what to do, and is told what was
/// seen afterwards.
///
/// Both tiers are bounded in time. Teardown must never be blockable by a slow
/// client or an uncooperative child, because renew, TTL expiry, and kill all
/// depend on it returning.
#[derive(Debug)]
pub struct Teardown {
    pub stage: TeardownStage,
    pub started: u128,
}

impl Teardown {
    /// Start a teardown, and say what to do first.
    pub fn start(tier: KillDomainTier, grace: u128, now: u128) -> (result: (
        Teardown,
        TeardownAction,
    ))
        requires
            in_range(grace),
            in_range(now),
        ensures
            result.0.started == now,
            (result.0.stage, result.1@) == teardown_start(tier, grace, now),
    {
        match tier {
            KillDomainTier::Tier1BestEffortProcessGroup => (
                Teardown {
                    stage: TeardownStage::TermGrace { deadline: now + grace },
                    started: now,
                },
                TeardownAction::Deliver { signal: Signal::Term },
            ),
            KillDomainTier::Tier2GuaranteedCgroup => {
                let budget: u128 = if grace < TIER2_CONVERGENCE_BUDGET {
                    grace
                } else {
                    TIER2_CONVERGENCE_BUDGET
                };
                (
                    Teardown {
                        stage: TeardownStage::CgroupDrain { deadline: now + budget },
                        started: now,
                    },
                    TeardownAction::KillCgroup,
                )
            },
        }
    }

    /// Say what to do next, by what was seen.
    pub fn next(&mut self, session: &SessionKillDomain, seen: &Observation, now: u128) -> (action:
        TeardownAction)
        requires
            in_range(now),
            seen.alive@.len() == session@.children.len(),
        ensures
            final(self).started == old(self).started,
            (final(self).stage, action@) == teardown_next(old(self).stage, session@, *seen, now),
    {
        match self.stage {
            TeardownStage::TermGrace { deadline } => {
                if !session.any_alive(seen) {
                    self.stage = TeardownStage::Report;
                    TeardownAction::Look
                } else if now >= deadline {
                    self.stage = TeardownStage::KillWait { deadline: now + TIER1_KILL_WAIT };
                    TeardownAction::Deliver { signal: Signal::Kill }
                } else {
                    TeardownAction::Wait { nanos: TIER1_POLL_STEP }
                }
            },
            TeardownStage::KillWait { deadline } => {
                if !session.any_alive(seen) || now >= deadline {
                    self.stage = TeardownStage::Report;
                    TeardownAction::Look
                } else {
                    TeardownAction::Wait { nanos: TIER1_POLL_STEP }
                }
            },
            TeardownStage::Report => {
                self.stage = TeardownStage::Done;
                TeardownAction::Finish { survivors: session.survivors(seen) }
            },
            TeardownStage::CgroupDrain { deadline } => {
                if seen.cgroup_members.len() == 0 || now >= deadline {
                    self.stage = TeardownStage::Done;
                    TeardownAction::Finish {
                        survivors: vstd::slice::slice_to_vec(seen.cgroup_members.as_slice()),
                    }
                } else {
                    TeardownAction::Wait { nanos: TIER2_POLL_STEP }
                }
            },
            TeardownStage::Done => {
                TeardownAction::Finish { survivors: Vec::new() }
            },
        }
    }
}

/// The instant up to which a stage may ask to wait.
pub open spec fn stage_deadline(stage: TeardownStage) -> int {
    match stage {
        TeardownStage::TermGrace { deadline } => deadline as int,
        TeardownStage::KillWait { deadline } => deadline as int,
        TeardownStage::CgroupDrain { deadline } => deadline as int,
        _ => 0,
    }
}

/// How many stages are still to come.
pub open spec fn stages_left(stage: TeardownStage) -> nat {
    match stage {
        TeardownStage::TermGrace { .. } => 3,
        TeardownStage::KillWait { .. } => 2,
        TeardownStage::CgroupDrain { .. } => 1,
        TeardownStage::Report => 1,
        TeardownStage::Done => 0,
    }
}

/// Teardown is bounded in time, whatever is seen and whoever refuses to die: it
/// asks to wait only before its deadline, and every other step brings it closer
/// to the end.
pub proof fn law_teardown_is_bounded(
    stage: TeardownStage,
    session: SessionDomainModel,
    seen: Observation,
    now: u128,
)
    requires
        stage != TeardownStage::Done,
        in_range(now),
    ensures
        ({
            let (next, action) = teardown_next(stage, session, seen, now);
            &&& action is Wait ==> now < stage_deadline(stage) && next == stage
            &&& !(action is Wait) ==> stages_left(next) < stages_left(stage)
            &&& next is KillWait && stage is TermGrace ==> stage_deadline(next) == now
                + TIER1_KILL_WAIT
            &&& next == TeardownStage::Done ==> action is Finish
        }),
{
}

/// A Tier 1 teardown that ends while something visible is alive has sent
/// `SIGKILL` first: the grace stage never leads to a report with a survivor in
/// sight.
pub proof fn law_survivors_were_killed_first(
    session: SessionDomainModel,
    seen: Observation,
    deadline: u128,
    now: u128,
)
    requires
        anything_alive(session, seen),
    ensures
        teardown_next(TeardownStage::TermGrace { deadline }, session, seen, now).0
            != TeardownStage::Report,
{
}

/// One sign of life is enough: a process on record that is alive, or a leader's group
/// that still has a member. Without either, nothing is alive.
pub proof fn law_any_sign_of_life_counts(session: SessionDomainModel, seen: Observation, i: int)
    ensures
        0 <= i < session.children.len() && seen.alive@[i] ==> anything_alive(session, seen),
        session.leader_pgid is Some && seen.group_alive ==> anything_alive(session, seen),
        anything_alive(session, seen) ==> (session.leader_pgid is Some && seen.group_alive)
            || exists|k: int| 0 <= k < session.children.len() && #[trigger] seen.alive@[k],
{
}

proof fn lemma_marked_is_alive(children: Seq<i32>, alive: Seq<bool>, pid: i32)
    requires
        marked(children, alive).contains(pid),
    ensures
        exists|k: int| 0 <= k < children.len() && #[trigger] children[k] == pid && alive[k],
    decreases children.len(),
{
    if children.len() > 0 {
        let last = children.len() - 1;
        let before = marked(children.drop_last(), alive);
        if alive[last] && children[last] == pid {
        } else {
            let k = choose|k: int|
                0 <= k < marked(children, alive).len() && marked(children, alive)[k] == pid;
            assert(before[k] == pid);
            lemma_marked_is_alive(children.drop_last(), alive, pid);
            let i = choose|i: int|
                0 <= i < children.drop_last().len() && #[trigger] children.drop_last()[i] == pid
                    && alive[i];
            assert(children[i] == pid);
        }
    }
}

/// What a teardown reports is what is alive: a pid is reported exactly where it is on
/// record and alive, or names the leader of a group that still has a member.
pub proof fn law_report_is_what_is_alive(session: SessionDomainModel, seen: Observation, pid: i32)
    ensures
        left_alive(session, seen).contains(pid) <==> {
            ||| exists|k: int|
                0 <= k < session.children.len() && #[trigger] session.children[k] == pid
                    && seen.alive@[k]
            ||| session.leader_pgid == Some(pid) && seen.group_alive
        },
{
    let children = marked(session.children, seen.alive@);
    let all = left_alive(session, seen);
    if exists|k: int|
        0 <= k < session.children.len() && #[trigger] session.children[k] == pid && seen.alive@[k] {
        let k = choose|k: int|
            0 <= k < session.children.len() && #[trigger] session.children[k] == pid
                && seen.alive@[k];
        law_report_names_every_visible_survivor(session, seen, k);
    } else if session.leader_pgid == Some(pid) && seen.group_alive {
        if children.contains(pid) {
            lemma_marked_is_alive(session.children, seen.alive@, pid);
        } else {
            assert(all[all.len() - 1] == pid);
        }
    } else if all.contains(pid) {
        let i = choose|i: int| 0 <= i < all.len() && all[i] == pid;
        assert(children[i] == pid);
        lemma_marked_is_alive(session.children, seen.alive@, pid);
    }
}

/// A signal goes to the leader's group first, where there is a leader, and then once to
/// each process on record, in order; nothing else is sent.
pub proof fn law_signals_reach_group_then_children(session: SessionDomainModel, signal: Signal)
    ensures
        ({
            let orders = signal_orders(session, signal);
            let lead: int = if session.leader_pgid is Some {
                1
            } else {
                0
            };
            &&& orders.len() == lead + session.children.len()
            &&& session.leader_pgid matches Some(pgid) ==> orders[0] == (SignalOrder::Group {
                pgid,
                signal,
            })
            &&& forall|i: int|
                lead <= i < orders.len() ==> #[trigger] orders[i] == (SignalOrder::Pid {
                    pid: session.children[i - lead],
                    signal,
                })
        }),
{
}

/// The ceiling on recorded processes never passes the operator's cap, never eats into
/// the descriptors kept in reserve, and gives nothing away beyond that.
pub proof fn law_ceiling_leaves_the_reserve(limits: TrackingLimits, open_file_limit: Option<usize>)
    ensures
        ({
            let ceiling = tracking_ceiling(limits, open_file_limit);
            &&& 0 <= ceiling <= limits.max_tracked_global
            &&& open_file_limit is None ==> ceiling == limits.max_tracked_global
            &&& open_file_limit matches Some(soft) ==> {
                &&& ceiling == 0 || ceiling + limits.reserved_fd_headroom <= soft
                &&& ceiling == limits.max_tracked_global || ceiling == 0 || ceiling
                    + limits.reserved_fd_headroom == soft
                &&& ceiling == 0 ==> limits.max_tracked_global == 0 || soft
                    <= limits.reserved_fd_headroom
            }
        }),
{
}

/// In Tier 1 every look reaps; in Tier 2 none does while the cgroup has a member.
pub proof fn law_reaping_waits_for_an_empty_cgroup(
    session: SessionDomainModel,
    cgroup_members: Seq<i32>,
)
    ensures
        session.tier == KillDomainTier::Tier1BestEffortProcessGroup ==> reaps_at(
            session,
            cgroup_members,
        ),
        session.tier == KillDomainTier::Tier2GuaranteedCgroup && cgroup_members.len() > 0
            ==> !reaps_at(session, cgroup_members),
        session.tier == KillDomainTier::Tier2GuaranteedCgroup && cgroup_members.len() == 0
            && session.cgroup is Some ==> reaps_at(session, cgroup_members),
{
}

/// How far a teardown has come after its first `n` looks, each of which showed
/// something at some instant.
pub open spec fn stage_after(
    tier: KillDomainTier,
    grace: u128,
    started: u128,
    session: SessionDomainModel,
    looks: Seq<(Observation, u128)>,
    n: nat,
) -> TeardownStage
    decreases n,
{
    if n == 0 {
        teardown_start(tier, grace, started).0
    } else {
        teardown_next(
            stage_after(tier, grace, started, session, looks, (n - 1) as nat),
            session,
            looks[n - 1].0,
            looks[n - 1].1,
        ).0
    }
}

/// What a teardown asks for at look `n`.
pub open spec fn asked_at(
    tier: KillDomainTier,
    grace: u128,
    started: u128,
    session: SessionDomainModel,
    looks: Seq<(Observation, u128)>,
    n: nat,
) -> ActionModel {
    teardown_next(
        stage_after(tier, grace, started, session, looks, n),
        session,
        looks[n as int].0,
        looks[n as int].1,
    ).1
}

/// Whether something was alive at each of the first `n` looks, all of them before
/// `until`.
pub open spec fn alive_until(
    session: SessionDomainModel,
    looks: Seq<(Observation, u128)>,
    n: nat,
    until: int,
) -> bool {
    forall|k: int|
        0 <= k < n ==> anything_alive(session, (#[trigger] looks[k]).0) && looks[k].1 < until
}

proof fn lemma_in_grace(
    grace: u128,
    started: u128,
    session: SessionDomainModel,
    looks: Seq<(Observation, u128)>,
    n: nat,
)
    requires
        in_range(grace),
        in_range(started),
        alive_until(session, looks, n, started + grace),
    ensures
        stage_after(
            KillDomainTier::Tier1BestEffortProcessGroup,
            grace,
            started,
            session,
            looks,
            n,
        ) == (TeardownStage::TermGrace { deadline: (started + grace) as u128 }),
    decreases n,
{
    if n > 0 {
        lemma_in_grace(grace, started, session, looks, (n - 1) as nat);
        let last = looks[n - 1];
        assert(anything_alive(session, last.0) && last.1 < started + grace);
    }
}

proof fn lemma_grace_ends_on_time(
    grace: u128,
    started: u128,
    session: SessionDomainModel,
    looks: Seq<(Observation, u128)>,
    n: nat,
)
    requires
        in_range(grace),
        in_range(started),
    ensures
        stage_after(
            KillDomainTier::Tier1BestEffortProcessGroup,
            grace,
            started,
            session,
            looks,
            n,
        ) matches TeardownStage::TermGrace { deadline } ==> deadline == started + grace,
    decreases n,
{
    if n > 0 {
        lemma_grace_ends_on_time(grace, started, session, looks, (n - 1) as nat);
    }
}

/// A Tier 1 teardown begins with `SIGTERM` and waits out its whole grace: as long as
/// something is alive and the grace runs, it only asks to wait a little, and at no
/// instant before the grace is over does it ask for `SIGKILL`, whatever was seen.
pub proof fn law_grace_is_waited_out(
    grace: u128,
    started: u128,
    session: SessionDomainModel,
    looks: Seq<(Observation, u128)>,
    n: nat,
)
    requires
        in_range(grace),
        in_range(started),
    ensures
        ({
            let tier = KillDomainTier::Tier1BestEffortProcessGroup;
            let asked = asked_at(tier, grace, started, session, looks, n);
            &&& teardown_start(tier, grace, started).1 == (ActionModel::Deliver {
                signal: Signal::Term,
            })
            &&& alive_until(session, looks, n + 1, started + grace) ==> asked
                == (ActionModel::Wait { nanos: 25_000_000 })
            &&& looks[n as int].1 < started + grace ==> asked != (ActionModel::Deliver {
                signal: Signal::Kill,
            })
        }),
{
    let tier = KillDomainTier::Tier1BestEffortProcessGroup;
    lemma_grace_ends_on_time(grace, started, session, looks, n);
    if alive_until(session, looks, n + 1, started + grace) {
        assert(alive_until(session, looks, n, started + grace));
        lemma_in_grace(grace, started, session, looks, n);
        let last = looks[n as int];
        assert(anything_alive(session, last.0) && last.1 < started + grace);
    }
}

/// A session that drains within its grace is never killed: the first look that shows
/// nothing alive leads to one more look, and that look decides the report.
pub proof fn law_drained_session_is_reported_without_a_kill(
    grace: u128,
    started: u128,
    session: SessionDomainModel,
    looks: Seq<(Observation, u128)>,
    n: nat,
)
    requires
        in_range(grace),
        in_range(started),
        alive_until(session, looks, n, started + grace),
        !anything_alive(session, looks[n as int].0),
    ensures
        ({
            let tier = KillDomainTier::Tier1BestEffortProcessGroup;
            &&& asked_at(tier, grace, started, session, looks, n) == ActionModel::Look
            &&& asked_at(tier, grace, started, session, looks, n + 1) == (ActionModel::Finish {
                survivors: left_alive(session, looks[n as int + 1].0),
            })
        }),
{
    lemma_in_grace(grace, started, session, looks, n);
}

/// A session that outlives its grace is killed at the first look after it, gets half a
/// second to go, and is then reported with whatever is still alive.
pub proof fn law_overdue_session_is_killed_and_reported(
    grace: u128,
    started: u128,
    session: SessionDomainModel,
    looks: Seq<(Observation, u128)>,
    kill: nat,
    n: nat,
)
    requires
        in_range(grace),
        in_range(started),
        alive_until(session, looks, kill, started + grace),
        anything_alive(session, looks[kill as int].0),
        started + grace <= looks[kill as int].1,
        in_range(looks[kill as int].1),
        kill < n,
        forall|k: int|
            kill < k < n ==> anything_alive(session, (#[trigger] looks[k]).0) && looks[k].1
                < looks[kill as int].1 + 500_000_000,
    ensures
        ({
            let tier = KillDomainTier::Tier1BestEffortProcessGroup;
            let now = looks[n as int].1;
            let over = looks[kill as int].1 + 500_000_000;
            &&& asked_at(tier, grace, started, session, looks, kill) == (ActionModel::Deliver {
                signal: Signal::Kill,
            })
            &&& if anything_alive(session, looks[n as int].0) && now < over {
                asked_at(tier, grace, started, session, looks, n) == (ActionModel::Wait {
                    nanos: 25_000_000,
                })
            } else {
                &&& asked_at(tier, grace, started, session, looks, n) == ActionModel::Look
                &&& asked_at(tier, grace, started, session, looks, n + 1) == (ActionModel::Finish {
                    survivors: left_alive(session, looks[n as int + 1].0),
                })
            }
        }),
{
    lemma_in_grace(grace, started, session, looks, kill);
    lemma_in_kill_wait(grace, started, session, looks, kill, n);
}

proof fn lemma_in_kill_wait(
    grace: u128,
    started: u128,
    session: SessionDomainModel,
    looks: Seq<(Observation, u128)>,
    kill: nat,
    n: nat,
)
    requires
        in_range(grace),
        in_range(started),
        alive_until(session, looks, kill, started + grace),
        anything_alive(session, looks[kill as int].0),
        started + grace <= looks[kill as int].1,
        in_range(looks[kill as int].1),
        kill < n,
        forall|k: int|
            kill < k < n ==> anything_alive(session, (#[trigger] looks[k]).0) && looks[k].1
                < looks[kill as int].1 + 500_000_000,
    ensures
        stage_after(
            KillDomainTier::Tier1BestEffortProcessGroup,
            grace,
            started,
            session,
            looks,
            n,
        ) == (TeardownStage::KillWait {
            deadline: (looks[kill as int].1 + 500_000_000) as u128,
        }),
    decreases n,
{
    lemma_in_grace(grace, started, session, looks, kill);
    if n > kill + 1 {
        lemma_in_kill_wait(grace, started, session, looks, kill, (n - 1) as nat);
        let last = looks[n - 1];
        assert(anything_alive(session, last.0) && last.1 < looks[kill as int].1 + 500_000_000);
    }
}

/// A Tier 2 teardown begins with the cgroup's kill switch and asks to wait a little until
/// the cgroup is empty, for the grace but for two seconds at most. It reports exactly
/// what the kernel still lists.
pub proof fn law_cgroup_is_given_time_to_empty(
    grace: u128,
    started: u128,
    session: SessionDomainModel,
    looks: Seq<(Observation, u128)>,
    n: nat,
)
    requires
        in_range(grace),
        in_range(started),
        forall|k: int|
            0 <= k < n ==> (#[trigger] looks[k]).0.cgroup_members@.len() > 0 && looks[k].1 < started
                + grace && looks[k].1 < started + 2_000_000_000,
    ensures
        ({
            let tier = KillDomainTier::Tier2GuaranteedCgroup;
            let listed = looks[n as int].0.cgroup_members@;
            let now = looks[n as int].1;
            &&& teardown_start(tier, grace, started).1 == ActionModel::KillCgroup
            &&& asked_at(tier, grace, started, session, looks, n) == if listed.len() > 0 && now
                < started + grace && now < started + 2_000_000_000 {
                ActionModel::Wait { nanos: 5_000_000 }
            } else {
                ActionModel::Finish { survivors: listed }
            }
        }),
{
    lemma_in_cgroup_drain(grace, started, session, looks, n);
}

proof fn lemma_in_cgroup_drain(
    grace: u128,
    started: u128,
    session: SessionDomainModel,
    looks: Seq<(Observation, u128)>,
    n: nat,
)
    requires
        in_range(grace),
        in_range(started),
        forall|k: int|
            0 <= k < n ==> (#[trigger] looks[k]).0.cgroup_members@.len() > 0 && looks[k].1 < started
                + grace && looks[k].1 < started + 2_000_000_000,
    ensures
        stage_after(
            KillDomainTier::Tier2GuaranteedCgroup,
            grace,
            started,
            session,
            looks,
            n,
        ) == (TeardownStage::CgroupDrain {
            deadline: (if grace < 2_000_000_000 {
                started + grace
            } else {
                started + 2_000_000_000
            }) as u128,
        }),
    decreases n,
{
    if n > 0 {
        lemma_in_cgroup_drain(grace, started, session, looks, (n - 1) as nat);
        let last = looks[n - 1];
        assert(last.0.cgroup_members@.len() > 0);
    }
}

/// Each tier, and each reason for which Tier 2 is not active, reads differently to an
/// operator, and only Tier 1 is called best effort.
pub proof fn law_tiers_are_labelled_by_their_guarantee()
    ensures
        tier_label(KillDomainTier::Tier1BestEffortProcessGroup)
            == "tier1-best-effort-process-group"@,
        tier_label(KillDomainTier::Tier2GuaranteedCgroup) == "tier2-guaranteed-cgroup"@,
        forall|tier: KillDomainTier| #[trigger]
            tier_guarantee(tier) == TeardownGuarantee::BestEffort <==> tier
                == KillDomainTier::Tier1BestEffortProcessGroup,
{
}

/// A process is put on record exactly where its session and the runtime both have room, and
/// then only it is.
pub proof fn law_record_is_kept_where_there_is_room(
    session: SessionDomainModel,
    session_after: SessionDomainModel,
    domain: DomainModel,
    domain_after: DomainModel,
    pid: i32,
    result: Result<(), Error>,
)
    requires
        recorded(session, session_after, domain, domain_after, pid, result),
    ensures
        result is Ok <==> session.children.len() < domain.limits.max_tracked_per_session
            && domain.on_record < domain.ceiling,
        result is Ok ==> {
            &&& session_after.children == session.children + seq![pid]
            &&& domain_after.on_record == domain.on_record + 1
            &&& session_after.leader_pgid == session.leader_pgid
        },
        result is Err ==> session_after == session && domain_after == domain,
        result matches Err(error) ==> error matches Error::CapacityExceeded { limit }
            && limit == if session.children.len() >= domain.limits.max_tracked_per_session {
            domain.limits.max_tracked_per_session as int
        } else {
            domain.ceiling
        },
        domain_after.leaked == domain.leaked && domain_after.audit == domain.audit,
{
    assert(session.children.push(pid) =~= session.children + seq![pid]);
}

/// Pids are listed in order with a comma between any two.
pub proof fn law_pid_lists_join(first: Seq<i32>, rest: Seq<i32>)
    requires
        first.len() > 0,
        rest.len() > 0,
    ensures
        pid_items(first + rest) == pid_items(first) + ", "@ + pid_items(rest),
        pid_items(seq![rest[0]]) == signed_decimal(rest[0] as int),
    decreases rest.len(),
{
    let all = first + rest;
    assert(all.last() == rest.last());
    if rest.len() == 1 {
        assert(all.drop_last() =~= first);
        assert(rest =~= seq![rest[0]]);
    } else {
        law_pid_lists_join(first, rest.drop_last());
        assert(all.drop_last() =~= first + rest.drop_last());
        assert(pid_items(first) + ", "@ + pid_items(rest) =~= pid_items(first) + ", "@ + pid_items(
            rest.drop_last(),
        ) + ", "@ + signed_decimal(rest.last() as int));
    }
}

/// A survivor is on record under its session with how many there are and which. Where
/// nothing better was promised it is an anomaly of its own kind.
pub proof fn law_survivors_are_recorded(session: SessionDomainModel, survivors: Seq<i32>)
    ensures
        ({
            let record = survivor_record(session, survivors);
            &&& record.session == Some(session.session)
            &&& record.generation == Some(session.generation.0)
            &&& record.kind == AuditKind::Tier1SurvivorDetected <==> session.tier
                == KillDomainTier::Tier1BestEffortProcessGroup
            &&& record.kind == AuditKind::SessionKill <==> session.tier
                == KillDomainTier::Tier2GuaranteedCgroup
            &&& record.detail matches Some(detail)
            &&& occurs_at(
                detail,
                decimal(survivors.len()),
                tier_label(session.tier).len() as int + 2,
            )
            &&& occurs_at(
                detail,
                "["@ + pid_items(survivors) + "]"@,
                detail.len() - pid_items(survivors).len() - 2,
            )
        }),
{
    reveal_strlit(": ");
    reveal_strlit("[");
    reveal_strlit("]");
    let label = tier_label(session.tier);
    let count = decimal(survivors.len());
    let list = "["@ + pid_items(survivors) + "]"@;
    let detail = label + ": "@ + count + " survivor(s) after teardown; pids="@ + list;
    let at = label.len() as int + 2;
    assert(detail.subrange(at, at + count.len()) =~= count);
    assert(detail.subrange(detail.len() - list.len(), detail.len() as int) =~= list);
}

/// The startup line names the tier; where the stronger one is unavailable it says that
/// teardown is best effort, and ends with the reason.
pub proof fn law_startup_line_tells_the_tier(selection: KillDomainSelection)
    ensures
        ({
            let line = selection_line(selection);
            let head = "kill domain: "@ + tier_label(selection.tier);
            &&& head.is_prefix_of(line)
            &&& selection.tier2_unavailable is None ==> line.skip(head.len() as int)
                == " (convergence guaranteed)"@
            &&& selection.tier2_unavailable matches Some(reason) ==> line.skip(head.len() as int)
                == " (teardown and absolute TTL are BEST-EFFORT); tier 2 unavailable: "@
                + reason_text(reason)
        }),
{
    let line = selection_line(selection);
    let head = "kill domain: "@ + tier_label(selection.tier);
    match selection.tier2_unavailable {
        None => {
            assert(line.skip(head.len() as int) =~= " (convergence guaranteed)"@);
        },
        Some(reason) => {
            assert(line.skip(head.len() as int)
                =~= " (teardown and absolute TTL are BEST-EFFORT); tier 2 unavailable: "@
                + reason_text(reason));
        },
    }
}

} // verus!
