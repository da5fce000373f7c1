//! The kill domain of a runtime that has only process groups: Tier 1, best
//! effort.
//!
//! Tier 2's guarantee depends on the child's pid landing in its cgroup **before
//! `execv`**, which needs a spawner that can run a pre-`execv` hook. A runtime
//! whose spawner owns its own pre-exec closure has nothing to select: the one
//! decision left is whether to refuse. An operator who asked for the hard
//! guarantee must be told it does not exist, never handed best effort with the
//! same name.
use crate::audit::AuditLogger;
use crate::config::KillDomainRequirement;
use crate::killdomain::{
    tracking_ceiling, KillDomainSelection, SubreaperStatus, Tier2Unavailable, TrackingLimits,
};
use crate::text::joined;
use crate::Error;
use vstd::prelude::*;

verus! {

/// The active containment tier. One variant, because there is no other. The name
/// carries the guarantee because this value reaches operators through logs and
/// status output.
#[derive(Clone, Copy, Debug, PartialEq, Eq, Structural)]
pub enum KillDomainTier {
    /// No prerequisites, and **best-effort** teardown and TTL.
    Tier1BestEffortProcessGroup,
}

impl KillDomainTier {
    /// True when convergence is not guaranteed. Callers must surface this.
    pub fn is_best_effort(self) -> (best_effort: bool)
        ensures
            best_effort,
    {
        match self {
            KillDomainTier::Tier1BestEffortProcessGroup => true,
        }
    }

    pub fn label(self) -> (label: &'static str)
        ensures
            label@ == "tier1-best-effort-process-group"@,
    {
        match self {
            KillDomainTier::Tier1BestEffortProcessGroup => "tier1-best-effort-process-group",
        }
    }

    /// The tier as it is printed.
    pub fn to_string(&self) -> (text: String)
        ensures
            text@ == "tier1-best-effort-process-group"@,
    {
        self.label().to_owned()
    }

    /// One log line an operator can act on: which tier is active and what it does
    /// not promise.
    pub fn describe(self) -> (line: String)
        ensures
            line@ == "kill domain: "@ + "tier1-best-effort-process-group"@
                + " (teardown and absolute TTL are BEST-EFFORT: a process that leaves its process group may outlive its session until the pod or task is replaced)"@,
    {
        joined(
            joined("kill domain: ", self.label()).as_str(),
            " (teardown and absolute TTL are BEST-EFFORT: a process that leaves its process group may outlive its session until the pod or task is replaced)",
        )
    }
}

/// Select the tier from the operator requirement.
pub fn resolve_tier(requirement: KillDomainRequirement) -> (result: Result<KillDomainTier, Error>)
    ensures
        match requirement {
            KillDomainRequirement::Tier1Allowed => result == Ok::<KillDomainTier, Error>(
                KillDomainTier::Tier1BestEffortProcessGroup,
            ),
            KillDomainRequirement::Tier2Required => result matches Err(Error::Config(message))
                && message@
                == "kill_domain_tier = tier2-required, but Tier 2 (one cgroup per session, teardown via cgroup.kill) is NOT IMPLEMENTED in Phase 1: the PTY spawner cannot join a cgroup before execv, so the hard guarantee cannot be provided. Refusing to start rather than serving best-effort teardown under the name of a guarantee. Use kill_domain_tier = tier1 to accept best-effort teardown explicitly."@,
        },
{
    match requirement {
        KillDomainRequirement::Tier1Allowed => Ok(KillDomainTier::Tier1BestEffortProcessGroup),
        KillDomainRequirement::Tier2Required => Err(
            Error::Config(
                "kill_domain_tier = tier2-required, but Tier 2 (one cgroup per session, teardown via cgroup.kill) is NOT IMPLEMENTED in Phase 1: the PTY spawner cannot join a cgroup before execv, so the hard guarantee cannot be provided. Refusing to start rather than serving best-effort teardown under the name of a guarantee. Use kill_domain_tier = tier1 to accept best-effort teardown explicitly.".to_owned(),
            ),
        ),
    }
}

/// The kill domain of a runtime that has only process groups: the general one,
/// with Tier 2 out of reach because the spawner cannot join a cgroup in time.
pub fn process_group_domain(
    limits: TrackingLimits,
    audit: AuditLogger,
    subreaper: SubreaperStatus,
    open_file_limit: Option<usize>,
) -> (domain: crate::killdomain::KillDomain)
    ensures
        domain@.selection.tier == crate::killdomain::KillDomainTier::Tier1BestEffortProcessGroup,
        domain@.selection.tier2_unavailable == Some(
            Tier2Unavailable::SpawnerCannotJoinCgroupPreExec,
        ),
        domain@.selection.cgroup_base is None,
        domain@.subreaper == subreaper,
        domain@.limits == limits,
        domain@.ceiling == tracking_ceiling(limits, open_file_limit),
        domain@.on_record == 0,
        domain@.leaked == 0,
        domain@.audit == audit@,
{
    crate::killdomain::KillDomain::new(
        KillDomainSelection::tier1(Tier2Unavailable::SpawnerCannotJoinCgroupPreExec),
        limits,
        audit,
        subreaper,
        open_file_limit,
    )
}

} // verus!
