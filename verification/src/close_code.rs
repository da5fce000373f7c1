//! WebSocket close codes.
//!
//! Distinct codes are a hard requirement: a client must be able to tell expiry
//! from takeover from a replaced runtime, instead of surfacing an opaque network
//! error.
use vstd::prelude::*;

verus! {

/// The detached-idle or absolute TTL elapsed.
pub const TTL_EXPIRED: u16 = 4001;

/// Another connection won the single-attach slot.
pub const TAKEOVER: u16 = 4002;

/// An admin `renew` rotated the token; the session process survives.
pub const RENEWED: u16 = 4003;

/// The child exited on its own.
pub const SESSION_ENDED: u16 = 4004;

/// The client could not drain its backlog past the hard watermark.
pub const SLOW_CLIENT: u16 = 4005;

/// The runtime is shutting down: pod or task replaced, workspace reset.
/// Separate from every code above so clients can say so plainly.
pub const RUNTIME_REPLACED: u16 = 4006;

/// Session capacity, tracking capacity, or an admission bound was hit.
pub const CAPACITY: u16 = 4007;

/// An operator killed the session through the admin plane. Distinct from
/// [`TTL_EXPIRED`] because a client that reports "session expired" for a kill
/// somebody just issued is telling its user something untrue.
pub const ADMIN_KILL: u16 = 4008;

/// An internal fault, not a client-correctable condition. Distinct from
/// [`CAPACITY`], which invites an immediate retry-create.
pub const INTERNAL_ERROR: u16 = 4009;

/// Every close code the runtime uses, in order.
pub open spec fn all_close_codes() -> Seq<u16> {
    seq![
        TTL_EXPIRED,
        TAKEOVER,
        RENEWED,
        SESSION_ENDED,
        SLOW_CLIENT,
        RUNTIME_REPLACED,
        CAPACITY,
        ADMIN_KILL,
        INTERNAL_ERROR,
    ]
}

/// No two reasons share a close code, and all of them lie in the range that
/// WebSocket reserves for applications.
pub proof fn law_close_codes_are_distinct()
    ensures
        all_close_codes().no_duplicates(),
        forall|i: int|
            0 <= i < all_close_codes().len() ==> 4000 <= #[trigger] all_close_codes()[i] <= 4999,
{
}

} // verus!
