//! `openab-pty`: remote sandboxed terminal sessions.
//!
//! Two invariants shape this crate and must not be quietly relaxed:
//!
//! 1. **The admin plane is remote-only, and the credential is its whole
//!    boundary.** No admin socket, UDS, or in-container CLI exists, so no code
//!    path treats being *inside* the container as authorization. A managed
//!    session shares this container's network namespace and can connect to the
//!    one listener, where it gets `401`: the credential exists in-container only
//!    as a non-reversible hash, and tokens are never written to a PTY master.
//! 2. **Teardown is best-effort on Tier 1.** A process group and a subreaper are
//!    no guarantee, and that is labelled wherever it is surfaced. A required
//!    Tier 2 is refused at startup rather than silently downgraded.
//!
//! The library holds the state and the decisions; sockets, processes, clocks and
//! locks belong to the program around it, which hands plain values in and
//! carries the answers out.
pub mod address;
pub mod admin_auth;
pub mod audit;
pub mod bearer;
pub mod capproxy;
pub mod clock;
pub mod close_code;
pub mod config;
pub mod containment;
pub mod crypto;
pub mod escape;
pub mod json;
pub mod killdomain;
pub mod laws;
pub mod limiter;
pub mod links;
pub mod listener;
pub mod manager;
pub mod order;
pub mod outbound;
pub mod probe;
pub mod processgroup;
pub mod procfs;
pub mod projection;
pub mod ringbuf;
pub mod server;
pub mod session;
pub mod spawn;
pub mod table;
pub mod termfilter;
pub mod text;
pub mod token;
pub mod wire;

use crate::text::{decimal, decimal_text, joined};
use vstd::prelude::*;

verus! {

/// The operating system's I/O error, carried through untouched.
#[verifier::external_type_specification]
#[verifier::external_body]
pub struct ExIoError(std::io::Error);

/// What `std` prints for a string under `{:?}`.
pub uninterp spec fn quoted_text(s: Seq<char>) -> Seq<char>;

/// `format!("{s:?}")`: the string in quotes, with `std`'s debug escapes. The
/// result is named, not spelled out.
#[verifier::external_body]
pub(crate) fn quoted(s: &str) -> (text: String)
    ensures
        text@ == quoted_text(s@),
{
    format!("{s:?}")
}

/// `std::io::Error`'s own message. Nothing is promised of it: it is the
/// operating system's wording.
#[verifier::external_body]
fn io_error_text(error: &std::io::Error) -> (text: String) {
    error.to_string()
}

/// The characters a session name may hold: `[a-z0-9-]`.
pub open spec fn is_name_char(c: char) -> bool {
    ('a' <= c <= 'z') || ('0' <= c <= '9') || c == '-'
}

/// Session names are `[a-z0-9-]{1,32}`.
pub open spec fn is_session_name(s: Seq<char>) -> bool {
    &&& 1 <= s.len() <= 32
    &&& forall|i: int| 0 <= i < s.len() ==> is_name_char(#[trigger] s[i])
}

/// Validated session name: `[a-z0-9-]{1,32}`, so it is safe in paths, URLs, and
/// log lines.
#[derive(Debug, Eq, Hash, PartialOrd, Ord)]
pub struct SessionName(String);

impl View for SessionName {
    type V = Seq<char>;

    closed spec fn view(&self) -> Seq<char> {
        self.0@
    }
}

impl PartialEq for SessionName {
    fn eq(&self, other: &Self) -> (same: bool) {
        self.0 == other.0
    }
}

impl vstd::std_specs::cmp::PartialEqSpecImpl for SessionName {
    open spec fn obeys_eq_spec() -> bool {
        true
    }

    open spec fn eq_spec(&self, other: &Self) -> bool {
        self@ == other@
    }
}

impl Clone for SessionName {
    fn clone(&self) -> (copy: Self)
        ensures
            copy@ == self@,
            copy == *self,
    {
        proof {
            use_type_invariant(self);
        }
        SessionName(self.0.clone())
    }
}

impl SessionName {
    #[verifier::type_invariant]
    spec fn in_allowlist(self) -> bool {
        is_session_name(self.0@)
    }

    /// Parse a session name, rejecting anything outside the allowlist.
    pub fn parse(s: &str) -> (parsed: Result<Self, Error>)
        ensures
            parsed is Ok <==> is_session_name(s@),
            parsed matches Ok(name) ==> name@ == s@,
            parsed matches Err(error) ==> {
                &&& error is InvalidSessionName
                &&& error->InvalidSessionName_0@ == s@
            },
    {
        let chars = crate::text::chars_of(s);
        let mut ok: bool = 1 <= chars.len() && chars.len() <= 32;
        let mut i: usize = 0;
        while ok && i < chars.len()
            invariant
                chars@ == s@,
                0 <= i <= chars.len(),
                ok ==> 1 <= chars.len() <= 32,
                ok ==> forall|j: int| 0 <= j < i ==> is_name_char(#[trigger] chars@[j]),
                !ok ==> !is_session_name(s@),
            decreases chars.len() - i + if ok { 1int } else { 0int },
        {
            let c = chars[i];
            if (c >= 'a' && c <= 'z') || (c >= '0' && c <= '9') || c == '-' {
                i += 1;
            } else {
                assert(!is_name_char(s@[i as int]));
                ok = false;
            }
        }
        if ok {
            Ok(SessionName(s.to_owned()))
        } else {
            Err(Error::InvalidSessionName(s.to_owned()))
        }
    }

    pub fn as_str(&self) -> (text: &str)
        ensures
            text@ == self@,
            is_session_name(text@),
    {
        proof {
            use_type_invariant(self);
        }
        self.0.as_str()
    }

    /// The name as it is printed.
    pub fn to_string(&self) -> (text: String)
        ensures
            text@ == self@,
    {
        self.0.clone()
    }
}

/// Monotonically increasing per-session fence. Bumped by renew, kill, and
/// restart-in-place; every outstanding attach token for the session becomes
/// invalid the moment it changes.
#[derive(Clone, Copy, Debug, PartialEq, Eq, Structural, PartialOrd, Ord)]
pub struct Generation(pub u64);

impl Default for Generation {
    fn default() -> (generation: Self)
        ensures
            generation == Generation(0),
    {
        Generation(0)
    }
}

impl Generation {
    /// The generation as it is printed.
    pub fn to_string(&self) -> (text: String)
        ensures
            text@ == decimal(self.0 as nat),
    {
        decimal_text(self.0 as u128)
    }
}

/// Errors surfaced across module boundaries.
#[derive(Debug)]
pub enum Error {
    InvalidSessionName(String),
    NotFound(SessionName),
    AlreadyExists(SessionName),
    CapacityExceeded { limit: usize },
    Unauthorized,
    /// The child is gone; the caller should offer restart-in-place.
    SessionDead(SessionName),
    Config(String),
    Io(std::io::Error),
    Other(String),
}

/// The message an operator reads. An I/O error has the operating system's own
/// wording, so it has no fixed one.
pub open spec fn error_message(error: Error) -> Option<Seq<char>> {
    match error {
        Error::InvalidSessionName(s) => Some(
            "invalid session name "@ + quoted_text(s@) + ": expected [a-z0-9-]{1,32}"@,
        ),
        Error::NotFound(name) => Some("no such session: "@ + name@),
        Error::AlreadyExists(name) => Some("session already exists: "@ + name@),
        Error::CapacityExceeded { limit } => Some(
            "session capacity exceeded (limit "@ + decimal(limit as nat) + ")"@,
        ),
        Error::Unauthorized => Some("unauthorized"@),
        Error::SessionDead(name) => Some(
            "session "@ + name@ + " is dead; restart-in-place required"@,
        ),
        Error::Config(message) => Some("config error: "@ + message@),
        Error::Io(_) => None,
        Error::Other(message) => Some(message@),
    }
}

impl Error {
    /// The message an operator reads.
    pub fn to_string(&self) -> (text: String)
        ensures
            match error_message(*self) {
                Some(message) => text@ == message,
                None => "io error: "@.is_prefix_of(text@),
            },
    {
        match self {
            Error::InvalidSessionName(s) => joined(
                joined("invalid session name ", quoted(s.as_str()).as_str()).as_str(),
                ": expected [a-z0-9-]{1,32}",
            ),
            Error::NotFound(name) => joined("no such session: ", name.as_str()),
            Error::AlreadyExists(name) => joined("session already exists: ", name.as_str()),
            Error::CapacityExceeded { limit } => joined(
                joined(
                    "session capacity exceeded (limit ",
                    decimal_text(*limit as u128).as_str(),
                ).as_str(),
                ")",
            ),
            Error::Unauthorized => "unauthorized".to_owned(),
            Error::SessionDead(name) => joined(
                joined("session ", name.as_str()).as_str(),
                " is dead; restart-in-place required",
            ),
            Error::Config(message) => joined("config error: ", message.as_str()),
            Error::Io(error) => {
                let detail = io_error_text(error);
                joined("io error: ", detail.as_str())
            },
            Error::Other(message) => message.clone(),
        }
    }
}

impl From<std::io::Error> for Error {
    fn from(error: std::io::Error) -> (wrapped: Self) {
        Error::Io(error)
    }
}

impl vstd::std_specs::convert::FromSpecImpl<std::io::Error> for Error {
    open spec fn obeys_from_spec() -> bool {
        true
    }

    open spec fn from_spec(error: std::io::Error) -> Self {
        Error::Io(error)
    }
}

} // verus!
