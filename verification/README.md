# openab-pty

Remote sandboxed terminal sessions: a small runtime that hands out a shell inside a
locked-down container to clients that attach over a WebSocket.

The library under `src/` holds the rules the runtime follows, as executable Rust
with contracts that Verus proves. The program under `app/` is the thin layer around
it: the command line and the order of startup, the listener, the pseudo-terminals,
and the signals.

## Layout

| Path | What |
|---|---|
| `src/manager.rs` | Named sessions: admission, attach and takeover, renewal, expiry, teardown, restart. `src/laws.rs` states what holds across these. |
| `src/session.rs`, `src/outbound.rs`, `src/links.rs`, `src/ringbuf.rs` | One session, and the bounded path from it to its client. |
| `src/server.rs`, `src/wire.rs`, `src/bearer.rs`, `src/limiter.rs`, `src/listener.rs` | The attach surface, the admin gate, the wire frames, and the listener guard. |
| `src/token.rs`, `src/admin_auth.rs`, `src/crypto.rs`, `src/containment.rs` | Attach tokens, the admin credential, and the handling of secrets. |
| `src/killdomain.rs`, `src/processgroup.rs`, `src/probe.rs`, `src/procfs.rs` | Kill domains: what teardown reaches, in which order, and what it reports. |
| `src/config.rs`, `src/projection.rs` | Fail-closed validation of the delivered projection. |
| `src/termfilter.rs`, `src/capproxy.rs`, `src/escape.rs` | Terminal capability queries and their replies. |
| `app/` | The program. |
| `tests/` | Scenarios, run against the compiled library. |

## How the library is used

Time, the environment, and the outcome of every system call are arguments: the
library decides, the program acts and reports back. A teardown, for example, is
begun by the manager, carried out by the program as `killdomain::Teardown` says, and
closed with `SessionManager::finish_teardown`.

State that two parties share is addressed by number: a session by its id, the
outbound queue of a connection by its link.

What the library takes on trust is marked in place: each such function is private,
makes one call into another crate or into `std`, and says in its doc comment what is
claimed of that call.
