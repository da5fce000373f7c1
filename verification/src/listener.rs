//! The fail-closed listener guard.
use crate::address::{is_loopback_literal, loopback_literal};
use crate::text::{chars_of, joined, text_of};
use vstd::prelude::*;

verus! {

/// The position of the last colon before `to`, if there is one.
pub open spec fn last_colon(s: Seq<char>, to: int) -> Option<int>
    decreases to,
{
    if to <= 0 {
        None
    } else if s[to - 1] == ':' {
        Some(to - 1)
    } else {
        last_colon(s, to - 1)
    }
}

/// Whether a character brackets an address.
pub open spec fn is_bracket(c: char) -> bool {
    c == '[' || c == ']'
}

/// The first position at or after `at` that holds no bracket.
pub open spec fn bracket_end(s: Seq<char>, at: int) -> int
    decreases s.len() - at,
{
    if at >= s.len() || !is_bracket(s[at]) {
        at
    } else {
        bracket_end(s, at + 1)
    }
}

/// The end of `s` without the brackets it ends with, not before `from`.
pub open spec fn bracket_start(s: Seq<char>, from: int, end: int) -> int
    decreases end - from,
{
    if end <= from || !is_bracket(s[end - 1]) {
        end
    } else {
        bracket_start(s, from, end - 1)
    }
}

/// A text without the brackets around it.
pub open spec fn unbracketed(s: Seq<char>) -> Seq<char> {
    let start = bracket_end(s, 0);
    s.subrange(start, bracket_start(s, start, s.len() as int))
}

/// The host of a listen address: what stands before the last colon, without
/// brackets.
pub open spec fn listen_host(address: Seq<char>) -> Seq<char> {
    match last_colon(address, address.len() as int) {
        Some(i) => unbracketed(address.take(i)),
        None => unbracketed(address),
    }
}

/// A letter in lower case.
pub open spec fn lowered(c: char) -> char {
    if 'A' <= c <= 'Z' {
        (c as u32 + 32) as char
    } else {
        c
    }
}

/// Whether two texts are the same but for the case of ASCII letters.
pub open spec fn same_but_for_case(a: Seq<char>, b: Seq<char>) -> bool {
    &&& a.len() == b.len()
    &&& forall|i: int| 0 <= i < a.len() ==> lowered(#[trigger] a[i]) == lowered(b[i])
}

/// Whether a listen address binds loopback.
pub open spec fn binds_loopback(address: Seq<char>) -> bool {
    same_but_for_case(listen_host(address), "localhost"@) || is_loopback_literal(
        listen_host(address),
    )
}

fn lower(c: char) -> (small: char)
    ensures
        small == lowered(c),
{
    if c >= 'A' && c <= 'Z' {
        let small: u8 = (c as u32 + 32) as u8;
        small as char
    } else {
        c
    }
}

fn same_ignoring_case(a: &Vec<char>, b: &Vec<char>) -> (same: bool)
    ensures
        same == same_but_for_case(a@, b@),
{
    if a.len() != b.len() {
        return false;
    }
    let mut i: usize = 0;
    while i < a.len()
        invariant
            a@.len() == b@.len(),
            0 <= i <= a@.len(),
            forall|k: int| 0 <= k < i ==> lowered(#[trigger] a@[k]) == lowered(b@[k]),
        decreases a@.len() - i,
    {
        if lower(a[i]) != lower(b[i]) {
            return false;
        }
        i += 1;
    }
    true
}

/// The host of a listen address.
fn host_of(address: &str) -> (host: String)
    ensures
        host@ == listen_host(address@),
{
    let chars = chars_of(address);
    let mut to: usize = chars.len();
    while to > 0 && chars[to - 1] != ':'
        invariant
            to <= chars@.len(),
            chars@ == address@,
            last_colon(chars@, to as int) == last_colon(chars@, chars@.len() as int),
        decreases to,
    {
        to -= 1;
    }
    let end: usize = if to > 0 {
        to - 1
    } else {
        chars.len()
    };
    let ghost host = chars@.take(end as int);
    assert(to == 0 ==> host =~= chars@);
    let mut start: usize = 0;
    while start < end && (chars[start] == '[' || chars[start] == ']')
        invariant
            0 <= start <= end <= chars@.len(),
            host == chars@.take(end as int),
            bracket_end(host, start as int) == bracket_end(host, 0),
        decreases end - start,
    {
        assert(host[start as int] == chars@[start as int]);
        start += 1;
    }
    assert(start < end ==> host[start as int] == chars@[start as int]);
    assert(bracket_end(host, 0) == start);
    let mut stop: usize = end;
    while stop > start && (chars[stop - 1] == '[' || chars[stop - 1] == ']')
        invariant
            start <= stop <= end <= chars@.len(),
            host == chars@.take(end as int),
            bracket_start(host, start as int, stop as int) == bracket_start(
                host,
                start as int,
                end as int,
            ),
        decreases stop,
    {
        assert(host[stop - 1] == chars@[stop - 1]);
        stop -= 1;
    }
    assert(stop > start ==> host[stop - 1] == chars@[stop - 1]);
    assert(bracket_start(host, start as int, end as int) == stop);
    assert(chars@.subrange(start as int, stop as int) =~= host.subrange(start as int, stop as int));
    text_of(&chars, start, stop)
}

/// Whether the listen address binds loopback. A host that is neither `localhost` nor
/// a literal address is treated as non-loopback (fail safe).
pub fn bind_is_loopback(listen_addr: &str) -> (loopback: bool)
    ensures
        loopback == binds_loopback(listen_addr@),
{
    let host = host_of(listen_addr);
    if same_ignoring_case(&chars_of(host.as_str()), &chars_of("localhost")) {
        return true;
    }
    loopback_literal(host.as_str())
}

/// Why the runtime may not bind this address, if it may not.
pub open spec fn bind_fault(
    address: Seq<char>,
    admin_credential_hash: Seq<char>,
    tls_terminated_upstream: bool,
) -> Option<Seq<char>> {
    if binds_loopback(address) {
        None
    } else if admin_credential_hash.len() == 0 {
        Some(
            "refusing to bind "@ + address
                + ": no admin credential hash configured; an unauthenticated admin plane must never be exposed off-loopback"@,
        )
    } else if !tls_terminated_upstream {
        Some(
            "refusing to bind "@ + address
                + ": tls_terminated_upstream = false and this runtime holds no TLS key (the same-UID MVP forbids one), so an off-loopback bind would serve plain WS without a trusted terminator"@,
        )
    } else {
        None
    }
}

/// Whether the runtime may bind this address, given its auth material and TLS
/// declaration. Off-loopback plain WS is served only when the deployment declares
/// that a trusted upstream terminates TLS.
pub fn listener_guard(
    listen_addr: &str,
    admin_credential_hash: &str,
    tls_terminated_upstream: bool,
) -> (result: Result<(), String>)
    ensures
        match bind_fault(listen_addr@, admin_credential_hash@, tls_terminated_upstream) {
            Some(reason) => result matches Err(message) && message@ == reason,
            None => result is Ok,
        },
{
    if bind_is_loopback(listen_addr) {
        return Ok(());
    }
    let refusing = joined("refusing to bind ", listen_addr);
    if chars_of(admin_credential_hash).len() == 0 {
        return Err(
            joined(
                refusing.as_str(),
                ": no admin credential hash configured; an unauthenticated admin plane must never be exposed off-loopback",
            ),
        );
    }
    if !tls_terminated_upstream {
        return Err(
            joined(
                refusing.as_str(),
                ": tls_terminated_upstream = false and this runtime holds no TLS key (the same-UID MVP forbids one), so an off-loopback bind would serve plain WS without a trusted terminator",
            ),
        );
    }
    Ok(())
}

/// An off-loopback address is served only with both a credential hash and a
/// declared TLS terminator; a loopback address always is.
pub proof fn law_off_loopback_needs_both(
    address: Seq<char>,
    admin_credential_hash: Seq<char>,
    tls_terminated_upstream: bool,
)
    ensures
        bind_fault(address, admin_credential_hash, tls_terminated_upstream) is None
            <==> binds_loopback(address) || (admin_credential_hash.len() > 0
            && tls_terminated_upstream),
{
}

proof fn lemma_last_colon(s: Seq<char>, at: int, to: int)
    requires
        0 <= at < to <= s.len(),
        s[at] == ':',
        forall|i: int| at < i < to ==> #[trigger] s[i] != ':',
    ensures
        last_colon(s, to) == Some(at),
    decreases to,
{
    if to - 1 > at {
        assert(s[to - 1] != ':');
        lemma_last_colon(s, at, to - 1);
    }
}

/// The host of an address is what stands before its port, taken out of the brackets
/// that an address with colons of its own stands in.
pub proof fn law_host_stands_before_the_port(host: Seq<char>, port: Seq<char>)
    requires
        forall|i: int| 0 <= i < port.len() ==> #[trigger] port[i] != ':',
        host.len() > 0,
        host[0] != '[' && host[0] != ']',
        host.last() != '[' && host.last() != ']',
    ensures
        listen_host(host + seq![':'] + port) == host,
        listen_host(seq!['['] + host + seq![']', ':'] + port) == host,
{
    let plain = host + seq![':'] + port;
    let n = host.len() as int;
    assert forall|i: int| n < i < plain.len() implies #[trigger] plain[i] != ':' by {
        assert(plain[i] == port[i - n - 1]);
    }
    lemma_last_colon(plain, n, plain.len() as int);
    assert(plain.take(n) =~= host);
    assert(bracket_end(host, 0) == 0);
    assert(bracket_start(host, 0, n) == n);
    assert(host.subrange(0, n) =~= host);
    let boxed = seq!['['] + host + seq![']', ':'] + port;
    let m = n + 2;
    assert(boxed[m] == ':');
    assert forall|i: int| m < i < boxed.len() implies #[trigger] boxed[i] != ':' by {
        assert(boxed[i] == port[i - n - 3]);
    }
    lemma_last_colon(boxed, m, boxed.len() as int);
    let inner = boxed.take(m);
    assert(inner[0] == '[' && inner[1] == host[0] && inner[n] == host[n - 1] && inner[n + 1] == ']');
    reveal_with_fuel(bracket_end, 3);
    reveal_with_fuel(bracket_start, 3);
    assert(bracket_end(inner, 0) == 1);
    assert(bracket_start(inner, 1, m) == m - 1);
    assert(inner.subrange(1, m - 1) =~= host);
}

/// An address binds loopback where its host is a loopback address, or is the name of
/// the loopback host in letters of either case; no other host does.
pub proof fn law_loopback_is_known_by_its_host(host: Seq<char>, port: Seq<char>)
    requires
        forall|i: int| 0 <= i < port.len() ==> #[trigger] port[i] != ':',
        host.len() > 0,
        host[0] != '[' && host[0] != ']',
        host.last() != '[' && host.last() != ']',
    ensures
        binds_loopback(host + seq![':'] + port) <==> is_loopback_literal(host) || {
            &&& host.len() == 9
            &&& (host[0] == 'l' || host[0] == 'L')
            &&& (host[1] == 'o' || host[1] == 'O')
            &&& (host[2] == 'c' || host[2] == 'C')
            &&& (host[3] == 'a' || host[3] == 'A')
            &&& (host[4] == 'l' || host[4] == 'L')
            &&& (host[5] == 'h' || host[5] == 'H')
            &&& (host[6] == 'o' || host[6] == 'O')
            &&& (host[7] == 's' || host[7] == 'S')
            &&& (host[8] == 't' || host[8] == 'T')
        },
        binds_loopback(seq!['['] + host + seq![']', ':'] + port) == binds_loopback(
            host + seq![':'] + port,
        ),
{
    law_host_stands_before_the_port(host, port);
    reveal_strlit("localhost");
    let name = "localhost"@;
    assert(name.len() == 9);
    assert(name[0] == 'l' && name[1] == 'o' && name[2] == 'c' && name[3] == 'a' && name[4] == 'l'
        && name[5] == 'h' && name[6] == 'o' && name[7] == 's' && name[8] == 't');
    if same_but_for_case(host, name) {
        assert(lowered(host[0]) == lowered(name[0]));
        assert(lowered(host[1]) == lowered(name[1]));
        assert(lowered(host[2]) == lowered(name[2]));
        assert(lowered(host[3]) == lowered(name[3]));
        assert(lowered(host[4]) == lowered(name[4]));
        assert(lowered(host[5]) == lowered(name[5]));
        assert(lowered(host[6]) == lowered(name[6]));
        assert(lowered(host[7]) == lowered(name[7]));
        assert(lowered(host[8]) == lowered(name[8]));
    }
}

} // verus!
