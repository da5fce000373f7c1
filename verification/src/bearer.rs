//! Credentials as requests carry them.
//!
//! The attach token comes in `Authorization: Bearer <token>` from clients that can
//! set headers, and in `Sec-WebSocket-Protocol: openab.bearer.<token>` from
//! browsers, which cannot. There is deliberately no query-string fallback: a query
//! string leaks the capability into history, referrers, and proxy access logs. The
//! `Origin` header is not consulted: possession of a valid token is the sole
//! authorization.
use crate::admin_auth::MAX_ADMIN_CREDENTIAL_BYTES;
use crate::containment::SecretBytes;
use crate::text::{chars_of, has_prefix, is_white, space_end, text_of, trimmed, trimmed_end};
use vstd::prelude::*;
use vstd::utf8::encode_utf8;

verus! {

/// Bearer subprotocol prefix.
pub const BEARER_SUBPROTOCOL_PREFIX: &'static str = "openab.bearer.";

/// The real subprotocol echoed on a successful upgrade, so a browser that offered
/// `openab.bearer.<token>, openab.pty.v1` completes its handshake.
pub const PTY_SUBPROTOCOL: &'static str = "openab.pty.v1";

/// Upper bound on the presented attach token before it is hashed, so one rejected
/// upgrade cannot turn into unbounded work.
pub const MAX_ATTACH_TOKEN_BYTES: usize = 512;

/// What follows a prefix, where a text begins with it.
pub open spec fn after_prefix(text: Seq<char>, prefix: Seq<char>) -> Option<Seq<char>> {
    if prefix.is_prefix_of(text) {
        Some(text.skip(prefix.len() as int))
    } else {
        None
    }
}

/// Where the entry that starts at `from` ends: at the next comma, or at the end.
pub open spec fn entry_end(list: Seq<char>, from: int) -> int
    decreases list.len() - from,
{
    if from >= list.len() || list[from] == ',' {
        from
    } else {
        entry_end(list, from + 1)
    }
}

/// The first token in a comma-separated offer, from position `from` on.
pub open spec fn offered_token(list: Seq<char>, from: int) -> Option<Seq<char>>
    decreases list.len() - from,
{
    let end = entry_end(list, from);
    match after_prefix(trimmed(list, from, end), BEARER_SUBPROTOCOL_PREFIX@) {
        Some(token) => Some(token),
        None => if from <= end < list.len() {
            offered_token(list, end + 1)
        } else {
            None
        },
    }
}

/// What follows a prefix, where a text begins with it.
fn strip_prefix(text: &str, prefix: &str) -> (rest: Option<String>)
    ensures
        match rest {
            Some(rest) => after_prefix(text@, prefix@) == Some(rest@),
            None => after_prefix(text@, prefix@) is None,
        },
{
    if !has_prefix(text, prefix) {
        return None;
    }
    let chars = chars_of(text);
    let skipped = chars_of(prefix);
    assert(chars@.subrange(skipped@.len() as int, chars@.len() as int) =~= text@.skip(
        prefix@.len() as int,
    ));
    Some(text_of(&chars, skipped.len(), chars.len()))
}

/// The part of a text between `from` and `to` without white space around it.
fn trim(chars: &Vec<char>, from: usize, to: usize) -> (text: String)
    requires
        from <= to <= chars@.len(),
    ensures
        text@ == trimmed(chars@, from as int, to as int),
{
    let ghost window = chars@.take(to as int);
    let mut start: usize = from;
    while start < to && is_white(chars[start])
        invariant
            from <= start <= to <= chars@.len(),
            window == chars@.take(to as int),
            space_end(window, start as int) == space_end(window, from as int),
        decreases to - start,
    {
        assert(window[start as int] == chars@[start as int]);
        start += 1;
    }
    assert(start < to ==> window[start as int] == chars@[start as int]);
    assert(space_end(window, from as int) == start);
    let mut end: usize = to;
    while end > start && is_white(chars[end - 1])
        invariant
            start <= end <= to <= chars@.len(),
            trimmed_end(chars@, start as int, end as int) == trimmed_end(
                chars@,
                start as int,
                to as int,
            ),
        decreases end,
    {
        end -= 1;
    }
    text_of(chars, start, end)
}

/// Token from the `openab.bearer.<token>` entry of a `Sec-WebSocket-Protocol` offer,
/// where the request has one that is readable text. Browsers cannot set
/// `Authorization` on an upgrade, so this is their only header-borne path; it keeps
/// the token out of the URL.
pub fn subprotocol_token(offer: Option<&str>) -> (token: Option<String>)
    ensures
        match offer {
            Some(list) => match token {
                Some(token) => offered_token(list@, 0) == Some(token@),
                None => offered_token(list@, 0) is None,
            },
            None => token is None,
        },
{
    let list = match offer {
        Some(list) => list,
        None => return None,
    };
    let chars = chars_of(list);
    let mut from: usize = 0;
    loop
        invariant
            chars@ == list@,
            offer == Some(list),
            from <= chars@.len(),
            offered_token(chars@, from as int) == offered_token(list@, 0),
        decreases chars@.len() - from,
    {
        let mut end: usize = from;
        while end < chars.len() && chars[end] != ','
            invariant
                from <= end <= chars@.len(),
                entry_end(chars@, end as int) == entry_end(chars@, from as int),
            decreases chars@.len() - end,
        {
            end += 1;
        }
        assert(entry_end(chars@, from as int) == end);
        let entry = trim(&chars, from, end);
        if let Some(token) = strip_prefix(entry.as_str(), BEARER_SUBPROTOCOL_PREFIX) {
            return Some(token);
        }
        if end >= chars.len() {
            return None;
        }
        from = end + 1;
    }
}

/// The attach token that a request carries: `Authorization` wins where both are
/// there.
pub open spec fn bearer_token(
    authorization: Option<Seq<char>>,
    offer: Option<Seq<char>>,
) -> Option<Seq<char>> {
    let from_header = match authorization {
        Some(value) => after_prefix(value, "Bearer "@),
        None => None,
    };
    match from_header {
        Some(token) => Some(token),
        None => match offer {
            Some(list) => offered_token(list, 0),
            None => None,
        },
    }
}

/// The content of an optional text.
pub open spec fn header_view(header: Option<&str>) -> Option<Seq<char>> {
    match header {
        Some(text) => Some(text@),
        None => None,
    }
}

/// Attach bearer token, header-borne only. Both arguments are header values, where
/// the request has them and they are readable text.
pub fn ws_bearer_token(authorization: Option<&str>, offer: Option<&str>) -> (token: Option<String>)
    ensures
        match token {
            Some(token) => bearer_token(header_view(authorization), header_view(offer)) == Some(
                token@,
            ),
            None => bearer_token(header_view(authorization), header_view(offer)) is None,
        },
{
    if let Some(value) = authorization {
        if let Some(token) = strip_prefix(value, "Bearer ") {
            return Some(token);
        }
    }
    subprotocol_token(offer)
}

/// The admin credential that a request carries, where it carries one worth a look.
pub open spec fn admin_bytes(authorization: Option<Seq<char>>) -> Option<Seq<u8>> {
    match authorization {
        Some(value) => match after_prefix(value, "Bearer "@) {
            Some(raw) => if 0 < encode_utf8(raw).len() <= MAX_ADMIN_CREDENTIAL_BYTES {
                Some(encode_utf8(raw))
            } else {
                None
            },
            None => None,
        },
        None => None,
    }
}

/// Admin credential from `Authorization: Bearer <credential>`.
///
/// Header only: never an argument, never an environment variable, never a query
/// parameter, never a body field.
pub fn admin_credential(authorization: Option<&str>) -> (credential: Option<SecretBytes>)
    ensures
        match credential {
            Some(bytes) => admin_bytes(header_view(authorization)) == Some(bytes@),
            None => admin_bytes(header_view(authorization)) is None,
        },
{
    let value = match authorization {
        Some(value) => value,
        None => return None,
    };
    match strip_prefix(value, "Bearer ") {
        None => None,
        Some(raw) => {
            let bytes = raw.as_str().as_bytes();
            if bytes.len() == 0 || bytes.len() > MAX_ADMIN_CREDENTIAL_BYTES {
                return None;
            }
            Some(SecretBytes::from_slice(bytes))
        },
    }
}

/// The only places an attach token is taken from are the two bearer headers: where
/// neither holds one there is none.
pub proof fn law_token_is_header_borne(authorization: Option<Seq<char>>, offer: Option<Seq<char>>)
    ensures
        bearer_token(authorization, offer) is Some ==> {
            ||| authorization is Some && "Bearer "@.is_prefix_of(authorization->0)
            ||| offer is Some && offered_token(offer->0, 0) is Some
        },
        bearer_token(None, None) is None,
{
}

/// A bearer header carries the token that follows its scheme, whatever is offered
/// besides; under any other scheme it carries none.
pub proof fn law_header_carries_its_token(token: Seq<char>, offer: Option<Seq<char>>)
    ensures
        bearer_token(Some("Bearer "@ + token), offer) == Some(token),
        !"Bearer "@.is_prefix_of(token) ==> bearer_token(Some(token), offer) == bearer_token(
            None,
            offer,
        ),
{
    let value = "Bearer "@ + token;
    assert("Bearer "@.is_prefix_of(value));
    assert(value.skip("Bearer "@.len() as int) =~= token);
}

/// The admin credential is what follows the scheme, where that is at least one byte
/// and no more than a KiB.
pub proof fn law_header_carries_the_credential(raw: Seq<char>)
    ensures
        admin_bytes(Some("Bearer "@ + raw)) == if 1 <= encode_utf8(raw).len() <= 1024 {
            Some(encode_utf8(raw))
        } else {
            None
        },
        !"Bearer "@.is_prefix_of(raw) ==> admin_bytes(Some(raw)) is None,
        admin_bytes(None) is None,
{
    let value = "Bearer "@ + raw;
    assert("Bearer "@.is_prefix_of(value));
    assert(value.skip("Bearer "@.len() as int) =~= raw);
}

proof fn lemma_entry_end(list: Seq<char>, from: int, end: int)
    requires
        0 <= from <= end <= list.len(),
        forall|i: int| from <= i < end ==> #[trigger] list[i] != ',',
        end < list.len() ==> list[end] == ',',
    ensures
        entry_end(list, from) == end,
    decreases end - from,
{
    if from < end {
        assert(list[from] != ',');
        lemma_entry_end(list, from + 1, end);
    }
}

/// Leading spaces of an entry, `pad` of them, are skipped.
proof fn lemma_padding(s: Seq<char>, at: int, end: int)
    requires
        0 <= at <= end <= s.len(),
        forall|i: int| at <= i < end ==> #[trigger] s[i] == ' ',
        end < s.len() ==> !crate::text::is_space(s[end]),
    ensures
        space_end(s, at) == end,
    decreases end - at,
{
    if at < end {
        assert(s[at] == ' ');
        lemma_padding(s, at + 1, end);
    }
}

/// An entry of an offer that begins with the prefix, after any spaces, carries the rest of
/// it as the token, and one that does not is passed over: the offer then carries what the
/// entries after it carry.
pub proof fn law_offer_is_read_entry_by_entry(
    list: Seq<char>,
    from: int,
    pad: nat,
    entry: Seq<char>,
    end: int,
)
    requires
        0 <= from,
        end == from + pad + entry.len(),
        end <= list.len(),
        end < list.len() ==> list[end] == ',',
        forall|i: int| from <= i < from + pad ==> #[trigger] list[i] == ' ',
        list.subrange(from + pad, end) == entry,
        entry.len() > 0,
        !crate::text::is_space(entry[0]) && !crate::text::is_space(entry.last()),
        forall|i: int| 0 <= i < entry.len() ==> #[trigger] entry[i] != ',',
    ensures
        "openab.bearer."@.is_prefix_of(entry) ==> offered_token(list, from) == Some(
            entry.skip(14),
        ),
        !"openab.bearer."@.is_prefix_of(entry) && end < list.len() ==> offered_token(list, from)
            == offered_token(list, end + 1),
        !"openab.bearer."@.is_prefix_of(entry) && end == list.len() ==> offered_token(list, from)
            is None,
{
    reveal_strlit("openab.bearer.");
    assert("openab.bearer."@.len() == 14);
    assert forall|i: int| from <= i < end implies #[trigger] list[i] != ',' by {
        if i >= from + pad {
            assert(list.subrange(from + pad, end)[i - from - pad] == list[i]);
            assert(entry[i - from - pad] != ',');
        }
    }
    lemma_entry_end(list, from, end);
    let head = list.take(end);
    assert(list.subrange(from + pad, end)[0] == list[from + pad]);
    assert(head[from + pad] == entry[0]);
    assert forall|i: int| from <= i < from + pad implies #[trigger] head[i] == ' ' by {
        assert(head[i] == list[i]);
    }
    lemma_padding(head, from, from + pad);
    assert(list.subrange(from + pad, end)[entry.len() - 1] == list[end - 1]);
    assert(trimmed_end(list, from + pad, end) == end);
    assert(trimmed(list, from, end) =~= entry);
}

} // verus!
