//! Terminal-capability query proxy at the PTY boundary (PTY → runtime).
//!
//! To a program inside the PTY, the terminal *is* the runtime; attached clients
//! are its display. Relaying a program's capability queries (Device Attributes,
//! kitty-keyboard flags, foreground and background colour) to whichever client
//! happens to be attached fails in three ways:
//!
//!   1. A session that starts **detached** never gets an answer, so a TUI that
//!      gates rendering on DA hangs.
//!   2. Queries live in the ring buffer, so every `?since=` replay re-delivers
//!      them; the client answers again; the original asker is gone; the shell
//!      echoes the answer as input.
//!   3. The client→PTY response filter would have to be turned off to let a
//!      program's own queries through.
//!
//! So **static** queries are answered here, at the source: they are recognised in
//! PTY output, the reply goes straight back to the child, and they are **stripped
//! from the output stream** so they never reach a client or the ring buffer.
//!
//! The answers mirror the reference client (SwiftTerm) exactly: the proxy must
//! never advertise a capability the display cannot honour.
//!
//! **Not proxied: CPR** (`CSI 6 n`, cursor position). That is live screen state,
//! and this runtime is a byte relay with no screen model. CPR queries pass
//! through untouched; the client answers them.
use crate::escape::{
    ascii, ascii_bytes, contains_escape, has_escape, is_subsequence,
    law_string_ends_at_its_first_terminator, law_string_has_its_terminator, lemma_string_end,
    lemma_subsequence_keeps_head, lemma_subsequence_of_rest, string_end, string_payload,
    string_sequence, BEL, ESC, MAX_SEQUENCE_LEN,
};
use crate::termfilter::wrapped;
use std::borrow::Cow;
use vstd::prelude::*;
use vstd::slice::slice_subrange;

verus! {

/// A recognised query and the bytes to answer it with. `consume` is how many
/// input bytes the query occupied (stripped from the output stream).
struct Match {
    consume: usize,
    response: Vec<u8>,
}

/// The private marker of a CSI sequence: `?`, `>` or `=`.
pub open spec fn is_private_marker(b: u8) -> bool {
    b == 0x3f || b == 0x3e || b == 0x3d
}

/// The private marker that a CSI sequence carries, if it carries one.
pub open spec fn csi_private(s: Seq<u8>) -> Option<u8> {
    if s.len() > 2 && is_private_marker(s[2]) {
        Some(s[2])
    } else {
        None
    }
}

/// Where the parameters of a CSI sequence start.
pub open spec fn csi_params_start(s: Seq<u8>) -> int {
    if csi_private(s) is Some {
        3
    } else {
        2
    }
}

/// The first position at or after `at` that holds no digit, `:` or `;`.
pub open spec fn params_end(s: Seq<u8>, at: int) -> int
    decreases s.len() - at,
{
    if at >= s.len() || !(0x30 <= s[at] <= 0x3b) {
        at
    } else {
        params_end(s, at + 1)
    }
}

/// The answer to a CSI query, by its private marker, parameters and final byte.
pub open spec fn csi_answer(private: Option<u8>, params: Seq<u8>, last: u8) -> Option<Seq<u8>> {
    let none_or_zero = params.len() == 0 || params == seq![0x30u8];
    if private is None && last == 0x63 && none_or_zero {
        // Primary DA: `CSI c` or `CSI 0 c`.
        Some(seq![ESC] + ascii("[?65;1;2;6;21;22;17;28c"@))
    } else if private == Some(0x3eu8) && last == 0x63 && none_or_zero {
        // Secondary DA: `CSI > c` or `CSI > 0 c`.
        Some(seq![ESC] + ascii("[>65;20;1c"@))
    } else if private is None && last == 0x6e && params == seq![0x35u8] {
        // DSR status: `CSI 5 n`.
        Some(seq![ESC] + ascii("[0n"@))
    } else if private == Some(0x3fu8) && last == 0x75 && params.len() == 0 {
        // Kitty keyboard query: `CSI ? u`.
        Some(seq![ESC] + ascii("[?0u"@))
    } else {
        None
    }
}

/// The length of, and the answer to, the CSI query that `s` begins with.
pub open spec fn csi_query(s: Seq<u8>) -> Option<(int, Seq<u8>)> {
    let start = csi_params_start(s);
    let end = params_end(s, start);
    if end < s.len() && end <= MAX_SEQUENCE_LEN {
        match csi_answer(csi_private(s), s.subrange(start, end), s[end]) {
            Some(answer) => Some((end + 1, answer)),
            None => None,
        }
    } else {
        None
    }
}

/// The colour a colour query is answered with: light grey on near-black. The
/// runtime forces a dark display, so this is truthful.
pub open spec fn colour_answer(payload: Seq<u8>) -> Option<Seq<u8>> {
    if payload == ascii("10;?"@) {
        Some(ascii("]10;rgb:c7c7/c7c7/c7c7"@))
    } else if payload == ascii("11;?"@) {
        Some(ascii("]11;rgb:1e1e/1e1e/1e1e"@))
    } else {
        None
    }
}

/// The length of, and the answer to, the OSC colour query that `s` begins with.
/// The answer ends with the terminator that the query ended with.
pub open spec fn osc_query(s: Seq<u8>) -> Option<(int, Seq<u8>)> {
    match string_end(s, 2) {
        Some((_, len)) => match colour_answer(string_payload(s)) {
            Some(colour) => Some(
                (
                    len,
                    seq![ESC] + colour + if s[len - 1] == BEL {
                        seq![BEL]
                    } else {
                        seq![ESC, 0x5cu8]
                    },
                ),
            ),
            None => None,
        },
        None => None,
    }
}

/// The length of, and the answer to, the static capability query that `s` begins
/// with, if it begins with one.
pub open spec fn query(s: Seq<u8>) -> Option<(int, Seq<u8>)> {
    if s.len() < 2 || s[0] != ESC {
        None
    } else if s[1] == 0x5b {
        csi_query(s)
    } else if s[1] == 0x5d {
        osc_query(s)
    } else {
        None
    }
}

proof fn lemma_params_end(s: Seq<u8>, at: int)
    requires
        0 <= at,
    ensures
        at <= params_end(s, at),
        at <= s.len() ==> params_end(s, at) <= s.len(),
    decreases s.len() - at,
{
    if at < s.len() && 0x30 <= s[at] <= 0x3b {
        lemma_params_end(s, at + 1);
    }
}

/// A query is at least three bytes long and lies within its text.
pub proof fn lemma_query(s: Seq<u8>)
    ensures
        query(s) matches Some((n, _)) ==> 3 <= n <= s.len(),
{
    lemma_params_end(s, csi_params_start(s));
    lemma_string_end(s, 2);
}

/// A chunk with every answered query removed.
pub open spec fn stripped(chunk: Seq<u8>) -> Seq<u8>
    decreases chunk.len(),
{
    proof {
        lemma_query(chunk);
    }
    if chunk.len() == 0 {
        Seq::empty()
    } else {
        match query(chunk) {
            Some((n, _)) => stripped(chunk.skip(n)),
            None => seq![chunk[0]] + stripped(chunk.skip(1)),
        }
    }
}

/// The answers to every query in a chunk, in order.
pub open spec fn answers(chunk: Seq<u8>) -> Seq<u8>
    decreases chunk.len(),
{
    proof {
        lemma_query(chunk);
    }
    if chunk.len() == 0 {
        Seq::empty()
    } else {
        match query(chunk) {
            Some((n, answer)) => answer + answers(chunk.skip(n)),
            None => answers(chunk.skip(1)),
        }
    }
}

/// The number of queries answered in a chunk.
pub open spec fn query_count(chunk: Seq<u8>) -> nat
    decreases chunk.len(),
{
    proof {
        lemma_query(chunk);
    }
    if chunk.len() == 0 {
        0
    } else {
        match query(chunk) {
            Some((n, _)) => 1 + query_count(chunk.skip(n)),
            None => query_count(chunk.skip(1)),
        }
    }
}

/// An escape byte followed by an ASCII text.
fn escaped(text: &str) -> (bytes: Vec<u8>)
    requires
        vstd::utf8::is_ascii_chars(text@),
    ensures
        bytes@ == seq![ESC] + ascii(text@),
{
    let mut bytes: Vec<u8> = Vec::new();
    bytes.push(ESC);
    let mut rest = ascii_bytes(text);
    bytes.append(&mut rest);
    assert(bytes@ =~= seq![ESC] + ascii(text@));
    bytes
}

proof fn lemma_single(params: Seq<u8>, b: u8)
    ensures
        (params == seq![b]) == (params.len() == 1 && params[0] == b),
{
    assert(seq![b].len() == 1 && seq![b][0] == b);
    if params.len() == 1 && params[0] == b {
        assert(params =~= seq![b]);
    }
}

/// Device attributes, status and keyboard queries.
fn classify_csi_query(s: &[u8]) -> (found: Option<Match>)
    requires
        s@.len() >= 2,
    ensures
        match csi_query(s@) {
            Some((len, answer)) => found matches Some(m) && m.consume == len && m.response@
                == answer,
            None => found is None,
        },
{
    proof {
        reveal_strlit("[?65;1;2;6;21;22;17;28c");
        reveal_strlit("[>65;20;1c");
        reveal_strlit("[0n");
        reveal_strlit("[?0u");
    }
    let marked: bool = s.len() > 2 && (s[2] == 0x3f || s[2] == 0x3e || s[2] == 0x3d);
    let start: usize = if marked {
        3
    } else {
        2
    };
    let mut end: usize = start;
    while end < s.len() && end <= MAX_SEQUENCE_LEN && s[end] >= 0x30 && s[end] <= 0x3b
        invariant
            start <= end <= s@.len(),
            end <= MAX_SEQUENCE_LEN + 1,
            params_end(s@, start as int) == params_end(s@, end as int),
        decreases s@.len() - end,
    {
        end += 1;
    }
    proof {
        lemma_params_end(s@, end as int);
    }
    if end >= s.len() || end > MAX_SEQUENCE_LEN {
        return None;
    }
    let ghost params = s@.subrange(start as int, end as int);
    let count: usize = end - start;
    let last: u8 = s[end];
    let bare: bool = count == 0 || (count == 1 && s[start] == 0x30);
    let five: bool = count == 1 && s[start] == 0x35;
    proof {
        lemma_single(params, 0x30);
        lemma_single(params, 0x35);
    }
    let response: Vec<u8> = if !marked && last == 0x63 && bare {
        escaped("[?65;1;2;6;21;22;17;28c")
    } else if marked && s[2] == 0x3e && last == 0x63 && bare {
        escaped("[>65;20;1c")
    } else if !marked && last == 0x6e && five {
        escaped("[0n")
    } else if marked && s[2] == 0x3f && last == 0x75 && count == 0 {
        escaped("[?0u")
    } else {
        return None;
    };
    Some(Match { consume: end + 1, response })
}

/// Whether a payload is the two digits `1` and `last`, then `;?`.
fn asks_colour(payload: &[u8], last: u8) -> (asked: bool)
    ensures
        asked == (payload@ == seq![0x31u8, last, 0x3bu8, 0x3fu8]),
{
    if payload.len() == 4 && payload[0] == 0x31 && payload[1] == last && payload[2] == 0x3b
        && payload[3] == 0x3f {
        assert(payload@ =~= seq![0x31u8, last, 0x3bu8, 0x3fu8]);
        true
    } else {
        let ghost wanted = seq![0x31u8, last, 0x3bu8, 0x3fu8];
        assert(wanted.len() == 4 && wanted[0] == 0x31 && wanted[1] == last && wanted[2] == 0x3b
            && wanted[3] == 0x3f);
        false
    }
}

/// Colour queries: `OSC 10 ; ? ST` (foreground), `OSC 11 ; ? ST` (background). A
/// `?` payload marks a query; a colour payload is a response, which the filter
/// handles.
fn classify_osc_query(s: &[u8]) -> (found: Option<Match>)
    requires
        s@.len() >= 2,
    ensures
        match osc_query(s@) {
            Some((len, answer)) => found matches Some(m) && m.consume == len && m.response@
                == answer,
            None => found is None,
        },
{
    let sequence = match string_sequence(s) {
        Some(sequence) => sequence,
        None => return None,
    };
    let payload = slice_subrange(s, 2, sequence.payload_end);
    proof {
        reveal_strlit("10;?");
        reveal_strlit("11;?");
        reveal_strlit("]10;rgb:c7c7/c7c7/c7c7");
        reveal_strlit("]11;rgb:1e1e/1e1e/1e1e");
        assert(ascii("10;?"@) =~= seq![0x31u8, 0x30u8, 0x3bu8, 0x3fu8]);
        assert(ascii("11;?"@) =~= seq![0x31u8, 0x31u8, 0x3bu8, 0x3fu8]);
    }
    let mut response: Vec<u8> = if asks_colour(payload, 0x30) {
        escaped("]10;rgb:c7c7/c7c7/c7c7")
    } else if asks_colour(payload, 0x31) {
        escaped("]11;rgb:1e1e/1e1e/1e1e")
    } else {
        return None;
    };
    let ghost colour = response@;
    if s[sequence.len - 1] == BEL {
        response.push(BEL);
        assert(response@ =~= colour + seq![BEL]);
    } else {
        response.push(ESC);
        response.push(0x5c);
        assert(response@ =~= colour + seq![ESC, 0x5cu8]);
    }
    Some(Match { consume: sequence.len, response })
}

/// If `s` begins with a static capability *query* the runtime answers, return the
/// match. CPR and anything not recognised return `None` (pass through).
fn classify_query(s: &[u8]) -> (found: Option<Match>)
    ensures
        match query(s@) {
            Some((len, answer)) => found matches Some(m) && m.consume == len && m.response@
                == answer,
            None => found is None,
        },
        found matches Some(m) ==> 3 <= m.consume <= s@.len(),
{
    proof {
        lemma_query(s@);
    }
    if s.len() < 2 || s[0] != ESC {
        return None;
    }
    match s[1] {
        0x5b => classify_csi_query(s),
        0x5d => classify_osc_query(s),
        _ => None,
    }
}

/// Detects static capability queries in PTY output and produces the runtime's
/// answers. Stateless across chunks: a sequence split across two reads is rare,
/// and holding bytes back would stall live output. A split query is simply not
/// proxied on that read.
#[derive(Debug)]
pub struct CapabilityProxy {
    answered: u64,
}

impl View for CapabilityProxy {
    type V = int;

    closed spec fn view(&self) -> int {
        self.answered as int
    }
}

impl Default for CapabilityProxy {
    fn default() -> (proxy: Self)
        ensures
            proxy@ == 0,
    {
        CapabilityProxy { answered: 0 }
    }
}

impl CapabilityProxy {
    pub fn new() -> (proxy: Self)
        ensures
            proxy@ == 0,
    {
        Self::default()
    }

    /// Number of queries answered so far.
    pub fn answered(&self) -> (n: u64)
        ensures
            n == self@,
    {
        self.answered
    }

    /// Scan one PTY→client chunk. Returns the chunk with recognised queries
    /// removed (borrowed and untouched in the common case) plus the bytes to
    /// write back to the child, concatenated in query order.
    pub fn process<'a>(&mut self, chunk: &'a [u8]) -> (result: (Cow<'a, [u8]>, Vec<u8>))
        ensures
            result.0@ == stripped(chunk@),
            result.1@ == answers(chunk@),
            result.0 is Borrowed <==> query_count(chunk@) == 0,
            final(self)@ == wrapped(old(self)@ + query_count(chunk@)),
    {
        if !contains_escape(chunk) {
            proof {
                law_output_without_escape_passes(chunk@);
            }
            return (Cow::Borrowed(chunk), Vec::new());
        }
        let mut out: Vec<u8> = Vec::new();
        let mut responses: Vec<u8> = Vec::new();
        let mut queries: usize = 0;
        let mut i: usize = 0;
        assert(chunk@.skip(0) =~= chunk@);
        assert(out@ + stripped(chunk@) =~= stripped(chunk@));
        assert(responses@ + answers(chunk@) =~= answers(chunk@));
        while i < chunk.len()
            invariant
                0 <= i <= chunk@.len(),
                queries <= i,
                out@ + stripped(chunk@.skip(i as int)) == stripped(chunk@),
                responses@ + answers(chunk@.skip(i as int)) == answers(chunk@),
                queries + query_count(chunk@.skip(i as int)) == query_count(chunk@),
                queries == 0 ==> out@ == chunk@.take(i as int),
            decreases chunk@.len() - i,
        {
            let ghost rest = chunk@.skip(i as int);
            let here = slice_subrange(chunk, i, chunk.len());
            assert(here@ =~= rest);
            match classify_query(here) {
                Some(m) => {
                    let mut response = m.response;
                    let ghost answer = response@;
                    let ghost before = responses@;
                    responses.append(&mut response);
                    assert(rest.skip(m.consume as int) =~= chunk@.skip(i + m.consume));
                    assert(responses@ + answers(chunk@.skip(i + m.consume)) =~= before + (answer
                        + answers(chunk@.skip(i + m.consume))));
                    queries += 1;
                    i += m.consume;
                },
                None => {
                    let ghost before = out@;
                    out.push(chunk[i]);
                    assert(rest.skip(1) =~= chunk@.skip(i + 1));
                    assert(out@ + stripped(chunk@.skip(i + 1)) =~= before + (seq![chunk@[i as int]]
                        + stripped(chunk@.skip(i + 1))));
                    assert(queries == 0 ==> out@ =~= chunk@.take(i + 1));
                    i += 1;
                },
            }
        }
        assert(chunk@.skip(i as int) =~= Seq::empty());
        assert(out@ + Seq::<u8>::empty() =~= out@);
        assert(responses@ + Seq::<u8>::empty() =~= responses@);
        assert(chunk@.take(i as int) =~= chunk@);
        self.answered = self.answered.wrapping_add(queries as u64);
        if queries == 0 {
            (Cow::Borrowed(chunk), responses)
        } else {
            (Cow::Owned(out), responses)
        }
    }
}

/// Where no static query begins anywhere in a chunk, the chunk passes byte for
/// byte and nothing is written back to the child.
pub proof fn law_output_without_queries_passes(chunk: Seq<u8>)
    requires
        forall|i: int| 0 <= i < chunk.len() ==> query(#[trigger] chunk.skip(i)) is None,
    ensures
        stripped(chunk) == chunk,
        answers(chunk).len() == 0,
        query_count(chunk) == 0,
    decreases chunk.len(),
{
    if chunk.len() > 0 {
        assert(chunk.skip(0) =~= chunk);
        let rest = chunk.skip(1);
        assert forall|i: int| 0 <= i < rest.len() implies query(#[trigger] rest.skip(i)) is None by {
            assert(rest.skip(i) =~= chunk.skip(i + 1));
        }
        law_output_without_queries_passes(rest);
        assert(stripped(chunk) =~= chunk);
    }
}

/// Output without an escape byte passes byte for byte.
pub proof fn law_output_without_escape_passes(chunk: Seq<u8>)
    requires
        !has_escape(chunk),
    ensures
        stripped(chunk) == chunk,
        answers(chunk) == Seq::<u8>::empty(),
        query_count(chunk) == 0,
{
    assert forall|i: int| 0 <= i < chunk.len() implies query(#[trigger] chunk.skip(i)) is None by {
        assert(chunk.skip(i)[0] == chunk[i]);
    }
    law_output_without_queries_passes(chunk);
    assert(answers(chunk) =~= Seq::<u8>::empty());
}

/// A query in the middle of output is consumed at the source: it is removed, its
/// answer is the first thing written back, and what follows is judged on its own.
pub proof fn law_query_is_answered_and_removed(
    output: Seq<u8>,
    asked: Seq<u8>,
    answer: Seq<u8>,
    rest: Seq<u8>,
)
    requires
        !has_escape(output),
        query(asked + rest) == Some((asked.len() as int, answer)),
    ensures
        stripped(output + asked + rest) == output + stripped(rest),
        answers(output + asked + rest) == answer + answers(rest),
        query_count(output + asked + rest) == 1 + query_count(rest),
    decreases output.len(),
{
    let chunk = output + asked + rest;
    if output.len() == 0 {
        assert(chunk =~= asked + rest);
        lemma_query(chunk);
        assert(chunk.skip(asked.len() as int) =~= rest);
        assert(output + stripped(rest) =~= stripped(rest));
    } else {
        assert(chunk[0] == output[0]);
        let later = output.skip(1);
        assert(chunk.skip(1) =~= later + asked + rest);
        assert forall|i: int| 0 <= i < later.len() implies later[i] != ESC by {
            assert(later[i] == output[i + 1]);
        }
        law_query_is_answered_and_removed(later, asked, answer, rest);
        assert(seq![output[0]] + (later + stripped(rest)) =~= output + stripped(rest));
    }
}

/// Stripping only ever removes bytes, and keeps the rest in order.
pub proof fn law_stripping_only_removes(chunk: Seq<u8>)
    ensures
        is_subsequence(stripped(chunk), chunk),
        stripped(chunk).len() <= chunk.len(),
    decreases chunk.len(),
{
    lemma_query(chunk);
    if chunk.len() > 0 {
        match query(chunk) {
            Some((n, _)) => {
                law_stripping_only_removes(chunk.skip(n));
                lemma_subsequence_of_rest(stripped(chunk), chunk, n);
            },
            None => {
                law_stripping_only_removes(chunk.skip(1));
                lemma_subsequence_keeps_head(stripped(chunk.skip(1)), chunk);
            },
        }
    }
}

/// A cursor position request, `CSI 6 n`, is never answered here.
pub proof fn law_cursor_position_is_not_answered(s: Seq<u8>)
    requires
        s.len() >= 4,
        s[0] == ESC,
        s[1] == 0x5b,
        s[2] == 0x36,
        s[3] == 0x6e,
    ensures
        query(s) is None,
{
    reveal_with_fuel(params_end, 3);
    assert(s.subrange(2, 3)[0] == 0x36u8);
    assert(s.subrange(2, 3) != seq![0x35u8]) by {
        assert(seq![0x35u8][0] == 0x35u8);
    }
}

/// Wherever one starts to read in an answer, whatever follows it, no query begins
/// there.
proof fn lemma_answer_holds_no_query(asked: Seq<u8>, rest: Seq<u8>, i: int)
    requires
        query(asked) matches Some((_, answer)) && 0 <= i < answer.len(),
    ensures
        query(((query(asked)->Some_0).1 + rest).skip(i)) is None,
{
    reveal_strlit("[?65;1;2;6;21;22;17;28c");
    reveal_strlit("[>65;20;1c");
    reveal_strlit("[0n");
    reveal_strlit("[?0u");
    reveal_strlit("10;?");
    reveal_strlit("11;?");
    reveal_strlit("]10;rgb:c7c7/c7c7/c7c7");
    reveal_strlit("]11;rgb:1e1e/1e1e/1e1e");
    let answer = (query(asked)->Some_0).1;
    let s = (answer + rest).skip(i);
    assert(s[0] == answer[i]);
    if i > 0 {
        if answer[i] == ESC {
            assert(s[1] == answer[i + 1]);
            assert(answer[i + 1] == 0x5c);
        }
    } else if answer[1] == 0x5b {
        assert(s[1] == answer[1] && s[2] == answer[2] && s[3] == answer[3]);
        let start = csi_params_start(s);
        let end = params_end(s, start);
        reveal_with_fuel(params_end, 2);
        lemma_params_end(s, start + 1);
        let params = s.subrange(start, end);
        if end < s.len() && params.len() > 0 {
            assert(params[0] == s[start]);
            lemma_single(params, 0x30);
            lemma_single(params, 0x35);
        }
    } else {
        assert(answer[1] == 0x5d && answer.len() > 5);
        assert(s[1] == answer[1] && s[5] == answer[5]);
        lemma_string_end(s, 2);
        if string_end(s, 2) is Some {
            let payload = string_payload(s);
            if payload.len() == 4 {
                assert(payload[3] == s[5]);
            }
        }
    }
}

/// An answer is never itself a query: what is written back to the child asks
/// nothing, alone or after other answers.
pub proof fn law_answers_ask_nothing(chunk: Seq<u8>)
    ensures
        query(chunk) matches Some((_, answer)) ==> query(answer) is None,
        forall|i: int|
            0 <= i < answers(chunk).len() ==> query(#[trigger] answers(chunk).skip(i)) is None,
        query_count(answers(chunk)) == 0,
        stripped(answers(chunk)) == answers(chunk),
    decreases chunk.len(),
{
    lemma_query(chunk);
    if chunk.len() > 0 {
        match query(chunk) {
            Some((n, answer)) => {
                let rest = answers(chunk.skip(n));
                law_answers_ask_nothing(chunk.skip(n));
                assert forall|i: int| 0 <= i < answers(chunk).len() implies query(
                    #[trigger] answers(chunk).skip(i),
                ) is None by {
                    if i < answer.len() {
                        lemma_answer_holds_no_query(chunk, rest, i);
                    } else {
                        assert(answers(chunk).skip(i) =~= rest.skip(i - answer.len()));
                    }
                }
                if answer.len() > 0 {
                    lemma_answer_holds_no_query(chunk, Seq::empty(), 0);
                    assert((answer + Seq::<u8>::empty()).skip(0) =~= answer);
                }
            },
            None => {
                law_answers_ask_nothing(chunk.skip(1));
            },
        }
    }
    law_output_without_queries_passes(answers(chunk));
}

/// Whatever comes after it, and however much of it, each capability query is
/// recognised by its own bytes alone and answered with one fixed reply: Device
/// Attributes (primary and secondary, with or without a zero), the status report,
/// and the keyboard query.
pub proof fn law_each_query_has_its_answer(rest: Seq<u8>)
    ensures
        query(seq![0x1bu8, 0x5b, 0x63] + rest) == Some(
            (3int, seq![0x1bu8] + ascii("[?65;1;2;6;21;22;17;28c"@)),
        ),
        query(seq![0x1bu8, 0x5b, 0x30, 0x63] + rest) == Some(
            (4int, seq![0x1bu8] + ascii("[?65;1;2;6;21;22;17;28c"@)),
        ),
        query(seq![0x1bu8, 0x5b, 0x3e, 0x63] + rest) == Some(
            (4int, seq![0x1bu8] + ascii("[>65;20;1c"@)),
        ),
        query(seq![0x1bu8, 0x5b, 0x3e, 0x30, 0x63] + rest) == Some(
            (5int, seq![0x1bu8] + ascii("[>65;20;1c"@)),
        ),
        query(seq![0x1bu8, 0x5b, 0x35, 0x6e] + rest) == Some((4int, seq![0x1bu8] + ascii("[0n"@))),
        query(seq![0x1bu8, 0x5b, 0x3f, 0x75] + rest) == Some((4int, seq![0x1bu8] + ascii("[?0u"@))),
{
    reveal_with_fuel(params_end, 3);
    let a = seq![0x1bu8, 0x5b, 0x63] + rest;
    assert(a.subrange(2, 2).len() == 0);
    let b = seq![0x1bu8, 0x5b, 0x30, 0x63] + rest;
    assert(b.subrange(2, 3) =~= seq![0x30u8]);
    let c = seq![0x1bu8, 0x5b, 0x3e, 0x63] + rest;
    assert(c.subrange(3, 3).len() == 0);
    let d = seq![0x1bu8, 0x5b, 0x3e, 0x30, 0x63] + rest;
    assert(d.subrange(3, 4) =~= seq![0x30u8]);
    let e = seq![0x1bu8, 0x5b, 0x35, 0x6e] + rest;
    assert(e.subrange(2, 3) =~= seq![0x35u8]);
    assert(seq![0x35u8] != seq![0x30u8]) by {
        assert(seq![0x35u8][0] == 0x35 && seq![0x30u8][0] == 0x30);
    }
    let f = seq![0x1bu8, 0x5b, 0x3f, 0x75] + rest;
    assert(f.subrange(3, 3).len() == 0);
}

/// Whatever comes after it, a query for the foreground or the background colour is
/// answered with that colour, closed the way the query was closed.
pub proof fn law_each_colour_query_has_its_answer(rest: Seq<u8>)
    ensures
        query(seq![0x1bu8, 0x5d, 0x31, 0x30, 0x3b, 0x3f, 0x07] + rest) == Some(
            (7int, seq![0x1bu8] + ascii("]10;rgb:c7c7/c7c7/c7c7"@) + seq![0x07u8]),
        ),
        query(seq![0x1bu8, 0x5d, 0x31, 0x30, 0x3b, 0x3f, 0x1b, 0x5c] + rest) == Some(
            (8int, seq![0x1bu8] + ascii("]10;rgb:c7c7/c7c7/c7c7"@) + seq![0x1bu8, 0x5c]),
        ),
        query(seq![0x1bu8, 0x5d, 0x31, 0x31, 0x3b, 0x3f, 0x07] + rest) == Some(
            (7int, seq![0x1bu8] + ascii("]11;rgb:1e1e/1e1e/1e1e"@) + seq![0x07u8]),
        ),
        query(seq![0x1bu8, 0x5d, 0x31, 0x31, 0x3b, 0x3f, 0x1b, 0x5c] + rest) == Some(
            (8int, seq![0x1bu8] + ascii("]11;rgb:1e1e/1e1e/1e1e"@) + seq![0x1bu8, 0x5c]),
        ),
{
    reveal_strlit("10;?");
    reveal_strlit("11;?");
    let ten = seq![0x31u8, 0x30, 0x3b, 0x3f];
    let eleven = seq![0x31u8, 0x31, 0x3b, 0x3f];
    assert(ascii("10;?"@) =~= ten);
    assert(ascii("11;?"@) =~= eleven);
    assert(ten[1] != eleven[1]);
    let a = seq![0x1bu8, 0x5d, 0x31, 0x30, 0x3b, 0x3f, 0x07] + rest;
    law_string_ends_at_its_first_terminator(a, 6);
    assert(string_payload(a) =~= ten);
    let b = seq![0x1bu8, 0x5d, 0x31, 0x30, 0x3b, 0x3f, 0x1b, 0x5c] + rest;
    law_string_ends_at_its_first_terminator(b, 6);
    assert(string_payload(b) =~= ten);
    let c = seq![0x1bu8, 0x5d, 0x31, 0x31, 0x3b, 0x3f, 0x07] + rest;
    law_string_ends_at_its_first_terminator(c, 6);
    assert(string_payload(c) =~= eleven);
    let d = seq![0x1bu8, 0x5d, 0x31, 0x31, 0x3b, 0x3f, 0x1b, 0x5c] + rest;
    law_string_ends_at_its_first_terminator(d, 6);
    assert(string_payload(d) =~= eleven);
}

/// Nothing else is taken for a query: what is answered begins with the bytes of one
/// of the listed queries, and its length is the length of that query.
pub proof fn law_nothing_else_is_a_query(s: Seq<u8>)
    requires
        query(s) is Some,
    ensures
        ({
            let n = (query(s)->Some_0).0;
            let asked = s.take(n);
            ||| asked == seq![0x1bu8, 0x5b, 0x63]
            ||| asked == seq![0x1bu8, 0x5b, 0x30, 0x63]
            ||| asked == seq![0x1bu8, 0x5b, 0x3e, 0x63]
            ||| asked == seq![0x1bu8, 0x5b, 0x3e, 0x30, 0x63]
            ||| asked == seq![0x1bu8, 0x5b, 0x35, 0x6e]
            ||| asked == seq![0x1bu8, 0x5b, 0x3f, 0x75]
            ||| asked == seq![0x1bu8, 0x5d, 0x31, 0x30, 0x3b, 0x3f, 0x07]
            ||| asked == seq![0x1bu8, 0x5d, 0x31, 0x30, 0x3b, 0x3f, 0x1b, 0x5c]
            ||| asked == seq![0x1bu8, 0x5d, 0x31, 0x31, 0x3b, 0x3f, 0x07]
            ||| asked == seq![0x1bu8, 0x5d, 0x31, 0x31, 0x3b, 0x3f, 0x1b, 0x5c]
        }),
{
    let n = (query(s)->Some_0).0;
    let asked = s.take(n);
    lemma_query(s);
    if s[1] == 0x5b {
        let start = csi_params_start(s);
        let end = params_end(s, start);
        lemma_params_end(s, start);
        let params = s.subrange(start, end);
        lemma_single(params, 0x30);
        lemma_single(params, 0x35);
        if params.len() == 1 {
            assert(params[0] == s[start]);
        }
        if start == 2 && params.len() == 0 {
            assert(asked =~= seq![0x1bu8, 0x5b, 0x63]);
        } else if start == 2 && s[end] == 0x63 {
            assert(asked =~= seq![0x1bu8, 0x5b, 0x30, 0x63]);
        } else if start == 2 {
            assert(asked =~= seq![0x1bu8, 0x5b, 0x35, 0x6e]);
        } else if s[2] == 0x3f {
            assert(asked =~= seq![0x1bu8, 0x5b, 0x3f, 0x75]);
        } else if params.len() == 0 {
            assert(asked =~= seq![0x1bu8, 0x5b, 0x3e, 0x63]);
        } else {
            assert(asked =~= seq![0x1bu8, 0x5b, 0x3e, 0x30, 0x63]);
        }
    } else {
        reveal_strlit("10;?");
        reveal_strlit("11;?");
        law_string_has_its_terminator(s, 2);
        let payload = string_payload(s);
        assert(payload.len() == 4);
        assert(payload[0] == s[2] && payload[1] == s[3] && payload[2] == s[4] && payload[3] == s[5]);
        if s[6] == 0x07 {
            if s[3] == 0x30 {
                assert(asked =~= seq![0x1bu8, 0x5d, 0x31, 0x30, 0x3b, 0x3f, 0x07]);
            } else {
                assert(asked =~= seq![0x1bu8, 0x5d, 0x31, 0x31, 0x3b, 0x3f, 0x07]);
            }
        } else {
            if s[3] == 0x30 {
                assert(asked =~= seq![0x1bu8, 0x5d, 0x31, 0x30, 0x3b, 0x3f, 0x1b, 0x5c]);
            } else {
                assert(asked =~= seq![0x1bu8, 0x5d, 0x31, 0x31, 0x3b, 0x3f, 0x1b, 0x5c]);
            }
        }
    }
}

} // verus!
