//! Terminal-capability response filtering at the PTY boundary
//! (client → PTY direction only).
//!
//! Browser emulators answer capability queries on their own: xterm.js replies to
//! Device Attributes, Cursor Position Report and Device Status Report requests
//! without the user typing anything. Those replies arrive on the same channel as
//! keystrokes, and an Ink-based CLI reading them during startup mis-parses them
//! as input. Filtering at this one chokepoint protects every client emulator
//! instead of asking each of them to behave.
//!
//! Only the responses are stripped. Everything a human or a mouse can produce
//! passes through byte for byte, which is why the finals that are stripped are
//! limited to `c` (DA), `n` (DSR) and `R` (CPR): no key, mouse, focus,
//! bracketed-paste or Kitty-keyboard encoding a terminal sends to an application
//! uses them.
//!
//! **Chunk-scoped by design.** The filter holds no cross-call state: an escape
//! sequence split across two WebSocket frames passes through unfiltered. Carrying
//! a partial sequence to the next chunk would delay a bare <kbd>Esc</kbd>
//! keypress until the *next* keystroke, breaking vi-style editors.
use crate::escape::{
    bytes_at, contains_escape, digits_end, ends_string, has_escape, is_subsequence,
    law_string_ends_at_its_first_terminator, law_string_has_its_terminator, lemma_digits_are_skipped,
    lemma_digits_end, lemma_string_end, lemma_subsequence_keeps_head, lemma_subsequence_of_rest, skip_digits, stands_at, string_end,
    string_payload, string_sequence, ESC, MAX_SEQUENCE_LEN,
};
use std::borrow::Cow;
use vstd::prelude::*;
use vstd::slice::slice_subrange;

verus! {

/// Parameter bytes, including the `?`, `>`, `<`, `=` private markers, and
/// intermediates.
pub open spec fn is_csi_parameter(b: u8) -> bool {
    0x20 <= b <= 0x3f
}

/// The first position at or after `at` that holds no CSI parameter byte.
pub open spec fn csi_end(s: Seq<u8>, at: int) -> int
    decreases s.len() - at,
{
    if at >= s.len() || !is_csi_parameter(s[at]) {
        at
    } else {
        csi_end(s, at + 1)
    }
}

/// The finals of a response: `c` (Device Attributes), `n` (Device Status Report)
/// and `R` (Cursor Position Report).
pub open spec fn is_response_final(b: u8) -> bool {
    b == 0x63 || b == 0x6e || b == 0x52
}

/// The length of the CSI response that `s` begins with.
pub open spec fn csi_response(s: Seq<u8>) -> Option<int> {
    let end = csi_end(s, 2);
    if end < s.len() && end <= MAX_SEQUENCE_LEN && is_response_final(s[end]) {
        Some(end + 1)
    } else {
        None
    }
}

/// `;rgb:`
pub open spec fn rgb_mark() -> Seq<u8> {
    seq![0x3bu8, 0x72u8, 0x67u8, 0x62u8, 0x3au8]
}

/// `;rgba:`
pub open spec fn rgba_mark() -> Seq<u8> {
    seq![0x3bu8, 0x72u8, 0x67u8, 0x62u8, 0x61u8, 0x3au8]
}

/// Whether a colour reply stands in `payload` at `at`.
pub open spec fn colour_at(payload: Seq<u8>, at: int) -> bool {
    bytes_at(payload, rgb_mark(), at) || bytes_at(payload, rgba_mark(), at)
}

/// Whether an OSC payload is a colour report: `Ps ; rgb:..`, or with one more
/// numeric group before the colour.
pub open spec fn is_colour_report(payload: Seq<u8>) -> bool {
    let first = digits_end(payload, 0);
    let second = digits_end(payload, first + 1);
    &&& first > 0
    &&& first < payload.len()
    &&& payload[first] == 0x3b
    &&& colour_at(payload, first) || (second > first + 1 && colour_at(payload, second))
}

/// The length of the OSC colour report that `s` begins with.
pub open spec fn osc_response(s: Seq<u8>) -> Option<int> {
    match string_end(s, 2) {
        Some((_, len)) => if is_colour_report(string_payload(s)) {
            Some(len)
        } else {
            None
        },
        None => None,
    }
}

/// Whether a DCS payload is a report: tertiary DA (`!|`), XTVERSION (`>|`),
/// DECRQSS (`0$r`, `1$r`) and XTGETTCAP (`0+r`, `1+r`) answers.
pub open spec fn is_dcs_report(payload: Seq<u8>) -> bool {
    ||| bytes_at(payload, seq![0x21u8, 0x7cu8], 0)
    ||| bytes_at(payload, seq![0x3eu8, 0x7cu8], 0)
    ||| bytes_at(payload, seq![0x30u8, 0x24u8, 0x72u8], 0)
    ||| bytes_at(payload, seq![0x31u8, 0x24u8, 0x72u8], 0)
    ||| bytes_at(payload, seq![0x30u8, 0x2bu8, 0x72u8], 0)
    ||| bytes_at(payload, seq![0x31u8, 0x2bu8, 0x72u8], 0)
}

/// The length of the DCS report that `s` begins with.
pub open spec fn dcs_response(s: Seq<u8>) -> Option<int> {
    match string_end(s, 2) {
        Some((_, len)) => if is_dcs_report(string_payload(s)) {
            Some(len)
        } else {
            None
        },
        None => None,
    }
}

/// The length of the capability response that `s` begins with, if it begins with
/// one.
pub open spec fn response_len(s: Seq<u8>) -> Option<int> {
    if s.len() < 2 || s[0] != ESC {
        None
    } else if s[1] == 0x5b {
        csi_response(s)
    } else if s[1] == 0x5d {
        osc_response(s)
    } else if s[1] == 0x50 {
        dcs_response(s)
    } else {
        None
    }
}

/// A response is at least three bytes long and lies within its text.
pub proof fn lemma_response_len(s: Seq<u8>)
    ensures
        response_len(s) matches Some(n) ==> 3 <= n <= s.len(),
{
    lemma_csi_end(s, 2);
    lemma_string_end(s, 2);
}

proof fn lemma_csi_end(s: Seq<u8>, at: int)
    requires
        0 <= at,
    ensures
        at <= csi_end(s, at),
        at <= s.len() ==> csi_end(s, at) <= s.len(),
    decreases s.len() - at,
{
    if at < s.len() && is_csi_parameter(s[at]) {
        lemma_csi_end(s, at + 1);
    }
}

/// A chunk with every capability response removed.
pub open spec fn filtered(chunk: Seq<u8>) -> Seq<u8>
    decreases chunk.len(),
{
    proof {
        lemma_response_len(chunk);
    }
    if chunk.len() == 0 {
        Seq::empty()
    } else {
        match response_len(chunk) {
            Some(n) => filtered(chunk.skip(n)),
            None => seq![chunk[0]] + filtered(chunk.skip(1)),
        }
    }
}

/// The number of capability responses in a chunk.
pub open spec fn response_count(chunk: Seq<u8>) -> nat
    decreases chunk.len(),
{
    proof {
        lemma_response_len(chunk);
    }
    if chunk.len() == 0 {
        0
    } else {
        match response_len(chunk) {
            Some(n) => 1 + response_count(chunk.skip(n)),
            None => response_count(chunk.skip(1)),
        }
    }
}

/// A counter that starts again at zero after the largest 64-bit number.
pub open spec fn wrapped(n: int) -> int {
    n % 0x1_0000_0000_0000_0000
}

/// `CSI ... c`, `CSI ... n` and `CSI ... R` are responses. Every other final byte
/// belongs to input a terminal legitimately sends: `A`–`D` arrows, `~` tilde
/// keys and bracketed paste, `M`/`m` mouse, `I`/`O` focus, `u` Kitty keyboard.
fn classify_csi(s: &[u8]) -> (len: Option<usize>)
    requires
        s@.len() >= 2,
    ensures
        match csi_response(s@) {
            Some(expected) => len matches Some(n) && n == expected,
            None => len is None,
        },
{
    let mut i: usize = 2;
    while i < s.len() && i <= MAX_SEQUENCE_LEN && s[i] >= 0x20 && s[i] <= 0x3f
        invariant
            2 <= i <= s@.len(),
            i <= MAX_SEQUENCE_LEN + 1,
            csi_end(s@, 2) == csi_end(s@, i as int),
        decreases s@.len() - i,
    {
        i += 1;
    }
    proof {
        lemma_csi_end(s@, i as int);
    }
    if i < s.len() && i <= MAX_SEQUENCE_LEN && (s[i] == 0x63 || s[i] == 0x6e || s[i] == 0x52) {
        Some(i + 1)
    } else {
        None
    }
}

/// Whether a colour reply stands in `payload` at `at`.
fn has_colour(payload: &[u8], at: usize) -> (found: bool)
    ensures
        found == colour_at(payload@, at as int),
{
    let rgb: Vec<u8> = vec![0x3b, 0x72, 0x67, 0x62, 0x3a];
    let rgba: Vec<u8> = vec![0x3b, 0x72, 0x67, 0x62, 0x61, 0x3a];
    assert(rgb@ =~= rgb_mark());
    assert(rgba@ =~= rgba_mark());
    stands_at(payload, rgb.as_slice(), at) || stands_at(payload, rgba.as_slice(), at)
}

/// OSC colour reports: `OSC Ps ; rgb:<...> ST|BEL`, e.g. the `OSC 10`/`OSC 11`
/// foreground and background answers and `OSC 4 ; n ; rgb:` palette answers.
/// Deliberately narrow: only payloads carrying an `rgb:`/`rgba:` reply are
/// stripped, so any other OSC use passes untouched.
fn classify_osc(s: &[u8]) -> (len: Option<usize>)
    requires
        s@.len() >= 2,
    ensures
        match osc_response(s@) {
            Some(expected) => len matches Some(n) && n == expected,
            None => len is None,
        },
{
    let sequence = match string_sequence(s) {
        Some(sequence) => sequence,
        None => return None,
    };
    let payload = slice_subrange(s, 2, sequence.payload_end);
    let first: usize = skip_digits(payload, 0);
    if first == 0 || first >= payload.len() || payload[first] != 0x3b {
        return None;
    }
    if has_colour(payload, first) {
        return Some(sequence.len);
    }
    let second: usize = skip_digits(payload, first + 1);
    if second > first + 1 && has_colour(payload, second) {
        return Some(sequence.len);
    }
    None
}

/// DCS report shapes: tertiary DA (`DCS ! | ...`), XTVERSION (`DCS > | ...`),
/// DECRQSS answers (`DCS 0$r` / `DCS 1$r`) and XTGETTCAP answers (`DCS 0+r` /
/// `DCS 1+r`). Other DCS payloads are passed through rather than assumed to be
/// replies.
fn classify_dcs(s: &[u8]) -> (len: Option<usize>)
    requires
        s@.len() >= 2,
    ensures
        match dcs_response(s@) {
            Some(expected) => len matches Some(n) && n == expected,
            None => len is None,
        },
{
    let sequence = match string_sequence(s) {
        Some(sequence) => sequence,
        None => return None,
    };
    let payload = slice_subrange(s, 2, sequence.payload_end);
    let tertiary: Vec<u8> = vec![0x21, 0x7c];
    let version: Vec<u8> = vec![0x3e, 0x7c];
    let no_setting: Vec<u8> = vec![0x30, 0x24, 0x72];
    let setting: Vec<u8> = vec![0x31, 0x24, 0x72];
    let no_termcap: Vec<u8> = vec![0x30, 0x2b, 0x72];
    let termcap: Vec<u8> = vec![0x31, 0x2b, 0x72];
    assert(tertiary@ =~= seq![0x21u8, 0x7cu8]);
    assert(version@ =~= seq![0x3eu8, 0x7cu8]);
    assert(no_setting@ =~= seq![0x30u8, 0x24u8, 0x72u8]);
    assert(setting@ =~= seq![0x31u8, 0x24u8, 0x72u8]);
    assert(no_termcap@ =~= seq![0x30u8, 0x2bu8, 0x72u8]);
    assert(termcap@ =~= seq![0x31u8, 0x2bu8, 0x72u8]);
    if stands_at(payload, tertiary.as_slice(), 0) || stands_at(payload, version.as_slice(), 0)
        || stands_at(payload, no_setting.as_slice(), 0) || stands_at(payload, setting.as_slice(), 0)
        || stands_at(payload, no_termcap.as_slice(), 0) || stands_at(
        payload,
        termcap.as_slice(),
        0,
    ) {
        Some(sequence.len)
    } else {
        None
    }
}

/// If `s` starts with a terminal-capability *response*, return its length.
fn classify(s: &[u8]) -> (len: Option<usize>)
    ensures
        match response_len(s@) {
            Some(expected) => len matches Some(n) && n == expected,
            None => len is None,
        },
        len matches Some(n) ==> 3 <= n <= s@.len(),
{
    proof {
        lemma_response_len(s@);
    }
    if s.len() < 2 || s[0] != ESC {
        return None;
    }
    match s[1] {
        0x5b => classify_csi(s),
        0x5d => classify_osc(s),
        0x50 => classify_dcs(s),
        _ => None,
    }
}

/// Stateless, chunk-scoped capability-response filter with strip counters for the
/// abuse and observability metrics.
#[derive(Debug)]
pub struct TermFilter {
    stripped_sequences: u64,
    stripped_bytes: u64,
}

/// What a [`TermFilter`] has counted.
pub struct StripCounts {
    pub sequences: int,
    pub bytes: int,
}

impl View for TermFilter {
    type V = StripCounts;

    closed spec fn view(&self) -> StripCounts {
        StripCounts { sequences: self.stripped_sequences as int, bytes: self.stripped_bytes as int }
    }
}

impl Default for TermFilter {
    fn default() -> (filter: Self)
        ensures
            filter@ == (StripCounts { sequences: 0, bytes: 0 }),
    {
        TermFilter { stripped_sequences: 0, stripped_bytes: 0 }
    }
}

impl TermFilter {
    pub fn new() -> (filter: Self)
        ensures
            filter@ == (StripCounts { sequences: 0, bytes: 0 }),
    {
        Self::default()
    }

    /// Number of capability responses stripped so far.
    pub fn stripped_sequences(&self) -> (n: u64)
        ensures
            n == self@.sequences,
    {
        self.stripped_sequences
    }

    /// Number of bytes removed so far.
    pub fn stripped_bytes(&self) -> (n: u64)
        ensures
            n == self@.bytes,
    {
        self.stripped_bytes
    }

    /// Filter one client→PTY chunk. Returns the input untouched (borrowed, no
    /// allocation) when there is nothing to strip, which is the common case for
    /// ordinary typing.
    pub fn filter<'a>(&mut self, chunk: &'a [u8]) -> (out: Cow<'a, [u8]>)
        ensures
            out@ == filtered(chunk@),
            out is Borrowed <==> response_count(chunk@) == 0,
            final(self)@.sequences == wrapped(old(self)@.sequences + response_count(chunk@)),
            final(self)@.bytes == wrapped(
                old(self)@.bytes + chunk@.len() - filtered(chunk@).len(),
            ),
    {
        if !contains_escape(chunk) {
            proof {
                law_text_without_escape_passes(chunk@);
            }
            return Cow::Borrowed(chunk);
        }
        let mut out: Vec<u8> = Vec::new();
        let mut responses: usize = 0;
        let mut i: usize = 0;
        assert(chunk@.skip(0) =~= chunk@);
        assert(out@ + filtered(chunk@) =~= filtered(chunk@));
        while i < chunk.len()
            invariant
                0 <= i <= chunk@.len(),
                responses <= i,
                out@.len() <= i,
                out@ + filtered(chunk@.skip(i as int)) == filtered(chunk@),
                responses + response_count(chunk@.skip(i as int)) == response_count(chunk@),
                responses == 0 ==> out@ == chunk@.take(i as int),
            decreases chunk@.len() - i,
        {
            let ghost rest = chunk@.skip(i as int);
            let here = slice_subrange(chunk, i, chunk.len());
            assert(here@ =~= rest);
            match classify(here) {
                Some(len) => {
                    assert(rest.skip(len as int) =~= chunk@.skip(i + len));
                    responses += 1;
                    i += len;
                },
                None => {
                    let ghost before = out@;
                    out.push(chunk[i]);
                    assert(rest.skip(1) =~= chunk@.skip(i + 1));
                    assert(out@ + filtered(chunk@.skip(i + 1)) =~= before + (seq![chunk@[i as int]]
                        + filtered(chunk@.skip(i + 1))));
                    assert(responses == 0 ==> out@ =~= chunk@.take(i + 1));
                    i += 1;
                },
            }
        }
        assert(chunk@.skip(i as int) =~= Seq::empty());
        assert(out@ + Seq::<u8>::empty() =~= out@);
        assert(chunk@.take(i as int) =~= chunk@);
        let removed: usize = chunk.len() - out.len();
        self.stripped_sequences = self.stripped_sequences.wrapping_add(responses as u64);
        self.stripped_bytes = self.stripped_bytes.wrapping_add(removed as u64);
        if responses == 0 {
            Cow::Borrowed(chunk)
        } else {
            Cow::Owned(out)
        }
    }
}

/// Where no response begins anywhere in a chunk, the chunk passes byte for byte.
pub proof fn law_input_without_responses_passes(chunk: Seq<u8>)
    requires
        forall|i: int| 0 <= i < chunk.len() ==> response_len(#[trigger] chunk.skip(i)) is None,
    ensures
        filtered(chunk) == chunk,
        response_count(chunk) == 0,
    decreases chunk.len(),
{
    if chunk.len() > 0 {
        assert(chunk.skip(0) =~= chunk);
        let rest = chunk.skip(1);
        assert forall|i: int| 0 <= i < rest.len() implies response_len(#[trigger] rest.skip(i)) is None by {
            assert(rest.skip(i) =~= chunk.skip(i + 1));
        }
        law_input_without_responses_passes(rest);
        assert(filtered(chunk) =~= chunk);
    }
}

/// Ordinary typing, which holds no escape byte, passes byte for byte.
pub proof fn law_text_without_escape_passes(chunk: Seq<u8>)
    requires
        !has_escape(chunk),
    ensures
        filtered(chunk) == chunk,
        response_count(chunk) == 0,
{
    assert forall|i: int| 0 <= i < chunk.len() implies response_len(#[trigger] chunk.skip(i)) is None by {
        assert(chunk.skip(i)[0] == chunk[i]);
    }
    law_input_without_responses_passes(chunk);
}

/// A response that lands in the middle of typing is removed, and only it: what
/// was typed before it stays, and what follows is judged on its own.
pub proof fn law_response_amid_typing_is_removed(typed: Seq<u8>, response: Seq<u8>, rest: Seq<u8>)
    requires
        !has_escape(typed),
        response_len(response + rest) == Some(response.len() as int),
    ensures
        filtered(typed + response + rest) == typed + filtered(rest),
        response_count(typed + response + rest) == 1 + response_count(rest),
    decreases typed.len(),
{
    let chunk = typed + response + rest;
    if typed.len() == 0 {
        assert(chunk =~= response + rest);
        lemma_response_len(chunk);
        assert(chunk.skip(response.len() as int) =~= rest);
        assert(typed + filtered(rest) =~= filtered(rest));
    } else {
        assert(chunk[0] == typed[0]);
        let later = typed.skip(1);
        assert(chunk.skip(1) =~= later + response + rest);
        assert forall|i: int| 0 <= i < later.len() implies later[i] != ESC by {
            assert(later[i] == typed[i + 1]);
        }
        law_response_amid_typing_is_removed(later, response, rest);
        assert(seq![typed[0]] + (later + filtered(rest)) =~= typed + filtered(rest));
    }
}

/// Filtering only ever removes bytes: what comes out is what went in, less the
/// responses, in the same order.
pub proof fn law_filtering_only_removes(chunk: Seq<u8>)
    ensures
        is_subsequence(filtered(chunk), chunk),
        filtered(chunk).len() <= chunk.len(),
        response_count(chunk) > 0 ==> filtered(chunk).len() < chunk.len(),
    decreases chunk.len(),
{
    lemma_response_len(chunk);
    if chunk.len() > 0 {
        match response_len(chunk) {
            Some(n) => {
                law_filtering_only_removes(chunk.skip(n));
                lemma_subsequence_of_rest(filtered(chunk), chunk, n);
            },
            None => {
                law_filtering_only_removes(chunk.skip(1));
                lemma_subsequence_keeps_head(filtered(chunk.skip(1)), chunk);
            },
        }
    }
}

/// A CSI sequence with any other final byte is input, whatever its parameters:
/// arrows, function keys, mouse, focus and paste markers are never removed.
pub proof fn law_other_csi_finals_are_input(s: Seq<u8>)
    requires
        s.len() >= 3,
        s[0] == ESC,
        s[1] == 0x5b,
        csi_end(s, 2) < s.len(),
        !is_response_final(s[csi_end(s, 2)]),
    ensures
        response_len(s) is None,
{
}

proof fn lemma_parameters_are_skipped(s: Seq<u8>, at: int, end: int)
    requires
        0 <= at <= end <= s.len(),
        forall|i: int| at <= i < end ==> 0x20 <= #[trigger] s[i] <= 0x3f,
        end < s.len() ==> !(0x20 <= s[end] <= 0x3f),
    ensures
        csi_end(s, at) == end,
    decreases end - at,
{
    if at < end {
        lemma_parameters_are_skipped(s, at + 1, end);
    }
}

proof fn lemma_csi_end_is_exact(s: Seq<u8>, at: int)
    requires
        0 <= at <= s.len(),
    ensures
        at <= csi_end(s, at) <= s.len(),
        forall|i: int| at <= i < csi_end(s, at) ==> 0x20 <= #[trigger] s[i] <= 0x3f,
    decreases s.len() - at,
{
    if at < s.len() && is_csi_parameter(s[at]) {
        lemma_csi_end_is_exact(s, at + 1);
    }
}

/// `ESC [`, any parameter and intermediate bytes up to position 256, and a final
/// `c`, `n` or `R` is a response of exactly that length, whatever follows it; with
/// any other final byte, or beyond that position, it is input.
pub proof fn law_csi_response_is_known_by_its_final(params: Seq<u8>, last: u8, rest: Seq<u8>)
    requires
        forall|i: int| 0 <= i < params.len() ==> 0x20 <= #[trigger] params[i] <= 0x3f,
        !(0x20 <= last <= 0x3f),
    ensures
        ({
            let s = seq![0x1bu8, 0x5b] + params + seq![last] + rest;
            if (last == 0x63 || last == 0x6e || last == 0x52) && 2 + params.len() <= 256 {
                response_len(s) == Some((params.len() + 3) as int)
            } else {
                response_len(s) is None
            }
        }),
{
    let s = seq![0x1bu8, 0x5b] + params + seq![last] + rest;
    let end = 2 + params.len();
    assert(s[end as int] == last);
    assert forall|i: int| 2 <= i < end implies 0x20 <= #[trigger] s[i] <= 0x3f by {
        assert(s[i] == params[i - 2]);
    }
    lemma_parameters_are_skipped(s, 2, end as int);
}

/// A response to a colour query is `ESC ]`, a number, optionally `;` and another
/// number, then `;rgb:` or `;rgba:` and the colour, closed by `BEL` or `ESC \`
/// within 256 bytes. It is removed whole, whatever follows it.
pub proof fn law_colour_report_is_a_response(
    first: Seq<u8>,
    second: Seq<u8>,
    alpha: bool,
    colour: Seq<u8>,
    bell: bool,
    rest: Seq<u8>,
)
    requires
        first.len() > 0,
        forall|i: int| 0 <= i < first.len() ==> 0x30 <= #[trigger] first[i] <= 0x39,
        forall|i: int| 0 <= i < second.len() ==> 0x30 <= #[trigger] second[i] <= 0x39,
        forall|i: int| 0 <= i < colour.len() ==> #[trigger] colour[i] != 0x07 && colour[i] != 0x1b,
    ensures
        ({
            let mark = if alpha {
                seq![0x3bu8, 0x72, 0x67, 0x62, 0x61, 0x3a]
            } else {
                seq![0x3bu8, 0x72, 0x67, 0x62, 0x3a]
            };
            let index = if second.len() > 0 {
                seq![0x3bu8] + second
            } else {
                Seq::empty()
            };
            let payload = first + index + mark + colour;
            let close = if bell {
                seq![0x07u8]
            } else {
                seq![0x1bu8, 0x5c]
            };
            let s = seq![0x1bu8, 0x5d] + payload + close + rest;
            2 + payload.len() < 256 ==> response_len(s) == Some(
                (2 + payload.len() + close.len()) as int,
            )
        }),
{
    let mark = if alpha {
        seq![0x3bu8, 0x72, 0x67, 0x62, 0x61, 0x3a]
    } else {
        seq![0x3bu8, 0x72, 0x67, 0x62, 0x3a]
    };
    let index = if second.len() > 0 {
        seq![0x3bu8] + second
    } else {
        Seq::empty()
    };
    let payload = first + index + mark + colour;
    let close = if bell {
        seq![0x07u8]
    } else {
        seq![0x1bu8, 0x5c]
    };
    let s = seq![0x1bu8, 0x5d] + payload + close + rest;
    if 2 + payload.len() < 256 {
        let end = 2 + payload.len() as int;
        let at = first.len() as int;
        let mark_at = at + index.len();
        assert forall|i: int| 0 <= i < payload.len() implies #[trigger] payload[i] != 0x07
            && payload[i] != 0x1b by {
            if i < at {
                assert(payload[i] == first[i]);
            } else if i < mark_at {
                if i > at {
                    assert(payload[i] == second[i - at - 1]);
                }
            } else if i < mark_at + mark.len() {
                assert(payload[i] == mark[i - mark_at]);
            } else {
                assert(payload[i] == colour[i - mark_at - mark.len()]);
            }
        }
        assert forall|i: int| 2 <= i < end implies !#[trigger] ends_string(s, i) by {
            assert(s[i] == payload[i - 2]);
        }
        assert(s[end] == close[0]);
        if !bell {
            assert(s[end + 1] == close[1]);
        }
        law_string_ends_at_its_first_terminator(s, end);
        assert(string_payload(s) =~= payload);
        assert forall|i: int| 0 <= i < at implies 0x30 <= #[trigger] payload[i] <= 0x39 by {
            assert(payload[i] == first[i]);
        }
        assert(payload[at] == 0x3b) by {
            if second.len() == 0 {
                assert(payload[at] == mark[0]);
            }
        }
        lemma_digits_are_skipped(payload, 0, at);
        assert(payload.subrange(mark_at, mark_at + mark.len()) =~= mark);
        assert(mark =~= rgb_mark() || mark =~= rgba_mark());
        assert(colour_at(payload, mark_at));
        if second.len() > 0 {
            assert forall|i: int| at + 1 <= i < mark_at implies 0x30 <= #[trigger] payload[i]
                <= 0x39 by {
                assert(payload[i] == second[i - at - 1]);
            }
            assert(payload[mark_at] == mark[0]);
            lemma_digits_are_skipped(payload, at + 1, mark_at);
        }
    }
}

/// A report in a device control string is `ESC P`, one of the six report heads, and
/// whatever else it holds, closed by `BEL` or `ESC \` within 256 bytes. With any
/// other head it is input.
pub proof fn law_control_string_report_is_known_by_its_head(
    payload: Seq<u8>,
    bell: bool,
    rest: Seq<u8>,
)
    requires
        forall|i: int|
            0 <= i < payload.len() ==> #[trigger] payload[i] != 0x07 && payload[i] != 0x1b,
        2 + payload.len() < 256,
    ensures
        ({
            let close = if bell {
                seq![0x07u8]
            } else {
                seq![0x1bu8, 0x5c]
            };
            let s = seq![0x1bu8, 0x50] + payload + close + rest;
            let reports = {
                ||| seq![0x21u8, 0x7c].is_prefix_of(payload)
                ||| seq![0x3eu8, 0x7c].is_prefix_of(payload)
                ||| seq![0x30u8, 0x24, 0x72].is_prefix_of(payload)
                ||| seq![0x31u8, 0x24, 0x72].is_prefix_of(payload)
                ||| seq![0x30u8, 0x2b, 0x72].is_prefix_of(payload)
                ||| seq![0x31u8, 0x2b, 0x72].is_prefix_of(payload)
            };
            response_len(s) == if reports {
                Some((2 + payload.len() + close.len()) as int)
            } else {
                None
            }
        }),
{
    let close = if bell {
        seq![0x07u8]
    } else {
        seq![0x1bu8, 0x5c]
    };
    let s = seq![0x1bu8, 0x50] + payload + close + rest;
    let end = 2 + payload.len() as int;
    assert forall|i: int| 2 <= i < end implies !#[trigger] ends_string(s, i) by {
        assert(s[i] == payload[i - 2]);
    }
    assert(s[end] == close[0]);
    if !bell {
        assert(s[end + 1] == close[1]);
    }
    law_string_ends_at_its_first_terminator(s, end);
    assert(string_payload(s) =~= payload);
    lemma_head(payload, seq![0x21u8, 0x7c]);
    lemma_head(payload, seq![0x3eu8, 0x7c]);
    lemma_head(payload, seq![0x30u8, 0x24, 0x72]);
    lemma_head(payload, seq![0x31u8, 0x24, 0x72]);
    lemma_head(payload, seq![0x30u8, 0x2b, 0x72]);
    lemma_head(payload, seq![0x31u8, 0x2b, 0x72]);
}

proof fn lemma_head(payload: Seq<u8>, head: Seq<u8>)
    ensures
        bytes_at(payload, head, 0) == head.is_prefix_of(payload),
{
    if head.len() <= payload.len() {
        assert(payload.subrange(0, head.len() as int) =~= payload.take(head.len() as int));
    }
}

/// Nothing else is taken for a response: what is removed has one of the three
/// introducers and one of the shapes that go with it.
pub proof fn law_nothing_else_is_a_response(s: Seq<u8>)
    requires
        response_len(s) is Some,
    ensures
        ({
            let n = response_len(s)->Some_0;
            let closed = {
                ||| s[n - 1] == 0x07
                ||| s[n - 2] == 0x1b && s[n - 1] == 0x5c
            };
            &&& 3 <= n <= s.len()
            &&& s[0] == 0x1b
            &&& s[1] == 0x5b || s[1] == 0x5d || s[1] == 0x50
            &&& s[1] == 0x5b ==> {
                &&& n <= 257
                &&& s[n - 1] == 0x63 || s[n - 1] == 0x6e || s[n - 1] == 0x52
                &&& forall|i: int| 2 <= i < n - 1 ==> 0x20 <= #[trigger] s[i] <= 0x3f
            }
            &&& s[1] == 0x5d ==> {
                &&& closed
                &&& 0x30 <= s[2] <= 0x39
                &&& exists|i: int|
                    3 <= i < n && #[trigger] s[i] == 0x3b && s[i + 1] == 0x72 && s[i + 2] == 0x67
                        && s[i + 3] == 0x62
            }
            &&& s[1] == 0x50 ==> closed
        }),
{
    lemma_response_len(s);
    let n = response_len(s)->Some_0;
    if s[1] == 0x5b {
        lemma_csi_end_is_exact(s, 2);
    } else {
        law_string_has_its_terminator(s, 2);
        if s[1] == 0x5d {
            let payload = string_payload(s);
            let first = digits_end(payload, 0);
            let second = digits_end(payload, first + 1);
            lemma_digits_end(payload, 0);
            lemma_digits_end(payload, first + 1);
            assert(payload[0] == s[2]);
            let at = if colour_at(payload, first) {
                first
            } else {
                second
            };
            assert(colour_at(payload, at));
            let part = if bytes_at(payload, rgb_mark(), at) {
                rgb_mark()
            } else {
                rgba_mark()
            };
            let found = payload.subrange(at, at + part.len());
            assert(found[0] == s[2 + at] && found[1] == s[3 + at] && found[2] == s[4 + at]
                && found[3] == s[5 + at]);
            assert(s[2 + at] == 0x3b);
        }
    }
}

} // verus!
