//! Scanning of terminal escape sequences, shared by the two directions.
use vstd::prelude::*;

verus! {

pub const ESC: u8 = 0x1b;

pub const BEL: u8 = 0x07;

/// Upper bound on how far a sequence terminator is looked for. A longer run is
/// treated as not-a-sequence and passed through, so a malformed or hostile stream
/// cannot make the scanner walk an unbounded distance per byte.
pub const MAX_SEQUENCE_LEN: usize = 256;

/// A string-terminated sequence (OSC or DCS): where its payload ends, and how
/// long it is with its terminator.
pub struct StringSequence {
    pub payload_end: usize,
    pub len: usize,
}

/// Where the string sequence that `s` begins with ends, looking from position
/// `at`: the end of the payload, and the length with the terminator. The
/// terminator is `BEL` or `ESC \`.
pub open spec fn string_end(s: Seq<u8>, at: int) -> Option<(int, int)>
    decreases s.len() - at,
{
    if at >= s.len() || at >= MAX_SEQUENCE_LEN {
        None
    } else if s[at] == BEL {
        Some((at, at + 1))
    } else if s[at] == ESC && at + 1 < s.len() && s[at + 1] == 0x5c {
        Some((at, at + 2))
    } else {
        string_end(s, at + 1)
    }
}

/// The payload of the string sequence that `s` begins with.
pub open spec fn string_payload(s: Seq<u8>) -> Seq<u8> {
    match string_end(s, 2) {
        Some((end, _)) => s.subrange(2, end),
        None => Seq::empty(),
    }
}

/// A string sequence lies within its text.
pub proof fn lemma_string_end(s: Seq<u8>, at: int)
    requires
        0 <= at,
    ensures
        string_end(s, at) matches Some((payload, len)) ==> at <= payload < len <= s.len(),
    decreases s.len() - at,
{
    if at < s.len() && at < MAX_SEQUENCE_LEN {
        lemma_string_end(s, at + 1);
    }
}

/// Scan a string-terminated sequence (OSC or DCS) whose payload starts after the
/// two introducer bytes.
pub fn string_sequence(s: &[u8]) -> (found: Option<StringSequence>)
    ensures
        match string_end(s@, 2) {
            Some((payload_end, len)) => found matches Some(sequence) && sequence.payload_end
                == payload_end && sequence.len == len,
            None => found is None,
        },
        found matches Some(sequence) ==> 2 <= sequence.payload_end < sequence.len <= s@.len(),
{
    let mut i: usize = 2;
    proof {
        lemma_string_end(s@, 2);
    }
    while i < s.len() && i < MAX_SEQUENCE_LEN
        invariant
            2 <= i,
            string_end(s@, 2) == string_end(s@, i as int),
            string_end(s@, 2) matches Some((payload, len)) ==> 2 <= payload < len <= s@.len(),
        decreases s@.len() - i,
    {
        if s[i] == BEL {
            return Some(StringSequence { payload_end: i, len: i + 1 });
        }
        if s[i] == ESC && i + 1 < s.len() && s[i + 1] == 0x5c {
            return Some(StringSequence { payload_end: i, len: i + 2 });
        }
        i += 1;
    }
    None
}

/// Whether `s` holds an escape byte.
pub open spec fn has_escape(s: Seq<u8>) -> bool {
    exists|i: int| 0 <= i < s.len() && s[i] == ESC
}

/// Whether `s` holds an escape byte.
pub fn contains_escape(s: &[u8]) -> (found: bool)
    ensures
        found == has_escape(s@),
{
    let mut i: usize = 0;
    while i < s.len()
        invariant
            0 <= i <= s@.len(),
            forall|j: int| 0 <= j < i ==> s@[j] != ESC,
        decreases s@.len() - i,
    {
        if s[i] == ESC {
            return true;
        }
        i += 1;
    }
    false
}

/// Whether `part` stands in `s` at `at`.
pub open spec fn bytes_at(s: Seq<u8>, part: Seq<u8>, at: int) -> bool {
    &&& 0 <= at
    &&& at + part.len() <= s.len()
    &&& s.subrange(at, at + part.len()) == part
}

/// Whether `part` stands in `s` at `at`.
pub fn stands_at(s: &[u8], part: &[u8], at: usize) -> (found: bool)
    ensures
        found == bytes_at(s@, part@, at as int),
{
    if at > s.len() || part.len() > s.len() - at {
        return false;
    }
    let mut i: usize = 0;
    while i < part.len()
        invariant
            at + part@.len() <= s@.len(),
            s@.len() == s.len(),
            0 <= i <= part@.len(),
            forall|j: int| 0 <= j < i ==> s@[at + j] == part@[j],
        decreases part@.len() - i,
    {
        if s[at + i] != part[i] {
            assert(s@.subrange(at as int, at + part@.len())[i as int] != part@[i as int]);
            return false;
        }
        i += 1;
    }
    assert(s@.subrange(at as int, at + part@.len()) =~= part@);
    true
}

/// Whether `b` is an ASCII decimal digit.
pub open spec fn is_digit_byte(b: u8) -> bool {
    0x30 <= b <= 0x39
}

/// The first position at or after `at` that holds no digit.
pub open spec fn digits_end(s: Seq<u8>, at: int) -> int
    decreases s.len() - at,
{
    if at >= s.len() || !is_digit_byte(s[at]) {
        at
    } else {
        digits_end(s, at + 1)
    }
}

/// The first position at or after `at` that holds no digit.
pub fn skip_digits(s: &[u8], at: usize) -> (end: usize)
    requires
        at <= s@.len(),
    ensures
        end == digits_end(s@, at as int),
        at <= end <= s@.len(),
{
    let mut end: usize = at;
    while end < s.len() && s[end] >= 0x30 && s[end] <= 0x39
        invariant
            at <= end <= s@.len(),
            digits_end(s@, at as int) == digits_end(s@, end as int),
        decreases s@.len() - end,
    {
        end += 1;
    }
    end
}

/// Whether `part` can be had from `whole` by leaving bytes out.
pub open spec fn is_subsequence(part: Seq<u8>, whole: Seq<u8>) -> bool
    decreases whole.len(),
{
    if part.len() == 0 {
        true
    } else if whole.len() == 0 {
        false
    } else {
        ||| part[0] == whole[0] && is_subsequence(part.skip(1), whole.skip(1))
        ||| is_subsequence(part, whole.skip(1))
    }
}

/// Leaving out the first `n` bytes is one way of leaving bytes out.
pub proof fn lemma_subsequence_of_rest(part: Seq<u8>, whole: Seq<u8>, n: int)
    requires
        0 <= n <= whole.len(),
        is_subsequence(part, whole.skip(n)),
    ensures
        is_subsequence(part, whole),
    decreases n,
{
    if n == 0 {
        assert(whole.skip(0) =~= whole);
    } else {
        assert(whole.skip(1).skip(n - 1) =~= whole.skip(n));
        lemma_subsequence_of_rest(part, whole.skip(1), n - 1);
    }
}

/// Keeping the first byte is no omission.
pub proof fn lemma_subsequence_keeps_head(part: Seq<u8>, whole: Seq<u8>)
    requires
        whole.len() > 0,
        is_subsequence(part, whole.skip(1)),
    ensures
        is_subsequence(seq![whole[0]] + part, whole),
{
    let longer = seq![whole[0]] + part;
    assert(longer.skip(1) =~= part);
}

/// The bytes of an ASCII text.
pub open spec fn ascii(text: Seq<char>) -> Seq<u8> {
    Seq::new(text.len(), |i: int| text[i] as u8)
}

/// The bytes of an ASCII text.
pub fn ascii_bytes(text: &str) -> (bytes: Vec<u8>)
    requires
        vstd::utf8::is_ascii_chars(text@),
    ensures
        bytes@ == ascii(text@),
{
    proof {
        vstd::utf8::is_ascii_chars_encode_utf8(text@);
    }
    let bytes = text.as_bytes_vec();
    assert(bytes@ =~= ascii(text@));
    bytes
}

/// Whether a string sequence would end at position `i`.
pub open spec fn ends_string(s: Seq<u8>, i: int) -> bool {
    s[i] == 0x07 || (s[i] == 0x1b && i + 1 < s.len() && s[i + 1] == 0x5c)
}

proof fn lemma_string_end_is_first(s: Seq<u8>, at: int, end: int)
    requires
        0 <= at <= end < s.len(),
        end < 256,
        forall|i: int| at <= i < end ==> !#[trigger] ends_string(s, i),
        ends_string(s, end),
    ensures
        string_end(s, at) == Some((end, if s[end] == 0x07 { end + 1 } else { end + 2 })),
    decreases end - at,
{
    if at < end {
        assert(!ends_string(s, at));
        lemma_string_end_is_first(s, at + 1, end);
    }
}

/// A string sequence ends at its first terminator, `BEL` or `ESC \`, wherever that
/// is within the first 256 bytes, and nowhere else.
pub proof fn law_string_ends_at_its_first_terminator(s: Seq<u8>, end: int)
    requires
        2 <= end < s.len(),
        end < 256,
        forall|i: int| 2 <= i < end ==> !#[trigger] ends_string(s, i),
        ends_string(s, end),
    ensures
        string_end(s, 2) == Some((end, if s[end] == 0x07 { end + 1 } else { end + 2 })),
        string_payload(s) == s.subrange(2, end),
{
    lemma_string_end_is_first(s, 2, end);
}

/// What is taken for a string sequence has a terminator where it ends, none before
/// that, and is not looked for beyond the first 256 bytes.
pub proof fn law_string_has_its_terminator(s: Seq<u8>, at: int)
    requires
        0 <= at,
    ensures
        match string_end(s, at) {
            Some((end, len)) => {
                &&& at <= end < 256
                &&& end < len <= s.len()
                &&& ends_string(s, end)
                &&& len == if s[end] == 0x07 { end + 1 } else { end + 2 }
                &&& forall|i: int| at <= i < end ==> !#[trigger] ends_string(s, i)
            },
            None => forall|i: int| at <= i < s.len() && i < 256 ==> !#[trigger] ends_string(s, i),
        },
    decreases s.len() - at,
{
    if at < s.len() && at < 256 && !ends_string(s, at) {
        law_string_has_its_terminator(s, at + 1);
    }
}

/// The digits that a text has at some place end where they end.
pub proof fn lemma_digits_end(s: Seq<u8>, at: int)
    requires
        0 <= at <= s.len(),
    ensures
        at <= digits_end(s, at) <= s.len(),
        forall|i: int| at <= i < digits_end(s, at) ==> 0x30 <= #[trigger] s[i] <= 0x39,
        digits_end(s, at) < s.len() ==> !(0x30 <= s[digits_end(s, at)] <= 0x39),
    decreases s.len() - at,
{
    if at < s.len() && is_digit_byte(s[at]) {
        lemma_digits_end(s, at + 1);
    }
}

/// A run of digits is skipped to its end.
pub proof fn lemma_digits_are_skipped(s: Seq<u8>, at: int, end: int)
    requires
        0 <= at <= end <= s.len(),
        forall|i: int| at <= i < end ==> 0x30 <= #[trigger] s[i] <= 0x39,
        end < s.len() ==> !(0x30 <= s[end] <= 0x39),
    ensures
        digits_end(s, at) == end,
    decreases end - at,
{
    if at < end {
        lemma_digits_are_skipped(s, at + 1, end);
    }
}

} // verus!
