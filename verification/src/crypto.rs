//! The outside primitives that authentication stands on: a hash, a hex codec, a
//! constant-time comparison, and the operating system's randomness.
use crate::containment::SecretBytes;
use rand::RngCore;
use sha2::Digest;
use subtle::ConstantTimeEq;
use vstd::prelude::*;

verus! {

/// The SHA-256 digest of a message.
pub uninterp spec fn sha256_digest(message: Seq<u8>) -> Seq<u8>;

/// The lowercase hex digit for a nibble.
pub open spec fn hex_digit(nibble: int) -> char {
    if nibble < 10 {
        (('0' as int) + nibble) as char
    } else {
        (('a' as int) + nibble - 10) as char
    }
}

/// The lowercase hex rendering of a byte string, two digits a byte.
pub open spec fn hex_text(bytes: Seq<u8>) -> Seq<char> {
    Seq::new(
        2 * bytes.len(),
        |i: int|
            if i % 2 == 0 {
                hex_digit(bytes[i / 2] as int / 16)
            } else {
                hex_digit(bytes[i / 2] as int % 16)
            },
    )
}

/// The ASCII bytes of the lowercase hex rendering.
pub open spec fn hex_bytes(bytes: Seq<u8>) -> Seq<u8> {
    Seq::new(2 * bytes.len(), |i: int| hex_text(bytes)[i] as u8)
}

/// Whether `c` is a hex digit of either case.
pub open spec fn is_hex_digit(c: char) -> bool {
    ('0' <= c <= '9') || ('a' <= c <= 'f') || ('A' <= c <= 'F')
}

/// The value of a hex digit.
pub open spec fn hex_value(c: char) -> int {
    if '0' <= c <= '9' {
        (c as int) - ('0' as int)
    } else if 'a' <= c <= 'f' {
        (c as int) - ('a' as int) + 10
    } else {
        (c as int) - ('A' as int) + 10
    }
}

/// Whether a text is a whole number of hex-encoded bytes.
pub open spec fn is_hex_text(text: Seq<char>) -> bool {
    &&& text.len() % 2 == 0
    &&& forall|i: int| 0 <= i < text.len() ==> is_hex_digit(#[trigger] text[i])
}

/// The bytes a hex text stands for.
pub open spec fn hex_decoded(text: Seq<char>) -> Seq<u8> {
    Seq::new(
        text.len() / 2,
        |i: int| (16 * hex_value(text[2 * i]) + hex_value(text[2 * i + 1])) as u8,
    )
}

/// `sha2::Sha256::digest`: the digest depends on the message alone.
#[verifier::external_body]
pub(crate) fn sha256(message: &[u8]) -> (digest: [u8; 32])
    ensures
        digest@ == sha256_digest(message@),
{
    sha2::Sha256::digest(message).into()
}

/// `hex::encode`: two lowercase digits for each byte, high nibble first.
#[verifier::external_body]
fn hex_encode(bytes: &[u8]) -> (text: String)
    ensures
        text@ == hex_text(bytes@),
{
    hex::encode(bytes)
}

/// `hex::decode`: succeeds exactly on an even number of hex digits of either
/// case, and reads each pair as one byte, high nibble first.
#[verifier::external_body]
pub(crate) fn hex_decode(text: &str) -> (bytes: Option<Vec<u8>>)
    ensures
        bytes is Some <==> is_hex_text(text@),
        bytes matches Some(decoded) ==> decoded@ == hex_decoded(text@),
{
    hex::decode(text).ok()
}

/// `subtle`'s `ConstantTimeEq` on byte slices: whether the slices are equal.
/// That the time taken does not depend on the contents is not stated.
#[verifier::external_body]
pub(crate) fn constant_time_eq(a: &[u8], b: &[u8]) -> (same: bool)
    ensures
        same == (a@ == b@),
{
    a.ct_eq(b).into()
}

/// `rand::rngs::OsRng`: 32 bytes from the operating system's generator. Nothing
/// is promised of their value. It panics where the system has none to give.
#[verifier::external_body]
pub(crate) fn random_key() -> (key: SecretBytes)
    ensures
        key@.len() == 32,
{
    let mut key = vec![0u8; 32];
    rand::rngs::OsRng.fill_bytes(&mut key);
    SecretBytes::new(key)
}

/// The hex rendering holds ASCII only.
proof fn lemma_hex_text_is_ascii(bytes: Seq<u8>)
    ensures
        vstd::utf8::is_ascii_chars(hex_text(bytes)),
{
    assert forall|i: int| 0 <= i < hex_text(bytes).len() implies 0 <= #[trigger] hex_text(bytes)[i]
        as int <= 127 by {
        assert(0 <= i / 2 < bytes.len());
    }
}

/// Render bytes as lowercase hex.
pub fn hex_string(bytes: &[u8]) -> (text: String)
    ensures
        text@ == hex_text(bytes@),
{
    hex_encode(bytes)
}

/// Render bytes as the ASCII bytes of their lowercase hex.
pub fn hex_ascii(bytes: &[u8]) -> (ascii: Vec<u8>)
    ensures
        ascii@ == hex_bytes(bytes@),
{
    let text = hex_encode(bytes);
    proof {
        lemma_hex_text_is_ascii(bytes@);
        vstd::utf8::is_ascii_chars_encode_utf8(text@);
    }
    let ascii = text.as_str().as_bytes_vec();
    assert(ascii@ =~= hex_bytes(bytes@));
    ascii
}

/// The ASCII rendering and the rendered text are the same text.
pub proof fn law_hex_bytes_spell_hex_text(bytes: Seq<u8>)
    ensures
        vstd::utf8::encode_utf8(hex_text(bytes)) == hex_bytes(bytes),
        vstd::utf8::valid_utf8(hex_bytes(bytes)),
        vstd::utf8::decode_utf8(hex_bytes(bytes)) == hex_text(bytes),
{
    lemma_hex_text_is_ascii(bytes);
    vstd::utf8::is_ascii_chars_encode_utf8(hex_text(bytes));
    assert(vstd::utf8::encode_utf8(hex_text(bytes)) =~= hex_bytes(bytes));
    vstd::utf8::encode_utf8_valid_utf8(hex_text(bytes));
    vstd::utf8::encode_utf8_decode_utf8(hex_text(bytes));
}

/// Decoding what was encoded gives the bytes back.
pub proof fn law_hex_round_trip(bytes: Seq<u8>)
    ensures
        is_hex_text(hex_text(bytes)),
        hex_decoded(hex_text(bytes)) == bytes,
{
    assert forall|i: int| 0 <= i < hex_text(bytes).len() implies is_hex_digit(
        #[trigger] hex_text(bytes)[i],
    ) by {
        assert(0 <= i / 2 < bytes.len());
    }
    assert forall|i: int| 0 <= i < bytes.len() implies #[trigger] hex_decoded(hex_text(bytes))[i]
        == bytes[i] by {
        assert((2 * i) / 2 == i && (2 * i) % 2 == 0);
        assert((2 * i + 1) / 2 == i && (2 * i + 1) % 2 == 1);
    }
    assert(hex_decoded(hex_text(bytes)) =~= bytes);
}

/// A byte is spelled by its upper half and then its lower half, each as a digit or a lower
/// case letter.
pub proof fn law_hex_is_spelled_upper_half_first(bytes: Seq<u8>, i: int)
    requires
        0 <= i < bytes.len(),
    ensures
        ({
            let upper = bytes[i] as int / 16;
            let lower = bytes[i] as int % 16;
            &&& hex_text(bytes).len() == 2 * bytes.len()
            &&& hex_text(bytes)[2 * i] as int == if upper < 10 {
                48 + upper
            } else {
                87 + upper
            }
            &&& hex_text(bytes)[2 * i + 1] as int == if lower < 10 {
                48 + lower
            } else {
                87 + lower
            }
        }),
{
    assert((2 * i) / 2 == i && (2 * i) % 2 == 0);
    assert((2 * i + 1) / 2 == i && (2 * i + 1) % 2 == 1);
}

/// Letters of either case stand for the same digits, and nothing but digits and the
/// letters up to F stands for any.
pub proof fn law_hex_is_read_in_either_case(c: char)
    ensures
        is_hex_digit(c) <==> (48 <= c as int <= 57) || (97 <= c as int <= 102) || (65 <= c as int
            <= 70),
        48 <= c as int <= 57 ==> hex_value(c) == c as int - 48,
        97 <= c as int <= 102 ==> hex_value(c) == c as int - 87,
        65 <= c as int <= 70 ==> hex_value(c) == c as int - 55,
{
}

} // verus!
