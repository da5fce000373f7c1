//! Transient-secret containment for the runtime process.
//!
//! `PR_SET_DUMPABLE=0` is applied before the process accepts any credential or
//! mints a token. File permissions do not isolate same-UID processes; on Linux
//! this setting is the barrier that keeps a managed shell from reading the
//! runtime through `/proc/<pid>/mem` or inherited descriptors.
use crate::text::{decimal, decimal_text, joined};
use crate::Error;
use vstd::prelude::*;

verus! {

/// An owned plaintext buffer that is overwritten on demand and on drop.
///
/// Callers pass this type, rather than `String`, across authentication
/// boundaries so verification can erase the presented value before returning.
pub struct SecretBytes(Vec<u8>);

impl View for SecretBytes {
    type V = Seq<u8>;

    closed spec fn view(&self) -> Seq<u8> {
        self.0@
    }
}

/// A buffer of `len` zero bytes: what is left of a secret after it was erased.
pub open spec fn erased(len: nat) -> Seq<u8> {
    Seq::new(len, |i: int| 0u8)
}

/// `slice::fill` with zero: every byte becomes zero, the length stays.
#[verifier::external_body]
fn fill_with_zeros(bytes: &mut Vec<u8>)
    ensures
        final(bytes)@ == erased(old(bytes)@.len()),
    opens_invariants none
    no_unwind
{
    bytes.fill(0);
}

/// `std::hint::black_box`: keeps the optimiser from treating the erase before it
/// as dead. It changes nothing and promises nothing.
#[verifier::external_body]
fn keep_writes(bytes: &Vec<u8>)
    opens_invariants none
    no_unwind
{
    std::hint::black_box(bytes);
}

impl SecretBytes {
    pub fn new(bytes: Vec<u8>) -> (secret: Self)
        ensures
            secret@ == bytes@,
    {
        SecretBytes(bytes)
    }

    pub fn from_slice(bytes: &[u8]) -> (secret: Self)
        ensures
            secret@ == bytes@,
    {
        SecretBytes(vstd::slice::slice_to_vec(bytes))
    }

    pub fn as_bytes(&self) -> (bytes: &[u8])
        ensures
            bytes@ == self@,
    {
        self.0.as_slice()
    }

    pub fn len(&self) -> (len: usize)
        ensures
            len == self@.len(),
    {
        self.0.len()
    }

    pub fn is_empty(&self) -> (empty: bool)
        ensures
            empty == (self@.len() == 0),
    {
        self.0.len() == 0
    }

    /// Erase the plaintext promptly once it is no longer needed.
    pub fn zeroize(&mut self)
        ensures
            final(self)@ == erased(old(self)@.len()),
        opens_invariants none
        no_unwind
    {
        fill_with_zeros(&mut self.0);
        keep_writes(&self.0);
    }
}

impl Drop for SecretBytes {
    fn drop(&mut self)
        opens_invariants none
        no_unwind
    {
        self.zeroize();
    }
}

impl From<Vec<u8>> for SecretBytes {
    fn from(value: Vec<u8>) -> (secret: Self)
        ensures
            secret@ == value@,
    {
        SecretBytes(value)
    }
}

impl vstd::std_specs::convert::FromSpecImpl<Vec<u8>> for SecretBytes {
    open spec fn obeys_from_spec() -> bool {
        true
    }

    closed spec fn from_spec(value: Vec<u8>) -> Self {
        SecretBytes(value)
    }
}

/// Result of applying the Linux-only transient-secret barrier.
#[derive(Clone, Copy, Debug, PartialEq, Eq, Structural)]
pub enum ContainmentStatus {
    /// Linux `PR_SET_DUMPABLE=0` succeeded and was read back successfully.
    Active,
    /// Other targets perform no containment action and must not be represented
    /// as protected.
    Unsupported,
}

/// Judge what `prctl(PR_SET_DUMPABLE, 0)` returned; `os_error` is the error the
/// operating system reported for that call.
pub fn judge_set_dumpable(result: i32, os_error: std::io::Error) -> (verdict: Result<(), Error>)
    ensures
        verdict is Ok <==> result == 0,
        verdict matches Err(error) ==> error == Error::Io(os_error),
{
    if result == 0 {
        Ok(())
    } else {
        Err(Error::Io(os_error))
    }
}

/// Judge what `prctl(PR_GET_DUMPABLE)` returned; `os_error` is the error the
/// operating system reported for that call.
///
/// A dependency that sets dumpability back to one invalidates the same-UID
/// containment model, so anything but zero is a failure.
pub fn judge_dumpable(value: i32, os_error: std::io::Error) -> (verdict: Result<(), Error>)
    ensures
        verdict is Ok <==> value == 0,
        value < 0 ==> verdict == Err::<(), Error>(Error::Io(os_error)),
        value > 0 ==> {
            &&& verdict matches Err(Error::Other(message))
            &&& message@ == "PR_GET_DUMPABLE returned "@ + decimal(value as nat)
                + "; refusing to handle transient secrets"@
        },
{
    if value == 0 {
        Ok(())
    } else if value < 0 {
        Err(Error::Io(os_error))
    } else {
        Err(
            Error::Other(
                joined(
                    joined("PR_GET_DUMPABLE returned ", decimal_text(value as u128).as_str()).as_str(),
                    "; refusing to handle transient secrets",
                ),
            ),
        )
    }
}

/// What the kernel answered when the barrier was set and then read back, each with
/// the error that the operating system reported for that call.
pub struct BarrierAnswers {
    /// What `prctl(PR_SET_DUMPABLE, 0)` returned.
    pub set_result: i32,
    pub set_error: std::io::Error,
    /// What `prctl(PR_GET_DUMPABLE)` returned after it.
    pub value: i32,
    pub read_error: std::io::Error,
}

/// Judge the whole barrier. `None` stands for a target that has no such barrier:
/// it is never reported as protected.
pub fn judge_barrier(answers: Option<BarrierAnswers>) -> (verdict: Result<
    ContainmentStatus,
    Error,
>)
    ensures
        match answers {
            None => verdict == Ok::<ContainmentStatus, Error>(ContainmentStatus::Unsupported),
            Some(answers) => if answers.set_result != 0 {
                verdict == Err::<ContainmentStatus, Error>(Error::Io(answers.set_error))
            } else if answers.value < 0 {
                verdict == Err::<ContainmentStatus, Error>(Error::Io(answers.read_error))
            } else if answers.value > 0 {
                &&& verdict matches Err(Error::Other(message))
                &&& message@ == "PR_GET_DUMPABLE returned "@ + decimal(answers.value as nat)
                    + "; refusing to handle transient secrets"@
            } else {
                verdict == Ok::<ContainmentStatus, Error>(ContainmentStatus::Active)
            },
        },
{
    let answers = match answers {
        Some(answers) => answers,
        None => return Ok(ContainmentStatus::Unsupported),
    };
    if let Err(error) = judge_set_dumpable(answers.set_result, answers.set_error) {
        return Err(error);
    }
    match judge_dumpable(answers.value, answers.read_error) {
        Ok(()) => Ok(ContainmentStatus::Active),
        Err(error) => Err(error),
    }
}

} // verus!
