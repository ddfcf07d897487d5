//! Declarations of the outside types and functions that the library uses as
//! they are.

use vstd::prelude::*;

verus! {

/// `rand::rngs::ThreadRng`, the handle to the thread-local generator. Nothing
/// is known of what it holds.
#[verifier::external_type_specification]
#[verifier::external_body]
pub struct ExThreadRng(rand::rngs::ThreadRng);

/// `rand::thread_rng` hands out the thread-local generator; nothing is
/// claimed of it.
pub assume_specification[ rand::thread_rng ]() -> (rng: rand::rngs::ThreadRng)
;

/// `std::time::Instant`, a reading of the monotonic clock. Nothing is known
/// of what it holds.
#[verifier::external_type_specification]
#[verifier::external_body]
pub struct ExInstant(std::time::Instant);

/// `Instant::now` reads the clock; nothing is claimed of the reading.
pub assume_specification[ std::time::Instant::now ]() -> (now: std::time::Instant)
;

/// `Instant::elapsed` gives the time since the reading; nothing is claimed of
/// it.
pub assume_specification[ std::time::Instant::elapsed ](start: &std::time::Instant) -> (passed:
    std::time::Duration)
;

/// `Duration::as_nanos` gives a duration in whole nanoseconds; nothing is
/// claimed of the number.
pub assume_specification[ std::time::Duration::as_nanos ](passed: &std::time::Duration) -> (nanos:
    u128)
;

/// `aes_gcm::Error`, the one error of the cipher. It says nothing of the
/// cause.
#[verifier::external_type_specification]
#[verifier::external_body]
pub struct ExAeadError(aes_gcm::Error);

/// `std::string::FromUtf8Error`, the error of a conversion from bytes that
/// are no text.
#[verifier::external_type_specification]
#[verifier::external_body]
pub struct ExFromUtf8Error(std::string::FromUtf8Error);

} // verus!
