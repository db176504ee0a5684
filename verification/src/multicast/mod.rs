//! Multicast messages and the bookkeeping of a multicast agent.
//!
//! Messages carry a UUID, a kind, a timestamp, a body and a time-to-live, and
//! a checksum over all of these. An agent remembers which messages it has
//! seen and who acknowledged them; the sockets themselves live outside the
//! library.
use vstd::prelude::*;

pub mod agent;
pub mod codec;
pub mod message;
pub mod system;

verus! {

/// `std::io::Error`, the error of the multicast functions: an opaque value
/// that the library only builds and hands back.
#[verifier::external_type_specification]
#[verifier::external_body]
pub struct ExIoError(std::io::Error);

/// Builds an [`std::io::Error`] of kind `InvalidData` with the given message.
///
/// Trusted: calls `std::io::Error::new`; nothing is stated of the error value.
#[verifier::external_body]
pub fn build_error(message: &str) -> std::io::Error {
    std::io::Error::new(std::io::ErrorKind::InvalidData, message)
}

} // verus!
