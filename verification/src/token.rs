//! Tokens that name reservations and messages.
use vstd::prelude::*;

verus! {

/// A message token.
pub type MessageToken = u64;

/// A fresh random token, never 0 (which stands for "no reservation") and
/// never `u64::MAX`.
///
/// Trusted: calls `rand::Rng::gen_range(1..u64::MAX)` on `rand::thread_rng()`,
/// which the rand documentation says returns a value of the half-open range.
#[verifier::external_body]
pub fn generate_token() -> (t: u64)
    ensures
        1 <= t < u64::MAX,
{
    rand::Rng::gen_range(&mut rand::thread_rng(), 1..u64::MAX)
}

/// A random `usize`.
///
/// Trusted: calls `rand::random::<usize>()`; nothing is promised of the value.
#[verifier::external_body]
pub(crate) fn random_usize() -> usize {
    rand::random::<usize>()
}

} // verus!
