//! The cancellation handle: a token that is signalled once and polled often.

use vstd::prelude::*;

verus! {

/// The handle type of `tokio_util`. A value of it is shared with other tasks,
/// so nothing is known of its state from one call to the next.
#[verifier::external_type_specification]
#[verifier::external_body]
pub struct ExCancellationToken(tokio_util::sync::CancellationToken);

/// Calls `CancellationToken::new`. Nothing is claimed of the fresh handle.
#[verifier::external_body]
pub(crate) fn token_new() -> (r: tokio_util::sync::CancellationToken) {
    tokio_util::sync::CancellationToken::new()
}

/// Calls `CancellationToken::clone`, which hands out another handle on the
/// same signal. The two are taken to be equal: the crate's own `==` holds of
/// a handle and its clone, and cancelling either cancels both.
#[verifier::external_body]
pub(crate) fn token_clone(token: &tokio_util::sync::CancellationToken) -> (r:
    tokio_util::sync::CancellationToken)
    ensures
        r == *token,
{
    token.clone()
}

/// Calls `CancellationToken::cancel`. It returns nothing, and its effect is
/// seen only through later polls.
#[verifier::external_body]
pub(crate) fn token_cancel(token: &tokio_util::sync::CancellationToken) {
    token.cancel()
}

/// Calls `CancellationToken::is_cancelled`. Another task may signal at any
/// moment, so the answer may be either value.
#[verifier::external_body]
pub(crate) fn token_is_cancelled(token: &tokio_util::sync::CancellationToken) -> (r: bool) {
    token.is_cancelled()
}

} // verus!
