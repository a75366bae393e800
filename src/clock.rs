//! The monotonic clock, read through tokio.

use vstd::prelude::*;
use tokio::time::Instant;

verus! {

#[verifier::external_type_specification]
#[verifier::external_body]
pub struct ExInstant(tokio::time::Instant);

/// Relies on tokio::time::Instant::now: it reads the runtime's clock, so
/// nothing is known of the instant it returns.
pub assume_specification[ tokio::time::Instant::now ]() -> tokio::time::Instant;

/// Relies on tokio::time::Instant::elapsed and Duration::as_nanos: the whole
/// nanoseconds from `origin` to now (zero if `origin` lies ahead). The value
/// depends on the clock, so nothing is stated of it.
#[verifier::external_body]
pub(crate) fn nanos_since(origin: &Instant) -> (r: u128) {
    origin.elapsed().as_nanos()
}

} // verus!
