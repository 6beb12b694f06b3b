//! Wall-clock time for search diagnostics.
use std::time::Instant;
use vstd::prelude::*;

verus! {

#[verifier::external_type_specification]
#[verifier::external_body]
pub struct ExInstant(Instant);

/// Relies on `std::time::Instant::now`: the current instant; nothing is
/// known of its value.
#[verifier::external_body]
pub(crate) fn clock_now() -> (r: Instant) {
    Instant::now()
}

/// Relies on `std::time::Instant::elapsed`: the time since `start`, in
/// whole milliseconds; nothing is known of its value.
#[verifier::external_body]
pub(crate) fn millis_since(start: &Instant) -> (r: u64) {
    start.elapsed().as_millis() as u64
}

} // verus!
