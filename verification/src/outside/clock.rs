//! The clock of the machine.
use vstd::prelude::*;

verus! {

/// `SystemTime::elapsed` of the Unix epoch, in whole seconds; `None` while the clock
/// stands before the epoch. Nothing is known of the time.
#[verifier::external_body]
pub(crate) fn unix_seconds() -> (r: Option<u64>) {
    std::time::UNIX_EPOCH.elapsed().ok().map(|d| d.as_secs())
}

} // verus!
