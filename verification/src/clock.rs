//! The one place the engine reads the wall clock.

use vstd::prelude::*;

verus! {

/// Relies on chrono's `Utc::now`: seconds since the Unix epoch. The value
/// depends on the machine's clock, so nothing is promised of it; every
/// caller must work with whatever comes back.
#[verifier::external_body]
pub fn now_ts() -> i64 {
    chrono::Utc::now().timestamp()
}

} // verus!
