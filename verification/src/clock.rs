//! The one reading the store takes from its environment: the current
//! time, stamped into metadata and stored commands.

use vstd::prelude::*;

verus! {

/// Relies on rpki's `Time::now`, a reading of the system clock, and on
/// chrono's `DateTime::timestamp`, which renders it as whole seconds.
/// Nothing is promised of the value: it depends on the clock. The
/// underlying chrono call aborts if the machine's clock stands before
/// the Unix epoch, an environmental failure outside this library.
#[verifier::external_body]
pub fn now_timestamp() -> i64 {
    rpki::repository::x509::Time::now().timestamp()
}

} // verus!
