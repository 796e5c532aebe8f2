//! The clock that new records are stamped by.

use vstd::prelude::*;

verus! {

/// Whether a time, in whole seconds since 1970, is one the clock can give.
pub open spec fn in_reach(seconds: i64) -> bool {
    0 <= seconds < 0x1_0000_0000_0000
}

/// The current time in whole seconds since 1970, by
/// `chrono::Local::now().timestamp()`.
///
/// Nothing is claimed of which second it is. The upper bound is that of
/// every timestamp chrono computes: a day count held in 32 signed bits times
/// 86 400, plus a second count held in 32 bits. The lower bound is there
/// because chrono takes the seconds that have passed since 1970, and panics
/// where the system clock stands before that.
#[verifier::external_body]
pub(crate) fn now() -> (seconds: i64)
    ensures
        in_reach(seconds),
{
    chrono::Local::now().timestamp()
}

} // verus!
