//! Rendering numbers into player-facing message text. The log is
//! write-only for the core, so nothing is claimed of the digits.

use vstd::prelude::*;

verus! {

/// Relies on the standard decimal formatting of `i32`; the result is
/// only ever appended to log messages, never read back.
#[verifier::external_body]
pub(crate) fn decimal(n: i32) -> String {
    format!("{}", n)
}

} // verus!
