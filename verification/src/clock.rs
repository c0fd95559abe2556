//! The time of day, as text.

use vstd::prelude::*;

verus! {

/// The local date and time as `YYYY-MM-DD_HH:MM:SS`, from `chrono`:
/// `Local::now()`, then `format` with `%Y-%m-%d_%H:%M:%S`, then `to_string`.
/// Nothing is claimed of the text: it depends on the clock and on the time
/// zone of the machine, and a year past 9999 is written with a sign and more
/// than four digits. `chrono` panics where the clock stands before 1970.
#[verifier::external_body]
pub(crate) fn local_timestamp() -> (stamp: String) {
    chrono::Local::now().format("%Y-%m-%d_%H:%M:%S").to_string()
}

} // verus!
