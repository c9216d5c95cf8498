//! The one bridge to the wall clock.

use vstd::prelude::*;

verus! {

/// The current UTC clock reading as `(year, month, day, hour)`.
///
/// Relies on chrono: `Utc::now` reads the current UTC date and time, and the
/// accessors `Datelike::year`, `Datelike::month`, `Datelike::day` and
/// `Timelike::hour` take it apart. chrono documents that the month ranges
/// over 1..=12, the day over 1..=31 and the hour over 0..=23; nothing is
/// promised of the year, and nothing of which moment the clock shows.
/// `Utc::now` aborts on a system whose clock reads before 1970, which
/// chrono does not represent; this call inherits that.
#[verifier::external_body]
pub(crate) fn utc_now_parts() -> (r: (i32, u32, u32, u32))
    ensures
        1 <= r.1 <= 12,
        1 <= r.2 <= 31,
        r.3 <= 23,
{
    let now = chrono::Utc::now();
    (
        chrono::Datelike::year(&now),
        chrono::Datelike::month(&now),
        chrono::Datelike::day(&now),
        chrono::Timelike::hour(&now),
    )
}

} // verus!
