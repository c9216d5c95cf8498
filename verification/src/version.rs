//! Time-derived version codes.
//!
//! A build's version code packs the UTC clock reading into fixed decimal
//! digit positions: `year*1_000_000 + month*10_000 + day*100 + hour`. As
//! long as month, day and hour stay within calendar bounds, each component
//! keeps its own digits, so codes taken later are never smaller.

use vstd::prelude::*;

verus! {

/// The version code formula over one clock reading.
pub open spec fn version_code_of(year: int, month: int, day: int, hour: int) -> int {
    year * 1_000_000 + month * 10_000 + day * 100 + hour
}

/// Calendar bounds under which each component of the formula keeps its own
/// digit positions, with the year capped at four digits.
pub open spec fn valid_clock_parts(year: int, month: int, day: int, hour: int) -> bool {
    &&& 0 <= year <= 9999
    &&& 1 <= month <= 12
    &&& 1 <= day <= 31
    &&& 0 <= hour <= 23
}

/// Clock reading `a` is no later than clock reading `b`, compared
/// component by component from the year down.
pub open spec fn clock_le(
    y1: int,
    m1: int,
    d1: int,
    h1: int,
    y2: int,
    m2: int,
    d2: int,
    h2: int,
) -> bool {
    if y1 != y2 {
        y1 < y2
    } else if m1 != m2 {
        m1 < m2
    } else if d1 != d2 {
        d1 < d2
    } else {
        h1 <= h2
    }
}

/// The version code of one clock reading.
pub fn compute_version_code(year: u32, month: u32, day: u32, hour: u32) -> (r: u64)
    requires
        valid_clock_parts(year as int, month as int, day as int, hour as int),
    ensures
        r == version_code_of(year as int, month as int, day as int, hour as int),
{
    year as u64 * 1_000_000 + month as u64 * 10_000 + day as u64 * 100 + hour as u64
}

/// Version monotonicity: between two in-bounds clock readings, the later
/// reading never gives the smaller version code. Two stampings at least an
/// hour apart read clocks that differ in some component down to the hour,
/// so their codes never decrease.
pub proof fn lemma_version_code_monotonic(
    y1: int,
    m1: int,
    d1: int,
    h1: int,
    y2: int,
    m2: int,
    d2: int,
    h2: int,
)
    requires
        valid_clock_parts(y1, m1, d1, h1),
        valid_clock_parts(y2, m2, d2, h2),
        clock_le(y1, m1, d1, h1, y2, m2, d2, h2),
    ensures
        version_code_of(y1, m1, d1, h1) <= version_code_of(y2, m2, d2, h2),
{
}

/// The version code for the present moment, read from the UTC wall clock:
/// `None` only when the clock's year falls outside four digits.
pub fn current_version_code() -> (r: Option<u64>)
    ensures
        match r {
            Some(c) => exists|y: int, m: int, d: int, h: int|
                #[trigger] valid_clock_parts(y, m, d, h) && c == version_code_of(y, m, d, h),
            None => true,
        },
{
    let parts = crate::clock::utc_now_parts();
    let (year, month, day, hour) = parts;
    if year < 0 || year > 9999 {
        return None;
    }
    let c = compute_version_code(year as u32, month, day, hour);
    proof {
        assert(valid_clock_parts(year as int, month as int, day as int, hour as int));
    }
    Some(c)
}

} // verus!
