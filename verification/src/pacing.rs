//! The display's pacing: when the next redraw is due. The display keeps
//! the source's rate, so the next redraw is one period on from the last
//! one's due time, not from when it was drawn; a redraw that is already
//! late is due now, never in the past.
//!
//! Times are nanosecond counts on one monotonic clock.

use vstd::prelude::*;

verus! {

/// The due time of the redraw after one due at `due`, with the display's
/// `period`, when the clock reads `now`.
pub open spec fn spec_next_redraw(due: int, period: int, now: int) -> int {
    if due + period < now {
        now
    } else {
        due + period
    }
}

/// When the next redraw is due; see `spec_next_redraw`. The sum of the
/// due time and the period must fit the clock's count.
pub fn next_redraw(due: u64, period: u64, now: u64) -> (next: u64)
    requires
        due + period <= u64::MAX,
    ensures
        next == spec_next_redraw(due as int, period as int, now as int),
{
    let next = due + period;
    if next < now {
        now
    } else {
        next
    }
}

/// The next redraw is never due before now, and never later than one
/// period after the last due time unless that is already past.
pub proof fn lemma_the_next_redraw_is_not_in_the_past(due: int, period: int, now: int)
    requires
        period >= 0,
    ensures
        spec_next_redraw(due, period, now) >= now,
        spec_next_redraw(due, period, now) >= due + period,
        spec_next_redraw(due, period, now) == due + period || spec_next_redraw(due, period, now) == now,
{
}

} // verus!
