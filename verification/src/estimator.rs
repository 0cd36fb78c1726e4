//! The cooking-time estimator: a freshly created line's aggregate
//! cooking time is drawn at random from a documented inclusive range.
//! The draw is non-deterministic, so nothing beyond the range is
//! assumed of it; every consumer of an estimate is verified for every
//! value the range admits.

use rand::Rng;
use vstd::prelude::*;

verus! {

/// The lowest cooking-time estimate the estimator hands out.
pub const ESTIMATE_MIN: i64 = 5;

/// The highest cooking-time estimate the estimator hands out.
pub const ESTIMATE_MAX: i64 = 15;

/// Relies on rand's `Rng::gen_range` over `thread_rng`: it returns a
/// value from the given range, and panics only on an empty range,
/// which the precondition rules out.
#[verifier::external_body]
fn draw_in_range(lo: i64, hi: i64) -> (r: i64)
    requires
        lo <= hi,
    ensures
        lo <= r <= hi,
{
    rand::thread_rng().gen_range(lo..=hi)
}

/// Draws one fresh cooking-time estimate for a newly created line.
pub fn draw_cooking_time_estimate() -> (r: i64)
    ensures
        ESTIMATE_MIN <= r <= ESTIMATE_MAX,
{
    draw_in_range(ESTIMATE_MIN, ESTIMATE_MAX)
}

} // verus!
