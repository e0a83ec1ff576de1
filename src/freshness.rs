//! Whether the data is stale. The recently-played list covers about two
//! weeks, so an Update run after a longer gap misses games: past that gap a
//! Full Scan is due.
use vstd::prelude::*;

verus! {

/// Seconds after the last completed run at which the data counts as stale.
pub const STALE_AFTER_SECONDS: i64 = 14 * 24 * 60 * 60;

/// Whether data last updated at `last_update` is stale at `now`: never
/// updated, or updated more than two weeks before.
pub fn is_stale_at(last_update: Option<i64>, now: i64) -> (r: bool)
    ensures
        r == match last_update {
            None => true,
            Some(t) => t < now - STALE_AFTER_SECONDS,
        },
{
    match last_update {
        None => true,
        Some(t) => (t as i128) < (now as i128) - (STALE_AFTER_SECONDS as i128),
    }
}

} // verus!
