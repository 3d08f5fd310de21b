//! Resolving a frame's capture time from the times its storage reports.

use vstd::prelude::*;

verus! {

/// The capture time of a frame, given the creation time and the modification
/// time its storage reports (each in nanoseconds since the epoch, absent when
/// the storage does not supply it): the creation time when available,
/// otherwise the modification time, otherwise nothing.
pub open spec fn resolved_timestamp(created: Option<u64>, modified: Option<u64>) -> Option<u64> {
    if created is Some {
        created
    } else {
        modified
    }
}

/// Picks the best-available time point for one frame.
pub fn resolve_timestamp(created: Option<u64>, modified: Option<u64>) -> (r: Option<u64>)
    ensures
        r == resolved_timestamp(created, modified),
{
    match created {
        Some(t) => Some(t),
        None => modified,
    }
}

} // verus!
