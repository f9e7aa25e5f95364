//! The absolute time of an event, rebuilt from its time within a sweep.

use vstd::prelude::*;
use crate::error::DecodeError;

verus! {

/// The time of an event of sweep `sweep` that happened `local_time` ticks
/// into its sweep, counted from the start of the first sweep, where every
/// sweep lasts `range` ticks. Sweeps are counted from one.
pub open spec fn absolute_time(local_time: u64, sweep: u16, range: u64) -> int {
    local_time + range * (sweep - 1)
}

/// What resolving the time of an event gives. Under a layout without a
/// sweep counter every event belongs to the first sweep, so its time stays
/// as it is. Under a layout with one, sweep zero is not a sweep, and a time
/// beyond 64 bits cannot be given.
pub open spec fn resolved_time(local_time: u64, sweep: u16, range: u64, has_sweep: bool) -> Result<
    u64,
    DecodeError,
> {
    if !has_sweep {
        Ok(local_time)
    } else if sweep == 0 {
        Err(DecodeError::InvalidSweep)
    } else if absolute_time(local_time, sweep, range) > u64::MAX {
        Err(DecodeError::TimeOverflow)
    } else {
        Ok(absolute_time(local_time, sweep, range) as u64)
    }
}

/// The absolute time of an event: `local_time + range * (sweep - 1)` where
/// the layout counts sweeps, `local_time` where it does not.
pub fn resolve(local_time: u64, sweep: u16, range: u64, has_sweep: bool) -> (time: Result<
    u64,
    DecodeError,
>)
    ensures
        time == resolved_time(local_time, sweep, range, has_sweep),
{
    if !has_sweep {
        return Ok(local_time);
    }
    if sweep == 0 {
        return Err(DecodeError::InvalidSweep);
    }
    let earlier: u64 = (sweep - 1) as u64;
    match range.checked_mul(earlier) {
        None => Err(DecodeError::TimeOverflow),
        Some(offset) => match local_time.checked_add(offset) {
            None => Err(DecodeError::TimeOverflow),
            Some(time) => Ok(time),
        },
    }
}

} // verus!
