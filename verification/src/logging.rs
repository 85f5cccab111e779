//! The frame counter that paces periodic logging.

use vstd::prelude::*;

verus! {

/// The frame counter after one more frame: it wraps around at `u32::MAX`.
pub fn increment_frame_counter(count: u32) -> (r: u32)
    ensures
        r == (if count == u32::MAX { 0 } else { count + 1 }),
{
    count.wrapping_add(1)
}

/// True when the frame count is divisible by `interval`.
pub fn should_log(count: u32, interval: u32) -> (r: bool)
    requires
        interval > 0,
    ensures
        r == (count % interval == 0),
{
    count % interval == 0
}

} // verus!
