//! Figures shown in the status bar.

use vstd::prelude::*;

verus! {

/// Frames per second for a frame that took `elapsed_ms` milliseconds.
pub fn frames_per_second(elapsed_ms: u128) -> (fps: u128)
    requires
        elapsed_ms > 0,
    ensures
        fps == 1000u128 / elapsed_ms,
{
    1000 / elapsed_ms
}

} // verus!
