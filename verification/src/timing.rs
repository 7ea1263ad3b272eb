//! Pacing for the engine loop: how long one instruction's time slice is,
//! and after how many slices the 60 Hz timers are due a tick.
use vstd::prelude::*;

verus! {

/// From an instruction rate in Hz, the length of one time slice in
/// milliseconds (`1000 / hz`) and the number of slices between timer ticks
/// (one sixtieth of a second, in whole milliseconds, divided by the
/// slice). Rates above 1000 Hz would give a zero-length slice, so the rate
/// is capped there.
pub fn pacing(hz: u64) -> (p: (u64, u64))
    requires
        1 <= hz <= 1000,
    ensures
        p.0 == 1000u64 / hz,
        p.0 >= 1,
        p.1 == 16u64 / (1000u64 / hz),
{
    let delay: u64 = 1000 / hz;
    proof {
        assert(1000u64 / hz >= 1) by (nonlinear_arith)
            requires
                1 <= hz <= 1000,
        ;
    }
    let steps_per_tick: u64 = (1000 / 60) / delay;
    (delay, steps_per_tick)
}

} // verus!
