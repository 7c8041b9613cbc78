use vstd::prelude::*;

verus! {

/// Tick rate of the system timer.
pub const TICK_HZ: u32 = 1_000;

/// Milliseconds expressed in ticks, saturated to `u32::MAX`.
pub open spec fn spec_ms_to_ticks(ms: u32) -> u32 {
    let ticks = ms as int * TICK_HZ as int / 1000;
    if ticks > u32::MAX { u32::MAX } else { ticks as u32 }
}

pub fn ms_to_ticks(ms: u32) -> (ticks: u32)
    ensures
        ticks == spec_ms_to_ticks(ms),
{
    let ticks: u64 = (ms as u64) * (TICK_HZ as u64) / 1000;
    if ticks > u32::MAX as u64 {
        u32::MAX
    } else {
        ticks as u32
    }
}

} // verus!

verus! {

/// `now` is at or after `target` on the wrapping tick counter.
pub open spec fn spec_time_after_eq(now: u32, target: u32) -> bool {
    now.wrapping_sub(target) < 0x8000_0000
}

pub fn time_after_eq(now: u32, target: u32) -> (r: bool)
    ensures
        r == spec_time_after_eq(now, target),
{
    now.wrapping_sub(target) < 0x8000_0000
}

} // verus!

verus! {

/// Ticks expressed in milliseconds, saturated to `u32::MAX`.
pub open spec fn spec_ticks_to_ms(ticks: u32) -> u32 {
    let ms = ticks as int * 1000 / TICK_HZ as int;
    if ms > u32::MAX { u32::MAX } else { ms as u32 }
}

pub fn ticks_to_ms(ticks: u32) -> (ms: u32)
    ensures
        ms == spec_ticks_to_ms(ticks),
{
    let ms: u64 = (ticks as u64) * 1000 / (TICK_HZ as u64);
    if ms > u32::MAX as u64 {
        u32::MAX
    } else {
        ms as u32
    }
}

/// A busy wait of `ms` milliseconds begun at tick `start` is over at tick
/// `now` (measured on the wrapping counter).
pub open spec fn spec_delay_elapsed(start: u32, now: u32, ms: u32) -> bool {
    now.wrapping_sub(start) >= spec_ms_to_ticks(ms)
}

pub fn delay_elapsed(start: u32, now: u32, ms: u32) -> (done: bool)
    ensures
        done == spec_delay_elapsed(start, now, ms),
{
    now.wrapping_sub(start) >= ms_to_ticks(ms)
}

} // verus!
