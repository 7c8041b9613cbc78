use vstd::prelude::*;

use crate::diagnostics::ResetReason;

verus! {

// ---------------------------------------------------------------------------
// Reset cause
// ---------------------------------------------------------------------------

/// Whether bit `b` of `x` is set.
pub open spec fn flag(x: u32, b: u32) -> bool {
    x & (1u32 << b) != 0
}

/// Reset cause read from the RCC control/status register flags; when
/// several are set the first of watchdog, window watchdog, software,
/// low-power, pin and power-on wins.
pub open spec fn spec_reset_reason_from_csr(csr: u32) -> ResetReason {
    if flag(csr, 29) {
        ResetReason::IndependentWatchdog
    } else if flag(csr, 30) {
        ResetReason::WindowWatchdog
    } else if flag(csr, 28) {
        ResetReason::Software
    } else if flag(csr, 31) {
        ResetReason::LowPower
    } else if flag(csr, 26) {
        ResetReason::PinReset
    } else if flag(csr, 27) {
        ResetReason::PowerOn
    } else {
        ResetReason::Unknown
    }
}

pub fn reset_reason_from_csr(csr: u32) -> (r: ResetReason)
    ensures
        r == spec_reset_reason_from_csr(csr),
{
    if csr & (1u32 << 29u32) != 0 {
        ResetReason::IndependentWatchdog
    } else if csr & (1u32 << 30u32) != 0 {
        ResetReason::WindowWatchdog
    } else if csr & (1u32 << 28u32) != 0 {
        ResetReason::Software
    } else if csr & (1u32 << 31u32) != 0 {
        ResetReason::LowPower
    } else if csr & (1u32 << 26u32) != 0 {
        ResetReason::PinReset
    } else if csr & (1u32 << 27u32) != 0 {
        ResetReason::PowerOn
    } else {
        ResetReason::Unknown
    }
}

// ---------------------------------------------------------------------------
// LED and PWM controls
// ---------------------------------------------------------------------------

/// Auto-reload value of the PWM timer: a period of 1000 counts.
pub const PWM_ARR: u32 = 999;

/// Compare value for a duty of `percent` (clamped to 100) of the period,
/// never above the auto-reload value.
pub open spec fn spec_pwm_compare(percent: u8) -> u32 {
    let clamped: int = if percent > 100 { 100 } else { percent as int };
    let duty: int = (PWM_ARR as int + 1) * clamped / 100;
    if duty > PWM_ARR { PWM_ARR } else { duty as u32 }
}

pub fn pwm_compare(percent: u8) -> (ccr: u32)
    ensures
        ccr == spec_pwm_compare(percent),
{
    let clamped: u32 = if percent > 100 { 100 } else { percent as u32 };
    let duty: u32 = ((PWM_ARR + 1) * clamped) / 100;
    if duty > PWM_ARR {
        PWM_ARR
    } else {
        duty
    }
}

/// The board's user LED lines and PWM output.  The on-board LED on PC13 is
/// active low; an optional LED on PA1 is active high.  The fields are the
/// output levels and compare value the hardware is to show.
pub struct Controls {
    pub led_ready: bool,
    pub pwm_ready: bool,
    pub pc13_high: bool,
    pub pa1_high: bool,
    pub pwm_ccr: u32,
}

impl Controls {
    /// Before `init_hardware`: nothing usable.
    pub fn new() -> (c: Self)
        ensures
            !c.led_ready && !c.pwm_ready,
            c.pc13_high && !c.pa1_high && c.pwm_ccr == 0,
    {
        Controls { led_ready: false, pwm_ready: false, pc13_high: true, pa1_high: false, pwm_ccr: 0 }
    }

    /// Outputs configured: both LEDs off, PWM at zero duty, both usable.
    pub fn init_hardware(&mut self)
        ensures
            *final(self) == (Controls {
                led_ready: true,
                pwm_ready: true,
                pc13_high: true,
                pa1_high: false,
                pwm_ccr: 0,
            }),
    {
        self.pc13_high = true;
        self.pa1_high = false;
        self.pwm_ccr = 0;
        self.led_ready = true;
        self.pwm_ready = true;
    }

    pub fn led_available(&self) -> (b: bool)
        ensures
            b == self.led_ready,
    {
        self.led_ready
    }

    pub fn pwm_available(&self) -> (b: bool)
        ensures
            b == self.pwm_ready,
    {
        self.pwm_ready
    }

    /// Switch the LEDs on or off; refused (`false`, nothing changed) before
    /// the outputs are configured.
    pub fn set_led(&mut self, on: bool) -> (ok: bool)
        ensures
            ok == old(self).led_ready,
            ok ==> *final(self) == (Controls { pc13_high: !on, pa1_high: on, ..*old(self) }),
            !ok ==> *final(self) == *old(self),
    {
        if !self.led_available() {
            return false;
        }
        self.pc13_high = !on;
        self.pa1_high = on;
        true
    }

    /// Invert both LED lines; refused before the outputs are configured.
    pub fn toggle_led(&mut self) -> (ok: bool)
        ensures
            ok == old(self).led_ready,
            ok ==> *final(self) == (Controls {
                pc13_high: !old(self).pc13_high,
                pa1_high: !old(self).pa1_high,
                ..*old(self)
            }),
            !ok ==> *final(self) == *old(self),
    {
        if !self.led_available() {
            return false;
        }
        self.pc13_high = !self.pc13_high;
        self.pa1_high = !self.pa1_high;
        true
    }

    /// Set the PWM duty in percent (above 100 means 100); refused before
    /// the output is configured.
    pub fn set_pwm_percent(&mut self, percent: u8) -> (ok: bool)
        ensures
            ok == old(self).pwm_ready,
            ok ==> *final(self) == (Controls { pwm_ccr: spec_pwm_compare(percent), ..*old(self) }),
            !ok ==> *final(self) == *old(self),
    {
        if !self.pwm_available() {
            return false;
        }
        self.pwm_ccr = pwm_compare(percent);
        true
    }
}

// ---------------------------------------------------------------------------
// Independent watchdog
// ---------------------------------------------------------------------------

/// Largest reload value of the 12-bit watchdog counter.
pub const IWDG_MAX_RELOAD: u32 = 0x0FFF;

/// Reload value for a timeout: the watchdog counts at 625 Hz (40 kHz LSI
/// divided by 64), so `timeout * 625 / 1000 - 1`, saturating at both ends
/// and capped to the counter width.
pub open spec fn spec_timeout_ms_to_reload(timeout_ms: u32) -> u32 {
    let product: int = timeout_ms as int * 625;
    let sat: int = if product > u32::MAX { u32::MAX as int } else { product };
    let ticks: int = sat / 1000;
    let reload: int = if ticks >= 1 { ticks - 1 } else { 0 };
    if reload > IWDG_MAX_RELOAD { IWDG_MAX_RELOAD } else { reload as u32 }
}

pub fn timeout_ms_to_reload(timeout_ms: u32) -> (reload: u32)
    ensures
        reload == spec_timeout_ms_to_reload(timeout_ms),
{
    let product: u64 = timeout_ms as u64 * 625;
    let sat: u32 = if product > u32::MAX as u64 { u32::MAX } else { product as u32 };
    let ticks: u32 = sat / 1000;
    let reload: u32 = if ticks >= 1 { ticks - 1 } else { 0 };
    if reload > IWDG_MAX_RELOAD {
        IWDG_MAX_RELOAD
    } else {
        reload
    }
}

/// The independent watchdog as the kernel sees it: whether it was started
/// and the reload value it was programmed with.
pub struct Watchdog {
    pub started: bool,
    pub reload: u32,
}

impl Watchdog {
    pub fn new() -> (w: Self)
        ensures
            !w.started && w.reload == 0,
    {
        Watchdog { started: false, reload: 0 }
    }

    /// Forget any earlier start (after a reset the watchdog is not known to run).
    pub fn reset_state(&mut self)
        ensures
            *final(self) == (Watchdog { started: false, ..*old(self) }),
    {
        self.started = false;
    }

    /// Start the watchdog with the reload value for `timeout_ms`; always
    /// succeeds.
    pub fn start(&mut self, timeout_ms: u32) -> (ok: bool)
        ensures
            ok,
            *final(self) == (Watchdog { started: true, reload: spec_timeout_ms_to_reload(timeout_ms) }),
    {
        self.reload = timeout_ms_to_reload(timeout_ms);
        self.started = true;
        true
    }

    /// Reload the counter; reports whether the watchdog had been started.
    pub fn feed(&self) -> (fed: bool)
        ensures
            fed == self.started,
    {
        self.started
    }
}

} // verus!
