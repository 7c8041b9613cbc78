use vstd::prelude::*;

use crate::systick::{ms_to_ticks, spec_ms_to_ticks, spec_ticks_to_ms, ticks_to_ms};

verus! {

// ---------------------------------------------------------------------------
// Digital pins
// ---------------------------------------------------------------------------

/// A push-pull output pin, as the level it drives.
#[derive(Clone, Copy, Debug, PartialEq, Eq)]
pub struct GpioOutput {
    pub high: bool,
}

impl GpioOutput {
    pub fn new(high: bool) -> (p: Self)
        ensures
            p.high == high,
    {
        GpioOutput { high }
    }

    pub fn set_high(&mut self)
        ensures
            final(self).high,
    {
        self.high = true;
    }

    pub fn set_low(&mut self)
        ensures
            !final(self).high,
    {
        self.high = false;
    }

    /// Drive the opposite of the current level.
    pub fn toggle(&mut self)
        ensures
            final(self).high == !old(self).high,
    {
        if self.high {
            self.set_low();
        } else {
            self.set_high();
        }
    }

    pub fn is_set_high(&self) -> (b: bool)
        ensures
            b == self.high,
    {
        self.high
    }
}

/// An input pin, as the level last sampled on it.
#[derive(Clone, Copy, Debug, PartialEq, Eq)]
pub struct GpioInput {
    pub high: bool,
}

impl GpioInput {
    pub fn new(high: bool) -> (p: Self)
        ensures
            p.high == high,
    {
        GpioInput { high }
    }

    pub fn is_high(&self) -> (b: bool)
        ensures
            b == self.high,
    {
        self.high
    }

    pub fn is_low(&self) -> (b: bool)
        ensures
            b == !self.high,
    {
        !self.high
    }
}

/// A digital sensor: active while its input reads high.
#[derive(Clone, Copy, Debug, PartialEq, Eq)]
pub struct DigitalSensor {
    pub pin: GpioInput,
}

impl DigitalSensor {
    pub fn new(pin: GpioInput) -> (s: Self)
        ensures
            s.pin == pin,
    {
        DigitalSensor { pin }
    }

    pub fn is_active(&self) -> (b: bool)
        ensures
            b == self.pin.high,
    {
        self.pin.is_high()
    }
}

// ---------------------------------------------------------------------------
// PWM
// ---------------------------------------------------------------------------

/// Duty for the fraction `num / denom` of `max` (the duty-cycle helper of
/// the embedded HAL); with `num <= denom` it never exceeds `max`.
pub open spec fn spec_duty_fraction(max: u16, num: u16, denom: u16) -> u16 {
    (num as int * max as int / denom as int) as u16
}

/// A PWM channel: its full-scale duty and the duty it is set to.
#[derive(Clone, Copy, Debug, PartialEq, Eq)]
pub struct PwmChannel {
    pub max: u16,
    pub duty: u16,
}

impl PwmChannel {
    pub fn new(max: u16) -> (c: Self)
        ensures
            c.max == max && c.duty == 0,
    {
        PwmChannel { max, duty: 0 }
    }

    pub fn max_duty(&self) -> (m: u16)
        ensures
            m == self.max,
    {
        self.max
    }

    pub fn set_duty(&mut self, duty: u16)
        ensures
            *final(self) == (PwmChannel { duty, ..*old(self) }),
    {
        self.duty = duty;
    }

    /// Duty of `percent` of full scale, computed in 32 bits and truncated to
    /// 16 (a percent above 100 can exceed full scale).
    pub fn set_duty_percent(&mut self, percent: u8)
        ensures
            *final(self) == (PwmChannel {
                duty: (old(self).max as int * percent as int / 100) as u16,
                ..*old(self)
            }),
    {
        let max = self.max as u32;
        proof {
            assert(max as int * percent as int <= 0xffff * 0xff) by (nonlinear_arith)
                requires
                    max <= 0xffff,
                    percent <= 0xff,
            ;
        }
        let duty = (max * percent as u32 / 100) as u16;
        self.set_duty(duty)
    }

    /// Duty of `num / denom` of full scale.
    pub fn set_duty_fraction(&mut self, num: u16, denom: u16)
        requires
            denom != 0,
            num <= denom,
        ensures
            *final(self) == (PwmChannel { duty: spec_duty_fraction(old(self).max, num, denom), ..*old(self) }),
            final(self).duty <= old(self).max,
    {
        proof {
            assert(num as int * self.max as int <= denom as int * self.max as int) by (nonlinear_arith)
                requires
                    num <= denom,
            ;
            assert(num as int * self.max as int <= 0xffff * 0xffff) by (nonlinear_arith)
                requires
                    num <= 0xffff,
                    self.max <= 0xffff,
            ;
            assert(num as int * self.max as int / denom as int <= self.max) by (nonlinear_arith)
                requires
                    num as int * self.max as int <= denom as int * self.max as int,
                    denom > 0,
            ;
        }
        let duty = num as u32 * self.max as u32 / denom as u32;
        self.set_duty(duty as u16)
    }
}

// ---------------------------------------------------------------------------
// Motor
// ---------------------------------------------------------------------------

#[derive(Clone, Copy, Debug, PartialEq, Eq, Structural)]
pub enum MotorDir {
    Forward,
    Reverse,
}

/// A DC motor: PWM speed output plus a direction line (low forward, high
/// reverse).  While disabled it is held at zero duty.
#[derive(Clone, Copy, Debug, PartialEq, Eq)]
pub struct Motor {
    pub pwm: PwmChannel,
    pub dir: GpioOutput,
    pub max_duty: u16,
    pub enabled: bool,
    pub dir_state: MotorDir,
}

impl Motor {
    pub fn new(pwm: PwmChannel, dir: GpioOutput) -> (m: Self)
        ensures
            m.pwm == pwm && m.dir == dir,
            m.max_duty == pwm.max,
            !m.enabled,
            m.dir_state == MotorDir::Forward,
    {
        let max_duty = pwm.max_duty();
        Motor { pwm, dir, max_duty, enabled: false, dir_state: MotorDir::Forward }
    }

    pub fn enable(&mut self)
        ensures
            *final(self) == (Motor { enabled: true, pwm: PwmChannel { duty: 0, ..old(self).pwm }, ..*old(self) }),
    {
        self.enabled = true;
        self.pwm.set_duty(0)
    }

    pub fn disable(&mut self)
        ensures
            *final(self) == (Motor { enabled: false, pwm: PwmChannel { duty: 0, ..old(self).pwm }, ..*old(self) }),
    {
        self.enabled = false;
        self.pwm.set_duty(0)
    }

    pub fn set_direction(&mut self, dir: MotorDir)
        ensures
            *final(self) == (Motor {
                dir_state: dir,
                dir: GpioOutput { high: dir == MotorDir::Reverse },
                ..*old(self)
            }),
    {
        self.dir_state = dir;
        match dir {
            MotorDir::Forward => self.dir.set_low(),
            MotorDir::Reverse => self.dir.set_high(),
        }
    }

    /// Speed in percent of full scale (above 100 means 100); zero while
    /// disabled.
    pub fn set_speed_percent(&mut self, percent: u8)
        ensures
            *final(self) == (Motor {
                pwm: PwmChannel {
                    duty: if !old(self).enabled {
                        0
                    } else {
                        (old(self).max_duty as int * (if percent > 100 { 100 } else { percent as int })
                            / 100) as u16
                    },
                    ..old(self).pwm
                },
                ..*old(self)
            }),
    {
        if !self.enabled {
            return self.pwm.set_duty(0);
        }
        let pct: u32 = if percent > 100 { 100 } else { percent as u32 };
        proof {
            assert(self.max_duty as int * pct as int / 100 <= self.max_duty) by (nonlinear_arith)
                requires
                    pct <= 100,
            ;
        }
        let duty = (self.max_duty as u32 * pct / 100) as u16;
        self.pwm.set_duty(duty)
    }
}

// ---------------------------------------------------------------------------
// Encoder
// ---------------------------------------------------------------------------

/// A quadrature encoder count (wraps on overflow).
#[derive(Clone, Copy, Debug, PartialEq, Eq)]
pub struct Encoder {
    pub count: i32,
}

impl Encoder {
    pub fn new() -> (e: Self)
        ensures
            e.count == 0,
    {
        Encoder { count: 0 }
    }

    pub fn reset(&mut self)
        ensures
            final(self).count == 0,
    {
        self.count = 0;
    }

    pub fn add(&mut self, delta: i32)
        ensures
            final(self).count == old(self).count.wrapping_add(delta),
    {
        self.count = self.count.wrapping_add(delta);
    }

    pub fn get(&self) -> (c: i32)
        ensures
            c == self.count,
    {
        self.count
    }
}

// ---------------------------------------------------------------------------
// Timers
// ---------------------------------------------------------------------------

#[derive(Clone, Copy, Debug, PartialEq, Eq, Structural)]
pub enum TimerMode {
    OneShot,
    Periodic,
}

#[derive(Clone, Copy, Debug, PartialEq, Eq, Structural)]
pub enum TimerError {
    Disabled,
    WrongAutoReload,
    InvalidPeriod,
}

/// The system tick as a timer device.
#[derive(Clone, Copy, Debug, PartialEq, Eq)]
pub struct SystemTimer;

impl SystemTimer {
    pub fn ticks_to_ms(&self, ticks: u32) -> (ms: u32)
        ensures
            ms == spec_ticks_to_ms(ticks),
    {
        ticks_to_ms(ticks)
    }

    pub fn ms_to_ticks(&self, ms: u32) -> (ticks: u32)
        ensures
            ticks == spec_ms_to_ticks(ms),
    {
        ms_to_ticks(ms)
    }
}

/// Bookkeeping of a hardware timer run at a frequency: the configured
/// frequency (never 0 once configured), the mode, and whether it runs.
#[derive(Clone, Copy, Debug, PartialEq, Eq)]
pub struct HardwareTimerState {
    pub period_hz: u32,
    pub mode: TimerMode,
    pub running: bool,
}

impl HardwareTimerState {
    pub fn new() -> (t: Self)
        ensures
            t == (HardwareTimerState { period_hz: 1, mode: TimerMode::Periodic, running: false }),
    {
        HardwareTimerState { period_hz: 1, mode: TimerMode::Periodic, running: false }
    }

    /// Set the frequency (0 is taken as 1) and the mode.
    pub fn configure(&mut self, period_ticks: u32, mode: TimerMode)
        ensures
            *final(self) == (HardwareTimerState {
                period_hz: if period_ticks == 0 { 1 } else { period_ticks },
                mode,
                ..*old(self)
            }),
    {
        self.period_hz = if period_ticks == 0 {
            1
        } else {
            period_ticks
        };
        self.mode = mode;
    }

    /// Record the outcome of starting the counter: a zero frequency is
    /// refused before the hardware is touched; otherwise the hardware's
    /// answer decides, and success marks the timer running.
    pub fn start_result(&mut self, hw: Result<(), TimerError>) -> (r: Result<(), TimerError>)
        ensures
            old(self).period_hz == 0 ==> r == Err::<(), TimerError>(TimerError::InvalidPeriod)
                && *final(self) == *old(self),
            old(self).period_hz != 0 ==> r == hw && *final(self) == (HardwareTimerState {
                running: old(self).running || hw is Ok,
                ..*old(self)
            }),
    {
        if self.period_hz == 0 {
            return Err(TimerError::InvalidPeriod);
        }
        if hw.is_ok() {
            self.running = true;
        }
        hw
    }

    /// A period elapsed: a one-shot timer stops.
    pub fn on_period(&mut self)
        ensures
            *final(self) == (HardwareTimerState {
                running: if old(self).mode == TimerMode::OneShot { false } else { old(self).running },
                ..*old(self)
            }),
    {
        if self.mode == TimerMode::OneShot {
            self.running = false;
        }
    }

    pub fn stop(&mut self)
        ensures
            *final(self) == (HardwareTimerState { running: false, ..*old(self) }),
    {
        self.running = false;
    }

    pub fn is_running(&self) -> (b: bool)
        ensures
            b == self.running,
    {
        self.running
    }
}

} // verus!
