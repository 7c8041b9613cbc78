use cortexos::bench::{
    compute_context_stats, cycles_per_tick, cycles_to_us, delay_within_tolerance,
    percentile_nearest_rank, BenchState, FourPhaseCleanBreakdown, MutexSpikeAttribution,
    PercentileStats, Stats, TwoPhaseCleanBreakdown, ValidationStats, BENCH_SAMPLES, STAGE_SLEEP,
};
use cortexos::devices::{
    DigitalSensor, Encoder, GpioInput, GpioOutput, HardwareTimerState, Motor, MotorDir,
    PwmChannel, SystemTimer, TimerError, TimerMode,
};
use cortexos::frame::{init_stack_frame, start_frame_ok, INITIAL_XPSR};
use cortexos::logbuf::{LogBuffer, LOG_BUF_SIZE};
use cortexos::kernel::Kernel;
use cortexos::memory::{layout, MemLayout, PoolError, StaticPool, FLASH_SIZE, RAM_SIZE};
use cortexos::probe::{count_to, ProbeAction, ProbeLine};
use cortexos::systick::{ms_to_ticks, ticks_to_ms};
use cortexos::tcb::TaskState;

#[test]
fn stats_track_min_max_sum_count() {
    let mut s = Stats::new();
    assert_eq!(s.avg(), 0);
    assert_eq!(s.normalized(), Stats { min: 0, max: 0, sum: 0, count: 0 });
    for x in [5u32, 2, 9] {
        s.update(x);
    }
    assert_eq!(s, Stats { min: 2, max: 9, sum: 16, count: 3 });
    assert_eq!(s.avg(), 5);
    s.update(u32::MAX);
    assert_eq!(s.sum, u32::MAX);
    assert_eq!(s.normalized(), s);
}

#[test]
fn validation_stats_tally() {
    let mut v = ValidationStats::new();
    assert_eq!(v.normalized(), ValidationStats { pass: 0, fail: 0, min_ticks: 0, max_ticks: 0 });
    v.observe(5, true);
    v.observe(7, false);
    assert_eq!(v, ValidationStats { pass: 1, fail: 1, min_ticks: 5, max_ticks: 7 });
    let mut only_fail = ValidationStats::new();
    only_fail.observe(u32::MAX, false);
    assert_eq!(only_fail.normalized().min_ticks, 0);
    assert!(delay_within_tolerance(10, 10));
    assert!(delay_within_tolerance(11, 10));
    assert!(!delay_within_tolerance(12, 10));
    assert!(!delay_within_tolerance(9, 10));
    assert!(delay_within_tolerance(u32::MAX, u32::MAX));
}

#[test]
fn percentiles_use_nearest_rank() {
    assert_eq!(percentile_nearest_rank(&[], 50), 0);
    let sorted: Vec<u32> = (1..=10).collect();
    assert_eq!(percentile_nearest_rank(&sorted, 50), 5);
    assert_eq!(percentile_nearest_rank(&sorted, 95), 10);
    assert_eq!(percentile_nearest_rank(&sorted, 0), 1);
    assert_eq!(percentile_nearest_rank(&[7], 95), 7);
}

#[test]
fn context_stats_skip_warmup_and_sort() {
    let mut samples = vec![0u32; BENCH_SAMPLES];
    samples[0] = 1_000_000;
    let values = [30u32, 10, 20, 50, 40];
    samples[1..6].copy_from_slice(&values);
    let p = compute_context_stats(&samples, 6);
    assert_eq!(p.skipped, 1);
    assert_eq!(p.stats, Stats { min: 10, max: 50, sum: 150, count: 5 });
    assert_eq!(p.p50, 30);
    assert_eq!(p.p95, 50);
    assert_eq!(compute_context_stats(&samples, 1), PercentileStats::empty());
    assert_eq!(compute_context_stats(&samples, 0), PercentileStats::empty());
    let all = compute_context_stats(&samples, 5000);
    assert_eq!(all.stats.count, (BENCH_SAMPLES - 1) as u32);
}

#[test]
fn spike_attribution_classifies_samples() {
    let mut a = MutexSpikeAttribution::new(100);
    a.observe(50, 1, 0);
    a.observe(150, 0, 0);
    a.observe(300, 1, 1);
    assert_eq!(a.overlap_samples, 2);
    assert_eq!(a.spikes, 2);
    assert_eq!(a.clean_spikes, 1);
    assert_eq!(a.irq_spikes, 1);
    assert_eq!((a.systick_spikes, a.tim2_spikes), (1, 1));
    assert_eq!((a.max_clean_spike_cy, a.max_irq_spike_cy), (150, 300));
}

#[test]
fn phase_breakdowns_pick_dominant_phase() {
    let mut two = TwoPhaseCleanBreakdown::new();
    two.observe(5, 5);
    two.observe(1, 9);
    assert_eq!((two.clean_spikes, two.first_dominant, two.second_dominant), (2, 1, 1));
    assert_eq!((two.max_first_cy, two.max_second_cy), (5, 9));
    let mut four = FourPhaseCleanBreakdown::new();
    four.observe(1, 7, 7, 3);
    four.observe(2, 1, 1, 8);
    four.observe(4, 4, 4, 4);
    assert_eq!(
        (four.first_dominant, four.second_dominant, four.third_dominant, four.fourth_dominant),
        (1, 1, 0, 1)
    );
    assert_eq!(four.max_fourth_cy, 8);
}

#[test]
fn cycle_conversions() {
    assert_eq!(cycles_per_tick(8_000_000), 8_000);
    assert_eq!(cycles_to_us(8_000, 8_000_000), 1_000);
    assert_eq!(cycles_to_us(123, 0), 0);
    assert_eq!(ticks_to_ms(ms_to_ticks(1234)), 1234);
}

#[test]
fn bench_state_bookkeeping() {
    let mut b = BenchState::new();
    assert_eq!(b.task_b_pid(), None);
    b.register_boot_tasks(1, 2);
    assert_eq!(b.task_b_pid(), Some(2));
    assert_eq!(b.task_a_pid, 1);
    assert!(b.idle_allows_wfi());
    b.stage = STAGE_SLEEP;
    assert!(!b.idle_allows_wfi());
}

#[test]
fn gpio_and_sensor_levels() {
    let mut out = GpioOutput::new(false);
    out.set_high();
    assert!(out.is_set_high());
    out.toggle();
    assert!(!out.is_set_high());
    out.set_low();
    out.toggle();
    assert!(out.high);
    let input = GpioInput::new(true);
    assert!(input.is_high() && !input.is_low());
    assert!(DigitalSensor::new(input).is_active());
    assert!(!DigitalSensor::new(GpioInput::new(false)).is_active());
}

#[test]
fn pwm_channel_duty_math() {
    let mut pwm = PwmChannel::new(1000);
    assert_eq!(pwm.max_duty(), 1000);
    pwm.set_duty_percent(25);
    assert_eq!(pwm.duty, 250);
    pwm.set_duty_fraction(1, 3);
    assert_eq!(pwm.duty, 333);
    pwm.set_duty(7);
    assert_eq!(pwm.duty, 7);
    let mut big = PwmChannel::new(u16::MAX);
    big.set_duty_percent(200);
    assert_eq!(big.duty, ((u16::MAX as u32 * 200 / 100) as u16));
}

#[test]
fn motor_speed_and_direction() {
    let mut m = Motor::new(PwmChannel::new(2000), GpioOutput::new(true));
    assert_eq!(m.max_duty, 2000);
    m.set_speed_percent(50);
    assert_eq!(m.pwm.duty, 0);
    m.enable();
    m.set_speed_percent(50);
    assert_eq!(m.pwm.duty, 1000);
    m.set_speed_percent(150);
    assert_eq!(m.pwm.duty, 2000);
    m.set_direction(MotorDir::Reverse);
    assert!(m.dir.high);
    m.set_direction(MotorDir::Forward);
    assert!(!m.dir.high);
    assert_eq!(m.dir_state, MotorDir::Forward);
    m.disable();
    assert_eq!(m.pwm.duty, 0);
    assert!(!m.enabled);
}

#[test]
fn encoder_counts_and_wraps() {
    let mut e = Encoder::new();
    e.add(5);
    e.add(-7);
    assert_eq!(e.get(), -2);
    e.reset();
    e.add(i32::MAX);
    e.add(1);
    assert_eq!(e.get(), i32::MIN);
}

#[test]
fn hardware_timer_bookkeeping() {
    let mut t = HardwareTimerState::new();
    assert!(!t.is_running());
    t.configure(0, TimerMode::OneShot);
    assert_eq!(t.period_hz, 1);
    assert_eq!(t.start_result(Err(TimerError::WrongAutoReload)), Err(TimerError::WrongAutoReload));
    assert!(!t.is_running());
    assert_eq!(t.start_result(Ok(())), Ok(()));
    assert!(t.is_running());
    t.on_period();
    assert!(!t.is_running());
    t.configure(100, TimerMode::Periodic);
    t.start_result(Ok(())).unwrap();
    t.on_period();
    assert!(t.is_running());
    t.stop();
    assert!(!t.is_running());
    let sys = SystemTimer;
    assert_eq!(sys.ms_to_ticks(20), 20);
    assert_eq!(sys.ticks_to_ms(20), 20);
}

#[test]
fn memory_layout_ends() {
    let l = MemLayout::new(0x0800_0000, 0x1_0000, 0x2000_0000, 0x5000, 0x2000_5000);
    assert_eq!(l.flash_end(), 0x0801_0000);
    assert_eq!(l.ram_end(), 0x2000_5000);
    let d = layout(0x2001_0000);
    assert_eq!(d.flash_end(), 0x0800_0000 + FLASH_SIZE);
    assert_eq!(d.ram_end(), 0x2000_0000 + RAM_SIZE);
}

#[test]
fn static_pool_allocates_blocks() {
    let mut pool = StaticPool::<12, 3>::new(0x1000);
    assert_eq!((pool.block_size(), pool.block_count(), pool.available()), (12, 3, 3));
    assert_eq!(pool.allocate(0, 4), Err(PoolError::OutOfMemory));
    assert_eq!(pool.allocate(13, 4), Err(PoolError::OutOfMemory));
    assert_eq!(pool.allocate(4, 16), Err(PoolError::InvalidLayout));
    assert_eq!(pool.allocate(4, 0), Err(PoolError::InvalidLayout));
    assert_eq!(pool.allocate(12, 8), Ok(0x1000));
    assert_eq!(pool.allocate(1, 1), Ok(0x1010));
    assert_eq!(pool.alloc_for::<u64>(), Ok(0x1020));
    assert_eq!(pool.alloc_for::<u32>(), Err(PoolError::OutOfMemory));
    assert_eq!(pool.alloc_for::<[u8; 16]>(), Err(PoolError::OutOfMemory));
    assert_eq!(pool.available(), 0);
    assert_eq!(pool.free_ptr(0), Err(PoolError::InvalidLayout));
    assert_eq!(pool.free_ptr(0x1008), Err(PoolError::InvalidLayout));
    assert_eq!(pool.free_ptr(0x1030), Err(PoolError::InvalidLayout));
    assert_eq!(pool.free_ptr(0x0FF0), Err(PoolError::InvalidLayout));
    assert_eq!(pool.free_ptr(0x1010), Ok(()));
    assert_eq!(pool.available(), 1);
    assert_eq!(pool.allocate(2, 2), Ok(0x1010));
}

#[test]
fn stack_frame_layout() {
    let (sp, words) = init_stack_frame(0x2000_0000, 0x2000_0207, 0x0800_1234, 42, 0x0800_4000).unwrap();
    assert_eq!(sp, 0x2000_0200 - 64);
    assert_eq!(&words[..8], &[0u32; 8]);
    assert_eq!(words[8], 42);
    assert_eq!(words[13], 0x0800_4001);
    assert_eq!(words[14], 0x0800_1235);
    assert_eq!(words[15], INITIAL_XPSR);
    assert_eq!(init_stack_frame(0x2000_0000, 0x2000_003F, 1, 0, 1), None);
    assert!(init_stack_frame(0x2000_0000, 0x2000_0040, 1, 0, 1).is_some());
    assert_eq!(init_stack_frame(0, 10, 1, 0, 1), None);
}

#[test]
fn probe_line_echo() {
    let mut p = ProbeLine::new();
    assert_eq!(p.push_byte(b'\r'), ProbeAction::Quiet);
    for b in b"hi" {
        assert_eq!(p.push_byte(*b), ProbeAction::Quiet);
    }
    assert_eq!(p.push_byte(b'\n'), ProbeAction::EchoLine(2));
    assert_eq!(&p.buf[..2], b"hi");
    for _ in 0..128 {
        assert_eq!(p.push_byte(b'x'), ProbeAction::Quiet);
    }
    assert_eq!(p.push_byte(b'y'), ProbeAction::Overflow);
    assert_eq!(p.push_byte(b'\n'), ProbeAction::Quiet);
    assert_eq!(count_to(0, 3), (1, false));
    assert_eq!(count_to(2, 3), (0, true));
}

#[test]
fn timeout_wraparound_wakes_on_time() {
    let now = u32::MAX - 2;
    let mut k = Kernel::init(now, 0x2000_0100, 0x2000_0000, 0x2000_0200, 0x0800_0101);
    let pid = k.create_task(0x0800_2001, 0, 0x2000_1000, 0x2000_1200, 0x2000_1100, 1).unwrap();
    k.start();
    k.sleep_ms(5);
    k.switch_context(0x2000_1100);
    for _ in 0..4 {
        k.on_tick();
        assert_eq!(k.task_diagnostics(pid, &[]).unwrap().state, TaskState::Sleeping);
    }
    k.on_tick();
    assert_eq!(k.now(), 2);
    let d = k.task_diagnostics(pid, &[]).unwrap();
    assert_eq!(d.state, TaskState::Ready);
    assert_eq!(d.wake_tick, 0);
}

#[test]
fn log_buffer_hands_on_lines() {
    let mut b = LogBuffer::new();
    assert!(b.pending().is_empty());
    assert!(!b.push(b'o'));
    assert!(!b.push(b'k'));
    assert!(b.push(b'\n'));
    assert_eq!(b.pending(), b"ok\n");
    assert_eq!(b.handed_on(2), Err(()));
    assert_eq!(b.pending(), b"ok\n");
    assert_eq!(b.handed_on(3), Ok(()));
    assert!(b.pending().is_empty());
    for _ in 0..LOG_BUF_SIZE {
        assert!(!b.is_full());
        b.push(b'x');
    }
    assert!(b.is_full());
}

#[test]
fn timeout_wheel_self_check_passes() {
    assert!(cortexos::selftest::bench_validate_timeout_wraparound());
}

#[test]
fn first_context_sanity_check() {
    let (sp, words) = init_stack_frame(0x2000_0000, 0x2000_0200, 0x0800_1000, 0, 0x0800_2000).unwrap();
    assert!(start_frame_ok(sp, words[14], words[15]));
    assert!(!start_frame_ok(0, words[14], words[15]));
    assert!(!start_frame_ok(sp + 4, words[14], words[15]));
    assert!(!start_frame_ok(sp, 0x0800_1000, words[15]));
    assert!(!start_frame_ok(sp, words[14], 0));
}

#[test]
fn probe_line_starts_empty_and_zeroed() {
    let p = ProbeLine::new();
    assert_eq!(p.len, 0);
    assert!(p.buf.iter().all(|&b| b == 0));
}

#[test]
fn pool_block_round_trip() {
    let mut pool = StaticPool::<12, 3>::new(0x1000);
    assert_eq!(pool.available(), 3);
    let p = pool.allocate(12, 4).expect("block");
    assert_eq!(pool.available(), 2);
    assert_eq!(pool.free_ptr(p), Ok(()));
    assert_eq!(pool.available(), 3);
    assert_eq!(pool.allocate(12, 4), Ok(p));
    assert_eq!(pool.free_ptr(0), Err(PoolError::InvalidLayout));
    assert_eq!(pool.free_ptr(p + 1), Err(PoolError::InvalidLayout));
    assert_eq!(pool.available(), 2);
}

#[test]
fn pool_block_freed_after_other_calls() {
    let mut pool = StaticPool::<12, 3>::new(0x1000);
    let p = pool.allocate(8, 8).expect("block");
    let q = pool.allocate(8, 8).expect("block");
    assert_eq!(pool.free_ptr(q), Ok(()));
    let r = pool.allocate(12, 1).expect("block");
    assert_eq!(r, q);
    assert_eq!(pool.allocate(0, 8), Err(PoolError::OutOfMemory));
    assert_eq!(pool.free_ptr(0x2000), Err(PoolError::InvalidLayout));
    let a = pool.available();
    assert_eq!(pool.free_ptr(p), Ok(()));
    assert_eq!(pool.available(), a + 1);
}
