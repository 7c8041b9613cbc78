use cortexos::board::{
    pwm_compare, reset_reason_from_csr, timeout_ms_to_reload, Controls, Watchdog,
};
use cortexos::commands::{
    handle_command, CommandChannel, CommandPool, CommandReply, CMD_POOL_DEPTH,
};
use cortexos::diagnostics::ResetReason;
use cortexos::event::{Event, EventWaitStep};
use cortexos::kernel::Kernel;
use cortexos::mutex::{BlockingMutex, MutexAcquireStep, MutexError};
use cortexos::protocol::{LineAssembler, MAX_LINE_LEN};
use cortexos::scheduler::{MAX_TASKS, STACK_SENTINEL};
use cortexos::semaphore::{SemAcquireStep, Semaphore};
use cortexos::services::{create_default_tasks, diagnostics_due, report_due, TaskSpec};
use cortexos::systick::{delay_elapsed, ms_to_ticks, ticks_to_ms, time_after_eq};
use cortexos::tcb::TaskState;
use cortexos::uart::{io_health, rx_status_kind, RxStatusKind, UartPort};

const IDLE_SP: usize = 0x2000_0100;

fn kernel() -> Kernel {
    Kernel::init(0, IDLE_SP, 0x2000_0000, 0x2000_0200, 0x0800_0101)
}

/// Stack of task number `n`: 512 bytes, with the initial frame near the top.
fn spec_for(n: usize) -> TaskSpec {
    let start = 0x2000_1000 + n * 0x1000;
    TaskSpec { entry: 0x0800_1001 + n, stack_start: start, stack_end: start + 0x200, sp: start + 0x100 }
}

fn create(k: &mut Kernel, n: usize, prio: u8) -> usize {
    let s = spec_for(n);
    k.create_task(s.entry, n, s.stack_start, s.stack_end, s.sp, prio).expect("free slot")
}

fn state_of(k: &Kernel, pid: usize) -> TaskState {
    k.task_diagnostics(pid, &[]).expect("live task").state
}

fn empty_stacks() -> Vec<Vec<u32>> {
    vec![Vec::new(); MAX_TASKS]
}

#[test]
fn kernel_starts_most_urgent_task() {
    let mut k = kernel();
    let a = create(&mut k, 1, 3);
    let b = create(&mut k, 2, 1);
    let c = create(&mut k, 3, 2);
    assert_eq!((a, b, c), (1, 2, 3));
    let sp = k.start();
    assert_eq!(sp, spec_for(2).sp);
    assert_eq!(k.current_pid(), Some(b));
    assert_eq!(k.current_priority(), Some(1));
    assert_eq!(state_of(&k, b), TaskState::Running);
    assert_eq!(state_of(&k, a), TaskState::Ready);
}

#[test]
fn kernel_round_robin_after_time_slice() {
    let mut k = kernel();
    let a = create(&mut k, 1, 2);
    let b = create(&mut k, 2, 2);
    k.start();
    assert_eq!(k.current_pid(), Some(a));
    let _ = k.sched.take_switch_request();
    for _ in 0..9 {
        k.on_tick();
    }
    assert!(!k.sched.take_switch_request());
    k.on_tick();
    assert!(k.sched.take_switch_request());
    let sp = k.switch_context(spec_for(1).sp - 32);
    assert_eq!(sp, spec_for(2).sp);
    assert_eq!(k.current_pid(), Some(b));
    assert_eq!(state_of(&k, a), TaskState::Ready);
}

#[test]
fn kernel_sleeping_task_wakes_after_delay() {
    let mut k = kernel();
    let a = create(&mut k, 1, 1);
    k.start();
    k.sleep_ms(5);
    assert!(k.sched.take_switch_request());
    let sp = k.switch_context(spec_for(1).sp);
    assert_eq!(sp, IDLE_SP);
    assert_eq!(k.current_pid(), Some(0));
    for _ in 0..4 {
        k.on_tick();
    }
    assert_eq!(state_of(&k, a), TaskState::Sleeping);
    k.on_tick();
    assert_eq!(k.now_ticks(), 5);
    assert_eq!(state_of(&k, a), TaskState::Ready);
    assert!(k.sched.take_switch_request());
    k.switch_context(IDLE_SP);
    assert_eq!(k.current_pid(), Some(a));
}

#[test]
fn kernel_unblock_preempts_less_urgent_task() {
    let mut k = kernel();
    let a = create(&mut k, 1, 1);
    let b = create(&mut k, 2, 2);
    k.start();
    k.block_current(None);
    k.switch_context(spec_for(1).sp);
    assert_eq!(k.current_pid(), Some(b));
    assert_eq!(state_of(&k, a), TaskState::Blocked);
    assert!(k.unblock(a));
    assert!(!k.unblock(a));
    k.switch_context(spec_for(2).sp);
    assert_eq!(k.current_pid(), Some(a));
    assert_eq!(state_of(&k, b), TaskState::Ready);
}

#[test]
fn kernel_block_with_timeout_expires() {
    let mut k = kernel();
    let a = create(&mut k, 1, 1);
    k.start();
    k.block_current(Some(3));
    k.switch_context(spec_for(1).sp);
    k.on_tick();
    k.on_tick();
    assert_eq!(state_of(&k, a), TaskState::Blocked);
    k.on_tick();
    assert_eq!(state_of(&k, a), TaskState::Ready);
    assert_eq!(k.trace_counters().timeout_expirations, 1);
}

#[test]
fn kernel_delete_and_priority_changes() {
    let mut k = kernel();
    let a = create(&mut k, 1, 3);
    assert!(!k.delete_task(0));
    assert!(k.set_priority(a, 5));
    assert_eq!(k.task_priority(a), Some(5));
    assert!(!k.set_priority(a, 8));
    assert!(!k.set_priority(0, 2));
    assert!(k.delete_task(a));
    assert_eq!(k.task_priority(a), None);
    assert!(!k.delete_task(a));
    let mut buf = [usize::MAX; MAX_TASKS];
    assert_eq!(k.list_tasks(&mut buf), 1);
    assert_eq!(buf[0], 0);
}

#[test]
fn kernel_priority_boost_lends_and_returns() {
    let mut k = kernel();
    let a = create(&mut k, 1, 5);
    assert!(k.sched.add_priority_boost(a, 1, 0));
    assert_eq!(k.task_priority(a), Some(1));
    assert!(k.sched.remove_priority_boost(a, 1, 0));
    assert_eq!(k.task_priority(a), Some(5));
    assert!(!k.sched.remove_priority_boost(a, 1, 0));
}

#[test]
fn kernel_list_tasks_fills_in_pid_order() {
    let mut k = kernel();
    create(&mut k, 1, 1);
    create(&mut k, 2, 1);
    let mut small = [usize::MAX; 2];
    assert_eq!(k.list_tasks(&mut small), 2);
    assert_eq!(small, [0, 1]);
    let mut buf = [usize::MAX; MAX_TASKS];
    assert_eq!(k.list_tasks(&mut buf), 3);
    assert_eq!(&buf[..4], &[0, 1, 2, usize::MAX]);
}

#[test]
fn kernel_health_and_watchdog_feeding() {
    let mut k = kernel();
    let a = create(&mut k, 1, 1);
    let stacks = empty_stacks();
    let io = io_health(UartPort::new().app_stats());
    assert!(!k.feed_watchdog_if_healthy(io, &stacks));
    assert!(k.enable_watchdog(1000));
    assert_eq!(k.watchdog.reload, 624);
    // No heartbeat registered yet: not fed.
    assert!(!k.feed_watchdog_if_healthy(io, &stacks));
    assert!(k.register_task_heartbeat(a, 100));
    assert!(k.feed_watchdog_if_healthy(io, &stacks));
    assert_eq!(k.watchdog_feeds, 1);
    for _ in 0..101 {
        k.on_tick();
    }
    let h = k.system_health(io, &stacks);
    assert_eq!(h.live_tasks, 2);
    assert_eq!(h.registered_heartbeats, 1);
    assert_eq!(h.stale_tasks, 1);
    assert_eq!(h.stack_warning_tasks, 2);
    assert_eq!(h.uptime_ticks, 101);
    assert!(!k.feed_watchdog_if_healthy(io, &stacks));
    assert_eq!(k.watchdog_feeds, 1);
}

#[test]
fn kernel_stack_low_water_counts_fill_pattern() {
    let mut k = kernel();
    let a = create(&mut k, 1, 1);
    let mut stack = vec![STACK_SENTINEL; 100];
    stack.extend(vec![0u32; 28]);
    let d = k.task_diagnostics(a, &stack).unwrap();
    assert_eq!(d.stack_size_words, 128);
    assert_eq!(d.stack_free_low_water_words, 100);
    assert_eq!(d.stack_used_high_water_words, 28);
    let mut stacks = empty_stacks();
    stacks[0] = vec![STACK_SENTINEL; 100];
    stacks[a] = stack;
    let h = k.system_health(io_health(UartPort::new().app_stats()), &stacks);
    assert_eq!(h.stack_warning_tasks, 0);
}

#[test]
fn kernel_soft_timers_fire_and_rearm() {
    let mut k = kernel();
    assert_eq!(k.start_timer_periodic(0, 0x100, 1), None);
    let one = k.start_timer_oneshot(2, 0x200, 7).unwrap();
    let per = k.start_timer_periodic(3, 0x300, 9).unwrap();
    assert_eq!((one, per), (0, 1));
    k.on_tick();
    assert!(k.dispatch_timers().is_empty());
    k.on_tick();
    assert_eq!(k.dispatch_timers(), vec![(0x200, 7)]);
    k.on_tick();
    assert_eq!(k.dispatch_timers(), vec![(0x300, 9)]);
    for _ in 0..3 {
        k.on_tick();
    }
    assert_eq!(k.dispatch_timers(), vec![(0x300, 9)]);
    assert!(k.cancel_timer(per));
    assert!(!k.cancel_timer(per));
    assert!(!k.cancel_timer(99));
    for _ in 0..6 {
        k.on_tick();
    }
    assert!(k.dispatch_timers().is_empty());
}

#[test]
fn kernel_time_conversions() {
    let mut k = kernel();
    for _ in 0..1500 {
        k.on_tick();
    }
    assert_eq!(k.now(), 1500);
    assert_eq!(k.now_ms(), 1500);
    assert_eq!(ticks_to_ms(42), 42);
    assert_eq!(ms_to_ticks(u32::MAX), u32::MAX);
    assert!(time_after_eq(5, u32::MAX - 2));
    assert!(!time_after_eq(u32::MAX - 2, 5));
    assert!(delay_elapsed(u32::MAX - 1, 3, 5));
    assert!(!delay_elapsed(u32::MAX - 1, 2, 5));
}

#[test]
fn kernel_reset_reason_and_trace_hook() {
    let mut k = kernel();
    assert_eq!(k.reset_reason(), ResetReason::Unknown);
    k.set_reset_reason(ResetReason::IndependentWatchdog);
    assert_eq!(k.reset_reason().as_str(), "iwdg");
    k.set_trace_hook(true);
    let a = create(&mut k, 1, 2);
    let events = k.take_trace_events();
    assert_eq!(events.len(), 1);
    assert_eq!(events[0].pid, a);
    assert_eq!(events[0].aux, 2);
    assert_eq!(k.trace_counters().task_creates, 1);
    k.clear_trace_counters();
    assert_eq!(k.trace_counters().task_creates, 0);
}

#[test]
fn kernel_exit_current_frees_slot() {
    let mut k = kernel();
    let a = create(&mut k, 1, 1);
    k.start();
    k.exit_current();
    assert_eq!(k.task_priority(a), None);
    assert!(k.sched.take_switch_request());
    k.yield_now();
    assert!(k.sched.take_switch_request());
}

#[test]
fn default_tasks_created_in_priority_order() {
    let mut k = kernel();
    let pids = create_default_tasks(&mut k, spec_for(1), spec_for(2), spec_for(3), spec_for(4), 1000)
        .unwrap();
    // Command task is created first.
    assert_eq!(pids, [2, 1, 3, 4]);
    assert_eq!(k.task_priority(1), Some(1));
    assert_eq!(k.task_priority(2), Some(2));
    assert_eq!(k.task_priority(3), Some(3));
    assert_eq!(k.task_priority(4), Some(4));
    let h = k.system_health(io_health(UartPort::new().app_stats()), &empty_stacks());
    assert_eq!(h.registered_heartbeats, 4);
}

#[test]
fn default_tasks_fail_without_slots() {
    let mut k = kernel();
    for n in 1..6 {
        create(&mut k, n, 5);
    }
    assert_eq!(
        create_default_tasks(&mut k, spec_for(6), spec_for(7), spec_for(8), spec_for(9), 1000),
        None
    );
}

#[test]
fn health_report_timing() {
    assert!(!report_due(4999, 0));
    assert!(report_due(5000, 0));
    assert!(report_due(10, u32::MAX - 5000));
    let mut k = kernel();
    let h = k.system_health(io_health(UartPort::new().app_stats()), &empty_stacks());
    assert!(diagnostics_due(&h, 6000, 0));
    k.set_reset_reason(ResetReason::PowerOn);
    let stacks: Vec<Vec<u32>> = vec![vec![STACK_SENTINEL; 100]; MAX_TASKS];
    let h2 = k.system_health(io_health(UartPort::new().app_stats()), &stacks);
    assert!(!diagnostics_due(&h2, 6000, 0));
}

#[test]
fn semaphore_hands_token_to_waiter() {
    let mut k = kernel();
    let a = create(&mut k, 1, 1);
    let b = create(&mut k, 2, 2);
    k.start();
    let mut sem = Semaphore::<4>::new(0, 1);
    assert!(!sem.try_acquire());
    let step = sem.acquire(&mut k.sched, None, 0);
    assert_eq!(step, SemAcquireStep::Blocked(a));
    k.switch_context(spec_for(1).sp);
    assert_eq!(k.current_pid(), Some(b));
    assert!(sem.release(&mut k.sched, 0));
    assert_eq!(sem.available(), 0);
    assert_eq!(sem.resume_acquire(a, None), Some(Ok(())));
    assert!(sem.release(&mut k.sched, 0));
    assert!(!sem.release(&mut k.sched, 0));
    assert_eq!(sem.available(), 1);
    assert!(sem.try_acquire());
}

#[test]
fn mutex_boosts_owner_while_contended() {
    let mut k = kernel();
    let low = create(&mut k, 1, 4);
    k.start();
    let mut m = BlockingMutex::<u32, 4>::new(7);
    assert_eq!(m.acquire(&mut k.sched, None, 0), MutexAcquireStep::Done(Ok(())));
    assert_eq!(m.acquire(&mut k.sched, None, 0), MutexAcquireStep::Done(Err(MutexError::WouldDeadlock)));
    *m.with_owner(&k.sched).unwrap() = 9;
    let high = create(&mut k, 2, 1);
    k.switch_context(spec_for(1).sp);
    assert_eq!(k.current_pid(), Some(high));
    match m.acquire(&mut k.sched, None, 0) {
        MutexAcquireStep::Blocked(pid, _) => assert_eq!(pid, high),
        other => panic!("unexpected {:?}", other),
    }
    assert_eq!(k.task_priority(low), Some(1));
    assert_eq!(m.release(&mut k.sched, 0), Err(MutexError::NotOwner));
    k.switch_context(spec_for(2).sp);
    assert_eq!(k.current_pid(), Some(low));
    assert_eq!(m.release(&mut k.sched, 0), Ok(()));
    assert_eq!(k.task_priority(low), Some(4));
}

#[test]
fn event_wakes_every_waiter() {
    let mut k = kernel();
    let a = create(&mut k, 1, 1);
    let _b = create(&mut k, 2, 2);
    k.start();
    let mut ev = Event::<2>::new();
    assert!(!ev.is_set());
    let step = ev.wait(&mut k.sched, Some(10), 0);
    assert_eq!(step, EventWaitStep::Blocked(a, 0));
    k.switch_context(spec_for(1).sp);
    assert_eq!(ev.set(&mut k.sched, 0), 1);
    assert!(ev.is_set());
    assert_eq!(state_of(&k, a), TaskState::Ready);
    assert_eq!(ev.resume_wait(a, 0, Some(10)), Some(Ok(())));
    ev.clear();
    assert!(!ev.try_wait());
}

#[test]
fn uart_port_receive_and_transmit() {
    let mut k = kernel();
    let mut port = UartPort::new();
    assert!(!port.app_is_ready());
    assert_eq!(port.log_bytes(&mut k.sched, b"boot", 0), None);
    port.init_app_uart();
    assert!(port.app_is_ready());
    assert_eq!(rx_status_kind(0x20), RxStatusKind::Data);
    assert_eq!(rx_status_kind(0x22), RxStatusKind::Error);
    assert_eq!(rx_status_kind(0x40), RxStatusKind::Idle);
    assert!(port.service_rx(0x20, b'P'));
    assert!(port.service_rx(0x20, b'\n'));
    assert!(!port.service_rx(0x21, b'X'));
    assert!(!port.service_rx(0x20, b'Z'));
    assert!(!port.service_rx(0x20, b'\n'));
    assert!(port.service_rx(0x20, b'I'));
    port.finish_rx_irq(&mut k.sched, true, 0);
    assert!(port.rx_event.is_set());
    assert_eq!(port.app_read_byte(), Some(b'P'));
    assert_eq!(port.app_read_byte(), Some(b'\n'));
    assert_eq!(port.app_read_byte(), Some(b'I'));
    assert_eq!(port.app_read_byte(), None);
    assert_eq!(port.app_enqueue_tx_bytes(&mut k.sched, b"PONG\r\n", 0), 6);
    assert!(port.tx_event.is_set());
    assert_eq!(port.log_bytes(&mut k.sched, b"OK", 0), Some(2));
    assert_eq!(port.app_drain_tx(), b"PONG\r\nOK".to_vec());
    let s = port.app_stats();
    assert_eq!((s.rx_bytes, s.tx_bytes, s.rx_errors, s.rx_pending, s.tx_pending), (3, 8, 1, 0, 0));
    let io = io_health(s);
    assert_eq!(io.uart_tx_bytes, 8);
}

#[test]
fn uart_port_counts_overflows() {
    let mut k = kernel();
    let mut port = UartPort::new();
    port.init_app_uart();
    let big = vec![b'x'; 1030];
    assert_eq!(port.app_enqueue_tx_bytes(&mut k.sched, &big, 0), 1024);
    assert_eq!(port.app_stats().tx_overflows, 6);
    assert_eq!(port.app_enqueue_tx_bytes(&mut k.sched, b"y", 0), 0);
    assert_eq!(port.app_stats().tx_overflows, 7);
    for _ in 0..256 {
        assert!(port.service_rx(0x20, 1));
    }
    assert!(!port.service_rx(0x20, 2));
    assert_eq!(port.app_stats().rx_overflows, 1);
    assert_eq!(port.app_drain_tx().len(), 1024);
    assert_eq!(port.app_stats().tx_bytes, 1024);
}

#[test]
fn board_controls_refuse_before_init() {
    let mut c = Controls::new();
    assert!(!c.set_led(true));
    assert!(!c.toggle_led());
    assert!(!c.set_pwm_percent(50));
    c.init_hardware();
    assert!(c.led_available() && c.pwm_available());
    assert!(c.set_led(true));
    assert!(!c.pc13_high && c.pa1_high);
    assert!(c.toggle_led());
    assert!(c.pc13_high && !c.pa1_high);
    assert!(c.set_pwm_percent(50));
    assert_eq!(c.pwm_ccr, 500);
    assert!(c.set_pwm_percent(200));
    assert_eq!(c.pwm_ccr, 999);
    assert_eq!(pwm_compare(0), 0);
    assert_eq!(pwm_compare(99), 990);
}

#[test]
fn board_reset_reason_and_watchdog() {
    assert_eq!(reset_reason_from_csr(0), ResetReason::Unknown);
    assert_eq!(reset_reason_from_csr(1 << 26), ResetReason::PinReset);
    assert_eq!(reset_reason_from_csr((1 << 26) | (1 << 27)), ResetReason::PinReset);
    assert_eq!(reset_reason_from_csr(1 << 27), ResetReason::PowerOn);
    assert_eq!(reset_reason_from_csr((1 << 29) | (1 << 28)), ResetReason::IndependentWatchdog);
    assert_eq!(reset_reason_from_csr(1 << 30), ResetReason::WindowWatchdog);
    assert_eq!(reset_reason_from_csr(1 << 28), ResetReason::Software);
    assert_eq!(reset_reason_from_csr(1 << 31), ResetReason::LowPower);
    assert_eq!(timeout_ms_to_reload(0), 0);
    assert_eq!(timeout_ms_to_reload(1), 0);
    assert_eq!(timeout_ms_to_reload(1000), 624);
    assert_eq!(timeout_ms_to_reload(100_000), 0x0FFF);
    assert_eq!(timeout_ms_to_reload(u32::MAX), 0x0FFF);
    let mut w = Watchdog::new();
    assert!(!w.feed());
    assert!(w.start(2000));
    assert!(w.feed());
    assert_eq!(w.reload, 1249);
    w.reset_state();
    assert!(!w.feed());
}

#[test]
fn command_pool_allocates_and_frees() {
    let mut pool = CommandPool::new();
    assert_eq!(pool.alloc_command_slot(b"PING"), Some(0));
    assert_eq!(pool.alloc_command_slot(b"STAT"), Some(1));
    let mut out = [0u8; MAX_LINE_LEN];
    assert_eq!(pool.take_command(0, &mut out), Some(4));
    assert_eq!(&out[..4], b"PING");
    assert_eq!(pool.take_command(0, &mut out), None);
    assert_eq!(pool.take_command(CMD_POOL_DEPTH, &mut out), None);
    assert_eq!(pool.alloc_command_slot(b"LED ON"), Some(0));
    pool.free_command_slot(1);
    pool.free_command_slot(99);
    for i in 1..CMD_POOL_DEPTH {
        assert_eq!(pool.alloc_command_slot(b"x"), Some(i));
    }
    assert_eq!(pool.alloc_command_slot(b"y"), None);
}

#[test]
fn command_channel_delivers_lines_in_order() {
    let mut ch = CommandChannel::new();
    let mut assembler = LineAssembler::<MAX_LINE_LEN>::new();
    for b in b"PING\r\nECHO hi\n" {
        ch.accept_rx_byte(&mut assembler, *b);
    }
    let mut out = [0u8; MAX_LINE_LEN];
    assert_eq!(ch.recv_command(&mut out), Some(4));
    assert_eq!(&out[..4], b"PING");
    assert_eq!(ch.recv_command(&mut out), Some(7));
    assert_eq!(&out[..7], b"ECHO hi");
    assert_eq!(ch.recv_command(&mut out), None);
    for i in 0..CMD_POOL_DEPTH {
        assert!(ch.enqueue_command(&[b'a' + i as u8]));
    }
    assert!(!ch.enqueue_command(b"z"));
    for b in b"more\n" {
        ch.accept_rx_byte(&mut assembler, *b);
    }
    assert_eq!(ch.cmd_drops, 1);
    let long = vec![b'q'; MAX_LINE_LEN + 1];
    for b in long.iter() {
        ch.accept_rx_byte(&mut assembler, *b);
    }
    assert_eq!(ch.line_drops, 1);
}

#[test]
fn commands_reply_and_drive_controls() {
    let mut c = Controls::new();
    assert_eq!(handle_command(&mut c, b"PING"), CommandReply::Text("PONG"));
    assert_eq!(handle_command(&mut c, b"echo  hello world "), CommandReply::Echo("hello world"));
    assert_eq!(handle_command(&mut c, b"LED ON"), CommandReply::Text("ERR led_unavailable"));
    assert_eq!(handle_command(&mut c, b"PWM 10"), CommandReply::Text("ERR pwm_unavailable"));
    c.init_hardware();
    assert_eq!(handle_command(&mut c, b"LED ON"), CommandReply::Text("OK"));
    assert!(c.pa1_high);
    assert_eq!(handle_command(&mut c, b"led toggle"), CommandReply::Text("OK"));
    assert!(!c.pa1_high);
    assert_eq!(handle_command(&mut c, b"PWM 25"), CommandReply::Text("OK"));
    assert_eq!(c.pwm_ccr, 250);
    assert_eq!(handle_command(&mut c, b"STAT"), CommandReply::StatReport);
    assert_eq!(handle_command(&mut c, b"   "), CommandReply::Silent);
    assert_eq!(handle_command(&mut c, b"BOGUS"), CommandReply::Text("ERR unknown"));
    assert_eq!(handle_command(&mut c, b"LED blink"), CommandReply::Text("ERR led"));
    assert_eq!(handle_command(&mut c, b"PWM 101"), CommandReply::Text("ERR pwm"));
    assert_eq!(handle_command(&mut c, &[0xff, 0xfe]), CommandReply::Text("ERR utf8"));
}

#[test]
fn mutex_goes_to_most_urgent_waiter() {
    let mut k = kernel();
    let low = create(&mut k, 1, 5);
    k.start();
    let mut m = BlockingMutex::<u32, 4>::new(0);
    assert_eq!(m.acquire(&mut k.sched, None, 0), MutexAcquireStep::Done(Ok(())));
    let mid = create(&mut k, 2, 3);
    k.switch_context(spec_for(1).sp);
    assert_eq!(k.current_pid(), Some(mid));
    assert_eq!(m.acquire(&mut k.sched, None, 0), MutexAcquireStep::Blocked(mid, 3));
    assert_eq!(k.task_priority(low), Some(3));
    let high = create(&mut k, 3, 1);
    k.switch_context(spec_for(2).sp);
    assert_eq!(k.current_pid(), Some(high));
    assert_eq!(m.acquire(&mut k.sched, None, 0), MutexAcquireStep::Blocked(high, 1));
    assert_eq!(k.task_priority(low), Some(1));
    k.switch_context(spec_for(3).sp);
    assert_eq!(k.current_pid(), Some(low));
    assert_eq!(m.release(&mut k.sched, 0), Ok(()));
    assert_eq!(k.task_priority(low), Some(5));
    k.switch_context(spec_for(1).sp);
    assert_eq!(k.current_pid(), Some(high));
    assert!(m.with_owner(&k.sched).is_ok());
    assert_eq!(m.resume_acquire(&mut k.sched, high, 1, None, 0), Some(Ok(())));
}

#[test]
fn idle_task_is_never_queued_or_sliced() {
    let mut k = kernel();
    let sp = k.start();
    assert_eq!(sp, IDLE_SP);
    assert_eq!(k.current_pid(), Some(0));
    let slice = k.sched.tasks[0].unwrap().remaining_slice;
    for _ in 0..25 {
        k.on_tick();
    }
    let idle = k.sched.tasks[0].unwrap();
    assert_eq!(idle.state, TaskState::Running);
    assert_eq!(idle.remaining_slice, slice);
    assert!(!idle.in_ready_queue);
    assert!(!k.sched.take_switch_request());
    k.switch_context(IDLE_SP);
    assert_eq!(k.current_pid(), Some(0));
    assert!(!k.sched.tasks[0].unwrap().in_ready_queue);
}

#[test]
fn event_wait_survives_set_then_clear() {
    let mut k = kernel();
    let a = create(&mut k, 1, 1);
    k.start();
    let mut ev = Event::<1>::new();
    let step = ev.wait(&mut k.sched, None, 0);
    assert_eq!(step, EventWaitStep::Blocked(a, 0));
    k.switch_context(spec_for(1).sp);
    assert_eq!(ev.set(&mut k.sched, 0), 1);
    ev.clear();
    assert_eq!(ev.resume_wait(a, 0, None), Some(Ok(())));
    let mut busy = Event::<1>::new();
    k.switch_context(IDLE_SP);
    assert_eq!(k.current_pid(), Some(a));
    assert_eq!(busy.wait(&mut k.sched, None, 0), EventWaitStep::Blocked(a, 0));
    assert_eq!(busy.resume_wait(a, 0, None), None);
    assert_eq!(busy.wait(&mut k.sched, Some(5), 0), EventWaitStep::Blocked(a, 0));
    assert_eq!(busy.resume_wait(a, 0, Some(5)), Some(Err(cortexos::event::EventError::Timeout)));
}

#[test]
fn heartbeat_goes_stale_after_timeout() {
    let mut k = kernel();
    let a = create(&mut k, 1, 1);
    k.start();
    assert!(k.register_current_heartbeat(100));
    for _ in 0..50 {
        k.on_tick();
    }
    assert!(k.task_heartbeat());
    for _ in 0..100 {
        k.on_tick();
    }
    let d = k.task_diagnostics(a, &[]).unwrap();
    assert_eq!(d.heartbeat_age_ticks, 100);
    assert!(!d.heartbeat_stale);
    k.on_tick();
    assert!(k.task_diagnostics(a, &[]).unwrap().heartbeat_stale);
    k.delete_task(a);
    let mut idle_only = kernel();
    idle_only.start();
    assert!(!idle_only.task_heartbeat());
}

#[test]
fn ready_mask_names_most_urgent_priority() {
    let mut k = kernel();
    assert_eq!(cortexos::scheduler::ready::highest_ready_priority(k.sched.ready_mask), None);
    create(&mut k, 1, 6);
    create(&mut k, 2, 3);
    assert_eq!(cortexos::scheduler::ready::highest_ready_priority(k.sched.ready_mask), Some(3));
    k.start();
    assert_eq!(cortexos::scheduler::ready::highest_ready_priority(k.sched.ready_mask), Some(6));
}

#[test]
fn uart_error_drops_whole_line() {
    let mut port = UartPort::new();
    port.init_app_uart();
    let mut ch = CommandChannel::new();
    let mut assembler = LineAssembler::<MAX_LINE_LEN>::new();
    let mut out = [0u8; MAX_LINE_LEN];
    // The receiving task has already taken the start of the damaged line.
    for &b in b"AB" {
        assert!(port.service_rx(0x20, b));
    }
    while ch.pump_rx(&mut port, &mut assembler) {}
    assert!(!port.service_rx(0x22, b'?'));
    for &b in b"CD\n" {
        assert!(!port.service_rx(0x20, b));
    }
    for &b in b"PING\n" {
        assert!(port.service_rx(0x20, b));
    }
    while ch.pump_rx(&mut port, &mut assembler) {}
    let n = ch.recv_command(&mut out).expect("one line");
    assert_eq!(&out[..n], b"PING");
    assert_eq!(ch.recv_command(&mut out), None);
    // The start of the damaged line is still in the ring: it is taken back.
    for &b in b"ST" {
        assert!(port.service_rx(0x20, b));
    }
    assert!(!port.service_rx(0x28, 0));
    for &b in b"AT\nSTAT\n" {
        port.service_rx(0x20, b);
    }
    while ch.pump_rx(&mut port, &mut assembler) {}
    let n = ch.recv_command(&mut out).expect("one line");
    assert_eq!(&out[..n], b"STAT");
    assert_eq!(ch.recv_command(&mut out), None);
    assert_eq!(port.app_stats().rx_errors, 2);
}

#[test]
fn semaphore_release_wakes_waiter_when_handover_full() {
    let mut k = kernel();
    let a = create(&mut k, 1, 1);
    let b = create(&mut k, 2, 2);
    let _c = create(&mut k, 3, 3);
    k.start();
    let mut sem = Semaphore::<1>::new(0, 0);
    assert_eq!(sem.acquire(&mut k.sched, None, 0), SemAcquireStep::Blocked(a));
    k.switch_context(spec_for(1).sp);
    assert_eq!(k.current_pid(), Some(b));
    assert!(sem.release(&mut k.sched, 0));
    assert_eq!(sem.acquire(&mut k.sched, None, 0), SemAcquireStep::Blocked(b));
    k.switch_context(spec_for(2).sp);
    assert_eq!(k.current_pid(), Some(a));
    // b waits, the hand-over queue is full and the count is at its maximum.
    assert!(sem.release(&mut k.sched, 0));
    assert_eq!(sem.available(), 0);
    assert_eq!(state_of(&k, b), TaskState::Ready);
}

#[test]
fn unblocking_idle_changes_nothing() {
    let mut k = kernel();
    let _a = create(&mut k, 1, 1);
    k.start();
    let mask = k.sched.ready_mask;
    assert!(!k.unblock(0));
    assert_eq!(k.sched.ready_mask, mask);
    assert!(!k.sched.tasks[0].unwrap().in_ready_queue);
}

#[test]
fn sleep_longer_than_wheel_turn_wakes_on_time() {
    let mut k = kernel();
    let a = create(&mut k, 1, 1);
    let b = create(&mut k, 2, 2);
    k.start();
    k.sleep_ms(261);
    k.switch_context(spec_for(1).sp);
    assert_eq!(k.current_pid(), Some(b));
    k.sleep_ms(5);
    k.switch_context(spec_for(2).sp);
    assert_eq!(k.current_pid(), Some(0));
    for _ in 0..5 {
        k.on_tick();
    }
    assert_eq!(state_of(&k, b), TaskState::Ready);
    for _ in 5..260 {
        k.on_tick();
    }
    assert_eq!(state_of(&k, a), TaskState::Sleeping);
    k.on_tick();
    assert_eq!(k.now_ticks(), 261);
    assert_eq!(state_of(&k, a), TaskState::Ready);
}

#[test]
fn event_stays_set_until_cleared() {
    let mut k = kernel();
    let a = create(&mut k, 1, 1);
    k.start();
    let mut ev = Event::<2>::new();
    ev.set(&mut k.sched, 0);
    assert_eq!(ev.wait(&mut k.sched, None, 0), EventWaitStep::Done(Ok(())));
    assert_eq!(ev.wait(&mut k.sched, Some(5), 0), EventWaitStep::Done(Ok(())));
    assert!(ev.try_wait());
    assert!(ev.try_wait());
    ev.clear();
    assert!(!ev.try_wait());
    assert_eq!(k.current_pid(), Some(a));
}

#[test]
fn mutex_boost_lasts_until_wait_times_out() {
    let mut k = kernel();
    let low = create(&mut k, 1, 4);
    k.start();
    let mut m = BlockingMutex::<u32, 4>::new(0);
    assert_eq!(m.acquire(&mut k.sched, None, 0), MutexAcquireStep::Done(Ok(())));
    let high = create(&mut k, 2, 1);
    k.switch_context(spec_for(1).sp);
    assert_eq!(k.current_pid(), Some(high));
    assert_eq!(m.acquire(&mut k.sched, Some(3), 0), MutexAcquireStep::Blocked(high, 1));
    k.switch_context(spec_for(2).sp);
    assert_eq!(k.current_pid(), Some(low));
    for _ in 0..2 {
        k.on_tick();
        assert_eq!(k.task_priority(low), Some(1));
    }
    k.on_tick();
    assert_eq!(state_of(&k, high), TaskState::Ready);
    assert_eq!(k.task_priority(low), Some(1));
    let now = k.now_ticks();
    assert_eq!(m.resume_acquire(&mut k.sched, high, 1, Some(3), now), Some(Err(MutexError::Timeout)));
    assert_eq!(k.task_priority(low), Some(4));
}
