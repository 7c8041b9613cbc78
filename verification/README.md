# CortexOS

A small `no_std`-style RTOS for Cortex-M boards without an MPU, and its default
UART control application, with the kernel and application logic verified by
Verus.

## Layout

- `src/` — the verified library
  - `scheduler` (+ `scheduler/`): task table, priority-bitmap ready queues,
    timeout wheel, time slicing, context switch, priority boosts, diagnostics
  - `kernel`: the kernel as one value — scheduler, software timers, tick
    counter, reset cause, watchdog policy and system health
  - `waitqueue`, `semaphore`, `mutex` (priority inheritance), `event`
  - `ringbuf`, `mqueue`: fixed-size FIFOs
  - `soft_timer`, `systick`: timers and tick arithmetic
  - `protocol`: line assembly and command parsing of the UART protocol
  - `commands`, `services`: command buffers and queue, command handling,
    creation of the service tasks, report timing
  - `uart`, `board`: application UART state and counters, LED/PWM controls,
    reset-cause decoding, watchdog reload computation
  - `devices`, `memory`, `frame`, `probe`, `bench`: device models, memory map
    and block pool, initial task context, UART probe line echo, benchmark
    statistics
  - `laws`: properties relating several operations
  - `deadline`: the timeout wheel wakes every waiting task exactly at its
    deadline, however far ahead
- `tests/` — tests of the library
- `app/` — the firmware shell for the STM32F103 board: register I/O, interrupt
  handlers, task loops, logging and report formatting
