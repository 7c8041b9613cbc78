use vstd::prelude::*;

pub mod protocol;
pub mod mqueue;
pub mod ringbuf;
pub mod waitqueue;
pub mod semaphore;
pub mod mutex;
pub mod event;
pub mod soft_timer;
pub mod systick;
pub mod tcb;
pub mod diagnostics;
pub mod scheduler;
pub mod uart;
pub mod board;
pub mod kernel;
pub mod commands;
pub mod services;
pub mod bench;
pub mod devices;
pub mod memory;
pub mod laws;
pub mod deadline;
pub mod behaviour;
pub mod frame;
pub mod probe;
pub mod logbuf;
pub mod selftest;

verus! {
}
