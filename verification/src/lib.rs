//! The trap-and-scheduling core of a small multitasking kernel for one ARM
//! core, written as a verified state machine: the loader, the task table and
//! its round-robin scheduler, the system-call dispatcher, the timer, the
//! interrupt-controller bookkeeping and the trap handler that ties them
//! together. Hardware access stays with the caller, which feeds trap events in
//! and carries the returned actions out.

pub mod config;
pub mod context;
pub mod memory;
pub mod loader;
pub mod task;
pub mod timer;
pub mod gicv2;
pub mod syscall;
pub mod trap;
pub mod run_queue;
pub mod fairness;
pub mod traces;
