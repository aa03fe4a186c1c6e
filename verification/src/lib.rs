//! A model of a small x86_64 microkernel: a preemptive round-robin
//! scheduler with per-thread kernel stacks and page tables, a monotonic
//! microsecond clock calibrated from PIT interrupts, a rendezvous message
//! channel, and a filesystem client library that talks to file servers
//! over a mount table.
//!
//! Hardware effects (CR3 switches, the interrupt stack table, the time
//! stamp counter) are carried as plain fields of the kernel state, so the
//! logic that manipulates them is stated and proved as ordinary functions
//! of that state.

pub mod fs;
pub mod message;
pub mod rendezvous;
pub mod sched;
pub mod time;
