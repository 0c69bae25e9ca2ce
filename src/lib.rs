//! A preemptive round-robin task scheduler for a single-core microcontroller,
//! stated over a word-addressed model of each task's private stack region and of
//! the processor registers that a context switch moves.

pub mod frame;
pub mod cpu;
pub mod task;
pub mod pool;
