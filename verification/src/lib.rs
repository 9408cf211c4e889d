//! A priority-preemptive task executor model for single-core
//! microcontrollers: a monotonic clock built from a wrapping hardware
//! counter, priority-ceiling resource cells, a dispatcher that always runs
//! the highest-priority pending task, and a timer-driven suspension engine.

pub mod buffer;
pub mod cell;
pub mod demo;
pub mod kernel;
pub mod task;
pub mod time;
