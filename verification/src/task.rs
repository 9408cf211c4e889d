//! Task descriptors: the static per-task metadata (priority, trigger line)
//! and the resumption state that the suspension engine drives.

use vstd::prelude::*;

verus! {

/// Highest priority level the interrupt controller offers. Priorities are
/// configured statically in `1..=MAX_PRIORITY`; 0 is the idle level.
pub const MAX_PRIORITY: u8 = 15;

/// Where a task stands between runs: the resumption state the dispatcher
/// consults when its trigger line fires.
#[derive(Clone, Copy, PartialEq, Eq, Structural, Debug)]
pub enum TaskState {
    /// Never dispatched since configuration.
    NotStarted,
    /// Sleeping until the recorded wake time; resumed by the timer.
    SuspendedUntil(u64),
    /// Sleeping until another task signals it.
    SuspendedOnEvent,
    /// Started and not yet finished: either holding the processor or
    /// preempted somewhere on the run stack.
    Running,
    /// Its body ran to the end; a fresh spawn starts it over.
    Completed,
}

/// Static configuration of one task, fixed before any interrupt is unmasked.
#[derive(Clone, Copy, PartialEq, Eq, Structural, Debug)]
pub struct TaskConfig {
    /// Static priority; higher preempts lower.
    pub priority: u8,
    /// Identity of the trigger line; two tasks that can be pending at
    /// the same time may not share one.
    pub trigger: u16,
}

/// One task's descriptor in the kernel's table.
#[derive(Clone, Copy, PartialEq, Eq, Structural, Debug)]
pub struct Task {
    /// Static priority; immutable after configuration.
    pub priority: u8,
    /// Identity of the trigger line.
    pub trigger: u16,
    /// Resumption state.
    pub state: TaskState,
    /// The trigger line's pending bit.
    pub pending: bool,
    /// Effective priority: the static priority, possibly raised to a
    /// resource ceiling while the task holds a lock.
    pub eff: u8,
}

/// A descriptor the kernel can trust: priority in the hardware range, the
/// effective priority only ever raised above the static one while running,
/// and a started task's pending bit clear (its line was consumed when it
/// was dispatched, and it cannot be spawned again until it finishes).
pub open spec fn task_wf(t: Task) -> bool {
    &&& 1 <= t.priority <= MAX_PRIORITY
    &&& t.priority <= t.eff <= MAX_PRIORITY
    &&& !(t.state is Running) ==> t.eff == t.priority
    &&& t.state is Running ==> !t.pending
}

/// Configuration defects; each prevents the system from starting.
#[derive(Clone, Copy, PartialEq, Eq, Structural, Debug)]
pub enum ConfigError {
    /// A task asked for priority 0 or one above the hardware range.
    PriorityOutOfRange,
    /// Two tasks claimed the same trigger line.
    TriggerShared,
}

} // verus!
