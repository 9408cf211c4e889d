//! The example tasks the executor was built to run: a blinking output on
//! a timed loop, a higher-priority task that preempts it, and a
//! button-interrupt counter drained by a periodic task. Each task's logic
//! is a step function from resumption state and inputs to outputs and the
//! next suspension; the hardware actions (toggling the pin, clearing the
//! interrupt flag, logging) are the caller's.

use vstd::prelude::*;
use crate::task::TaskConfig;
use crate::time::TICK_HZ;

verus! {

/// Milliseconds between LED toggles of the blink task.
pub const BLINK_PERIOD_MS: u64 = 500;

/// Milliseconds the higher-priority task sleeps before each busy segment.
pub const HP_PERIOD_MS: u64 = 2000;

/// Relies on fugit::Duration::<u64, 1, 1000>::secs and Duration::ticks:
/// at the 1 kHz tick rate a duration of `s` seconds spans `s * 1000`
/// ticks (the conversion multiplies and would overflow beyond that).
#[verifier::external_body]
fn secs_to_ticks_raw(s: u64) -> (r: u64)
    requires
        s <= u64::MAX / 1000,
    ensures
        r == s * 1000,
{
    fugit::Duration::<u64, 1, 1000>::secs(s).ticks()
}

/// Relies on fugit::Duration::<u64, 1, 1000>::millis and Duration::ticks:
/// at the 1 kHz tick rate one tick lasts exactly one millisecond.
#[verifier::external_body]
fn millis_to_ticks_raw(ms: u64) -> (r: u64)
    ensures
        r == ms,
{
    fugit::Duration::<u64, 1, 1000>::millis(ms).ticks()
}

/// Ticks in one second at the clock's rate.
pub fn one_second_ticks() -> (r: u64)
    ensures
        r == TICK_HZ,
{
    secs_to_ticks_raw(1)
}

/// One blink cycle: the task read the clock at `t`; it toggles its output
/// and sleeps until `t` plus its period, so the toggles stay on the
/// 500-millisecond grid however late the task was dispatched.
pub fn blink_step(led_on: bool, t: u64) -> (r: (bool, u64))
    requires
        t + BLINK_PERIOD_MS <= u64::MAX,
    ensures
        r.0 == !led_on,
        r.1 == t + BLINK_PERIOD_MS,
{
    let period = millis_to_ticks_raw(BLINK_PERIOD_MS);
    (!led_on, t + period)
}

/// Resume point of the higher-priority task: about to sleep for the first
/// time, or cycling between busy segments.
#[derive(Clone, Copy, PartialEq, Eq, Structural, Debug)]
pub enum HpPhase {
    Startup,
    Cycling,
}

/// What one dispatch of the higher-priority task does before it suspends
/// again: whether it runs its bounded busy segment first, and how long it
/// then sleeps.
#[derive(Clone, Copy, PartialEq, Eq, Structural, Debug)]
pub struct HpStep {
    pub busy: bool,
    pub sleep_ticks: u64,
    pub next: HpPhase,
}

/// The higher-priority task's loop body: on its first dispatch it only
/// goes to sleep; on every later one it busy-computes for a bounded
/// stretch and sleeps again.
pub fn higher_priority_step(phase: HpPhase) -> (r: HpStep)
    ensures
        r.sleep_ticks == HP_PERIOD_MS,
        r.busy == (phase is Cycling),
        r.next is Cycling,
{
    let sleep_ticks = secs_to_ticks_raw(2);
    match phase {
        HpPhase::Startup => HpStep { busy: false, sleep_ticks, next: HpPhase::Cycling },
        HpPhase::Cycling => HpStep { busy: true, sleep_ticks, next: HpPhase::Cycling },
    }
}

/// A single-word event counter, the narrow special case beside the
/// general resource cell: the hardware updates such a word with one
/// atomic instruction, so an interrupt handler may bump it and a periodic
/// task may drain it without raising a ceiling.
pub struct EventCounter {
    count: u64,
}

impl EventCounter {
    pub closed spec fn count_spec(self) -> u64 {
        self.count
    }

    pub fn new() -> (c: EventCounter)
        ensures
            c.count_spec() == 0,
    {
        EventCounter { count: 0 }
    }

    /// Record one event: the interrupt handler's increment.
    pub fn record(&mut self)
        requires
            old(self).count_spec() < u64::MAX,
        ensures
            final(self).count_spec() == old(self).count_spec() + 1,
    {
        self.count = self.count + 1;
    }

    /// Take the accumulated count and reset it: the periodic task's
    /// swap-to-zero read.
    pub fn drain(&mut self) -> (c: u64)
        ensures
            c == old(self).count_spec(),
            final(self).count_spec() == 0,
    {
        let c = self.count;
        self.count = 0;
        c
    }
}

/// What the button interrupt handler decided: whether the edge was
/// counted, and that the line's pending flag is to be cleared either way.
#[derive(Clone, Copy, PartialEq, Eq, Structural, Debug)]
pub struct ExtiOutcome {
    pub counted: bool,
    pub clear_line: bool,
}

/// The button interrupt handler's logic: an edge that came from the
/// button bumps the counter, any other source is only logged; the pending
/// flag is cleared on every path.
pub fn on_exti_step(is_button: bool, counter: &mut EventCounter) -> (r: ExtiOutcome)
    requires
        old(counter).count_spec() < u64::MAX,
    ensures
        r.counted == is_button,
        r.clear_line,
        is_button ==> final(counter).count_spec() == old(counter).count_spec() + 1,
        !is_button ==> final(counter).count_spec() == old(counter).count_spec(),
{
    if is_button {
        counter.record();
        ExtiOutcome { counted: true, clear_line: true }
    } else {
        ExtiOutcome { counted: false, clear_line: true }
    }
}

/// One cycle of the counting blink task: drain the counter for the log,
/// toggle the output, and sleep one second from the time it read.
pub fn counting_blink_step(led_on: bool, t: u64, counter: &mut EventCounter) -> (r: (bool, u64, u64))
    requires
        t + TICK_HZ <= u64::MAX,
    ensures
        r.0 == !led_on,
        r.1 == t + TICK_HZ,
        r.2 == old(counter).count_spec(),
        final(counter).count_spec() == 0,
{
    let c = counter.drain();
    let period = one_second_ticks();
    (!led_on, t + period, c)
}

/// The preemption demo's task table: the blink task at priority 1 and the
/// higher-priority task at 2, each on a dispatch line of its own; ties on
/// a level go by the fixed vector order, which is the table order.
pub fn preempt_config() -> (cfg: Vec<TaskConfig>)
    ensures
        cfg@.len() == 2,
        cfg@[0] == (TaskConfig { priority: 1, trigger: 0 }),
        cfg@[1] == (TaskConfig { priority: 2, trigger: 1 }),
{
    let mut cfg: Vec<TaskConfig> = Vec::new();
    cfg.push(TaskConfig { priority: 1, trigger: 0 });
    cfg.push(TaskConfig { priority: 2, trigger: 1 });
    cfg
}

/// The shared-buffer demo's task table: blink at priority 1, the producer
/// at 2, the consumer at 3. The buffer cell's ceiling is the maximum of
/// its accessors' priorities, 3.
pub fn shared_config() -> (cfg: Vec<TaskConfig>)
    ensures
        cfg@.len() == 3,
        cfg@[0] == (TaskConfig { priority: 1, trigger: 0 }),
        cfg@[1] == (TaskConfig { priority: 2, trigger: 1 }),
        cfg@[2] == (TaskConfig { priority: 3, trigger: 2 }),
{
    let mut cfg: Vec<TaskConfig> = Vec::new();
    cfg.push(TaskConfig { priority: 1, trigger: 0 });
    cfg.push(TaskConfig { priority: 2, trigger: 1 });
    cfg.push(TaskConfig { priority: 3, trigger: 2 });
    cfg
}

} // verus!
