use ceiling_exec::demo::{preempt_config, shared_config};
use ceiling_exec::kernel::{DelayOutcome, Kernel};
use ceiling_exec::task::{ConfigError, TaskConfig, TaskState, MAX_PRIORITY};

#[test]
fn init_accepts_demo_configs() {
    assert!(Kernel::init(&preempt_config()).is_ok());
    assert!(Kernel::init(&shared_config()).is_ok());
}

#[test]
fn init_rejects_priority_zero() {
    let cfg = vec![TaskConfig { priority: 0, trigger: 0 }];
    assert!(matches!(Kernel::init(&cfg), Err(ConfigError::PriorityOutOfRange)));
}

#[test]
fn init_rejects_priority_above_range() {
    let cfg = vec![
        TaskConfig { priority: 1, trigger: 0 },
        TaskConfig { priority: MAX_PRIORITY + 1, trigger: 1 },
    ];
    assert!(matches!(Kernel::init(&cfg), Err(ConfigError::PriorityOutOfRange)));
}

#[test]
fn init_rejects_shared_trigger() {
    let cfg = vec![
        TaskConfig { priority: 1, trigger: 4 },
        TaskConfig { priority: 2, trigger: 4 },
    ];
    assert!(matches!(Kernel::init(&cfg), Err(ConfigError::TriggerShared)));
}

#[test]
fn spawn_is_idempotent() {
    let mut k = Kernel::init(&preempt_config()).unwrap();
    assert!(k.spawn(0));
    let before = k.tasks.clone();
    assert!(!k.spawn(0));
    assert_eq!(k.tasks, before);
    // One coalesced pending state dispatches exactly once.
    assert_eq!(k.dispatch(), Some(0));
    k.complete();
    assert_eq!(k.dispatch(), None);
}

#[test]
fn dispatch_prefers_higher_priority() {
    let mut k = Kernel::init(&preempt_config()).unwrap();
    k.spawn(0);
    k.spawn(1);
    assert_eq!(k.dispatch(), Some(1));
    k.complete();
    assert_eq!(k.dispatch(), Some(0));
}

#[test]
fn dispatch_breaks_ties_by_vector_order() {
    let cfg = vec![
        TaskConfig { priority: 2, trigger: 0 },
        TaskConfig { priority: 2, trigger: 1 },
    ];
    let mut k = Kernel::init(&cfg).unwrap();
    k.spawn(1);
    k.spawn(0);
    assert_eq!(k.dispatch(), Some(0));
}

#[test]
fn higher_priority_preempts_running_task() {
    let mut k = Kernel::init(&preempt_config()).unwrap();
    k.spawn(0);
    assert_eq!(k.dispatch(), Some(0));
    k.spawn(1);
    assert_eq!(k.dispatch(), Some(1));
    assert_eq!(k.stack, vec![0, 1]);
    k.complete();
    // The preempted task is back on top and continues.
    assert_eq!(k.stack, vec![0]);
    assert_eq!(k.tasks[0].state, TaskState::Running);
}

#[test]
fn equal_priority_never_preempts() {
    let cfg = vec![
        TaskConfig { priority: 2, trigger: 0 },
        TaskConfig { priority: 2, trigger: 1 },
    ];
    let mut k = Kernel::init(&cfg).unwrap();
    k.spawn(0);
    assert_eq!(k.dispatch(), Some(0));
    k.spawn(1);
    assert_eq!(k.dispatch(), None);
    k.complete();
    assert_eq!(k.dispatch(), Some(1));
}

#[test]
fn delay_until_past_deadline_is_zero_length() {
    let mut k = Kernel::init(&preempt_config()).unwrap();
    k.spawn(0);
    k.dispatch();
    k.advance_to(100);
    assert_eq!(k.delay_until(100), DelayOutcome::Elapsed);
    assert_eq!(k.tasks[0].state, TaskState::Running);
    assert_eq!(k.armed, None);
}

#[test]
fn timer_is_armed_for_nearest_deadline() {
    let mut k = Kernel::init(&preempt_config()).unwrap();
    k.spawn(0);
    k.spawn(1);
    assert_eq!(k.dispatch(), Some(1));
    assert_eq!(k.delay_until(2000), DelayOutcome::Suspended);
    assert_eq!(k.armed, Some(2000));
    assert_eq!(k.dispatch(), Some(0));
    assert_eq!(k.delay_until(500), DelayOutcome::Suspended);
    assert_eq!(k.armed, Some(500));
}

#[test]
fn timer_fire_wakes_only_elapsed_deadlines() {
    let mut k = Kernel::init(&preempt_config()).unwrap();
    k.spawn(0);
    k.spawn(1);
    k.dispatch();
    k.delay_until(2000);
    k.dispatch();
    k.delay_until(500);
    k.advance_to(500);
    k.timer_fire();
    assert!(k.tasks[0].pending);
    assert!(!k.tasks[1].pending);
    assert_eq!(k.armed, Some(2000));
    assert_eq!(k.tasks[1].state, TaskState::SuspendedUntil(2000));
}

#[test]
fn timer_fire_wakes_simultaneous_deadlines_together() {
    let mut k = Kernel::init(&preempt_config()).unwrap();
    k.spawn(0);
    k.spawn(1);
    k.dispatch();
    k.delay_until(1000);
    k.dispatch();
    k.delay_until(1000);
    k.advance_to(1000);
    k.timer_fire();
    assert!(k.tasks[0].pending && k.tasks[1].pending);
    assert_eq!(k.armed, None);
    // Normal priority ordering decides the run order: no special case.
    assert_eq!(k.dispatch(), Some(1));
}

#[test]
fn ceiling_blocks_contender_until_release() {
    let mut k = Kernel::init(&shared_config()).unwrap();
    // The producer (priority 2) runs and locks the buffer cell (ceiling 3).
    k.spawn(1);
    assert_eq!(k.dispatch(), Some(1));
    let prev = k.acquire(3);
    assert_eq!(prev, 2);
    // Mid-update the consumer (priority 3) becomes pending: it may touch
    // the cell, so it must not run while the section is open.
    k.spawn(2);
    assert_eq!(k.dispatch(), None);
    // A task above every ceiling still preempts; none exists here.
    k.release(prev);
    assert_eq!(k.dispatch(), Some(2));
}

#[test]
fn locks_nest_and_never_block_in_either_order() {
    // Two cells with ceilings 2 and 3; the running task may take them in
    // both orders without ever waiting: acquisition is immediate.
    let mut k = Kernel::init(&shared_config()).unwrap();
    k.spawn(1);
    assert_eq!(k.dispatch(), Some(1));
    let a = k.acquire(2);
    let b = k.acquire(3);
    k.release(b);
    k.release(a);
    assert_eq!(k.tasks[1].eff, 2);
    let b2 = k.acquire(3);
    let a2 = k.acquire(2);
    assert_eq!(k.tasks[1].eff, 3);
    k.release(a2);
    k.release(b2);
    assert_eq!(k.tasks[1].eff, 2);
    k.complete();
    assert_eq!(k.tasks[1].state, TaskState::Completed);
}

#[test]
fn idle_system_dispatches_nothing() {
    let mut k = Kernel::init(&preempt_config()).unwrap();
    assert_eq!(k.dispatch(), None);
    assert_eq!(k.armed, None);
}

#[test]
fn event_wait_is_resumed_by_a_signal() {
    let mut k = Kernel::init(&preempt_config()).unwrap();
    k.spawn(0);
    assert_eq!(k.dispatch(), Some(0));
    k.await_event();
    assert_eq!(k.tasks[0].state, TaskState::SuspendedOnEvent);
    assert_eq!(k.dispatch(), None);
    assert!(k.signal(0));
    // A second signal before the dispatch coalesces, like a spawn.
    assert!(!k.signal(0));
    assert_eq!(k.dispatch(), Some(0));
    assert_eq!(k.tasks[0].state, TaskState::Running);
}
