//! The dispatcher and suspension engine: a model of the processor's
//! interrupt controller driving a fixed table of prioritized tasks. The
//! kernel records, for each task, its pending bit and resumption state; the
//! run stack holds the started tasks, the preempted ones below the one that
//! holds the processor.

use vstd::prelude::*;
use crate::task::{Task, TaskState, TaskConfig, ConfigError, task_wf, MAX_PRIORITY};

verus! {

/// Whether the running task stayed on the processor after a delay request
/// or gave it up until the timer fires.
#[derive(Clone, Copy, PartialEq, Eq, Structural, Debug)]
pub enum DelayOutcome {
    /// The deadline had already passed: a zero-length delay, no suspension.
    Elapsed,
    /// The task left the processor; the timer will make it pending again.
    Suspended,
}

/// The executor's whole state.
pub struct Kernel {
    /// The static task table; a task's index is its identity.
    pub tasks: Vec<Task>,
    /// Started tasks, in preemption order: each entry was preempted by the
    /// one above it, and the last entry holds the processor.
    pub stack: Vec<usize>,
    /// The extended monotonic time most recently fed to the kernel.
    pub now: u64,
    /// The deadline the hardware compare interrupt is armed for, always the
    /// nearest outstanding one, or `None` when no deadline is outstanding.
    pub armed: Option<u64>,
}

/// The task table after a spawn request for task `t`: only the pending bit
/// of `t`'s trigger line is set, whether or not it already was.
pub open spec fn spawn_tasks(tasks: Seq<Task>, t: int) -> Seq<Task> {
    tasks.update(t, (Task { pending: true, ..tasks[t] }))
}

/// Every configured priority lies in the hardware range.
pub open spec fn config_priorities_ok(cfg: Seq<TaskConfig>) -> bool {
    forall|i: int| 0 <= i < cfg.len() ==> 1 <= (#[trigger] cfg[i]).priority <= MAX_PRIORITY
}

/// No two tasks share a trigger line.
pub open spec fn config_triggers_distinct(cfg: Seq<TaskConfig>) -> bool {
    forall|i: int, j: int| 0 <= i < j < cfg.len()
        ==> (#[trigger] cfg[i]).trigger != (#[trigger] cfg[j]).trigger
}

/// The descriptor a task starts from: nothing pending, never dispatched,
/// effective priority equal to the static one.
pub open spec fn fresh_task(c: TaskConfig) -> Task {
    Task {
        priority: c.priority,
        trigger: c.trigger,
        state: TaskState::NotStarted,
        pending: false,
        eff: c.priority,
    }
}

impl Kernel {
    pub open spec fn valid_idx(self, t: int) -> bool {
        0 <= t < self.tasks@.len()
    }

    pub open spec fn task(self, t: int) -> Task {
        self.tasks@[t]
    }

    /// A task is ready when its trigger line is pending and it is not
    /// already started: the interrupt controller could deliver it.
    pub open spec fn ready(self, t: int) -> bool {
        self.valid_idx(t) && self.task(t).pending && !(self.task(t).state is Running)
    }

    /// The task currently holding the processor (meaningful only while the
    /// run stack is non-empty).
    pub open spec fn running_task(self) -> int {
        self.stack@.last() as int
    }

    /// The processor's effective priority: that of the running task, or the
    /// idle level 0 when nothing runs.
    pub open spec fn cur_eff(self) -> u8 {
        if self.stack@.len() == 0 {
            0u8
        } else {
            self.task(self.running_task()).eff
        }
    }

    /// The controller delivers a pending line only when its priority beats
    /// the processor's current effective priority.
    pub open spec fn can_preempt(self, t: int) -> bool {
        self.ready(t) && self.task(t).priority > self.cur_eff()
    }

    /// The line the dispatcher must choose among the ready ones: highest
    /// priority; ties go to the lowest vector position.
    pub open spec fn best_ready(self, t: int) -> bool {
        &&& self.ready(t)
        &&& forall|e: int| #[trigger] self.ready(e)
            ==> self.task(e).priority < self.task(t).priority
                || (self.task(e).priority == self.task(t).priority && t <= e)
    }

    /// A deadline is outstanding while its task sleeps on the timer and has
    /// not been woken yet.
    pub open spec fn outstanding(self, t: int) -> bool {
        self.valid_idx(t) && self.task(t).state is SuspendedUntil && !self.task(t).pending
    }

    /// The wake time a sleeping task registered.
    pub open spec fn deadline_of(self, t: int) -> u64 {
        self.task(t).state->SuspendedUntil_0
    }

    /// Every descriptor in the table is trustworthy.
    pub open spec fn tasks_wf(self) -> bool {
        forall|t: int| self.valid_idx(t) ==> task_wf(#[trigger] self.task(t))
    }

    /// The run stack mirrors the hardware's preemption record: exactly the
    /// started tasks, and each entry outprioritizes the effective priority
    /// of everything below it, so the top always holds the processor.
    pub open spec fn stack_wf(self) -> bool {
        &&& forall|j: int| 0 <= j < self.stack@.len()
            ==> self.valid_idx(#[trigger] self.stack@[j] as int)
                && self.task(self.stack@[j] as int).state is Running
        &&& forall|t: int| self.valid_idx(t) && (#[trigger] self.task(t)).state is Running
            ==> self.stack@.contains(t as usize)
        &&& forall|i: int, j: int| 0 <= i < j < self.stack@.len()
            ==> self.task(#[trigger] self.stack@[i] as int).eff
                < self.task(#[trigger] self.stack@[j] as int).priority
    }

    /// The compare interrupt is armed for the minimum outstanding deadline,
    /// or disarmed when none is outstanding.
    pub open spec fn armed_wf(self) -> bool {
        match self.armed {
            None => forall|t: int| !(#[trigger] self.outstanding(t)),
            Some(d) => {
                &&& forall|t: int| #[trigger] self.outstanding(t) ==> d <= self.deadline_of(t)
                &&& exists|t: int| #[trigger] self.outstanding(t) && self.deadline_of(t) == d
            },
        }
    }

    pub open spec fn wf(self) -> bool {
        self.tasks_wf() && self.stack_wf() && self.armed_wf()
    }

    /// Build a kernel from a static task configuration, rejecting the
    /// configuration defects that must prevent the system from starting:
    /// a priority outside the hardware range, or a trigger line claimed by
    /// two tasks. Succeeds exactly on defect-free configurations.
    pub fn init(cfg: &Vec<TaskConfig>) -> (r: Result<Kernel, ConfigError>)
        ensures
            r is Ok <==> config_priorities_ok(cfg@) && config_triggers_distinct(cfg@),
            match r {
                Ok(k) => {
                    &&& k.wf()
                    &&& k.tasks@.len() == cfg@.len()
                    &&& forall|t: int| 0 <= t < cfg@.len()
                        ==> #[trigger] k.task(t) == fresh_task(cfg@[t])
                    &&& forall|t: int| 0 <= t < cfg@.len()
                        ==> #[trigger] k.tasks@[t] == fresh_task(cfg@[t])
                    &&& k.stack@.len() == 0
                    &&& k.now == 0
                    &&& k.armed is None
                },
                Err(e) => {
                    &&& (e == ConfigError::PriorityOutOfRange <==> !config_priorities_ok(cfg@))
                    &&& (e == ConfigError::TriggerShared
                        <==> config_priorities_ok(cfg@) && !config_triggers_distinct(cfg@))
                },
            },
    {
        let n = cfg.len();
        let mut i: usize = 0;
        while i < n
            invariant
                n == cfg@.len(),
                i <= n,
                forall|k: int| 0 <= k < i ==> 1 <= (#[trigger] cfg@[k]).priority <= MAX_PRIORITY,
            decreases n - i,
        {
            if cfg[i].priority < 1 || cfg[i].priority > MAX_PRIORITY {
                proof {
                    assert(!(1 <= cfg@[i as int].priority <= MAX_PRIORITY));
                }
                return Err(ConfigError::PriorityOutOfRange);
            }
            i = i + 1;
        }
        assert(config_priorities_ok(cfg@));
        let mut a: usize = 0;
        while a < n
            invariant
                n == cfg@.len(),
                a <= n,
                config_priorities_ok(cfg@),
                forall|i2: int, j2: int| 0 <= i2 < j2 < cfg@.len() && i2 < a
                    ==> (#[trigger] cfg@[i2]).trigger != (#[trigger] cfg@[j2]).trigger,
            decreases n - a,
        {
            let mut b: usize = a + 1;
            while b < n
                invariant
                    n == cfg@.len(),
                    a < n,
                    a < b <= n,
                    config_priorities_ok(cfg@),
                    forall|j2: int| a < j2 < b ==> (#[trigger] cfg@[j2]).trigger != cfg@[a as int].trigger,
                decreases n - b,
            {
                if cfg[b].trigger == cfg[a].trigger {
                    proof {
                        assert(cfg@[a as int].trigger == cfg@[b as int].trigger);
                        assert(!config_triggers_distinct(cfg@));
                    }
                    return Err(ConfigError::TriggerShared);
                }
                b = b + 1;
            }
            proof {
                assert forall|i2: int, j2: int|
                    0 <= i2 < j2 < cfg@.len() && i2 < a + 1
                    implies (#[trigger] cfg@[i2]).trigger != (#[trigger] cfg@[j2]).trigger by {
                    if i2 == a as int {
                        assert(cfg@[j2].trigger != cfg@[a as int].trigger);
                    }
                }
            }
            a = a + 1;
        }
        assert(config_triggers_distinct(cfg@));
        let mut tasks: Vec<Task> = Vec::new();
        let mut t: usize = 0;
        while t < n
            invariant
                n == cfg@.len(),
                t <= n,
                tasks@.len() == t,
                forall|k: int| 0 <= k < t ==> #[trigger] tasks@[k] == fresh_task(cfg@[k]),
            decreases n - t,
        {
            tasks.push(Task {
                priority: cfg[t].priority,
                trigger: cfg[t].trigger,
                state: TaskState::NotStarted,
                pending: false,
                eff: cfg[t].priority,
            });
            t = t + 1;
        }
        let k = Kernel { tasks, stack: Vec::new(), now: 0, armed: None };
        proof {
            assert forall|t2: int| k.valid_idx(t2) implies task_wf(#[trigger] k.task(t2)) by {
                assert(k.task(t2) == fresh_task(cfg@[t2]));
                assert(1 <= cfg@[t2].priority <= MAX_PRIORITY);
            }
            assert forall|t2: int| k.valid_idx(t2)
                implies !((#[trigger] k.task(t2)).state is Running) by {
                assert(k.task(t2) == fresh_task(cfg@[t2]));
            }
            assert forall|t2: int| !(#[trigger] k.outstanding(t2)) by {
                if k.valid_idx(t2) {
                    assert(k.task(t2) == fresh_task(cfg@[t2]));
                }
            }
        }
        Ok(k)
    }

    /// Mark a task's trigger line pending, making it eligible for dispatch.
    /// Spawning an already-pending task is idempotent: the second request
    /// is coalesced, the task will run once. The result reports whether the
    /// request was new; a dropped duplicate is the caller's to log. A task
    /// that is started or sleeping cannot be spawned: a started one keeps
    /// the processor until it finishes, a sleeping one is woken by its
    /// timer or its event, never by a spawn.
    pub fn spawn(&mut self, t: usize) -> (newly: bool)
        requires
            old(self).valid_idx(t as int),
            old(self).task(t as int).state is NotStarted || old(self).task(t as int).state is Completed,
        ensures
            final(self).tasks@ == spawn_tasks(old(self).tasks@, t as int),
            final(self).stack@ == old(self).stack@,
            final(self).now == old(self).now,
            final(self).armed == old(self).armed,
            newly == !old(self).task(t as int).pending,
            old(self).task(t as int).pending ==> final(self).tasks@ == old(self).tasks@,
            old(self).wf() ==> final(self).wf(),
    {
        let was: bool = self.tasks[t].pending;
        let mut task = self.tasks[t];
        task.pending = true;
        self.tasks[t] = task;
        proof {
            assert(self.tasks@ =~= spawn_tasks(old(self).tasks@, t as int));
            if old(self).task(t as int).pending {
                assert(self.tasks@ =~= old(self).tasks@);
            }
            if old(self).wf() {
                assert forall|t2: int| self.valid_idx(t2) implies task_wf(#[trigger] self.task(t2)) by {
                    assert(task_wf(old(self).task(t2)));
                }
                assert forall|t2: int| self.valid_idx(t2) && (#[trigger] self.task(t2)).state is Running
                    implies self.stack@.contains(t2 as usize) by {
                    assert(old(self).task(t2).state is Running);
                }
                assert forall|j: int| 0 <= j < self.stack@.len()
                    implies self.valid_idx(#[trigger] self.stack@[j] as int)
                        && self.task(self.stack@[j] as int).state is Running by {
                    assert(old(self).task(old(self).stack@[j] as int).state is Running);
                }
                assert forall|t2: int| #[trigger] self.outstanding(t2)
                    implies old(self).outstanding(t2)
                        && self.deadline_of(t2) == old(self).deadline_of(t2) by {}
                assert forall|t2: int| old(self).outstanding(t2)
                    implies #[trigger] self.outstanding(t2) by {
                    assert(t2 != t as int);
                }
                if let Some(d) = self.armed {
                    let w = choose|t2: int| old(self).outstanding(t2) && old(self).deadline_of(t2) == d;
                    assert(self.outstanding(w) && self.deadline_of(w) == d);
                }
            }
        }
        !was
    }

    /// Exec mirror of `cur_eff`.
    pub fn current_eff(&self) -> (e: u8)
        requires
            self.wf(),
        ensures
            e == self.cur_eff(),
    {
        if self.stack.len() == 0 {
            0
        } else {
            let top = self.stack[self.stack.len() - 1];
            self.tasks[top].eff
        }
    }

    /// Find the line the dispatcher must serve next: the highest-priority
    /// ready task, ties going to the lowest vector position.
    pub fn highest_ready(&self) -> (r: Option<usize>)
        ensures
            match r {
                Some(t) => self.best_ready(t as int),
                None => forall|e: int| !(#[trigger] self.ready(e)),
            },
    {
        let n = self.tasks.len();
        let mut best: Option<usize> = None;
        let mut i: usize = 0;
        while i < n
            invariant
                n == self.tasks@.len(),
                i <= n,
                match best {
                    Some(b) => {
                        &&& (b as int) < i
                        &&& self.ready(b as int)
                        &&& forall|e: int| 0 <= e < i && #[trigger] self.ready(e)
                            ==> self.task(e).priority < self.task(b as int).priority
                                || (self.task(e).priority == self.task(b as int).priority
                                    && b as int <= e)
                    },
                    None => forall|e: int| 0 <= e < i ==> !(#[trigger] self.ready(e)),
                },
            decreases n - i,
        {
            let ti = self.tasks[i];
            let is_ready = ti.pending && !matches!(ti.state, TaskState::Running);
            if is_ready {
                match best {
                    None => {
                        best = Some(i);
                    },
                    Some(b) => {
                        if self.tasks[i].priority > self.tasks[b].priority {
                            best = Some(i);
                        }
                    },
                }
            }
            i = i + 1;
        }
        best
    }

    /// The core scheduling decision, taken on every interrupt entry or task
    /// completion: if the best ready line beats the processor's current
    /// effective priority, start or resume that task (its pending bit is
    /// consumed); otherwise change nothing, whatever was running continues,
    /// and an empty result with an empty run stack means the system idles.
    pub fn dispatch(&mut self) -> (r: Option<usize>)
        requires
            old(self).wf(),
        ensures
            final(self).wf(),
            match r {
                Some(t) => {
                    &&& old(self).best_ready(t as int)
                    &&& old(self).can_preempt(t as int)
                    &&& final(self).tasks@ == old(self).tasks@.update(t as int, (Task {
                        pending: false,
                        state: TaskState::Running,
                        eff: old(self).task(t as int).priority,
                        ..old(self).task(t as int)
                    }))
                    &&& final(self).stack@ == old(self).stack@.push(t)
                    &&& final(self).now == old(self).now
                    &&& final(self).armed == old(self).armed
                },
                None => {
                    &&& *final(self) == *old(self)
                    &&& forall|e: int| !(#[trigger] old(self).can_preempt(e))
                },
            },
    {
        let best = self.highest_ready();
        match best {
            None => {
                assert(forall|e: int| !(#[trigger] self.can_preempt(e)));
                None
            },
            Some(t) => {
                let ce = self.current_eff();
                if self.tasks[t].priority > ce {
                    let ghost old_self = *self;
                    let mut task = self.tasks[t];
                    task.pending = false;
                    task.state = TaskState::Running;
                    task.eff = task.priority;
                    self.tasks[t] = task;
                    self.stack.push(t);
                    proof {
                        lemma_dispatch_preserves_wf(old_self, *self, t);
                    }
                    Some(t)
                } else {
                    assert forall|e: int| !(#[trigger] self.can_preempt(e)) by {
                        if self.ready(e) {
                            assert(self.task(e).priority <= self.task(t as int).priority);
                        }
                    }
                    None
                }
            },
        }
    }

    /// Feed the kernel a fresh reading of the monotonic clock. Time never
    /// regresses.
    pub fn advance_to(&mut self, t: u64)
        requires
            old(self).wf(),
            t >= old(self).now,
        ensures
            final(self).wf(),
            final(self).now == t,
            final(self).tasks@ == old(self).tasks@,
            final(self).stack@ == old(self).stack@,
            final(self).armed == old(self).armed,
    {
        self.now = t;
        proof {
            lemma_same_tasks_same_wf(*old(self), *self);
        }
    }

    /// The running task's body came to its end: mark it completed, pop it
    /// off the run stack, and give the processor back to whatever it had
    /// preempted, which continues exactly where it stopped.
    pub fn complete(&mut self)
        requires
            old(self).wf(),
            old(self).stack@.len() > 0,
        ensures
            final(self).wf(),
            final(self).tasks@ == old(self).tasks@.update(old(self).running_task(), (Task {
                state: TaskState::Completed,
                eff: old(self).task(old(self).running_task()).priority,
                ..old(self).task(old(self).running_task())
            })),
            final(self).stack@ == old(self).stack@.drop_last(),
            final(self).now == old(self).now,
            final(self).armed == old(self).armed,
    {
        let rt = self.stack[self.stack.len() - 1];
        self.stack.pop();
        let mut task = self.tasks[rt];
        task.state = TaskState::Completed;
        task.eff = task.priority;
        self.tasks[rt] = task;
        proof {
            lemma_complete_preserves_wf(*old(self), *self, rt);
        }
    }

    /// The running task asked to sleep until `deadline`: if the deadline
    /// has already passed, treat it as a zero-length delay and keep the
    /// processor; otherwise record the deadline, arm the compare interrupt
    /// for the nearest outstanding deadline, and leave the processor. A
    /// task may not hold a resource lock across a suspension point: its
    /// effective priority must be back at its static one.
    pub fn delay_until(&mut self, deadline: u64) -> (r: DelayOutcome)
        requires
            old(self).wf(),
            old(self).stack@.len() > 0,
            old(self).task(old(self).running_task()).eff
                == old(self).task(old(self).running_task()).priority,
        ensures
            final(self).wf(),
            deadline <= old(self).now ==> r == DelayOutcome::Elapsed && *final(self) == *old(self),
            deadline > old(self).now ==> {
                &&& r == DelayOutcome::Suspended
                &&& final(self).tasks@ == old(self).tasks@.update(old(self).running_task(), (Task {
                    state: TaskState::SuspendedUntil(deadline),
                    ..old(self).task(old(self).running_task())
                }))
                &&& final(self).stack@ == old(self).stack@.drop_last()
                &&& final(self).armed == (match old(self).armed {
                    None => Some(deadline),
                    Some(a) => Some(min64(deadline, a)),
                })
                &&& final(self).now == old(self).now
            },
    {
        if deadline <= self.now {
            return DelayOutcome::Elapsed;
        }
        let rt = self.stack[self.stack.len() - 1];
        self.stack.pop();
        let mut task = self.tasks[rt];
        task.state = TaskState::SuspendedUntil(deadline);
        self.tasks[rt] = task;
        self.armed = match self.armed {
            None => Some(deadline),
            Some(a) => Some(if deadline < a { deadline } else { a }),
        };
        proof {
            lemma_suspend_preserves_wf(*old(self), *self, rt, deadline);
        }
        DelayOutcome::Suspended
    }

    /// The running task asked to wait for an event another task will
    /// signal: record the state and leave the processor. Like a timed
    /// suspension, this is lawful only outside any critical section.
    pub fn await_event(&mut self)
        requires
            old(self).wf(),
            old(self).stack@.len() > 0,
            old(self).task(old(self).running_task()).eff
                == old(self).task(old(self).running_task()).priority,
        ensures
            final(self).wf(),
            final(self).tasks@ == old(self).tasks@.update(old(self).running_task(), (Task {
                state: TaskState::SuspendedOnEvent,
                ..old(self).task(old(self).running_task())
            })),
            final(self).stack@ == old(self).stack@.drop_last(),
            final(self).now == old(self).now,
            final(self).armed == old(self).armed,
    {
        let rt = self.stack[self.stack.len() - 1];
        self.stack.pop();
        let mut task = self.tasks[rt];
        task.state = TaskState::SuspendedOnEvent;
        self.tasks[rt] = task;
        proof {
            lemma_wait_event_preserves_wf(*old(self), *self, rt);
        }
    }

    /// Another task (or an interrupt) signalled the event a task waits
    /// on: set its trigger line pending so the dispatcher can resume it.
    /// Signalling an already-woken task is idempotent, like a spawn.
    pub fn signal(&mut self, t: usize) -> (newly: bool)
        requires
            old(self).valid_idx(t as int),
            old(self).task(t as int).state is SuspendedOnEvent,
        ensures
            final(self).tasks@ == spawn_tasks(old(self).tasks@, t as int),
            final(self).stack@ == old(self).stack@,
            final(self).now == old(self).now,
            final(self).armed == old(self).armed,
            newly == !old(self).task(t as int).pending,
            old(self).wf() ==> final(self).wf(),
    {
        let was: bool = self.tasks[t].pending;
        let mut task = self.tasks[t];
        task.pending = true;
        self.tasks[t] = task;
        proof {
            assert(self.tasks@ =~= spawn_tasks(old(self).tasks@, t as int));
            if old(self).wf() {
                assert forall|t2: int| self.valid_idx(t2) implies task_wf(#[trigger] self.task(t2)) by {
                    assert(task_wf(old(self).task(t2)));
                }
                assert forall|t2: int| self.valid_idx(t2) && (#[trigger] self.task(t2)).state is Running
                    implies self.stack@.contains(t2 as usize) by {
                    assert(old(self).task(t2).state is Running);
                }
                assert forall|j: int| 0 <= j < self.stack@.len()
                    implies self.valid_idx(#[trigger] self.stack@[j] as int)
                        && self.task(self.stack@[j] as int).state is Running by {
                    assert(old(self).task(old(self).stack@[j] as int).state is Running);
                }
                assert forall|t2: int| #[trigger] self.outstanding(t2)
                    implies old(self).outstanding(t2)
                        && self.deadline_of(t2) == old(self).deadline_of(t2) by {}
                assert forall|t2: int| old(self).outstanding(t2)
                    implies #[trigger] self.outstanding(t2) by {
                    assert(t2 != t as int);
                }
                if let Some(d) = self.armed {
                    let w = choose|t2: int| old(self).outstanding(t2) && old(self).deadline_of(t2) == d;
                    assert(self.outstanding(w) && self.deadline_of(w) == d);
                }
            }
        }
        !was
    }

    /// Sleep for a duration from now: computes the absolute deadline and
    /// delegates to `delay_until`.
    pub fn delay(&mut self, ticks: u64) -> (r: DelayOutcome)
        requires
            old(self).wf(),
            old(self).stack@.len() > 0,
            old(self).task(old(self).running_task()).eff
                == old(self).task(old(self).running_task()).priority,
            old(self).now + ticks <= u64::MAX,
        ensures
            final(self).wf(),
            ticks == 0 ==> r == DelayOutcome::Elapsed && *final(self) == *old(self),
            ticks > 0 ==> {
                &&& r == DelayOutcome::Suspended
                &&& final(self).tasks@ == old(self).tasks@.update(old(self).running_task(), (Task {
                    state: TaskState::SuspendedUntil((old(self).now + ticks) as u64),
                    ..old(self).task(old(self).running_task())
                }))
                &&& final(self).stack@ == old(self).stack@.drop_last()
                &&& final(self).armed == (match old(self).armed {
                    None => Some((old(self).now + ticks) as u64),
                    Some(a) => Some(min64((old(self).now + ticks) as u64, a)),
                })
                &&& final(self).now == old(self).now
            },
    {
        let deadline = self.now + ticks;
        self.delay_until(deadline)
    }

    /// The compare interrupt fired: wake every task whose deadline has
    /// elapsed by setting its trigger line pending, never one whose
    /// deadline still lies ahead, and re-arm the timer for the nearest
    /// remaining deadline, or disarm it when none remains.
    pub fn timer_fire(&mut self)
        requires
            old(self).wf(),
        ensures
            final(self).wf(),
            final(self).tasks@.len() == old(self).tasks@.len(),
            final(self).stack@ == old(self).stack@,
            final(self).now == old(self).now,
            forall|t: int| old(self).outstanding(t) && old(self).deadline_of(t) <= old(self).now
                ==> #[trigger] final(self).task(t) == (Task { pending: true, ..old(self).task(t) }),
            forall|t: int| old(self).valid_idx(t)
                && !(old(self).outstanding(t) && old(self).deadline_of(t) <= old(self).now)
                ==> #[trigger] final(self).task(t) == old(self).task(t),
            final(self).armed is Some ==> final(self).armed->0 > old(self).now,
    {
        let n = self.tasks.len();
        let mut i: usize = 0;
        while i < n
            invariant
                n == self.tasks@.len(),
                n == old(self).tasks@.len(),
                i <= n,
                self.stack@ == old(self).stack@,
                self.now == old(self).now,
                self.armed == old(self).armed,
                forall|k: int| i <= k < n ==> #[trigger] self.tasks@[k] == old(self).tasks@[k],
                forall|k: int| 0 <= k < i
                    && old(self).outstanding(k) && old(self).deadline_of(k) <= old(self).now
                    ==> #[trigger] self.tasks@[k] == (Task { pending: true, ..old(self).tasks@[k] }),
                forall|k: int| 0 <= k < i
                    && !(old(self).outstanding(k) && old(self).deadline_of(k) <= old(self).now)
                    ==> #[trigger] self.tasks@[k] == old(self).tasks@[k],
            decreases n - i,
        {
            let ti = self.tasks[i];
            match ti.state {
                TaskState::SuspendedUntil(d) => {
                    if !ti.pending && d <= self.now {
                        let mut task = ti;
                        task.pending = true;
                        self.tasks[i] = task;
                    }
                },
                _ => {},
            }
            i = i + 1;
        }
        let mut best: Option<u64> = None;
        let mut j: usize = 0;
        while j < n
            invariant
                n == self.tasks@.len(),
                j <= n,
                match best {
                    None => forall|k: int| 0 <= k < j
                        ==> !((#[trigger] self.tasks@[k]).state is SuspendedUntil
                            && !self.tasks@[k].pending),
                    Some(b) => {
                        &&& forall|k: int| 0 <= k < j
                            && (#[trigger] self.tasks@[k]).state is SuspendedUntil
                            && !self.tasks@[k].pending
                            ==> b <= self.tasks@[k].state->SuspendedUntil_0
                        &&& exists|k: int| 0 <= k < j
                            && (#[trigger] self.tasks@[k]).state is SuspendedUntil
                            && !self.tasks@[k].pending
                            && self.tasks@[k].state->SuspendedUntil_0 == b
                    },
                },
            decreases n - j,
        {
            let tj = self.tasks[j];
            match tj.state {
                TaskState::SuspendedUntil(d) => {
                    if !tj.pending {
                        best = match best {
                            None => Some(d),
                            Some(b) => Some(if d < b { d } else { b }),
                        };
                        proof {
                            assert((self.tasks@[j as int]).state is SuspendedUntil
                                && !self.tasks@[j as int].pending
                                && self.tasks@[j as int].state->SuspendedUntil_0 == d);
                        }
                    }
                },
                _ => {},
            }
            j = j + 1;
        }
        self.armed = best;
        proof {
            assert forall|t2: int| self.valid_idx(t2)
                implies (#[trigger] self.task(t2)) == old(self).task(t2)
                    || self.task(t2) == (Task { pending: true, ..old(self).task(t2) }) by {
                if old(self).outstanding(t2) && old(self).deadline_of(t2) <= old(self).now {
                    assert(self.tasks@[t2] == (Task { pending: true, ..old(self).tasks@[t2] }));
                } else {
                    assert(self.tasks@[t2] == old(self).tasks@[t2]);
                }
            }
            assert forall|t: int| old(self).outstanding(t) && old(self).deadline_of(t) <= old(self).now
                implies #[trigger] self.task(t) == (Task { pending: true, ..old(self).task(t) }) by {
                assert(self.tasks@[t] == (Task { pending: true, ..old(self).tasks@[t] }));
            }
            assert forall|t: int| old(self).valid_idx(t)
                && !(old(self).outstanding(t) && old(self).deadline_of(t) <= old(self).now)
                implies #[trigger] self.task(t) == old(self).task(t) by {
                assert(self.tasks@[t] == old(self).tasks@[t]);
            }
            assert forall|t2: int| self.valid_idx(t2) implies task_wf(#[trigger] self.task(t2)) by {
                assert(task_wf(old(self).task(t2)));
            }
            assert forall|j2: int| 0 <= j2 < self.stack@.len()
                implies self.valid_idx(#[trigger] self.stack@[j2] as int)
                    && self.task(self.stack@[j2] as int).state is Running by {
                let si = old(self).stack@[j2] as int;
                assert(old(self).task(si).state is Running);
                assert(self.task(si) == old(self).task(si));
            }
            assert forall|t2: int| self.valid_idx(t2) && (#[trigger] self.task(t2)).state is Running
                implies self.stack@.contains(t2 as usize) by {
                assert(old(self).task(t2).state is Running);
            }
            assert forall|i2: int, j2: int| 0 <= i2 < j2 < self.stack@.len()
                implies self.task(#[trigger] self.stack@[i2] as int).eff
                    < self.task(#[trigger] self.stack@[j2] as int).priority by {
                let si = old(self).stack@[i2] as int;
                let sj = old(self).stack@[j2] as int;
                assert(old(self).task(#[trigger] old(self).stack@[i2] as int).eff
                    < old(self).task(#[trigger] old(self).stack@[j2] as int).priority);
                assert(old(self).task(si).state is Running && old(self).task(sj).state is Running);
                assert(self.task(si) == old(self).task(si));
                assert(self.task(sj) == old(self).task(sj));
            }
            assert forall|k: int| #[trigger] self.outstanding(k)
                implies old(self).outstanding(k)
                    && self.deadline_of(k) == old(self).deadline_of(k)
                    && old(self).deadline_of(k) > old(self).now by {
                if old(self).outstanding(k) && old(self).deadline_of(k) <= old(self).now {
                    assert(self.tasks@[k] == (Task { pending: true, ..old(self).tasks@[k] }));
                    assert(false);
                } else if !old(self).outstanding(k) {
                    assert(self.tasks@[k] == old(self).tasks@[k]);
                    assert(false);
                } else {
                    assert(self.tasks@[k] == old(self).tasks@[k]);
                }
            }
            if let Some(d) = self.armed {
                assert forall|t2: int| #[trigger] self.outstanding(t2)
                    implies d <= self.deadline_of(t2) by {
                    assert((self.tasks@[t2]).state is SuspendedUntil && !self.tasks@[t2].pending);
                }
                assert(exists|k: int| 0 <= k < self.tasks@.len()
                    && (#[trigger] self.tasks@[k]).state is SuspendedUntil
                    && !self.tasks@[k].pending
                    && self.tasks@[k].state->SuspendedUntil_0 == d);
                let w = choose|k: int| 0 <= k < self.tasks@.len()
                    && (#[trigger] self.tasks@[k]).state is SuspendedUntil
                    && !self.tasks@[k].pending
                    && self.tasks@[k].state->SuspendedUntil_0 == d;
                assert(self.outstanding(w) && self.deadline_of(w) == d);
            } else {
                assert forall|t2: int| !(#[trigger] self.outstanding(t2)) by {
                    if self.valid_idx(t2) {
                        assert(!((self.tasks@[t2]).state is SuspendedUntil
                            && !self.tasks@[t2].pending));
                    }
                }
            }
        }
    }

    /// Enter a critical section on a resource cell: raise the running
    /// task's effective priority to at least the cell's ceiling, and hand
    /// back the previous effective priority for the matching `release`.
    /// This never blocks: the request is granted at once, by the priority
    /// discipline alone. The ceiling must be at least the running task's
    /// static priority, which holds whenever the ceiling was computed as
    /// the maximum priority over the cell's accessors.
    pub fn acquire(&mut self, ceiling: u8) -> (prev: u8)
        requires
            old(self).wf(),
            old(self).stack@.len() > 0,
            old(self).task(old(self).running_task()).priority <= ceiling,
            ceiling <= MAX_PRIORITY,
        ensures
            final(self).wf(),
            prev == old(self).task(old(self).running_task()).eff,
            acquire_transition(*old(self), *final(self), ceiling),
            final(self).tasks@ == old(self).tasks@.update(old(self).running_task(), (Task {
                eff: max8(old(self).task(old(self).running_task()).eff, ceiling),
                ..old(self).task(old(self).running_task())
            })),
            final(self).stack@ == old(self).stack@,
            final(self).now == old(self).now,
            final(self).armed == old(self).armed,
            final(self).cur_eff() >= ceiling,
            final(self).cur_eff() >= old(self).cur_eff(),
    {
        let rt = self.stack[self.stack.len() - 1];
        let prev = self.tasks[rt].eff;
        let mut task = self.tasks[rt];
        task.eff = if ceiling > prev { ceiling } else { prev };
        self.tasks[rt] = task;
        proof {
            lemma_locks_never_block(*old(self), *self, ceiling);
        }
        prev
    }

    /// Leave a critical section: restore the effective priority saved by
    /// the matching `acquire`. Sections nest like scopes, so the restored
    /// value lies between the static priority and the current effective
    /// one.
    pub fn release(&mut self, prev: u8)
        requires
            old(self).wf(),
            old(self).stack@.len() > 0,
            old(self).task(old(self).running_task()).priority <= prev,
            prev <= old(self).task(old(self).running_task()).eff,
        ensures
            final(self).wf(),
            final(self).tasks@ == old(self).tasks@.update(old(self).running_task(), (Task {
                eff: prev,
                ..old(self).task(old(self).running_task())
            })),
            final(self).stack@ == old(self).stack@,
            final(self).now == old(self).now,
            final(self).armed == old(self).armed,
            final(self).cur_eff() == prev,
    {
        let rt = self.stack[self.stack.len() - 1];
        let mut task = self.tasks[rt];
        task.eff = prev;
        self.tasks[rt] = task;
        proof {
            lemma_retune_top_preserves_wf(*old(self), *self, prev);
        }
    }
}

/// Dispatching the best ready task `t` onto the run stack keeps the kernel
/// well-formed: `t` was not yet started, it beats everything below it, and
/// no outstanding deadline is touched.
proof fn lemma_dispatch_preserves_wf(pre: Kernel, post: Kernel, t: usize)
    requires
        pre.wf(),
        pre.best_ready(t as int),
        pre.can_preempt(t as int),
        post.tasks@ == pre.tasks@.update(t as int, (Task {
            pending: false,
            state: TaskState::Running,
            eff: pre.task(t as int).priority,
            ..pre.task(t as int)
        })),
        post.stack@ == pre.stack@.push(t),
        post.armed == pre.armed,
    ensures
        post.wf(),
{
    assert forall|t2: int| post.valid_idx(t2) implies task_wf(#[trigger] post.task(t2)) by {
        assert(task_wf(pre.task(t2)));
    }
    // t was ready, so it was not Running, so it is not on the old stack.
    assert forall|j: int| 0 <= j < pre.stack@.len()
        implies pre.stack@[j] as int != t as int by {
        assert(pre.task(pre.stack@[j] as int).state is Running);
    }
    assert forall|t2: int| post.valid_idx(t2) && (#[trigger] post.task(t2)).state is Running
        implies post.stack@.contains(t2 as usize) by {
        if t2 == t as int {
            assert(post.stack@[post.stack@.len() - 1] == t);
        } else {
            assert(pre.task(t2).state is Running);
            let j = choose|j: int| 0 <= j < pre.stack@.len() && pre.stack@[j] == t2 as usize;
            assert(post.stack@[j] == t2 as usize);
        }
    }
    // Every old stack entry's effective priority sits below t's priority.
    assert forall|i: int, j: int| 0 <= i < j < post.stack@.len()
        implies post.task(#[trigger] post.stack@[i] as int).eff
            < post.task(#[trigger] post.stack@[j] as int).priority by {
        if j < post.stack@.len() - 1 {
            assert(post.stack@[i] == pre.stack@[i] && post.stack@[j] == pre.stack@[j]);
            assert(pre.task(pre.stack@[i] as int).eff < pre.task(pre.stack@[j] as int).priority);
        } else {
            // j is the new top, t; chain through the old top's effective priority.
            assert(post.stack@[j] == t);
            let si = pre.stack@[i] as int;
            assert(post.stack@[i] == pre.stack@[i]);
            assert(si != t as int);
            assert(pre.task(t as int).priority > pre.cur_eff());
            if i == pre.stack@.len() - 1 {
                assert(pre.task(si).eff == pre.cur_eff());
            } else {
                let lastj = pre.stack@.len() - 1;
                assert(pre.task(#[trigger] pre.stack@[i] as int).eff
                    < pre.task(#[trigger] pre.stack@[lastj] as int).priority);
                assert(task_wf(pre.task(pre.stack@[lastj] as int)));
                assert(pre.task(si).eff < pre.cur_eff());
            }
        }
    }
    assert forall|t2: int| #[trigger] post.outstanding(t2)
        implies pre.outstanding(t2) && pre.deadline_of(t2) == post.deadline_of(t2) by {}
    assert forall|t2: int| pre.outstanding(t2)
        implies #[trigger] post.outstanding(t2) by {
        assert(t2 != t);
    }
    if let Some(d) = post.armed {
        let w = choose|t2: int| pre.outstanding(t2) && pre.deadline_of(t2) == d;
        assert(post.outstanding(w) && post.deadline_of(w) == d);
    }
}


/// The smaller of two times.
pub open spec fn min64(a: u64, b: u64) -> u64 {
    if a <= b { a } else { b }
}

/// The higher of two priorities.
pub open spec fn max8(a: u8, b: u8) -> u8 {
    if a >= b { a } else { b }
}

/// The one-step state change of a lock acquisition: the running task's
/// effective priority rises to the cell's ceiling if that is higher, and
/// nothing else moves.
pub open spec fn acquire_transition(pre: Kernel, post: Kernel, ceiling: u8) -> bool {
    &&& post.tasks@ == pre.tasks@.update(pre.running_task(), (Task {
        eff: max8(pre.task(pre.running_task()).eff, ceiling),
        ..pre.task(pre.running_task())
    }))
    &&& post.stack@ == pre.stack@
    &&& post.now == pre.now
    &&& post.armed == pre.armed
}

/// Well-formedness does not read the clock: a kernel that agrees with a
/// well-formed one on tasks, stack and armed deadline is well-formed.
proof fn lemma_same_tasks_same_wf(pre: Kernel, post: Kernel)
    requires
        pre.wf(),
        post.tasks@ == pre.tasks@,
        post.stack@ == pre.stack@,
        post.armed == pre.armed,
    ensures
        post.wf(),
{
    assert forall|t2: int| post.valid_idx(t2) implies task_wf(#[trigger] post.task(t2)) by {
        assert(task_wf(pre.task(t2)));
    }
    assert forall|j: int| 0 <= j < post.stack@.len()
        implies post.valid_idx(#[trigger] post.stack@[j] as int)
            && post.task(post.stack@[j] as int).state is Running by {
        assert(pre.task(pre.stack@[j] as int).state is Running);
    }
    assert forall|t2: int| post.valid_idx(t2) && (#[trigger] post.task(t2)).state is Running
        implies post.stack@.contains(t2 as usize) by {
        assert(pre.task(t2).state is Running);
    }
    assert forall|i: int, j: int| 0 <= i < j < post.stack@.len()
        implies post.task(#[trigger] post.stack@[i] as int).eff
            < post.task(#[trigger] post.stack@[j] as int).priority by {
        assert(pre.task(#[trigger] pre.stack@[i] as int).eff
            < pre.task(#[trigger] pre.stack@[j] as int).priority);
    }
    assert forall|t2: int| #[trigger] post.outstanding(t2)
        implies pre.outstanding(t2) && post.deadline_of(t2) == pre.deadline_of(t2) by {}
    assert forall|t2: int| pre.outstanding(t2) implies #[trigger] post.outstanding(t2) by {}
    if let Some(d) = post.armed {
        let w = choose|t2: int| pre.outstanding(t2) && pre.deadline_of(t2) == d;
        assert(post.outstanding(w) && post.deadline_of(w) == d);
    }
}

/// The top of the run stack is distinct from every entry below it.
proof fn lemma_top_not_below(pre: Kernel, j: int)
    requires
        pre.wf(),
        pre.stack@.len() > 0,
        0 <= j < pre.stack@.len() - 1,
    ensures
        pre.stack@[j] as int != pre.running_task(),
{
    let lastj = pre.stack@.len() - 1;
    assert(pre.task(#[trigger] pre.stack@[j] as int).eff
        < pre.task(#[trigger] pre.stack@[lastj] as int).priority);
    assert(task_wf(pre.task(pre.stack@[lastj] as int)));
}

/// Popping the running task off the stack and leaving it in a non-running,
/// unwoken state keeps the table and stack well-formed; the armed deadline
/// is handled by each caller.
proof fn lemma_pop_top_stack_wf(pre: Kernel, post: Kernel, rt: usize)
    requires
        pre.wf(),
        pre.stack@.len() > 0,
        rt as int == pre.running_task(),
        post.tasks@.len() == pre.tasks@.len(),
        forall|t2: int| pre.valid_idx(t2) && t2 != rt as int
            ==> #[trigger] post.task(t2) == pre.task(t2),
        !(post.task(rt as int).state is Running),
        post.stack@ == pre.stack@.drop_last(),
    ensures
        forall|j: int| 0 <= j < post.stack@.len()
            ==> post.valid_idx(#[trigger] post.stack@[j] as int)
                && post.task(post.stack@[j] as int).state is Running,
        forall|t2: int| post.valid_idx(t2) && (#[trigger] post.task(t2)).state is Running
            ==> post.stack@.contains(t2 as usize),
        forall|i: int, j: int| 0 <= i < j < post.stack@.len()
            ==> post.task(#[trigger] post.stack@[i] as int).eff
                < post.task(#[trigger] post.stack@[j] as int).priority,
{
    assert forall|j: int| 0 <= j < post.stack@.len()
        implies post.valid_idx(#[trigger] post.stack@[j] as int)
            && post.task(post.stack@[j] as int).state is Running by {
        lemma_top_not_below(pre, j);
        assert(pre.task(pre.stack@[j] as int).state is Running);
    }
    assert forall|t2: int| post.valid_idx(t2) && (#[trigger] post.task(t2)).state is Running
        implies post.stack@.contains(t2 as usize) by {
        assert(t2 != rt as int);
        assert(pre.task(t2).state is Running);
        assert(pre.stack@.contains(t2 as usize));
        let j = choose|j: int| 0 <= j < pre.stack@.len() && pre.stack@[j] == t2 as usize;
        assert(pre.stack@[j] == t2 as usize);
        assert(pre.tasks.len() == pre.tasks@.len());
        assert(pre.stack@[j] as int == t2);
        assert(j != pre.stack@.len() - 1);
        assert(post.stack@[j] == t2 as usize);
    }
    assert forall|i: int, j: int| 0 <= i < j < post.stack@.len()
        implies post.task(#[trigger] post.stack@[i] as int).eff
            < post.task(#[trigger] post.stack@[j] as int).priority by {
        lemma_top_not_below(pre, i);
        lemma_top_not_below(pre, j);
        assert(pre.task(#[trigger] pre.stack@[i] as int).eff
            < pre.task(#[trigger] pre.stack@[j] as int).priority);
    }
}

/// Completing the running task keeps the kernel well-formed.
proof fn lemma_complete_preserves_wf(pre: Kernel, post: Kernel, rt: usize)
    requires
        pre.wf(),
        pre.stack@.len() > 0,
        rt as int == pre.running_task(),
        post.tasks@ == pre.tasks@.update(rt as int, (Task {
            state: TaskState::Completed,
            eff: pre.task(rt as int).priority,
            ..pre.task(rt as int)
        })),
        post.stack@ == pre.stack@.drop_last(),
        post.armed == pre.armed,
    ensures
        post.wf(),
{
    assert forall|t2: int| post.valid_idx(t2) implies task_wf(#[trigger] post.task(t2)) by {
        assert(task_wf(pre.task(t2)));
    }
    lemma_pop_top_stack_wf(pre, post, rt);
    assert forall|t2: int| #[trigger] post.outstanding(t2)
        implies pre.outstanding(t2) && post.deadline_of(t2) == pre.deadline_of(t2) by {
        assert(t2 != rt as int);
    }
    assert forall|t2: int| pre.outstanding(t2) implies #[trigger] post.outstanding(t2) by {
        assert(t2 != rt as int);
    }
    if let Some(d) = post.armed {
        let w = choose|t2: int| pre.outstanding(t2) && pre.deadline_of(t2) == d;
        assert(post.outstanding(w) && post.deadline_of(w) == d);
    }
}

/// Suspending the running task on a deadline keeps the kernel well-formed:
/// the task leaves the stack, its deadline joins the outstanding set, and
/// the compare interrupt is re-armed for the nearest deadline.
proof fn lemma_suspend_preserves_wf(pre: Kernel, post: Kernel, rt: usize, deadline: u64)
    requires
        pre.wf(),
        pre.stack@.len() > 0,
        rt as int == pre.running_task(),
        pre.task(rt as int).eff == pre.task(rt as int).priority,
        post.tasks@ == pre.tasks@.update(rt as int, (Task {
            state: TaskState::SuspendedUntil(deadline),
            ..pre.task(rt as int)
        })),
        post.stack@ == pre.stack@.drop_last(),
        post.armed == (match pre.armed {
            None => Some(deadline),
            Some(a) => Some(min64(deadline, a)),
        }),
    ensures
        post.wf(),
{
    assert forall|t2: int| post.valid_idx(t2) implies task_wf(#[trigger] post.task(t2)) by {
        assert(task_wf(pre.task(t2)));
    }
    lemma_pop_top_stack_wf(pre, post, rt);
    // The running task's pending bit was clear, so it is now outstanding.
    assert(task_wf(pre.task(rt as int)));
    assert(post.outstanding(rt as int) && post.deadline_of(rt as int) == deadline);
    assert forall|t2: int| #[trigger] post.outstanding(t2) && t2 != rt as int
        implies pre.outstanding(t2) && post.deadline_of(t2) == pre.deadline_of(t2) by {}
    assert forall|t2: int| pre.outstanding(t2) implies #[trigger] post.outstanding(t2) by {
        assert(t2 != rt as int);
    }
    let d = post.armed->0;
    assert forall|t2: int| #[trigger] post.outstanding(t2) implies d <= post.deadline_of(t2) by {
        if t2 != rt as int {
            assert(pre.armed is Some && pre.armed->0 <= pre.deadline_of(t2));
        }
    }
    match pre.armed {
        None => {
            assert(post.outstanding(rt as int) && post.deadline_of(rt as int) == d);
        },
        Some(a) => {
            if deadline <= a {
                assert(post.outstanding(rt as int) && post.deadline_of(rt as int) == d);
            } else {
                let w = choose|t2: int| pre.outstanding(t2) && pre.deadline_of(t2) == a;
                assert(w != rt as int);
                assert(post.outstanding(w) && post.deadline_of(w) == d);
            }
        },
    }
}

/// Suspending the running task on an event keeps the kernel well-formed:
/// it leaves the stack, and the outstanding deadline set does not move.
proof fn lemma_wait_event_preserves_wf(pre: Kernel, post: Kernel, rt: usize)
    requires
        pre.wf(),
        pre.stack@.len() > 0,
        rt as int == pre.running_task(),
        pre.task(rt as int).eff == pre.task(rt as int).priority,
        post.tasks@ == pre.tasks@.update(rt as int, (Task {
            state: TaskState::SuspendedOnEvent,
            ..pre.task(rt as int)
        })),
        post.stack@ == pre.stack@.drop_last(),
        post.armed == pre.armed,
    ensures
        post.wf(),
{
    assert forall|t2: int| post.valid_idx(t2) implies task_wf(#[trigger] post.task(t2)) by {
        assert(task_wf(pre.task(t2)));
    }
    lemma_pop_top_stack_wf(pre, post, rt);
    assert forall|t2: int| #[trigger] post.outstanding(t2)
        implies pre.outstanding(t2) && post.deadline_of(t2) == pre.deadline_of(t2) by {
        assert(t2 != rt as int);
    }
    assert forall|t2: int| pre.outstanding(t2) implies #[trigger] post.outstanding(t2) by {
        assert(t2 != rt as int);
    }
    if let Some(d) = post.armed {
        let w = choose|t2: int| pre.outstanding(t2) && pre.deadline_of(t2) == d;
        assert(post.outstanding(w) && post.deadline_of(w) == d);
    }
}

/// Changing only the running task's effective priority, within the band
/// between its static priority and the hardware maximum, keeps the kernel
/// well-formed: nothing below it on the stack reads that value.
proof fn lemma_retune_top_preserves_wf(pre: Kernel, post: Kernel, e: u8)
    requires
        pre.wf(),
        pre.stack@.len() > 0,
        pre.task(pre.running_task()).priority <= e <= MAX_PRIORITY,
        post.tasks@ == pre.tasks@.update(pre.running_task(), (Task {
            eff: e,
            ..pre.task(pre.running_task())
        })),
        post.stack@ == pre.stack@,
        post.armed == pre.armed,
    ensures
        post.wf(),
{
    let rt = pre.running_task();
    assert forall|t2: int| post.valid_idx(t2) implies task_wf(#[trigger] post.task(t2)) by {
        assert(task_wf(pre.task(t2)));
    }
    assert forall|j: int| 0 <= j < post.stack@.len()
        implies post.valid_idx(#[trigger] post.stack@[j] as int)
            && post.task(post.stack@[j] as int).state is Running by {
        assert(pre.task(pre.stack@[j] as int).state is Running);
    }
    assert forall|t2: int| post.valid_idx(t2) && (#[trigger] post.task(t2)).state is Running
        implies post.stack@.contains(t2 as usize) by {
        assert(pre.task(t2).state is Running);
    }
    assert forall|i: int, j: int| 0 <= i < j < post.stack@.len()
        implies post.task(#[trigger] post.stack@[i] as int).eff
            < post.task(#[trigger] post.stack@[j] as int).priority by {
        assert(pre.task(#[trigger] pre.stack@[i] as int).eff
            < pre.task(#[trigger] pre.stack@[j] as int).priority);
        if pre.stack@[i] as int == rt {
            lemma_top_not_below(pre, i);
        }
    }
    assert forall|t2: int| #[trigger] post.outstanding(t2)
        implies pre.outstanding(t2) && post.deadline_of(t2) == pre.deadline_of(t2) by {
        assert(t2 != rt);
    }
    assert forall|t2: int| pre.outstanding(t2) implies #[trigger] post.outstanding(t2) by {
        assert(t2 != rt);
    }
    if let Some(d) = post.armed {
        let w = choose|t2: int| pre.outstanding(t2) && pre.deadline_of(t2) == d;
        assert(post.outstanding(w) && post.deadline_of(w) == d);
    }
}

/// Deadlock-freedom of the locking protocol: a lock request never waits.
/// In every well-formed state, for every cell whose ceiling respects the
/// configuration rule (the ceiling is at least the priority of every task
/// that may access the cell, the running one among them), the acquisition
/// is a single always-enabled step: it yields a well-formed state in which
/// the critical section has been entered, with the effective priority at
/// or above the ceiling. No state in which a task holds one lock and waits
/// for another exists at all, so no cycle of waiting tasks can form.
pub proof fn lemma_locks_never_block(pre: Kernel, post: Kernel, ceiling: u8)
    requires
        pre.wf(),
        pre.stack@.len() > 0,
        pre.task(pre.running_task()).priority <= ceiling,
        ceiling <= MAX_PRIORITY,
        acquire_transition(pre, post, ceiling),
    ensures
        post.wf(),
        post.cur_eff() >= ceiling,
        post.cur_eff() >= pre.cur_eff(),
{
    assert(task_wf(pre.task(pre.running_task())));
    lemma_retune_top_preserves_wf(pre, post, max8(pre.task(pre.running_task()).eff, ceiling));
}

/// Priority correctness: when two tasks are ready at once, the dispatcher
/// never chooses the lower-priority one; the higher-priority task runs
/// first.
pub proof fn lemma_priority_correctness(k: Kernel, a: int, b: int)
    requires
        k.ready(a),
        k.ready(b),
        k.task(a).priority > k.task(b).priority,
    ensures
        !k.best_ready(b),
{
    assert(k.ready(a));
}

/// The other half of priority correctness: once a task is started, no task
/// at or below the processor's effective priority is ever dispatched, so a
/// started task finishes or suspends before any lower-priority task begins.
pub proof fn lemma_no_preemption_from_below(k: Kernel, b: int)
    requires
        k.task(b).priority <= k.cur_eff(),
    ensures
        !k.can_preempt(b),
{
}

/// Ceiling safety: while the running task's effective priority stands at
/// or above a cell's ceiling — as it does throughout a critical section on
/// that cell — no other task that may access the cell (every such task has
/// priority at most the ceiling) can be dispatched. No contender can run
/// between the steps of an update, so none ever observes a half-made one.
pub proof fn lemma_ceiling_excludes_contenders(k: Kernel, ceiling: u8, b: int)
    requires
        k.cur_eff() >= ceiling,
        k.task(b).priority <= ceiling,
    ensures
        !k.can_preempt(b),
{
}

/// A task sleeping on a deadline that has not been woken is invisible to
/// the dispatcher: it resumes only after the timer handler marks it
/// pending, and that handler wakes no deadline that still lies ahead, so
/// a timed suspension never resumes before its deadline.
pub proof fn lemma_no_early_resume(k: Kernel, t: int)
    requires
        k.outstanding(t),
    ensures
        !k.ready(t),
        !k.can_preempt(t),
{
}

/// No duplicate dispatch: spawning is idempotent on the task table, so a
/// task spawned twice before being dispatched runs once for the coalesced
/// pending state.
pub proof fn lemma_spawn_idempotent(tasks: Seq<Task>, t: int)
    requires
        0 <= t < tasks.len(),
    ensures
        spawn_tasks(spawn_tasks(tasks, t), t) == spawn_tasks(tasks, t),
{
    assert(spawn_tasks(spawn_tasks(tasks, t), t) =~= spawn_tasks(tasks, t));
}

} // verus!\n