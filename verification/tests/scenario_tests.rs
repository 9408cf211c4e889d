use ceiling_exec::buffer::{
    buf_len, buf_new, buf_snapshot, consumer_step, producer_step, Buffer, ConsumerReport,
    BUFFER_CAP,
};
use ceiling_exec::cell::{ceiling_of, ResourceCell};
use ceiling_exec::demo::{blink_step, higher_priority_step, preempt_config, shared_config, HpPhase};
use ceiling_exec::kernel::Kernel;

const BLINK: usize = 0;

/// The preemption demo: the blink task (priority 1) toggles every 500 ms;
/// the higher-priority task (priority 2) wakes every 2000 ms and computes
/// for a bounded stretch. The 2000 ms toggle is delayed by exactly the
/// busy-segment duration, and no toggle is dropped.
#[test]
fn preemption_shifts_toggles_by_the_busy_segment() {
    const HP: usize = 1;
    const BUSY_TICKS: u64 = 300;

    let mut k = Kernel::init(&preempt_config()).unwrap();
    let mut led = false;
    let mut toggles: Vec<u64> = Vec::new();
    let mut hp_phase = HpPhase::Startup;
    k.spawn(BLINK);
    k.spawn(HP);

    while k.now < 3000 {
        match k.dispatch() {
            Some(t) if t == HP => {
                let step = higher_priority_step(hp_phase);
                hp_phase = step.next;
                if step.busy {
                    // The busy segment holds the processor while time passes.
                    let t_busy: u64 = k.now + BUSY_TICKS;
                    k.advance_to(t_busy);
                }
                k.delay(step.sleep_ticks);
            }
            Some(t) => {
                assert_eq!(t, BLINK);
                let (on, wake) = blink_step(led, k.now);
                led = on;
                toggles.push(k.now);
                k.delay_until(wake);
            }
            None => match k.armed {
                Some(deadline) => {
                    k.advance_to(deadline);
                    k.timer_fire();
                }
                None => break,
            },
        }
    }

    // Toggles sit on the 500 ms grid until the 2000 ms one, which waits
    // out the busy segment; the later ones shift by exactly its length.
    assert_eq!(
        toggles,
        vec![0, 500, 1000, 1500, 2000 + BUSY_TICKS, 2500 + BUSY_TICKS]
    );
}

/// The shared-buffer demo: the producer (priority 2) pushes one element a
/// cycle and triggers the consumer (priority 3), which drains the buffer
/// only when it is full. After six producer cycles the buffer is drained
/// to empty exactly once, and its length never leaves 0..=6.
#[test]
fn producer_fills_and_consumer_drains_exactly_once() {
    const PRODUCER: usize = 1;
    const CONSUMER: usize = 2;

    let mut k = Kernel::init(&shared_config()).unwrap();
    let priorities: Vec<u8> = vec![1, 2, 3];
    let accessors: Vec<usize> = vec![PRODUCER, CONSUMER];
    let ceiling = ceiling_of(&priorities, &accessors);
    assert_eq!(ceiling, 3);

    let mut cell: ResourceCell<Buffer> = ResourceCell::new(ceiling, buf_new());
    let mut drains: Vec<Vec<u8>> = Vec::new();
    let mut pushes: u64 = 0;
    // Tasks that have passed their initial delay and hold a resume point.
    let mut producer_resumed = false;
    let mut consumer_resumed = false;

    k.spawn(PRODUCER);
    let mut steps: u32 = 0;
    while drains.is_empty() && steps < 100 {
        steps += 1;
        match k.dispatch() {
            Some(t) if t == PRODUCER => {
                if !producer_resumed {
                    producer_resumed = true;
                    // First segment of the body: sleep one second.
                    k.delay(1000);
                    continue;
                }
            }
            Some(t) if t == CONSUMER => {
                if !consumer_resumed {
                    consumer_resumed = true;
                    k.delay(1000);
                    continue;
                }
            }
            Some(_) => unreachable!(),
            None => {
                match k.armed {
                    Some(deadline) => {
                        k.advance_to(deadline);
                        k.timer_fire();
                        continue;
                    }
                    None => break,
                }
            }
        }
        // A task resumed past its delay: run its critical section.
        let running: usize = *k.stack.last().unwrap();
        let prev = k.acquire(ceiling);
        let mut buf = cell.replace_locked(k.tasks[running].eff, buf_new());
        if running == PRODUCER {
            producer_step(&mut buf);
            pushes += 1;
        } else {
            match consumer_step(&mut buf) {
                ConsumerReport::Drained(popped) => drains.push(popped),
                ConsumerReport::Observed(seen) => assert_eq!(seen.len() as u64, pushes),
            }
        }
        assert!(buf_len(&buf) <= BUFFER_CAP);
        cell.replace_locked(k.tasks[running].eff, buf);
        k.release(prev);
        if running == PRODUCER {
            producer_resumed = false;
            k.complete();
            k.spawn(CONSUMER);
        } else {
            consumer_resumed = false;
            k.complete();
            k.spawn(PRODUCER);
        }
    }

    // Six cycles filled the buffer; the seventh observation drained it,
    // once, yielding the six produced elements.
    assert_eq!(pushes, 6);
    assert_eq!(drains.len(), 1);
    assert_eq!(drains[0], vec![1u8; BUFFER_CAP]);
    let final_buf = cell.replace_locked(ceiling, buf_new());
    assert_eq!(buf_len(&final_buf), 0);
    assert_eq!(buf_snapshot(&final_buf), Vec::<u8>::new());
}

#[test]
fn producer_pushes_one_element_and_a_seventh_is_dropped() {
    let mut b = buf_new();
    assert_eq!(buf_len(&b), 0);
    assert!(producer_step(&mut b));
    assert_eq!(buf_len(&b), 1);
    assert_eq!(buf_snapshot(&b), vec![1u8]);
    for _ in 0..5 {
        assert!(producer_step(&mut b));
    }
    assert_eq!(buf_len(&b), 6);
    assert!(!producer_step(&mut b));
    assert_eq!(buf_len(&b), 6);
    match consumer_step(&mut b) {
        ConsumerReport::Drained(popped) => assert_eq!(popped, vec![1u8; 6]),
        ConsumerReport::Observed(_) => panic!("a full buffer must drain"),
    }
    assert_eq!(buf_len(&b), 0);
}

#[test]
fn consumer_leaves_a_partial_buffer_alone() {
    let mut b = buf_new();
    producer_step(&mut b);
    producer_step(&mut b);
    match consumer_step(&mut b) {
        ConsumerReport::Observed(seen) => assert_eq!(seen, vec![1u8, 1u8]),
        ConsumerReport::Drained(_) => panic!("a partial buffer must not drain"),
    }
    assert_eq!(buf_len(&b), 2);
}
