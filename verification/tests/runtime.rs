use rio::driver::IoRegistry;
use rio::sched::Scheduler;
use rio::sleep::{sleep, sleep_until, Sleep};
use rio::task::{Task, TaskId};
use rio::timer::{TimerEntry, TimerWheel};

#[test]
fn task_ids_are_allocated_sequentially() {
    let mut counter = 0u64;
    let a = TaskId::new(&mut counter);
    let b = TaskId::new(&mut counter);
    assert_eq!(a, TaskId(0));
    assert_eq!(b, TaskId(1));
    assert_eq!(counter, 2);

    let t = Task::new(b);
    assert_eq!(t.id, b);
    assert!(!t.scheduled);
}

#[test]
fn timer_wheel_drains_in_deadline_order() {
    let mut wheel = TimerWheel::new();
    wheel.register(5000, TaskId(3));
    wheel.register(1000, TaskId(1));
    wheel.register(3000, TaskId(2));
    assert_eq!(wheel.len(), 3);
    assert_eq!(wheel.peek_deadline(), Some(1000));

    let drained = wheel.drain_expired(5000);
    let order: Vec<u64> = drained.iter().map(|e| e.task.0).collect();
    assert_eq!(order, vec![1, 2, 3]);
    assert!(wheel.is_empty());
}

#[test]
fn timer_wheel_partial_drain_keeps_unexpired() {
    let mut wheel = TimerWheel::new();
    wheel.register(10, TaskId(1));
    wheel.register(20, TaskId(2));
    wheel.register(30, TaskId(3));

    let drained = wheel.drain_expired(20);
    let order: Vec<u64> = drained.iter().map(|e| e.task.0).collect();
    assert_eq!(order, vec![1, 2]);
    assert_eq!(wheel.len(), 1);
    assert_eq!(wheel.peek_deadline(), Some(30));
}

#[test]
fn timer_wheel_drain_empty_is_noop() {
    let mut wheel = TimerWheel::new();
    let drained = wheel.drain_expired(1_000_000);
    assert!(drained.is_empty());
    assert!(wheel.is_empty());
    assert_eq!(wheel.peek_deadline(), None);
}

#[test]
fn timer_entries_order_by_deadline_only() {
    let a = TimerEntry { deadline: 7, task: TaskId(1) };
    let b = TimerEntry { deadline: 7, task: TaskId(2) };
    let mut wheel = TimerWheel::new();
    wheel.register(a.deadline, a.task);
    wheel.register(b.deadline, b.task);
    let drained = wheel.drain_expired(7);
    assert_eq!(drained.len(), 2);
    assert_eq!(drained[0].deadline, 7);
    assert_eq!(drained[1].deadline, 7);
}

#[test]
fn registry_register_modify_unregister() {
    let mut io = IoRegistry::new();
    assert!(io.is_empty());

    io.register(5, 0x1, TaskId(9));
    assert!(io.contains(5));
    assert_eq!(io.len(), 1);
    let fi = io.lookup(5).unwrap();
    assert_eq!(fi.events, 0x1);
    assert_eq!(fi.task, TaskId(9));

    // Re-adding an existing descriptor upgrades to a modify: the mask
    // changes, the original waker stays bound.
    io.register(5, 0x4, TaskId(11));
    assert_eq!(io.len(), 1);
    let fi = io.lookup(5).unwrap();
    assert_eq!(fi.events, 0x4);
    assert_eq!(fi.task, TaskId(9));

    let removed = io.unregister(5).unwrap();
    assert_eq!(removed.task, TaskId(9));
    assert!(io.is_empty());
    // removing an unknown descriptor is silently tolerated.
    assert!(io.unregister(5).is_none());
}

#[test]
fn registry_modify_is_idempotent() {
    let mut io = IoRegistry::new();
    io.register(3, 0x1, TaskId(1));

    io.modify(3, 0x8);
    let once = io.lookup(3).unwrap();
    io.modify(3, 0x8);
    let twice = io.lookup(3).unwrap();
    assert_eq!(once, twice);

    // modifying an unknown descriptor is silently tolerated.
    io.modify(44, 0x8);
    assert!(!io.contains(44));
    assert_eq!(io.len(), 1);
}

#[test]
fn registry_register_unregister_roundtrip() {
    let mut io = IoRegistry::new();
    io.register(1, 0x1, TaskId(1));

    // fresh descriptor: register followed by unregister restores the table.
    io.register(2, 0x4, TaskId(2));
    io.unregister(2);
    assert_eq!(io.len(), 1);
    assert!(io.contains(1));
    assert!(!io.contains(2));
    let fi = io.lookup(1).unwrap();
    assert_eq!(fi.events, 0x1);
    assert_eq!(fi.task, TaskId(1));
}

#[test]
fn root_task_runs_and_scheduler_goes_idle() {
    // The bookkeeping of a `block_on` whose root spawns one task: both
    // run exactly once and the scheduler ends idle.
    let mut sched = Scheduler::new();
    let root = sched.seed_root();
    assert!(!sched.is_idle());

    // tick 1: the root task is polled; during its poll it spawns a task.
    sched.process_pending();
    sched.process_timers(0);
    let polled = sched.begin_poll().unwrap();
    assert_eq!(polled, root);
    let child = sched.spawn_task();
    sched.finish_poll(polled, true);
    assert!(!sched.is_idle());
    assert!(sched.begin_poll().is_none());

    // tick 2: the pending spawn is installed and polled to completion.
    sched.process_pending();
    let polled = sched.begin_poll().unwrap();
    assert_eq!(polled, child);
    sched.finish_poll(polled, true);

    assert!(sched.begin_poll().is_none());
    assert!(sched.is_idle());
}

#[test]
fn spawns_poll_in_spawn_order() {
    let mut sched = Scheduler::new();
    let a = sched.spawn_task();
    let b = sched.spawn_task();
    let c = sched.spawn_task();
    sched.process_pending();

    let first = sched.begin_poll().unwrap();
    assert_eq!(first, a);
    sched.finish_poll(first, true);
    let second = sched.begin_poll().unwrap();
    assert_eq!(second, b);
    sched.finish_poll(second, true);
    let third = sched.begin_poll().unwrap();
    assert_eq!(third, c);
    sched.finish_poll(third, true);
    assert!(sched.is_idle());
}

#[test]
fn wake_queues_a_task_at_most_once() {
    let mut sched = Scheduler::new();
    let id = sched.seed_root();
    // the root is already queued; further wakes must not queue it twice.
    sched.wake(id);
    sched.wake(id);

    let polled = sched.begin_poll().unwrap();
    assert_eq!(polled, id);
    sched.finish_poll(polled, false);
    assert!(sched.begin_poll().is_none());
}

#[test]
fn task_rewoken_during_poll_runs_next_tick() {
    let mut sched = Scheduler::new();
    let id = sched.seed_root();

    let polled = sched.begin_poll().unwrap();
    assert_eq!(polled, id);
    // the task wakes itself mid-poll and stays pending.
    sched.wake(id);
    sched.finish_poll(polled, false);

    // it is queued again, exactly once.
    let again = sched.begin_poll().unwrap();
    assert_eq!(again, id);
    sched.finish_poll(again, true);
    assert!(sched.begin_poll().is_none());
    assert!(sched.is_idle());
}

#[test]
fn stale_waker_is_discarded() {
    let mut sched = Scheduler::new();
    let id = sched.seed_root();

    // resolve the task on its first poll.
    let polled = sched.begin_poll().unwrap();
    assert_eq!(polled, id);
    sched.finish_poll(polled, true);
    assert!(sched.is_idle());

    // trigger its waker post-hoc: the ready queue absorbs the stale id
    // and the next tick discards it silently.
    sched.wake(id);
    sched.wake(id);
    assert!(sched.begin_poll().is_none());
    assert!(sched.is_idle());
}

#[test]
fn zero_duration_sleep_resolves_on_first_poll() {
    let mut sched = Scheduler::new();
    let id = sched.seed_root();

    let polled = sched.begin_poll().unwrap();
    assert_eq!(polled, id);
    let mut s = sleep(100, 0);
    assert!(s.poll(100, &mut sched));
    sched.finish_poll(polled, true);
    assert!(sched.is_idle());
}

#[test]
fn sleep_registers_once_and_wakes_on_expiry() {
    let mut sched = Scheduler::new();
    let id = sched.seed_root();

    // first poll of the task: the sleep registers a timer and suspends.
    let polled = sched.begin_poll().unwrap();
    let mut s = sleep(0, 250);
    assert!(!s.poll(0, &mut sched));
    sched.finish_poll(polled, false);

    // with a pending timer the loop must not block past the deadline.
    assert_eq!(sched.poll_timeout(0), 250);
    assert_eq!(sched.poll_timeout(100), 150);
    assert_eq!(sched.poll_timeout(250), 0);
    assert_eq!(sched.poll_timeout(9999), 0);

    // nothing is ready before the deadline passes.
    sched.process_timers(249);
    assert!(sched.begin_poll().is_none());

    // the deadline passes: the timer wakes the task, whose next poll
    // resolves the sleep. A spurious extra poll re-checks but does not
    // register a second timer.
    sched.process_timers(250);
    let polled = sched.begin_poll().unwrap();
    assert_eq!(polled, id);
    assert!(s.poll(250, &mut sched));
    sched.finish_poll(polled, true);
    assert!(sched.is_idle());
    assert_eq!(sched.poll_timeout(251), -1);
}

#[test]
fn sleeps_wake_in_deadline_order() {
    // Three tasks sleeping until 1s, 3s, 5s: they are woken, and hence
    // polled, in deadline order.
    let mut sched = Scheduler::new();
    let a = sched.spawn_task();
    let b = sched.spawn_task();
    let c = sched.spawn_task();
    sched.process_pending();

    // first tick: each task is polled once, registers its sleep, and
    // suspends.
    let deadlines = [1000u64, 3000, 5000];
    let ids = [a, b, c];
    let mut sleeps: Vec<Sleep> = Vec::new();
    for d in deadlines.iter() {
        let polled = sched.begin_poll().unwrap();
        let mut s = sleep_until(*d);
        assert!(!s.poll(0, &mut sched));
        sleeps.push(s);
        sched.finish_poll(polled, false);
    }
    assert!(sched.begin_poll().is_none());

    // all three deadlines pass: wakes happen in deadline order, so the
    // tasks come off the ready queue as a, b, c.
    sched.process_timers(5000);
    for k in 0..3 {
        let polled = sched.begin_poll().unwrap();
        assert_eq!(polled, ids[k]);
        assert!(sleeps[k].poll(5000, &mut sched));
        sched.finish_poll(polled, true);
    }
    assert!(sched.is_idle());
}

#[test]
fn io_events_wake_without_dropping_registration() {
    let mut sched = Scheduler::new();
    let id = sched.seed_root();

    // the task's poll registers interest in a descriptor and suspends.
    let polled = sched.begin_poll().unwrap();
    sched.register_fd(7, 0x1);
    sched.finish_poll(polled, false);

    // the kernel reports the descriptor ready: the task is woken, and in
    // edge-triggered fashion the registration stays armed.
    let ready_fds = vec![7];
    sched.handle_io_events(&ready_fds);
    let polled = sched.begin_poll().unwrap();
    assert_eq!(polled, id);
    sched.finish_poll(polled, false);

    // an event for an unknown descriptor wakes nothing.
    let unknown = vec![99];
    sched.handle_io_events(&unknown);
    assert!(sched.begin_poll().is_none());

    // dropping the wrapper unregisters the descriptor before close.
    let polled_again = {
        sched.wake(id);
        let p = sched.begin_poll().unwrap();
        sched.unregister_fd(7);
        sched.finish_poll(p, true);
        p
    };
    assert_eq!(polled_again, id);
    sched.handle_io_events(&ready_fds);
    assert!(sched.begin_poll().is_none());
    assert!(sched.is_idle());
}

#[test]
fn poll_timeout_blocks_indefinitely_without_timers() {
    let sched = Scheduler::new();
    assert_eq!(sched.poll_timeout(0), -1);
    assert_eq!(sched.poll_timeout(u64::MAX), -1);
}

#[test]
fn poll_timeout_saturates_far_deadlines() {
    let mut sched = Scheduler::new();
    let _ = sched.seed_root();
    let polled = sched.begin_poll().unwrap();
    let mut s = sleep_until(u64::MAX);
    assert!(!s.poll(0, &mut sched));
    sched.finish_poll(polled, false);
    assert_eq!(sched.poll_timeout(0), i32::MAX);
}

#[test]
fn counters_interleave_with_per_task_order() {
    // Three tasks counting 0..10 with sleep intervals 100, 150 and
    // 200 ms between counts: the interleaving respects each task's own
    // order, the tasks genuinely interleave, and everything completes by
    // the slowest task's last deadline.
    let mut sched = Scheduler::new();
    let ids = [sched.spawn_task(), sched.spawn_task(), sched.spawn_task()];
    sched.process_pending();
    let intervals = [100u64, 150, 200];

    let mut now = 0u64;
    let mut log: Vec<(usize, usize)> = Vec::new();
    let mut sleeps: Vec<Option<Sleep>> = vec![None, None, None];
    let mut counters = [0usize; 3];

    while !sched.is_idle() {
        let t = sched.poll_timeout(now);
        assert!(t >= -1);
        if t > 0 {
            now += t as u64;
        }
        sched.process_pending();
        sched.process_timers(now);
        while let Some(id) = sched.begin_poll() {
            let k = ids.iter().position(|x| *x == id).unwrap();
            // one poll of the counting task: finish a resolved sleep,
            // print the next count, suspend on a fresh sleep.
            let done = loop {
                if let Some(s) = sleeps[k].as_mut() {
                    if s.poll(now, &mut sched) {
                        sleeps[k] = None;
                    } else {
                        break false;
                    }
                }
                if counters[k] == 10 {
                    break true;
                }
                log.push((k, counters[k]));
                counters[k] += 1;
                let mut s = sleep(now, intervals[k]);
                if s.poll(now, &mut sched) {
                    continue;
                }
                sleeps[k] = Some(s);
                break false;
            };
            sched.finish_poll(id, done);
        }
    }

    assert_eq!(counters, [10, 10, 10]);
    for k in 0..3 {
        let seq: Vec<usize> = log.iter().filter(|(t, _)| *t == k).map(|(_, c)| *c).collect();
        assert_eq!(seq, (0..10).collect::<Vec<_>>());
    }
    assert!(log.windows(2).any(|w| w[0].0 != w[1].0));
    assert!(now <= 2000);
}
