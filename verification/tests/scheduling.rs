//! The deterministic scheduler, the manual clock and the failpoints.

use std::cell::{Cell, RefCell};
use std::rc::Rc;

use maki::clock::ManualClock;
use maki::crash_backing::ErrorKind;
use maki::failpoints::{
    clear_all, fail_n_times, hit, is_active, release, FailpointAction, Outcome, Registry,
};
use maki::sched::{yield_now, DeterministicScheduler, Step, POLL_BUDGET};

/// A task: polled until it says that it is done.
type Task = Box<dyn FnMut() -> bool>;

/// Poll tasks in the order that the scheduler draws.
fn run_bounded(sched: &mut DeterministicScheduler, tasks: &mut [Task], budget: usize) -> bool {
    let mut left = budget;
    loop {
        match sched.step(left) {
            Step::Stop(done) => return done,
            Step::Poll(task) => {
                left -= 1;
                if tasks[task]() {
                    sched.finish(task);
                }
            }
        }
    }
}

fn millis(n: u128) -> u128 {
    n * 1_000_000
}

#[test]
fn same_unit_concurrent_writes_serialize() {
    for seed in 0..100u64 {
        let mut sched = DeterministicScheduler::new(seed);
        let busy = Rc::new(Cell::new(false));
        let value = Rc::new(Cell::new(0u32));
        let overlaps = Rc::new(Cell::new(0u32));
        let mut tasks: Vec<Task> = Vec::new();

        for writer in 1..=2u32 {
            let busy = busy.clone();
            let value = value.clone();
            let overlaps = overlaps.clone();
            let mut stage = 0;
            let mut before = 0;
            sched.spawn();
            tasks.push(Box::new(move || {
                match stage {
                    0 => {
                        // spin-acquire the unit lock
                        if busy.get() {
                            return false;
                        }
                        busy.set(true);
                        before = value.get();
                    }
                    1 => {}
                    2 => {
                        if value.get() != before {
                            overlaps.set(overlaps.get() + 1);
                        }
                        value.set(writer);
                    }
                    _ => {
                        busy.set(false);
                        return true;
                    }
                }
                stage += 1;
                false
            }));
        }
        assert!(run_bounded(&mut sched, &mut tasks, POLL_BUDGET));
        assert_eq!(overlaps.get(), 0, "critical section overlapped, seed {seed}");
        let v = value.get();
        assert!(v == 1 || v == 2, "final value must be one writer's");
    }
}

#[test]
fn retry_backoff_releases_semaphore() {
    let clock = Rc::new(RefCell::new(ManualClock::new()));
    let mut sched = DeterministicScheduler::new(42);
    let permits = Rc::new(Cell::new(1u32));
    let events: Rc<RefCell<Vec<&'static str>>> = Rc::new(RefCell::new(Vec::new()));
    let mut tasks: Vec<Task> = Vec::new();

    {
        let permits = permits.clone();
        let events = events.clone();
        let clock = clock.clone();
        let mut stage = 0;
        let mut sleep = (0, 0);
        sched.spawn();
        tasks.push(Box::new(move || {
            match stage {
                0 => {
                    assert!(permits.get() > 0);
                    permits.set(permits.get() - 1);
                    events.borrow_mut().push("t1-acquired");
                    stage = 1;
                    false
                }
                1 => {
                    permits.set(permits.get() + 1); // release BEFORE backoff
                    events.borrow_mut().push("t1-released");
                    sleep = clock.borrow_mut().sleep(millis(100));
                    stage = 2;
                    false
                }
                _ => {
                    if !clock.borrow_mut().poll_sleep(sleep.0, sleep.1) {
                        return false;
                    }
                    events.borrow_mut().push("t1-woke");
                    true
                }
            }
        }));
    }
    {
        let permits = permits.clone();
        let events = events.clone();
        sched.spawn();
        tasks.push(Box::new(move || {
            // t2: waits for a permit; must get one while t1 is in backoff.
            if permits.get() == 0 {
                return false;
            }
            permits.set(permits.get() - 1);
            events.borrow_mut().push("t2-acquired");
            permits.set(permits.get() + 1);
            true
        }));
    }
    {
        let clock = clock.clone();
        let events = events.clone();
        sched.spawn();
        tasks.push(Box::new(move || {
            // driver: only release time once t2 has its permit.
            if !events.borrow().contains(&"t2-acquired") {
                return false;
            }
            clock.borrow_mut().advance(millis(150));
            true
        }));
    }
    assert!(run_bounded(&mut sched, &mut tasks, POLL_BUDGET));

    let events = events.borrow();
    let pos = |e: &str| events.iter().position(|x| *x == e).unwrap();
    assert!(pos("t1-released") < pos("t2-acquired"));
    assert!(
        pos("t2-acquired") < pos("t1-woke"),
        "t2 must acquire while t1 is parked in backoff: {events:?}"
    );
}

#[test]
fn manual_clock_sleep_requires_advance() {
    let clock = Rc::new(RefCell::new(ManualClock::new()));
    let fired = Rc::new(Cell::new(false));
    let mut sched = DeterministicScheduler::new(1);
    let mut tasks: Vec<Task> = Vec::new();
    {
        let clock = clock.clone();
        let fired = fired.clone();
        let mut sleep = None;
        sched.spawn();
        tasks.push(Box::new(move || {
            let mut clock = clock.borrow_mut();
            let (id, deadline) = *sleep.get_or_insert_with(|| clock.sleep(millis(5_000)));
            if clock.poll_sleep(id, deadline) {
                fired.set(true);
                return true;
            }
            false
        }));
    }
    // Without advancing: must not complete within a bounded poll budget.
    assert!(!run_bounded(&mut sched, &mut tasks, 1_000));
    assert!(!fired.get());
    clock.borrow_mut().advance(millis(4_000));
    assert!(!run_bounded(&mut sched, &mut tasks, 1_000));
    assert!(!fired.get(), "woke early");
    clock.borrow_mut().advance(millis(1_000));
    assert!(run_bounded(&mut sched, &mut tasks, POLL_BUDGET));
    assert!(fired.get());
}

#[test]
fn the_same_seed_draws_the_same_tasks() {
    let draws = |seed: u64| {
        let mut sched = DeterministicScheduler::new(seed);
        for _ in 0..5 {
            sched.spawn();
        }
        let mut order = Vec::new();
        for _ in 0..40 {
            match sched.step(1) {
                Step::Poll(task) => order.push(task),
                Step::Stop(_) => panic!("tasks are left"),
            }
        }
        order
    };
    assert_eq!(draws(3), draws(3));
    assert_ne!(draws(3), draws(4));
    for task in 0..5 {
        assert!(draws(3).contains(&task), "task {task} was never drawn");
    }
}

#[test]
fn a_finished_task_is_never_drawn_and_an_empty_budget_stops() {
    let mut sched = DeterministicScheduler::new(9);
    let first = sched.spawn();
    let second = sched.spawn();
    assert_eq!(sched.unfinished_tasks(), vec![first, second]);
    sched.finish(first);
    for _ in 0..20 {
        assert!(matches!(sched.step(1), Step::Poll(task) if task == second));
    }
    assert!(matches!(sched.step(0), Step::Stop(false)));
    sched.finish(second);
    assert!(matches!(sched.step(1), Step::Stop(true)));
}

#[test]
fn a_yield_is_ready_at_its_second_poll() {
    let mut pause = yield_now();
    assert!(!pause.poll());
    assert!(pause.poll());
}

#[test]
fn a_clock_wakes_whoever_is_due_and_forgets_who_was_dropped() {
    let mut clock = ManualClock::new();
    assert_eq!(clock.now(), 0);
    let (a, a_due) = clock.sleep(10);
    let (b, b_due) = clock.sleep(20);
    let (c, c_due) = clock.sleep(10);
    assert_eq!((a_due, b_due, c_due), (10, 20, 10));
    assert!(!clock.poll_sleep(a, a_due));
    assert!(!clock.poll_sleep(b, b_due));
    assert!(!clock.poll_sleep(c, c_due));
    assert_eq!(clock.sleeper_count(), 3);
    clock.drop_sleep(c);
    assert_eq!(clock.sleeper_count(), 2);
    assert_eq!(clock.advance(15), vec![a]);
    assert!(clock.poll_sleep(a, a_due));
    assert_eq!(clock.set(30), vec![b]);
    assert!(clock.set(20).is_empty(), "time never goes back");
    assert!(clock.poll_sleep(b, b_due));
    assert_eq!(clock.sleeper_count(), 0);
    assert_eq!(clock.now(), 30);
}

#[test]
fn a_countdown_fails_exactly_the_first_hits() {
    let mut registry = Registry::new();
    let guard = fail_n_times(&mut registry, "write", 2, ErrorKind::StorageFull, "disk full");
    assert!(is_active(&registry, "write"));
    for _ in 0..2 {
        match hit(&mut registry, "write") {
            Outcome::Fail(error) => {
                assert_eq!(error.kind, ErrorKind::StorageFull);
                assert_eq!(error.message, "disk full");
            }
            other => panic!("{other:?}"),
        }
    }
    assert!(matches!(hit(&mut registry, "write"), Outcome::Pass));
    release(&mut registry, guard);
    assert!(!is_active(&registry, "write"));
}

#[test]
fn other_failpoints_last_until_they_are_released() {
    let mut registry = Registry::new();
    let guard = maki::failpoints::set(&mut registry, "sync", FailpointAction::Panic("boom".into()));
    let fail = FailpointAction::IoError(ErrorKind::Other, "io".into());
    let _error = maki::failpoints::set(&mut registry, "write", fail);
    let _ask = maki::failpoints::set(&mut registry, "read", FailpointAction::Callback(7));
    for _ in 0..3 {
        assert!(matches!(hit(&mut registry, "sync"), Outcome::Panic(text) if text.contains("boom")));
        assert!(matches!(hit(&mut registry, "write"), Outcome::Fail(error) if error.message == "io"));
        assert!(matches!(hit(&mut registry, "read"), Outcome::Ask(7)));
        assert!(matches!(hit(&mut registry, "open"), Outcome::Pass));
    }
    release(&mut registry, guard);
    assert!(matches!(hit(&mut registry, "sync"), Outcome::Pass));
    clear_all(&mut registry);
    assert!(!is_active(&registry, "read"));
}
