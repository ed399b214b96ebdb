use futures_lite::future;
use std::sync::{Arc, Mutex};
use task_runtime::join::join;
use task_runtime::lanes::{spawn_task, Lanes};
use task_runtime::worker::{Worker, WorkerAction, IDLE_MILLIS};
use task_runtime::FutureType;

type Log = Arc<Mutex<Vec<&'static str>>>;

fn new_log() -> Log {
    Arc::new(Mutex::new(Vec::new()))
}

fn entries(log: &Log) -> Vec<&'static str> {
    log.lock().unwrap().clone()
}

/// Spawns a task that writes `name` to the log when it is run.
fn spawn_named(lanes: &mut Lanes, order: FutureType, log: &Log, name: &'static str) {
    let log = log.clone();
    spawn_task(
        async move {
            log.lock().unwrap().push(name);
        },
        order,
        lanes,
    )
    .detach();
}

/// Makes one step; whether a task was run.
fn step(worker: &mut Worker) -> bool {
    match worker.next_action() {
        WorkerAction::Run(runnable) => {
            runnable.run();
            true
        }
        WorkerAction::Sleep(_) => false,
    }
}

#[test]
fn worker_with_empty_lanes_rests_a_tenth_of_a_second() {
    let lanes = Lanes::new();
    for home in [FutureType::High, FutureType::Low] {
        let mut worker = lanes.worker(home, 0);
        assert!(matches!(worker.next_action(), WorkerAction::Sleep(100)));
    }
    assert_eq!(IDLE_MILLIS, 100);
}

#[test]
fn high_worker_serves_the_high_lane_first() {
    let mut lanes = Lanes::new();
    let log = new_log();
    spawn_named(&mut lanes, FutureType::Low, &log, "low");
    spawn_named(&mut lanes, FutureType::High, &log, "high");
    let mut worker = lanes.worker(FutureType::High, 0);
    assert!(step(&mut worker));
    assert_eq!(entries(&log), vec!["high"]);
    assert!(step(&mut worker));
    assert_eq!(entries(&log), vec!["high", "low"]);
    assert!(!step(&mut worker));
}

#[test]
fn low_worker_serves_the_low_lane_first() {
    let mut lanes = Lanes::new();
    let log = new_log();
    spawn_named(&mut lanes, FutureType::High, &log, "high");
    spawn_named(&mut lanes, FutureType::Low, &log, "low");
    let mut worker = lanes.worker(FutureType::Low, 0);
    assert!(step(&mut worker));
    assert_eq!(entries(&log), vec!["low"]);
    assert!(step(&mut worker));
    assert_eq!(entries(&log), vec!["low", "high"]);
    assert!(!step(&mut worker));
}

#[test]
fn own_lane_is_looked_at_again_before_each_theft() {
    let mut lanes = Lanes::new();
    let log = new_log();
    spawn_named(&mut lanes, FutureType::Low, &log, "low 1");
    spawn_named(&mut lanes, FutureType::Low, &log, "low 2");
    let mut worker = lanes.worker(FutureType::High, 0);
    assert!(step(&mut worker));
    spawn_named(&mut lanes, FutureType::High, &log, "high");
    assert!(step(&mut worker));
    assert!(step(&mut worker));
    assert_eq!(entries(&log), vec!["low 1", "high", "low 2"]);
}

#[test]
fn a_lane_is_first_in_first_out() {
    let mut lanes = Lanes::new();
    let log = new_log();
    spawn_named(&mut lanes, FutureType::High, &log, "1");
    spawn_named(&mut lanes, FutureType::High, &log, "2");
    spawn_named(&mut lanes, FutureType::High, &log, "3");
    let mut worker = lanes.worker(FutureType::High, 0);
    while step(&mut worker) {}
    assert_eq!(entries(&log), vec!["1", "2", "3"]);
}

#[test]
fn every_task_is_run_once_by_one_of_the_workers() {
    let mut lanes = Lanes::new();
    let log = new_log();
    for name in ["a", "b", "c"] {
        spawn_named(&mut lanes, FutureType::High, &log, name);
    }
    for name in ["d", "e"] {
        spawn_named(&mut lanes, FutureType::Low, &log, name);
    }
    let mut high = lanes.worker(FutureType::High, 0);
    let mut low = lanes.worker(FutureType::Low, 0);
    let mut busy = true;
    while busy {
        let first = step(&mut high);
        let second = step(&mut low);
        busy = first || second;
    }
    let mut names = entries(&log);
    names.sort();
    assert_eq!(names, vec!["a", "b", "c", "d", "e"]);
}

#[test]
fn awaiting_a_task_gives_the_output_of_its_future() {
    let mut lanes = Lanes::new();
    let task = spawn_task(async { 6 * 7 }, FutureType::Low, &mut lanes);
    let mut worker = lanes.worker(FutureType::Low, 0);
    assert!(step(&mut worker));
    assert_eq!(future::block_on(task), 42);
}

#[test]
fn a_woken_task_goes_back_to_its_own_lane() {
    let mut lanes = Lanes::new();
    let log = new_log();
    let inner = log.clone();
    let task = spawn_task(
        async move {
            inner.lock().unwrap().push("high, first half");
            future::yield_now().await;
            inner.lock().unwrap().push("high, second half");
        },
        FutureType::High,
        &mut lanes,
    );
    let mut worker = lanes.worker(FutureType::Low, 0);
    // Stolen, and woken while it runs.
    assert!(step(&mut worker));
    spawn_named(&mut lanes, FutureType::Low, &log, "low");
    assert!(step(&mut worker));
    assert!(step(&mut worker));
    assert_eq!(entries(&log), vec!["high, first half", "low", "high, second half"]);
    future::block_on(task);
}

#[test]
fn a_clone_stands_for_the_same_lanes() {
    let lanes = Lanes::new();
    let log = new_log();
    let mut copy = lanes.clone();
    spawn_named(&mut copy, FutureType::High, &log, "task");
    let mut worker = lanes.worker(FutureType::High, 0);
    assert!(step(&mut worker));
    assert_eq!(entries(&log), vec!["task"]);
}

#[test]
fn two_sets_of_lanes_are_apart() {
    let mut lanes = Lanes::new();
    let others = Lanes::new();
    let log = new_log();
    spawn_named(&mut lanes, FutureType::High, &log, "task");
    assert!(!step(&mut others.worker(FutureType::High, 0)));
    assert!(step(&mut lanes.worker(FutureType::High, 0)));
}

#[test]
fn rescheduling_uses_a_handle_of_its_own() {
    let mut lanes = Lanes::new();
    let log = new_log();
    spawn_named(&mut lanes, FutureType::High, &log, "task");
    let mut worker = lanes.worker(FutureType::Low, 0);
    match worker.next_action() {
        WorkerAction::Run(runnable) => {
            lanes.reschedule(FutureType::Low, runnable);
        }
        WorkerAction::Sleep(_) => panic!("the task was not found"),
    }
    assert!(entries(&log).is_empty());
    assert!(step(&mut worker));
    assert_eq!(entries(&log), vec!["task"]);
}

#[test]
fn scheduling_puts_a_taken_task_back() {
    let mut lanes = Lanes::new();
    let log = new_log();
    spawn_named(&mut lanes, FutureType::Low, &log, "first");
    spawn_named(&mut lanes, FutureType::Low, &log, "second");
    let mut worker = lanes.worker(FutureType::Low, 0);
    match worker.next_action() {
        WorkerAction::Run(runnable) => lanes.schedule(FutureType::Low, runnable),
        WorkerAction::Sleep(_) => panic!("the task was not found"),
    }
    while step(&mut worker) {}
    assert_eq!(entries(&log), vec!["second", "first"]);
}

#[test]
fn the_priority_is_low_by_default() {
    assert_eq!(FutureType::default(), FutureType::Low);
}

#[test]
fn join_gives_the_results_in_the_order_of_the_tasks() {
    let mut lanes = Lanes::new();
    let first = spawn_task(async { 1 }, FutureType::Low, &mut lanes);
    let second = spawn_task(async { 2 }, FutureType::High, &mut lanes);
    let third = spawn_task(async { 3 }, FutureType::Low, &mut lanes);
    let mut worker = lanes.worker(FutureType::High, 0);
    while step(&mut worker) {}
    let results = join(vec![first, second, third], |task| future::block_on(task));
    assert_eq!(results, vec![1, 2, 3]);
}

#[test]
fn join_of_nothing_is_empty() {
    let none: Vec<u8> = Vec::new();
    let results: Vec<u8> = join(none, |n| n);
    assert!(results.is_empty());
}

#[test]
fn as_many_workers_are_made_as_asked_for() {
    let mut lanes = Lanes::new();
    assert!(lanes.workers(FutureType::High, 0).is_empty());
    let mut workers = lanes.workers(FutureType::Low, 3);
    assert_eq!(workers.len(), 3);
    let log = new_log();
    for name in ["high 1", "high 2"] {
        spawn_named(&mut lanes, FutureType::High, &log, name);
    }
    spawn_named(&mut lanes, FutureType::Low, &log, "low");
    for worker in workers.iter_mut() {
        assert!(step(worker));
    }
    assert_eq!(entries(&log), vec!["low", "high 1", "high 2"]);
    for worker in workers.iter_mut() {
        assert!(!step(worker));
    }
}

#[test]
fn the_task_that_is_queued_runs_the_future_that_was_spawned() {
    let mut lanes = Lanes::new();
    let log = new_log();
    let inner = log.clone();
    let task = spawn_task(
        async move {
            inner.lock().unwrap().push("ran");
            "output"
        },
        FutureType::High,
        &mut lanes,
    );
    let mut worker = lanes.worker(FutureType::High, 0);
    assert!(step(&mut worker));
    assert_eq!(entries(&log), vec!["ran"]);
    assert!(!step(&mut worker));
    assert_eq!(future::block_on(task), "output");
}

#[test]
fn a_handle_made_later_sends_behind_what_was_sent_before() {
    let mut lanes = Lanes::new();
    let log = new_log();
    spawn_named(&mut lanes, FutureType::Low, &log, "1");
    let mut copy = lanes.clone();
    spawn_named(&mut copy, FutureType::Low, &log, "2");
    spawn_named(&mut copy.clone(), FutureType::Low, &log, "3");
    let mut worker = lanes.worker(FutureType::High, 0);
    while step(&mut worker) {}
    assert_eq!(entries(&log), vec!["1", "2", "3"]);
}

#[test]
fn a_worker_of_the_other_kind_strands_no_task() {
    let mut lanes = Lanes::new();
    let log = new_log();
    spawn_named(&mut lanes, FutureType::High, &log, "high 1");
    spawn_named(&mut lanes, FutureType::High, &log, "high 2");
    spawn_named(&mut lanes, FutureType::Low, &log, "low");
    let mut worker = lanes.worker(FutureType::Low, 0);
    // One step for the entry ahead, one for the task, one for the worker's own
    // lane.
    for _ in 0..3 {
        assert!(step(&mut worker));
    }
    assert_eq!(entries(&log), vec!["low", "high 1", "high 2"]);
}
