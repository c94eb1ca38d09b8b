use workpool::pool::{clamp_delay, Lifecycle, Phase, SharedState, WorkerStep};

#[test]
fn fresh_state_is_empty_and_running() {
    let s: SharedState<u64> = SharedState::new();
    assert_eq!(s.pending_count(), 0);
    assert!(!s.is_stopping());
    assert!(s.must_wait());
}

#[test]
fn lifo_dequeue_order() {
    let mut s: SharedState<&'static str> = SharedState::new();
    assert!(s.enqueue("a"));
    assert!(s.enqueue("b"));
    assert!(s.enqueue("c"));
    assert!(matches!(s.next_step(), WorkerStep::Run("c")));
    assert!(matches!(s.next_step(), WorkerStep::Run("b")));
    assert!(matches!(s.next_step(), WorkerStep::Run("a")));
    assert!(matches!(s.next_step(), WorkerStep::Wait));
}

#[test]
fn drain_hands_out_every_accepted_task_once() {
    let mut s: SharedState<u64> = SharedState::new();
    let posted: Vec<u64> = vec![10, 20, 30, 40, 50];
    for t in &posted {
        assert!(s.enqueue(*t));
    }
    s.request_stop();
    let mut handed: Vec<u64> = Vec::new();
    loop {
        match s.next_step() {
            WorkerStep::Run(t) => handed.push(t),
            WorkerStep::Exit => break,
            WorkerStep::Wait => panic!("a stopping pool must drain, not wait"),
        }
    }
    assert_eq!(handed, vec![50, 40, 30, 20, 10]);
    let mut sorted = handed.clone();
    sorted.sort();
    assert_eq!(sorted, posted);
}

#[test]
fn interleaved_load_loses_nothing() {
    let mut s: SharedState<u64> = SharedState::new();
    let mut handed: Vec<u64> = Vec::new();
    let mut posted: Vec<u64> = Vec::new();
    let mut next: u64 = 0;
    for round in 0..10 {
        for _ in 0..(round % 4) {
            assert!(s.enqueue(next));
            posted.push(next);
            next += 1;
        }
        if let WorkerStep::Run(t) = s.next_step() {
            handed.push(t);
        }
    }
    s.request_stop();
    loop {
        match s.next_step() {
            WorkerStep::Run(t) => handed.push(t),
            WorkerStep::Exit => break,
            WorkerStep::Wait => panic!("a stopping pool must drain, not wait"),
        }
    }
    handed.sort();
    posted.sort();
    assert_eq!(handed, posted);
}

#[test]
fn post_after_stop_is_dropped_silently() {
    let mut s: SharedState<u64> = SharedState::new();
    assert!(s.enqueue(1));
    s.request_stop();
    assert!(!s.enqueue(2));
    assert_eq!(s.pending_count(), 1);
    assert!(s.is_stopping());
    assert!(matches!(s.next_step(), WorkerStep::Run(1)));
    assert!(matches!(s.next_step(), WorkerStep::Exit));
}

#[test]
fn idle_stop_exits_immediately() {
    let mut s: SharedState<u64> = SharedState::new();
    s.request_stop();
    assert!(matches!(s.next_step(), WorkerStep::Exit));
    assert!(matches!(s.next_step(), WorkerStep::Exit));
}

#[test]
fn worker_waits_while_running_and_empty() {
    let mut s: SharedState<u64> = SharedState::new();
    assert!(matches!(s.next_step(), WorkerStep::Wait));
    assert!(s.must_wait());
}

#[test]
fn stopping_is_monotonic_through_traffic() {
    let mut s: SharedState<u64> = SharedState::new();
    s.request_stop();
    let _ = s.enqueue(7);
    let _ = s.next_step();
    assert!(s.is_stopping());
}

#[test]
fn clamp_delay_clamps_only_negatives() {
    assert_eq!(clamp_delay(-1), 0);
    assert_eq!(clamp_delay(-1000), 0);
    assert_eq!(clamp_delay(0), 0);
    assert_eq!(clamp_delay(1), 1);
    assert_eq!(clamp_delay(1000), 1000);
    assert_eq!(clamp_delay(i32::MAX), i32::MAX as u64);
}

#[test]
fn lifecycle_accepts_each_transition_once() {
    let mut c = Lifecycle::new(3);
    assert_eq!(c.threads_to_spawn(), 3);
    assert!(!c.begin_stop());
    assert!(c.begin_start());
    assert!(!c.begin_start());
    assert!(c.begin_stop());
    assert!(!c.begin_stop());
    assert!(!c.begin_start());
}

#[test]
fn lifecycle_phases_compare() {
    assert_eq!(Phase::Idle, Phase::Idle);
    assert_ne!(Phase::Idle, Phase::Running);
    assert_ne!(Phase::Running, Phase::Stopped);
}
