use hocuspocu_rs::{DebounceDecision, Debouncer};

#[test]
fn zero_delay_runs_now() {
    let mut d = Debouncer::new();
    let id = "onStoreDocument-doc".to_string();
    assert_eq!(d.debounce(&id, 1000, 0, 10_000), DebounceDecision::RunNow);
    assert!(!d.is_debounced(&id));
}

#[test]
fn calls_are_postponed_until_max_wait() {
    let mut d = Debouncer::new();
    let id = "x".to_string();
    assert_eq!(d.debounce(&id, 0, 100, 250), DebounceDecision::Schedule { delay_ms: 100 });
    assert!(d.is_debounced(&id));
    assert_eq!(d.debounce(&id, 90, 100, 250), DebounceDecision::Schedule { delay_ms: 100 });
    assert_eq!(d.debounce(&id, 180, 100, 250), DebounceDecision::Schedule { delay_ms: 100 });
    // 250 ms after the first call: run now
    assert_eq!(d.debounce(&id, 250, 100, 250), DebounceDecision::RunNow);
    assert!(!d.is_debounced(&id));
    // a new series starts afresh
    assert_eq!(d.debounce(&id, 300, 100, 250), DebounceDecision::Schedule { delay_ms: 100 });
}

#[test]
fn execute_now_and_running() {
    let mut d = Debouncer::new();
    let id = "x".to_string();
    assert!(!d.execute_now(&id));
    let _ = d.debounce(&id, 0, 100, 1000);
    assert!(d.execute_now(&id));
    assert!(!d.is_debounced(&id));
    d.begin_run(&id);
    assert!(d.is_currently_executing(&id));
    d.finish_run(&id);
    assert!(!d.is_currently_executing(&id));
}

#[test]
fn ids_are_independent() {
    let mut d = Debouncer::new();
    let a = "a".to_string();
    let b = "b".to_string();
    let _ = d.debounce(&a, 0, 100, 1000);
    let _ = d.debounce(&b, 0, 100, 1000);
    assert!(d.execute_now(&a));
    assert!(d.is_debounced(&b));
}

#[test]
fn repeated_calls_leave_one_waiting_run() {
    let mut d = Debouncer::new();
    let id = "test".to_string();
    for t in 0..5u64 {
        assert_eq!(d.debounce(&id, t, 100, 10_000), DebounceDecision::Schedule { delay_ms: 100 });
    }
    // one waiting run, which runs once
    assert!(d.execute_now(&id));
    assert!(!d.execute_now(&id));
}
