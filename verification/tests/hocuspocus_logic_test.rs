use hocuspocu_rs::hocuspocus::{hook_start, hook_step};
use hocuspocu_rs::{HookOutcome, HookStep};
use hocuspocu_rs::hocuspocus::{
    after_disconnect, after_store, count_distinct, is_blank_name, priority_order, should_unload,
    store_debounce_id, store_delay, unload_after_direct_disconnect,
};
use hocuspocu_rs::{AfterDisconnect, CreateStep, DocumentRegistry, StoreOutcome};

#[test]
fn higher_priority_runs_first_and_ties_keep_order() {
    assert_eq!(priority_order(&vec![100, 200, 100, 300]), vec![3, 1, 0, 2]);
    assert_eq!(priority_order(&vec![]), Vec::<usize>::new());
    assert_eq!(priority_order(&vec![5, 5, 5]), vec![0, 1, 2]);
    assert_eq!(priority_order(&vec![-1, 0, i32::MIN, i32::MAX]), vec![3, 1, 0, 2]);
}

#[test]
fn blank_names() {
    assert!(is_blank_name(""));
    assert!(is_blank_name("   "));
    assert!(is_blank_name("\t\n\u{3000}"));
    assert!(!is_blank_name(" a "));
    assert!(!is_blank_name("doc"));
}

#[test]
fn registry_create_and_unload() {
    let mut r: DocumentRegistry<u32> = DocumentRegistry::new();
    let name = "my-doc".to_string();
    assert!(matches!(r.begin_create(&"   ".to_string()), CreateStep::BlankName));
    assert!(matches!(r.begin_create(&name), CreateStep::Load));
    r.finish_load(&name, Some(7));
    match r.begin_create(&name) {
        CreateStep::Loaded(d) => assert_eq!(*d, 7),
        _ => panic!("expected the loaded document"),
    }
    assert_eq!(r.documents_count(), 1);
    assert_eq!(r.get(&name), Some(&7));
    assert!(!r.begin_unload(&name, false));
    assert!(r.begin_unload(&name, true));
    // already unloading
    assert!(!r.begin_unload(&name, true));
    assert_eq!(r.finish_unload(&name, true), Some(7));
    assert_eq!(r.documents_count(), 0);
    assert!(!r.begin_unload(&name, true));
}

#[test]
fn failed_load_leaves_nothing() {
    let mut r: DocumentRegistry<u32> = DocumentRegistry::new();
    let name = "d".to_string();
    assert!(matches!(r.begin_create(&name), CreateStep::Load));
    r.finish_load(&name, None);
    assert_eq!(r.documents_count(), 0);
    assert!(matches!(r.begin_create(&name), CreateStep::Load));
}

#[test]
fn registry_values() {
    let mut r: DocumentRegistry<u32> = DocumentRegistry::new();
    r.finish_load(&"a".to_string(), Some(1));
    r.finish_load(&"b".to_string(), Some(2));
    let mut v: Vec<u32> = r.values().into_iter().copied().collect();
    v.sort();
    assert_eq!(v, vec![1, 2]);
}

#[test]
fn store_id_and_delay() {
    assert_eq!(store_debounce_id("doc"), "onStoreDocument-doc");
    assert_eq!(store_delay(true, 2000), 0);
    assert_eq!(store_delay(false, 2000), 2000);
}

#[test]
fn unload_decisions() {
    assert!(should_unload(false, false, 0));
    assert!(!should_unload(true, false, 0));
    assert!(!should_unload(false, true, 0));
    assert!(!should_unload(false, false, 1));
    assert_eq!(after_disconnect(1, false, true, true), AfterDisconnect::Keep);
    assert_eq!(after_disconnect(0, false, true, true), AfterDisconnect::StoreNow);
    assert_eq!(after_disconnect(0, false, true, false), AfterDisconnect::Keep);
    assert_eq!(after_disconnect(0, true, true, true), AfterDisconnect::Unload);
    assert_eq!(after_disconnect(0, false, false, true), AfterDisconnect::Unload);
    assert_eq!(after_store(StoreOutcome::Stored), (true, true));
    assert_eq!(after_store(StoreOutcome::SkipFurther), (false, true));
    assert_eq!(after_store(StoreOutcome::Failed), (false, false));
    assert!(unload_after_direct_disconnect(0, false));
    assert!(!unload_after_direct_disconnect(0, true));
    assert!(!unload_after_direct_disconnect(2, false));
}

#[test]
fn distinct_sockets() {
    let ids: Vec<String> = vec!["a", "b", "a", "c", "b"].into_iter().map(String::from).collect();
    assert_eq!(count_distinct(&ids), 3);
    assert_eq!(count_distinct(&vec![]), 0);
}

#[test]
fn concurrent_create_waits_for_the_first_load() {
    let mut r: DocumentRegistry<u32> = DocumentRegistry::new();
    let name = "shared-doc".to_string();
    assert!(matches!(r.begin_create(&name), CreateStep::Load));
    assert!(matches!(r.begin_create(&name), CreateStep::Wait));
    assert!(matches!(r.begin_create(&name), CreateStep::Wait));
    r.finish_load(&name, Some(5));
    assert_eq!(r.documents_count(), 1);
    match r.begin_create(&name) {
        CreateStep::Loaded(d) => assert_eq!(*d, 5),
        _ => panic!("expected the loaded document"),
    }
}

#[test]
fn failed_load_lets_a_waiter_load_again() {
    let mut r: DocumentRegistry<u32> = DocumentRegistry::new();
    let name = "doc".to_string();
    assert!(matches!(r.begin_create(&name), CreateStep::Load));
    assert!(matches!(r.begin_create(&name), CreateStep::Wait));
    r.finish_load(&name, None);
    assert!(matches!(r.begin_create(&name), CreateStep::Load));
}

#[test]
fn hook_chain_steps() {
    assert_eq!(hook_start(0), HookStep::Finished);
    assert_eq!(hook_start(3), HookStep::Run(0));
    assert_eq!(hook_step(0, 3, HookOutcome::Done), HookStep::Run(1));
    assert_eq!(hook_step(1, 3, HookOutcome::Done), HookStep::Run(2));
    assert_eq!(hook_step(2, 3, HookOutcome::Done), HookStep::Finished);
    assert_eq!(hook_step(0, 3, HookOutcome::Failed), HookStep::Failed);
    assert_eq!(hook_step(1, 3, HookOutcome::SkipFurther), HookStep::Skipped);
    // a chain whose second hook fails runs the first two only
    let outcomes = [HookOutcome::Done, HookOutcome::Failed, HookOutcome::Done];
    let mut ran = Vec::new();
    let mut step = hook_start(outcomes.len());
    while let HookStep::Run(i) = step {
        ran.push(i);
        step = hook_step(i, outcomes.len(), outcomes[i]);
    }
    assert_eq!(ran, vec![0, 1]);
    assert_eq!(step, HookStep::Failed);
}
