use hocuspocu_rs::{awareness_states_to_array, AwarenessState};
use std::collections::HashMap;

fn state(text: &str) -> AwarenessState {
    serde_json::from_str(text).unwrap()
}

#[test]
fn every_client_once_with_its_state() {
    let mut states: HashMap<u64, AwarenessState> = HashMap::new();
    states.insert(1, state(r#"{"user": "ann"}"#));
    states.insert(7, state(r#"{"cursor": 3}"#));
    let mut list = awareness_states_to_array(&states);
    list.sort_by_key(|c| c.client_id);
    assert_eq!(list.len(), 2);
    assert_eq!(list[0].client_id, 1);
    assert_eq!(list[0].state["user"], "ann");
    assert_eq!(list[1].client_id, 7);
    assert_eq!(list[1].state["cursor"], 3);
}

#[test]
fn no_states_no_entries() {
    let states: HashMap<u64, AwarenessState> = HashMap::new();
    assert!(awareness_states_to_array(&states).is_empty());
}
