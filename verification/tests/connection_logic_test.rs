use hocuspocu_rs::common::close_events::reset_connection;
use hocuspocu_rs::common::WsReadyState;
use hocuspocu_rs::connection::{
    close_reason, connection_action, has_novel_data, is_addressed_to, read_only_ack,
    send_decision, sync_step1_answer,
};
use hocuspocu_rs::encoding::{write_var_string, write_var_uint, write_var_uint8_array, Decoder};
use hocuspocu_rs::{ConnectionAction, MessageReceiver, MessageType, OutgoingMessage, SendDecision};
use yrs::updates::encoder::Encode;
use yrs::{Doc, ReadTxn, Text, Transact};

fn sync(address: &str, kind: MessageType, step: u64, payload: &[u8]) -> Vec<u8> {
    let mut m = Vec::new();
    write_var_string(&mut m, address);
    write_var_uint(&mut m, kind as u64);
    write_var_uint(&mut m, step);
    write_var_uint8_array(&mut m, payload);
    m
}

fn act(raw: Vec<u8>, read_only: bool) -> ConnectionAction {
    let r = MessageReceiver::new(raw, None);
    connection_action(r.parse(true), read_only, true, "doc")
}

#[test]
fn addressed_to_document_with_or_without_session() {
    let m = sync("doc\0s1", MessageType::Sync, 0, &[]);
    assert!(is_addressed_to(&m, "doc"));
    assert!(!is_addressed_to(&m, "other"));
    assert!(!is_addressed_to(&[0xff], "doc"));
}

#[test]
fn step1_is_answered() {
    match act(sync("doc", MessageType::Sync, 0, &[7, 8]), false) {
        ConnectionAction::AnswerSyncStep1 { state_vector, request_first_sync } => {
            assert_eq!(state_vector, vec![7, 8]);
            assert!(request_first_sync);
        }
        _ => panic!("expected an answer"),
    }
    match act(sync("doc", MessageType::SyncReply, 0, &[]), false) {
        ConnectionAction::AnswerSyncStep1 { request_first_sync, .. } => {
            assert!(!request_first_sync)
        }
        _ => panic!("expected an answer"),
    }
}

#[test]
fn updates_are_applied_and_acknowledged() {
    match act(sync("doc", MessageType::Sync, 2, &[1, 2, 3]), false) {
        ConnectionAction::ApplyUpdate { update, acknowledge } => {
            assert_eq!(update, vec![1, 2, 3]);
            assert!(acknowledge);
        }
        _ => panic!("expected an update"),
    }
}

#[test]
fn read_only_update_is_refused() {
    match act(sync("doc", MessageType::Sync, 2, &[1]), true) {
        ConnectionAction::Reply(frame) => {
            assert_eq!(frame, OutgoingMessage::new("doc").write_sync_status(false).to_vec())
        }
        _ => panic!("expected a refusal"),
    }
    assert!(matches!(
        act(sync("doc", MessageType::Sync, 1, &[1]), true),
        ConnectionAction::CheckReadOnlySync { .. }
    ));
}

#[test]
fn unknown_step_and_garbage_reset() {
    match act(sync("doc", MessageType::Sync, 9, &[]), false) {
        ConnectionAction::Close(e) => assert_eq!(e, reset_connection()),
        _ => panic!("expected a reset"),
    }
    match act(vec![0xff], false) {
        ConnectionAction::Close(e) => assert_eq!(e.code, 4205),
        _ => panic!("expected a reset"),
    }
}

#[test]
fn close_request_and_stateless() {
    let mut m = Vec::new();
    write_var_string(&mut m, "doc");
    write_var_uint(&mut m, MessageType::Close as u64);
    match act(m, false) {
        ConnectionAction::Close(e) => {
            assert_eq!(e.code, 1000);
            assert_eq!(e.reason, "provider_initiated");
        }
        _ => panic!("expected a close"),
    }
    let frame = OutgoingMessage::new("doc").write_stateless("hi").to_vec();
    match act(frame, false) {
        ConnectionAction::Stateless { payload } => assert_eq!(payload, "hi"),
        _ => panic!("expected a stateless payload"),
    }
    let broadcast = OutgoingMessage::new("doc").write_broadcast_stateless("all").to_vec();
    assert!(matches!(act(broadcast, false), ConnectionAction::Close(_)));
}

#[test]
fn step1_answer_frames() {
    let frames = sync_step1_answer("doc", &[1, 2], true, &[9], true);
    assert_eq!(frames.len(), 2);
    assert_eq!(
        frames[0],
        OutgoingMessage::new("doc").create_sync_message().write_sync_step2(&[1, 2]).to_vec()
    );
    assert_eq!(
        frames[1],
        OutgoingMessage::new("doc").create_sync_message().write_first_sync_step_for(&[9]).to_vec()
    );
    let reply = sync_step1_answer("doc", &[1, 2], true, &[9], false);
    let mut d = Decoder::new(&reply[1]);
    d.read_var_string().unwrap();
    assert_eq!(d.read_var_uint().unwrap(), MessageType::SyncReply as u64);
    assert_eq!(sync_step1_answer("doc", &[], false, &[], true).len(), 1);
}

#[test]
fn novelty_compares_clocks() {
    assert!(has_novel_data(&vec![(1, 5)], &vec![(1, 4)]));
    assert!(!has_novel_data(&vec![(1, 4)], &vec![(1, 4)]));
    assert!(has_novel_data(&vec![(2, 1)], &vec![(1, 4)]));
    assert!(!has_novel_data(&vec![], &vec![]));
}

#[test]
fn read_only_ack_with_yrs_updates() {
    let doc = Doc::with_client_id(7);
    let text = doc.get_or_insert_text("content");
    text.push(&mut doc.transact_mut(), "hello");
    let update = doc.transact().encode_state_as_update_v1(&yrs::StateVector::default());
    let doc_sv: Vec<(u64, u32)> =
        doc.transact().state_vector().iter().map(|(c, k)| (*c, *k)).collect();
    // the document has everything the update holds
    assert!(read_only_ack(&update, &doc_sv));
    // an empty document lacks it
    assert!(!read_only_ack(&update, &vec![]));
    // garbage counts as new
    assert!(!read_only_ack(&[0xff, 0xff, 0xff], &doc_sv));
    let _ = doc.transact().state_vector().encode_v1();
}

#[test]
fn close_reason_default() {
    assert_eq!(close_reason(&None), "Server closed the connection");
    assert_eq!(close_reason(&Some(reset_connection())), "Reset Connection");
}

#[test]
fn send_decisions() {
    assert_eq!(send_decision(true, WsReadyState::Open), SendDecision::Drop);
    assert_eq!(send_decision(false, WsReadyState::Closing), SendDecision::MarkClosed);
    assert_eq!(send_decision(false, WsReadyState::Closed), SendDecision::MarkClosed);
    assert_eq!(send_decision(false, WsReadyState::Open), SendDecision::Send);
}
