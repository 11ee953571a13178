use hocuspocu_rs::client_session::{denial_reason, refusal_frame, RefusalStage};
use hocuspocu_rs::common::auth::write_authentication;
use hocuspocu_rs::encoding::{write_var_string, write_var_uint};
use hocuspocu_rs::{ClientSession, ClientStep, MessageType, OutgoingMessage};

fn auth_message(address: &str, token: &str, version: Option<&str>) -> Vec<u8> {
    let mut m = Vec::new();
    write_var_string(&mut m, address);
    write_var_uint(&mut m, MessageType::Auth as u64);
    write_authentication(&mut m, token);
    if let Some(v) = version {
        write_var_string(&mut m, v);
    }
    m
}

fn sync_message(address: &str) -> Vec<u8> {
    let mut m = Vec::new();
    write_var_string(&mut m, address);
    write_var_uint(&mut m, MessageType::Sync as u64);
    write_var_uint(&mut m, 0);
    write_var_uint(&mut m, 0);
    m
}

#[test]
fn unreadable_address_closes_as_unauthorized() {
    let mut s = ClientSession::new();
    match s.on_message(&[0x05, b'a']) {
        ClientStep::CloseSocket(e) => {
            assert_eq!(e.code, 4401);
            assert_eq!(e.reason, "Unauthorized");
        }
        _ => panic!("expected a close"),
    }
}

#[test]
fn unreadable_type_closes_as_reset() {
    let mut s = ClientSession::new();
    let mut m = Vec::new();
    write_var_string(&mut m, "doc");
    match s.on_message(&m) {
        ClientStep::CloseSocket(e) => assert_eq!(e.code, 4205),
        _ => panic!("expected a close"),
    }
}

#[test]
fn auth_starts_authentication_with_session_and_version() {
    let mut s = ClientSession::new();
    match s.on_message(&auth_message("doc1\0sess", "secret", Some("2.0"))) {
        ClientStep::Authenticate(r) => {
            assert_eq!(r.raw_key, "doc1\0sess");
            assert_eq!(r.document_name, "doc1");
            assert_eq!(r.session_id, Some("sess".to_string()));
            assert_eq!(r.token, "secret");
            assert_eq!(r.provider_version, Some("2.0".to_string()));
        }
        _ => panic!("expected authentication"),
    }
}

#[test]
fn auth_without_version() {
    let mut s = ClientSession::new();
    match s.on_message(&auth_message("doc1", "t", None)) {
        ClientStep::Authenticate(r) => {
            assert_eq!(r.session_id, None);
            assert_eq!(r.provider_version, None);
        }
        _ => panic!("expected authentication"),
    }
}

#[test]
fn messages_wait_and_come_back_in_order() {
    let mut s = ClientSession::new();
    let first = sync_message("doc1");
    assert!(matches!(s.on_message(&first), ClientStep::Queued));
    assert!(matches!(
        s.on_message(&auth_message("doc1", "t", None)),
        ClientStep::Authenticate(_)
    ));
    // a second auth message for the same address only waits
    let second_auth = auth_message("doc1", "t2", None);
    assert!(matches!(s.on_message(&second_auth), ClientStep::Queued));
    let waiting = s.connection_ready(&"doc1".to_string());
    assert_eq!(waiting, vec![first, second_auth]);
    match s.on_message(&sync_message("doc1")) {
        ClientStep::Forward(k) => assert_eq!(k, "doc1"),
        _ => panic!("expected forwarding"),
    }
}

#[test]
fn session_address_forwards_to_document_connection() {
    let mut s = ClientSession::new();
    let _ = s.connection_ready(&"doc1".to_string());
    match s.on_message(&sync_message("doc1\0other")) {
        ClientStep::Forward(k) => assert_eq!(k, "doc1"),
        _ => panic!("expected forwarding"),
    }
}

#[test]
fn failed_auth_allows_a_new_attempt() {
    let mut s = ClientSession::new();
    assert!(matches!(
        s.on_message(&auth_message("doc1", "bad", None)),
        ClientStep::Authenticate(_)
    ));
    s.auth_failed(&"doc1".to_string());
    assert!(matches!(
        s.on_message(&auth_message("doc1", "good", None)),
        ClientStep::Authenticate(_)
    ));
}

#[test]
fn closed_connection_is_forgotten() {
    let mut s = ClientSession::new();
    let _ = s.connection_ready(&"doc1".to_string());
    assert!(s.is_connected(&"doc1".to_string()));
    s.connection_closed(&"doc1".to_string());
    assert!(!s.is_connected(&"doc1".to_string()));
    assert!(matches!(s.on_message(&sync_message("doc1")), ClientStep::Queued));
}

#[test]
fn auth_with_unreadable_token_is_ignored() {
    let mut s = ClientSession::new();
    let mut m = Vec::new();
    write_var_string(&mut m, "doc1");
    write_var_uint(&mut m, MessageType::Auth as u64);
    write_var_uint(&mut m, 0);
    m.push(10); // a string of ten bytes that are not there
    assert!(matches!(s.on_message(&m), ClientStep::Ignored));
}

#[test]
fn denial_reason_defaults() {
    assert_eq!(denial_reason(""), "permission-denied");
    assert_eq!(denial_reason("nope"), "nope");
}

#[test]
fn refusals_carry_their_reason() {
    let connect = refusal_frame(RefusalStage::Connect, "doc", "");
    assert_eq!(connect, OutgoingMessage::new("doc").write_permission_denied("").to_vec());
    let auth = refusal_frame(RefusalStage::Authenticate, "doc", "");
    assert_eq!(auth, OutgoingMessage::new("doc").write_permission_denied("permission-denied").to_vec());
    let create = refusal_frame(RefusalStage::CreateDocument, "doc\0s", "no such document");
    assert_eq!(
        create,
        OutgoingMessage::new("doc\0s").write_permission_denied("no such document").to_vec()
    );
}
