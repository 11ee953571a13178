use hocuspocu_rs::common::{
    connection_timeout, forbidden, make_routing_key, message_too_big, parse_routing_key,
    reset_connection, unauthorized, AuthMessageType, SkipFurtherHooksError, WsReadyState,
};
use hocuspocu_rs::encoding::{write_var_string, write_var_uint, write_var_uint8_array, Decoder};
use hocuspocu_rs::{
    get_parameters, should_skip_store_hooks, ConnectionConfiguration,
    ConnectionTransactionOrigin, LocalTransactionOrigin, MessageType, OutgoingMessage,
    TransactionOrigin,
};

#[test]
fn test_message_types() {
    assert_eq!(MessageType::Sync as i8, 0);
    assert_eq!(MessageType::Awareness as i8, 1);
    assert_eq!(MessageType::Auth as i8, 2);
    assert_eq!(MessageType::QueryAwareness as i8, 3);
    assert_eq!(MessageType::SyncReply as i8, 4);
    assert_eq!(MessageType::Stateless as i8, 5);
    assert_eq!(MessageType::BroadcastStateless as i8, 6);
    assert_eq!(MessageType::Close as i8, 7);
    assert_eq!(MessageType::SyncStatus as i8, 8);
    assert_eq!(MessageType::Ping as i8, 9);
    assert_eq!(MessageType::Pong as i8, 10);
}

#[test]
fn test_message_type_from_u64() {
    assert_eq!(MessageType::try_from(0u64), Ok(MessageType::Sync));
    assert_eq!(MessageType::try_from(1u64), Ok(MessageType::Awareness));
    assert_eq!(MessageType::try_from(2u64), Ok(MessageType::Auth));
    assert_eq!(MessageType::try_from(10u64), Ok(MessageType::Pong));
    assert!(MessageType::try_from(99u64).is_err());
}

#[test]
fn test_close_events() {
    let reset = reset_connection();
    assert_eq!(reset.code, 4205);
    assert_eq!(reset.reason, "Reset Connection");

    let unauth = unauthorized();
    assert_eq!(unauth.code, 4401);

    let forb = forbidden();
    assert_eq!(forb.code, 4403);

    let timeout = connection_timeout();
    assert_eq!(timeout.code, 4408);

    let too_big = message_too_big();
    assert_eq!(too_big.code, 1009);
}

#[test]
fn test_routing_key() {
    let key = make_routing_key("doc1", "session123");
    assert_eq!(key, "doc1\0session123");

    let (name, session) = parse_routing_key(&key);
    assert_eq!(name, "doc1");
    assert_eq!(session, Some("session123"));

    let (name2, session2) = parse_routing_key("plain-doc");
    assert_eq!(name2, "plain-doc");
    assert_eq!(session2, None);
}

#[test]
fn test_connection_configuration_default() {
    let config = ConnectionConfiguration::default();
    assert!(!config.read_only);
    assert!(!config.is_authenticated);
}

#[test]
fn test_transaction_origin() {
    let conn_origin = Some(TransactionOrigin::Connection(ConnectionTransactionOrigin {
        connection_id: "test".to_string(),
    }));
    assert!(!should_skip_store_hooks(&conn_origin));

    let redis_origin = Some(TransactionOrigin::Redis);
    assert!(should_skip_store_hooks(&redis_origin));

    let local_origin = Some(TransactionOrigin::Local(LocalTransactionOrigin {
        skip_store_hooks: false,
        context: None,
    }));
    assert!(!should_skip_store_hooks(&local_origin));

    let local_skip = Some(TransactionOrigin::Local(LocalTransactionOrigin {
        skip_store_hooks: true,
        context: None,
    }));
    assert!(should_skip_store_hooks(&local_skip));

    assert!(!should_skip_store_hooks(&None));
}

#[test]
fn test_get_parameters() {
    let params = get_parameters("http://localhost:8080/ws?token=abc&room=test");
    assert_eq!(params.get("token"), Some(&"abc".to_string()));
    assert_eq!(params.get("room"), Some(&"test".to_string()));

    let empty = get_parameters("http://localhost:8080/ws");
    assert!(empty.is_empty());
}

#[test]
fn test_skip_further_hooks_error() {
    let err = SkipFurtherHooksError::new(None);
    assert_eq!(err.message, "Further hooks skipped");

    let err2 = SkipFurtherHooksError::new(Some("custom msg"));
    assert_eq!(err2.message, "custom msg");
}

#[test]
fn test_auth_message_type() {
    assert_eq!(AuthMessageType::Token as u8, 0);
    assert_eq!(AuthMessageType::PermissionDenied as u8, 1);
    assert_eq!(AuthMessageType::Authenticated as u8, 2);
}

#[test]
fn test_ws_ready_states() {
    assert_eq!(WsReadyState::Connecting as u8, 0);
    assert_eq!(WsReadyState::Open as u8, 1);
    assert_eq!(WsReadyState::Closing as u8, 2);
    assert_eq!(WsReadyState::Closed as u8, 3);
}

#[test]
fn test_encoding_roundtrip() {
    let mut buf = Vec::new();
    write_var_uint(&mut buf, 42);
    write_var_string(&mut buf, "hello world");
    write_var_uint8_array(&mut buf, &[1, 2, 3, 4]);

    let mut decoder = Decoder::new(&buf);
    assert_eq!(decoder.read_var_uint().unwrap(), 42);
    assert_eq!(decoder.read_var_string().unwrap(), "hello world");
    assert_eq!(decoder.read_var_uint8_array().unwrap(), vec![1, 2, 3, 4]);
    assert!(!decoder.has_content());
}

#[test]
fn test_encoding_large_varuint() {
    let mut buf = Vec::new();
    write_var_uint(&mut buf, 0);
    write_var_uint(&mut buf, 127);
    write_var_uint(&mut buf, 128);
    write_var_uint(&mut buf, 16383);
    write_var_uint(&mut buf, 16384);
    write_var_uint(&mut buf, u64::MAX);

    let mut decoder = Decoder::new(&buf);
    assert_eq!(decoder.read_var_uint().unwrap(), 0);
    assert_eq!(decoder.read_var_uint().unwrap(), 127);
    assert_eq!(decoder.read_var_uint().unwrap(), 128);
    assert_eq!(decoder.read_var_uint().unwrap(), 16383);
    assert_eq!(decoder.read_var_uint().unwrap(), 16384);
    assert_eq!(decoder.read_var_uint().unwrap(), u64::MAX);
}

#[test]
fn test_outgoing_message_auth() {
    let msg = OutgoingMessage::new("test-doc").write_authenticated(false);
    let data = msg.to_vec();
    assert!(!data.is_empty());

    let msg2 = OutgoingMessage::new("test-doc").write_authenticated(true);
    let data2 = msg2.to_vec();
    assert!(!data2.is_empty());
}

#[test]
fn test_outgoing_message_permission_denied() {
    let msg = OutgoingMessage::new("test-doc").write_permission_denied("not allowed");
    let data = msg.to_vec();
    assert!(!data.is_empty());
}

#[test]
fn test_outgoing_message_sync_status() {
    let msg = OutgoingMessage::new("test-doc").write_sync_status(true);
    let data = msg.to_vec();
    assert!(!data.is_empty());
}

#[test]
fn test_outgoing_message_close() {
    let msg = OutgoingMessage::new("test-doc").write_close_message("goodbye");
    let data = msg.to_vec();
    assert!(!data.is_empty());
}

#[test]
fn test_outgoing_message_stateless() {
    let msg = OutgoingMessage::new("test-doc").write_stateless("custom payload");
    let data = msg.to_vec();
    assert!(!data.is_empty());
}
