use hocuspocu_rs::common::close_events::reset_connection;
use hocuspocu_rs::server::{
    decimal_string, http_url, keep_waiting_for_unload, socket_step, url, websocket_url,
};
use hocuspocu_rs::{SocketEvent, SocketStep};

#[test]
fn decimal_ports() {
    assert_eq!(decimal_string(0), "0");
    assert_eq!(decimal_string(80), "80");
    assert_eq!(decimal_string(1234), "1234");
    assert_eq!(decimal_string(65535), "65535");
}

#[test]
fn urls() {
    assert_eq!(url("0.0.0.0", 80), "0.0.0.0:80");
    assert_eq!(websocket_url("127.0.0.1", 1234), "ws://127.0.0.1:1234");
    assert_eq!(http_url("localhost", 8080), "http://localhost:8080");
}

#[test]
fn socket_events() {
    assert!(matches!(socket_step(SocketEvent::Binary(vec![1])), SocketStep::Message(m) if m == vec![1]));
    assert!(matches!(socket_step(SocketEvent::Close(None)), SocketStep::Close(None)));
    match socket_step(SocketEvent::Error) {
        SocketStep::Close(Some(e)) => assert_eq!(e, reset_connection()),
        _ => panic!("expected a reset"),
    }
    assert!(matches!(socket_step(SocketEvent::Ping), SocketStep::Continue));
    assert!(matches!(socket_step(SocketEvent::Other), SocketStep::Continue));
}

#[test]
fn shutdown_waits() {
    assert!(keep_waiting_for_unload(1, 0));
    assert!(!keep_waiting_for_unload(1, 100));
    assert!(!keep_waiting_for_unload(0, 0));
}
