use hocuspocu_rs::{Broadcast, ConnectionRegistry, Incoming, MessageReceiver, OutgoingMessage};

#[test]
fn connections_and_direct_connections_count() {
    let mut r: ConnectionRegistry<u8> = ConnectionRegistry::new();
    assert_eq!(r.connections_count(), 0);
    r.add_connection("c1", "s1", false, "doc", 1);
    r.add_connection("c2", "s1", true, "doc\0x", 2);
    r.add_direct_connection();
    assert_eq!(r.connections_count(), 3);
    assert!(r.has_connection(&"c1".to_string()));
    r.add_client(&"c1".to_string(), 42);
    r.add_client(&"c1".to_string(), 43);
    r.remove_client(&"c1".to_string(), 43);
    assert_eq!(r.remove_connection(&"c1".to_string()), Some(vec![42]));
    assert_eq!(r.remove_connection(&"c1".to_string()), None);
    r.remove_direct_connection();
    r.remove_direct_connection();
    assert_eq!(r.direct_connections_count(), 0);
    assert_eq!(r.connections_count(), 1);
    let e = r.get(&"c2".to_string()).unwrap();
    assert!(e.read_only);
    assert_eq!(e.message_address, "doc\0x");
}

#[test]
fn broadcasts_use_each_connections_address() {
    let mut r: ConnectionRegistry<u8> = ConnectionRegistry::new();
    r.add_connection("c1", "s1", false, "doc", 1);
    r.add_connection("c2", "s2", false, "doc\0x", 2);
    let frames = r.broadcast_frames(&Broadcast::Stateless("hi"));
    assert_eq!(frames.len(), 2);
    for (id, sink, frame) in frames {
        let address = if id == "c1" { "doc" } else { "doc\0x" };
        assert_eq!(*sink, if id == "c1" { 1 } else { 2 });
        assert_eq!(frame, OutgoingMessage::new(address).write_stateless("hi").to_vec());
    }
    let updates = r.broadcast_frames(&Broadcast::Update(&[1, 2]));
    for (id, _, frame) in updates {
        let address = if id == "c1" { "doc" } else { "doc\0x" };
        assert_eq!(
            frame,
            OutgoingMessage::new(address).create_sync_message().write_update(&[1, 2]).to_vec()
        );
    }
    let aw = r.broadcast_frames(&Broadcast::Awareness(&[3]));
    assert_eq!(aw.len(), 2);
}

#[test]
fn broadcast_frames_read_back() {
    let mut r: ConnectionRegistry<u8> = ConnectionRegistry::new();
    r.add_connection("c1", "s1", false, "doc\0s", 1);
    for (_, _, frame) in r.broadcast_frames(&Broadcast::Update(&[4, 5, 6])) {
        match MessageReceiver::new(frame, None).parse(true) {
            Ok(Incoming::Sync { request_first_sync, sync_type, payload }) => {
                assert!(request_first_sync);
                assert_eq!(sync_type, 2);
                assert_eq!(payload, Ok(vec![4, 5, 6]));
            }
            _ => panic!("expected a sync update"),
        }
    }
    for (_, _, frame) in r.broadcast_frames(&Broadcast::Stateless("note")) {
        match MessageReceiver::new(frame, None).parse(true) {
            Ok(Incoming::Stateless { payload }) => assert_eq!(payload, "note"),
            _ => panic!("expected a stateless message"),
        }
    }
}

#[test]
fn direct_connections_count_and_never_go_below_zero() {
    let mut r: ConnectionRegistry<u8> = ConnectionRegistry::new();
    assert_eq!(r.connections_count(), 0);
    r.add_direct_connection();
    assert_eq!(r.connections_count(), 1);
    r.add_direct_connection();
    assert_eq!(r.connections_count(), 2);
    r.remove_direct_connection();
    assert_eq!(r.connections_count(), 1);
    r.remove_direct_connection();
    assert_eq!(r.connections_count(), 0);
    r.remove_direct_connection();
    assert_eq!(r.connections_count(), 0);
}
