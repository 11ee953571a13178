use hocuspocu_rs::common::WsReadyState;
use hocuspocu_rs::encoding::{write_var_string, write_var_uint, Decoder};
use hocuspocu_rs::fragment::fragment_message;
use hocuspocu_rs::{
    ChunkingSink, FragmentAssembler, FragmentBuffer, FragmentOutcome, SinkError, WebSocketSink,
};
use std::sync::{Arc, Mutex};

struct CaptureSink {
    sent: Mutex<Vec<Vec<u8>>>,
}

impl WebSocketSink for CaptureSink {
    fn send(&self, data: Vec<u8>) -> Result<(), SinkError> {
        self.sent.lock().unwrap().push(data);
        Ok(())
    }
    fn close(&self, _: u16, _: &str) -> Result<(), SinkError> {
        Ok(())
    }
    fn ready_state(&self) -> WsReadyState {
        WsReadyState::Open
    }
}

fn build_message(payload_len: usize) -> Vec<u8> {
    let mut m = Vec::new();
    write_var_string(&mut m, "doc");
    write_var_uint(&mut m, 0); // MessageType::Sync
    m.extend((0..payload_len).map(|i| i as u8));
    m
}

#[test]
fn small_message_is_sent_raw() {
    let cap = Arc::new(CaptureSink { sent: Mutex::new(Vec::new()) });
    let sink = ChunkingSink::new(cap.clone(), 1024);
    let msg = build_message(3);
    sink.send(msg.clone()).unwrap();
    let sent = cap.sent.lock().unwrap();
    assert_eq!(sent.len(), 1, "small message must not be fragmented");
    assert_eq!(sent[0], msg);
}

#[test]
fn large_message_fragments_and_reassembles() {
    let cap = Arc::new(CaptureSink { sent: Mutex::new(Vec::new()) });
    let sink = ChunkingSink::new(cap.clone(), 8);
    let msg = build_message(50);
    sink.send(msg.clone()).unwrap();

    let frames = cap.sent.lock().unwrap().clone();
    assert!(frames.len() >= 3, "expected start + data + end, got {}", frames.len());

    let mut buf = FragmentBuffer::new();
    let mut last_type = 0u64;
    for frame in &frames {
        let mut d = Decoder::new(frame);
        assert_eq!(d.read_var_string().unwrap(), "doc");
        last_type = d.read_var_uint().unwrap();
        let _id = d.read_var_string().unwrap();
        match last_type {
            100 => {}
            101 => {
                let idx = d.read_var_uint().unwrap();
                let chunk = d.read_var_uint8_array().unwrap();
                buf.add_chunk(idx, chunk);
            }
            102 => buf.mark_end(),
            other => panic!("unexpected frame type {}", other),
        }
    }
    assert_eq!(last_type, 102, "last frame must be FragmentEnd");
    assert!(buf.is_complete());
    assert_eq!(buf.combine(), msg, "reassembled bytes must equal the sent message");
}

#[test]
fn unaddressed_message_is_sent_raw() {
    let cap = Arc::new(CaptureSink { sent: Mutex::new(Vec::new()) });
    let sink = ChunkingSink::new(cap.clone(), 2);
    let msg = vec![0xff, 0xff, 0xff, 0xff];
    sink.send(msg.clone()).unwrap();
    assert_eq!(*cap.sent.lock().unwrap(), vec![msg]);
}

#[test]
fn fragmented_message_roundtrip_through_the_assembler() {
    let msg = build_message(37);
    let frames = fragment_message(&msg, "series-1", 5);
    let mut a = FragmentAssembler::new();
    let mut out = None;
    for (i, f) in frames.iter().enumerate() {
        match a.accept(f) {
            FragmentOutcome::Consumed => assert!(i + 1 < frames.len()),
            FragmentOutcome::Completed(bytes) => out = Some(bytes),
            FragmentOutcome::NotFragment => panic!("a fragment frame was not recognised"),
        }
    }
    assert_eq!(out, Some(msg.clone()));
    assert_eq!(a.len(), 0);
    // an ordinary message is not a fragment
    assert!(matches!(a.accept(&msg), FragmentOutcome::NotFragment));
}

#[test]
fn interleaved_series_reassemble_independently() {
    let m1 = build_message(20);
    let m2 = build_message(30);
    let f1 = fragment_message(&m1, "one", 7);
    let f2 = fragment_message(&m2, "two", 7);
    let mut a = FragmentAssembler::new();
    let mut done = Vec::new();
    let n = f1.len().max(f2.len());
    for i in 0..n {
        for f in [f1.get(i), f2.get(i)].into_iter().flatten() {
            if let FragmentOutcome::Completed(b) = a.accept(f) {
                done.push(b);
            }
        }
    }
    assert_eq!(done, vec![m1, m2]);
}

#[test]
fn chunk_size_zero_turns_chunking_off() {
    let cap = Arc::new(CaptureSink { sent: Mutex::new(Vec::new()) });
    assert!(ChunkingSink::for_chunk_size(cap.clone(), 0).is_none());
    let sink = ChunkingSink::for_chunk_size(cap.clone(), 4).expect("positive chunk size");
    let msg = build_message(20);
    sink.send(msg.clone()).unwrap();
    assert!(cap.sent.lock().unwrap().len() > 1);
}

#[test]
fn series_id_is_uuid_v4_text() {
    let cap = Arc::new(CaptureSink { sent: Mutex::new(Vec::new()) });
    let sink = ChunkingSink::new(cap.clone(), 8);
    let frames = sink.frames_for(&build_message(40));
    let mut d = Decoder::new(&frames[0]);
    assert_eq!(d.read_var_string().unwrap(), "doc");
    assert_eq!(d.read_var_uint().unwrap(), 100);
    let id: Vec<char> = d.read_var_string().unwrap().chars().collect();
    assert_eq!(id.len(), 36);
    for (i, c) in id.iter().enumerate() {
        if i == 8 || i == 13 || i == 18 || i == 23 {
            assert_eq!(*c, '-');
        } else {
            assert!(c.is_ascii_hexdigit() && !c.is_ascii_uppercase());
        }
    }
    assert_eq!(id[14], '4');
    assert!(matches!(id[19], '8' | '9' | 'a' | 'b'));
    // another series gets another id
    let other = sink.frames_for(&build_message(40));
    let mut e = Decoder::new(&other[0]);
    let _ = e.read_var_string();
    let _ = e.read_var_uint();
    assert_ne!(e.read_var_string().unwrap().chars().collect::<Vec<char>>(), id);
}
