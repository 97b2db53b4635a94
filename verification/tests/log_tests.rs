use coderunner::log::{Header, LogType, Logs, Message, encode_frame_bytes};

fn pump(logs: &mut Logs) -> Vec<Message> {
    let mut out = Vec::new();
    loop {
        match logs.next_message() {
            Ok(Some(m)) => out.push(m),
            Ok(None) => return out,
            Err(e) => panic!("decode error: {:?}", e),
        }
    }
}

fn payload_of(m: &Message) -> (u8, Vec<u8>) {
    match m {
        Message::Stdin(p) => (0, p.clone()),
        Message::Stdout(p) => (1, p.clone()),
        Message::Stderr(p) => (2, p.clone()),
    }
}

#[test]
fn test_header_from_bytes() {
    let bytes = [1u8, 0, 0, 0, 0, 0, 2, 1];
    let header = Header::new(&bytes);
    assert_eq!(header.log_type, LogType::Stdout);
    assert_eq!(header.size, 0x0201);
}

#[test]
fn test_message_create() {
}

#[test]
fn frame_round_trip_one_chunk() {
    let mut bytes = encode_frame_bytes(1, &b"hello".to_vec());
    bytes.extend(encode_frame_bytes(2, &b"oops".to_vec()));
    let mut logs = Logs::new();
    logs.push_chunk(&bytes);
    let msgs = pump(&mut logs);
    assert_eq!(msgs.len(), 2);
    assert_eq!(payload_of(&msgs[0]), (1, b"hello".to_vec()));
    assert_eq!(payload_of(&msgs[1]), (2, b"oops".to_vec()));
    assert!(logs.finish().is_ok());
}

#[test]
fn frame_header_split_7_1() {
    let bytes = encode_frame_bytes(1, &b"xy".to_vec());
    let mut logs = Logs::new();
    logs.push_chunk(&bytes[..7]);
    assert!(pump(&mut logs).is_empty());
    logs.push_chunk(&bytes[7..]);
    let msgs = pump(&mut logs);
    assert_eq!(msgs.len(), 1);
    assert_eq!(payload_of(&msgs[0]), (1, b"xy".to_vec()));
    assert!(logs.finish().is_ok());
}

#[test]
fn frame_header_split_4_4() {
    let bytes = encode_frame_bytes(2, &b"z".to_vec());
    let mut logs = Logs::new();
    logs.push_chunk(&bytes[..4]);
    assert!(pump(&mut logs).is_empty());
    logs.push_chunk(&bytes[4..8]);
    assert!(pump(&mut logs).is_empty());
    logs.push_chunk(&bytes[8..]);
    let msgs = pump(&mut logs);
    assert_eq!(payload_of(&msgs[0]), (2, b"z".to_vec()));
}

#[test]
fn frame_header_split_1_7() {
    let bytes = encode_frame_bytes(0, &b"in".to_vec());
    let mut logs = Logs::new();
    logs.push_chunk(&bytes[..1]);
    assert!(pump(&mut logs).is_empty());
    logs.push_chunk(&bytes[1..8]);
    assert!(pump(&mut logs).is_empty());
    logs.push_chunk(&bytes[8..]);
    let msgs = pump(&mut logs);
    assert_eq!(payload_of(&msgs[0]), (0, b"in".to_vec()));
}

#[test]
fn frame_payload_in_many_chunks() {
    let bytes = encode_frame_bytes(1, &b"abcdefgh".to_vec());
    let mut logs = Logs::new();
    logs.push_chunk(&bytes[..10]);
    assert!(pump(&mut logs).is_empty());
    logs.push_chunk(&bytes[10..13]);
    assert!(pump(&mut logs).is_empty());
    logs.push_chunk(&bytes[13..]);
    let msgs = pump(&mut logs);
    assert_eq!(msgs.len(), 1);
    assert_eq!(payload_of(&msgs[0]), (1, b"abcdefgh".to_vec()));
}

#[test]
fn frame_round_trip_byte_by_byte() {
    let mut bytes = encode_frame_bytes(1, &b"one".to_vec());
    bytes.extend(encode_frame_bytes(2, &Vec::new()));
    bytes.extend(encode_frame_bytes(1, &b"three".to_vec()));
    let mut logs = Logs::new();
    let mut msgs = Vec::new();
    for b in bytes.iter() {
        logs.push_chunk(&[*b]);
        msgs.extend(pump(&mut logs));
    }
    assert_eq!(msgs.len(), 3);
    assert_eq!(payload_of(&msgs[0]), (1, b"one".to_vec()));
    assert_eq!(payload_of(&msgs[1]), (2, Vec::new()));
    assert_eq!(payload_of(&msgs[2]), (1, b"three".to_vec()));
    assert!(logs.finish().is_ok());
}

#[test]
fn frame_unknown_tag_is_an_error() {
    let mut logs = Logs::new();
    logs.push_chunk(&[9u8, 0, 0, 0, 0, 0, 0, 1, 65]);
    assert!(logs.next_message().is_err());
    // the error sticks
    assert!(logs.next_message().is_err());
    assert!(logs.finish().is_err());
}

#[test]
fn frame_eof_mid_frame_is_an_error() {
    let bytes = encode_frame_bytes(1, &b"hello".to_vec());
    let mut logs = Logs::new();
    logs.push_chunk(&bytes[..6]);
    assert!(pump(&mut logs).is_empty());
    assert!(logs.finish().is_err());
}
