//! Round trips and exact wire bytes for the bitset and message codecs.

use entangle::bitset::BitSet;
use entangle::codec::{decode_client_message, decode_server_message, encode_client_message, encode_server_message};
use entangle::proto::{ClientMessage, InputDevice, InputDeviceUpdate, InputEvent, ServerMessage};

fn sample_device(name: &[u8], vendor: u16) -> InputDevice {
    let mut key_bits = BitSet::with_capacity(64);
    key_bits.insert(30);
    key_bits.insert(48);
    let mut rel_bits = BitSet::with_capacity(32);
    rel_bits.insert(0);
    let mut cap = BitSet::with_capacity(32);
    cap.insert(1);
    let key_vals = BitSet::with_capacity(64);
    InputDevice {
        key_bits,
        rel_bits,
        cap,
        name: name.to_vec(),
        key_vals,
        vendor,
        product: 0x1234,
        version: 7,
    }
}

#[test]
fn bitset_bytes_round_trip() {
    let mut b = BitSet::with_capacity(75);
    b.insert(0);
    b.insert(31);
    b.insert(32);
    b.insert(74);
    let bytes = b.to_bytes();
    assert_eq!(bytes.len() % 4, 0);
    let back = BitSet::from_bytes(&bytes).unwrap();
    assert_eq!(back, b);
    assert!(back.contains(0) && back.contains(31) && back.contains(32) && back.contains(74));
    assert!(!back.contains(1) && !back.contains(73));
}

#[test]
fn bitset_constructors() {
    let b = BitSet::from_blocks(vec![0x8000_0001, 0]);
    assert!(b.contains(0) && b.contains(31));
    assert!(!b.contains(1) && !b.contains(32) && !b.contains(64));
    assert_eq!(b.capacity(), 64);
    assert!(BitSet::empty().to_bytes().is_empty());
}

#[test]
fn bitset_from_bytes_rejects_misaligned() {
    assert!(BitSet::from_bytes(&[1, 2, 3]).is_none());
    assert!(BitSet::from_bytes(&[1, 2, 3, 4, 5]).is_none());
    assert!(BitSet::from_bytes(&[]).is_some());
}

#[test]
fn ping_exact_bytes() {
    let bytes = encode_client_message(&ClientMessage::Ping);
    assert_eq!(bytes, vec![2, 0, 0, 0]);
    let pong = encode_server_message(&ServerMessage::Pong);
    assert_eq!(pong, vec![2, 0, 0, 0]);
    let keepalive = encode_client_message(&ClientMessage::KeepAlive);
    assert_eq!(keepalive, vec![1, 0, 0, 0]);
}

#[test]
fn empty_sync_exact_bytes() {
    let bytes = encode_client_message(&ClientMessage::Sync(Vec::new()));
    assert_eq!(bytes, vec![0, 0, 0, 0, 0, 0, 0, 0, 0, 0, 0, 0]);
}

#[test]
fn event_exact_bytes() {
    let m = ServerMessage::Event((3, InputEvent { type_: 1, code: 30, value: -1 }));
    let bytes = encode_server_message(&m);
    assert_eq!(
        bytes,
        vec![1, 0, 0, 0, 3, 0, 0, 0, 1, 0, 30, 0, 255, 255, 255, 255]
    );
    assert_eq!(decode_server_message(&bytes), Some(m));
}

#[test]
fn client_message_round_trip() {
    let m = ClientMessage::Sync(vec![
        (0, sample_device(b"kbd", 0x46d)),
        (7, sample_device(b"mouse", 0x1532)),
    ]);
    let bytes = encode_client_message(&m);
    assert_eq!(decode_client_message(&bytes), Some(m));
}

#[test]
fn server_message_round_trip() {
    let m = ServerMessage::Sync(vec![
        (0, InputDeviceUpdate::Update(sample_device(b"kbd", 0x46d))),
        (1, InputDeviceUpdate::Drop),
    ]);
    let bytes = encode_server_message(&m);
    assert_eq!(decode_server_message(&bytes), Some(m));
}

#[test]
fn decode_rejects_bad_discriminant() {
    assert_eq!(decode_client_message(&[3, 0, 0, 0]), None);
    assert_eq!(decode_server_message(&[9, 0, 0, 0]), None);
}

#[test]
fn decode_rejects_truncated_and_trailing() {
    let m = ClientMessage::Sync(vec![(0, sample_device(b"kbd", 1))]);
    let mut bytes = encode_client_message(&m);
    let last = bytes.pop().unwrap();
    assert_eq!(decode_client_message(&bytes), None);
    bytes.push(last);
    bytes.push(0);
    assert_eq!(decode_client_message(&bytes), None);
    assert_eq!(decode_client_message(&[]), None);
    assert_eq!(decode_client_message(&[2, 0, 0, 0, 1]), None);
}
