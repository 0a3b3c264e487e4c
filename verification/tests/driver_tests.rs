//! The coroutine driver's shared cell, the packet splitter of the fuzzing
//! harness, and the pairing helpers.

use entangle::crypto::crypto_init;
use entangle::generator::{GeneratorState, GeneratorStateInner};
use entangle::cdgram::pop_packet;
use entangle::pair::{auth_frame, auth_open, check_pair_packet, generate_pin, pair_client_session, pair_server_session, pin_display};
use entangle::TransportError;

/// The cell carries one fed value in and one yielded value out per
/// suspension, summing two fed values to three as the driver's own test
/// coroutine did.
#[test]
fn test_async_cell() {
    let mut st: GeneratorState<i32, ()> = GeneratorState {
        cell: GeneratorStateInner::Idle,
    };
    // First turn: the driver feeds 1, the coroutine takes it and yields.
    st.cell = GeneratorStateInner::Fed(1);
    let a = st.poll().unwrap();
    st.yield_(());
    assert_eq!(st.cell.take_yielded(), Some(()));
    // Second turn: the driver feeds 2 and the coroutine completes.
    st.cell = GeneratorStateInner::Fed(2);
    let b = st.poll().unwrap();
    assert_eq!(st.cell.take_fed(), None);
    assert_eq!(a + b, 3);
}

#[test]
fn pop_packet_splits() {
    let data = [3u8, 10, 11, 12, 99, 98];
    let (pkt, rest) = pop_packet(&data);
    assert_eq!(pkt, &[10u8, 11, 12][..]);
    assert_eq!(rest, &[99u8, 98][..]);
    // A length running past the end yields nothing and the rest.
    let data = [9u8, 1, 2];
    let (pkt, rest) = pop_packet(&data);
    assert_eq!(pkt, &[] as &[u8]);
    assert_eq!(rest, &[1u8, 2][..]);
}

/// Both sides of a pairing derive the same PIN from the mirrored session
/// keys.
#[test]
fn pairing_pin_agreement() {
    crypto_init();
    let (host_pk, host_sk) = sodiumoxide::crypto::kx::gen_keypair();
    let (join_pk, join_sk) = sodiumoxide::crypto::kx::gen_keypair();
    let (host_rx, host_tx) = pair_server_session(
        host_pk.as_ref(),
        host_sk.as_ref(),
        join_pk.as_ref(),
    )
    .unwrap();
    let (join_rx, join_tx) = pair_client_session(
        join_pk.as_ref(),
        join_sk.as_ref(),
        host_pk.as_ref(),
    )
    .unwrap();
    assert_eq!(host_rx, join_tx);
    assert_eq!(host_tx, join_rx);
    let host_pin = generate_pin(&host_rx, &host_tx).unwrap();
    let join_pin = generate_pin(&join_tx, &join_rx).unwrap();
    assert_eq!(host_pin, join_pin);
    assert!(pin_display(host_pin) < 100000000);
}

/// The authenticated pairing channel: framing round-trips, tampering is
/// caught, and the handshake packet length is exact.
#[test]
fn pairing_auth_channel() {
    crypto_init();
    let key = [7u8; 32];
    let framed = auth_frame(b"public-key-bytes", &key);
    assert_eq!(framed.len(), 16 + 16);
    assert_eq!(auth_open(&framed, &key).unwrap(), b"public-key-bytes".to_vec());

    let mut bad = framed.clone();
    bad[0] ^= 1;
    assert_eq!(auth_open(&bad, &key), Err(TransportError::AuthFailure));
    assert_eq!(auth_open(&[1, 2, 3], &key), Err(TransportError::MalformedPacket));

    assert!(check_pair_packet(&[0u8; 32]).is_ok());
    assert_eq!(
        check_pair_packet(&[0u8; 31]),
        Err(TransportError::MalformedPacket)
    );
}
