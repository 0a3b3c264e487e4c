//! End-to-end transport scenarios, driven packet by packet with the real
//! cryptography and without any socket.

use entangle::cdgram::{establish_session, resolve_first, Addr, CDGramClient, CDGramServer, RecvOutcome};
use entangle::config::Config;
use entangle::crypto::crypto_init;
use entangle::TransportError;

fn keypair() -> (Vec<u8>, Vec<u8>) {
    let cfg = Config::generate();
    (cfg.public(), cfg.secret())
}

fn client_addr() -> Addr {
    Addr { ip: 0x7f000001, port: 40001 }
}

/// The happy path: handshake, client payload up, server payload down.
#[test]
fn test_connect() {
    crypto_init();
    let (server_pk, server_sk) = keypair();
    let (client_pk, client_sk) = keypair();
    let addr = client_addr();
    let mut server = CDGramServer::new(
        server_pk.clone(),
        server_sk,
        vec![client_pk.clone()],
    );
    let mut client = CDGramClient::new(client_pk, client_sk, server_pk);

    let pkt1 = client.connect_begin();
    let reply = match server.handle_datagram(addr, pkt1) {
        RecvOutcome::Reply(r) => r,
        _ => panic!("first packet must be answered"),
    };
    let pkt3 = client.connect_finish(&reply).unwrap();
    match server.handle_datagram(addr, pkt3) {
        RecvOutcome::Ignored => {},
        _ => panic!("third packet completes silently"),
    }

    let up = client.seal_payload(&[1, 2, 3, 4, 5]).unwrap();
    let (got_addr, pkt) = match server.handle_datagram(addr, up) {
        RecvOutcome::Delivered(m) => (addr, m),
        _ => panic!("payload must decrypt"),
    };
    assert_eq!(got_addr, client_addr());
    assert_eq!(&pkt[..], &[1, 2, 3, 4, 5]);

    let down = server.seal_for(addr, &[5, 4, 3, 2, 1]).unwrap();
    let pkt = client.open_payload(&down).unwrap();
    assert_eq!(&pkt[..], &[5, 4, 3, 2, 1]);
}

/// An unauthorized first packet leaves no state and gets no reply.
#[test]
fn unauthorized_peer_is_dropped() {
    crypto_init();
    let (server_pk, server_sk) = keypair();
    let (client_pk, client_sk) = keypair();
    let addr = client_addr();
    let mut server = CDGramServer::new(server_pk.clone(), server_sk, Vec::new());
    let mut client = CDGramClient::new(client_pk, client_sk, server_pk);

    let pkt1 = client.connect_begin();
    match server.handle_datagram(addr, pkt1) {
        RecvOutcome::Ignored => {},
        _ => panic!("unauthorized key must be dropped silently"),
    }
    // No state was created: a send to that address knows no client.
    assert_eq!(
        server.seal_for(addr, &[0]),
        Err(TransportError::UnknownClient)
    );
}

/// The first packet length is checked exactly.
#[test]
fn first_packet_length_boundary() {
    crypto_init();
    let (server_pk, server_sk) = keypair();
    let (client_pk, client_sk) = keypair();
    let addr = client_addr();
    let mut server = CDGramServer::new(
        server_pk.clone(),
        server_sk,
        vec![client_pk.clone()],
    );
    let mut client = CDGramClient::new(client_pk, client_sk, server_pk);
    let pkt1 = client.connect_begin();
    assert_eq!(pkt1.len(), 96);

    let mut short = pkt1.clone();
    short.pop();
    match server.handle_datagram(addr, short) {
        RecvOutcome::Ignored => {},
        _ => panic!("a short first packet is dropped"),
    }
    assert_eq!(server.seal_for(addr, &[0]), Err(TransportError::UnknownClient));

    let mut long = pkt1.clone();
    long.push(0);
    match server.handle_datagram(addr, long) {
        RecvOutcome::Ignored => {},
        _ => panic!("a long first packet is dropped"),
    }
    assert_eq!(server.seal_for(addr, &[0]), Err(TransportError::UnknownClient));

    match server.handle_datagram(addr, pkt1) {
        RecvOutcome::Reply(r) => assert_eq!(r.len(), 136),
        _ => panic!("the exact length is accepted"),
    }
}

/// A third packet with a tampered authenticator evicts the state silently.
#[test]
fn tampered_third_packet_evicts() {
    crypto_init();
    let (server_pk, server_sk) = keypair();
    let (client_pk, client_sk) = keypair();
    let addr = client_addr();
    let mut server = CDGramServer::new(
        server_pk.clone(),
        server_sk,
        vec![client_pk.clone()],
    );
    let mut client = CDGramClient::new(client_pk, client_sk, server_pk);

    let pkt1 = client.connect_begin();
    let reply = match server.handle_datagram(addr, pkt1) {
        RecvOutcome::Reply(r) => r,
        _ => panic!(),
    };
    let mut pkt3 = client.connect_finish(&reply).unwrap();
    let last = pkt3.len() - 1;
    pkt3[last] ^= 0xff;
    match server.handle_datagram(addr, pkt3) {
        RecvOutcome::Ignored => {},
        _ => panic!("a failed handshake gets no reply"),
    }
    // The state is gone: the peer may retry from scratch.
    assert_eq!(server.seal_for(addr, &[0]), Err(TransportError::UnknownClient));
}

/// After a completed session, an injected datagram fails authentication
/// but does not evict the peer.
#[test]
fn tampered_payload_keeps_state() {
    crypto_init();
    let (server_pk, server_sk) = keypair();
    let (client_pk, client_sk) = keypair();
    let addr = client_addr();
    let mut server = CDGramServer::new(
        server_pk.clone(),
        server_sk,
        vec![client_pk.clone()],
    );
    let mut client = CDGramClient::new(client_pk, client_sk, server_pk);
    let pkt1 = client.connect_begin();
    let reply = match server.handle_datagram(addr, pkt1) {
        RecvOutcome::Reply(r) => r,
        _ => panic!(),
    };
    let pkt3 = client.connect_finish(&reply).unwrap();
    server.handle_datagram(addr, pkt3);

    let forged = vec![0x5au8; 40];
    match server.handle_datagram(addr, forged) {
        RecvOutcome::Failed(TransportError::AuthFailure) => {},
        _ => panic!("an unauthentic payload surfaces an auth failure"),
    }
    // The session survives the bad datagram.
    let up = client.seal_payload(&[9]).unwrap();
    match server.handle_datagram(addr, up) {
        RecvOutcome::Delivered(m) => assert_eq!(m, vec![9]),
        _ => panic!("the session still decrypts"),
    }
}

/// A handshake reply sealed by anyone but the server fails the client's
/// challenge check.
#[test]
fn challenge_mismatch_rejected() {
    crypto_init();
    let (server_pk, server_sk) = keypair();
    let (client_pk, client_sk) = keypair();
    let addr = client_addr();
    let mut server = CDGramServer::new(
        server_pk.clone(),
        server_sk,
        vec![client_pk.clone()],
    );
    let mut client = CDGramClient::new(client_pk.clone(), client_sk, server_pk);
    let pkt1 = client.connect_begin();
    let reply = match server.handle_datagram(addr, pkt1) {
        RecvOutcome::Reply(r) => r,
        _ => panic!(),
    };

    // A man in the middle re-seals the challenge response with its own
    // key pair; the length still fits, the contents cannot.
    let (_mitm_pk, mitm_sk) = sodiumoxide::crypto::box_::gen_keypair();
    let nonce = sodiumoxide::crypto::box_::gen_nonce();
    let victim_pk =
        sodiumoxide::crypto::box_::PublicKey::from_slice(&client_pk).unwrap();
    let forged_box =
        sodiumoxide::crypto::box_::seal(&[0u8; 32], &nonce, &victim_pk, &mitm_sk);
    let mut forged = reply[0..64].to_vec();
    forged.extend_from_slice(nonce.as_ref());
    forged.extend_from_slice(&forged_box);
    assert_eq!(forged.len(), 136);
    assert_eq!(
        client.connect_finish(&forged),
        Err(TransportError::AuthFailure)
    );
}

/// Empty address resolution is a resolve failure; anything else picks the
/// first result.
#[test]
fn resolve_failure_on_empty() {
    let none: Vec<Addr> = Vec::new();
    assert_eq!(resolve_first(&none), Err(TransportError::ResolveFailure));
    let some = vec![Addr { ip: 1, port: 2 }, Addr { ip: 3, port: 4 }];
    assert_eq!(resolve_first(&some), Ok(Addr { ip: 1, port: 2 }));
}

/// `close` forgets the peer: a send errors, and a fresh packet starts a
/// new handshake instead of being decrypted under the old keys.
#[test]
fn close_then_send_and_rehandshake() {
    crypto_init();
    let (server_pk, server_sk) = keypair();
    let (client_pk, client_sk) = keypair();
    let addr = client_addr();
    let mut server = CDGramServer::new(
        server_pk.clone(),
        server_sk,
        vec![client_pk.clone()],
    );
    let mut client = CDGramClient::new(client_pk, client_sk, server_pk);
    let pkt1 = client.connect_begin();
    let reply = match server.handle_datagram(addr, pkt1) {
        RecvOutcome::Reply(r) => r,
        _ => panic!(),
    };
    let pkt3 = client.connect_finish(&reply).unwrap();
    server.handle_datagram(addr, pkt3);
    assert!(server.seal_for(addr, &[1]).is_ok());

    server.close(addr);
    assert_eq!(server.seal_for(addr, &[1]), Err(TransportError::UnknownClient));

    // The next first packet from that address is a fresh handshake.
    let pkt1 = client.connect_begin();
    match server.handle_datagram(addr, pkt1) {
        RecvOutcome::Reply(r) => assert_eq!(r.len(), 136),
        _ => panic!("after close the address starts over"),
    }
}

/// Client operations before a completed handshake are refused.
#[test]
fn not_connected_errors() {
    crypto_init();
    let (server_pk, _server_sk) = keypair();
    let (client_pk, client_sk) = keypair();
    let client = CDGramClient::new(client_pk, client_sk, server_pk);
    assert_eq!(client.seal_payload(&[1]), Err(TransportError::NotConnected));
    assert_eq!(client.open_payload(&[0; 64]), Err(TransportError::NotConnected));
}

/// Sending to a peer whose handshake is still running is refused.
#[test]
fn handshake_in_progress_send() {
    crypto_init();
    let (server_pk, server_sk) = keypair();
    let (client_pk, client_sk) = keypair();
    let addr = client_addr();
    let mut server = CDGramServer::new(
        server_pk.clone(),
        server_sk,
        vec![client_pk.clone()],
    );
    let mut client = CDGramClient::new(client_pk, client_sk, server_pk);
    let pkt1 = client.connect_begin();
    match server.handle_datagram(addr, pkt1) {
        RecvOutcome::Reply(_) => {},
        _ => panic!(),
    }
    assert_eq!(
        server.seal_for(addr, &[0]),
        Err(TransportError::HandshakeInProgress)
    );
}

/// A handshake reply or payload of the wrong shape is malformed.
#[test]
fn malformed_lengths_rejected() {
    crypto_init();
    let (server_pk, server_sk) = keypair();
    let (client_pk, client_sk) = keypair();
    let addr = client_addr();
    let mut server = CDGramServer::new(
        server_pk.clone(),
        server_sk,
        vec![client_pk.clone()],
    );
    let mut client = CDGramClient::new(client_pk, client_sk, server_pk);

    let pkt1 = client.connect_begin();
    assert_eq!(
        client.connect_finish(&[0u8; 135]),
        Err(TransportError::MalformedPacket)
    );

    // Complete a session, then feed both ends short payload packets.
    let mut client2 = client;
    let pkt1b = client2.connect_begin();
    let _ = pkt1;
    let reply = match server.handle_datagram(addr, pkt1b) {
        RecvOutcome::Reply(r) => r,
        _ => panic!(),
    };
    let pkt3 = client2.connect_finish(&reply).unwrap();
    server.handle_datagram(addr, pkt3);
    assert_eq!(
        client2.open_payload(&[0u8; 39]),
        Err(TransportError::MalformedPacket)
    );
    match server.handle_datagram(addr, vec![0u8; 39]) {
        RecvOutcome::Failed(TransportError::MalformedPacket) => {},
        _ => panic!("a short payload packet is malformed"),
    }
}

/// The verified end-to-end establishment, run with the real cryptography,
/// and a payload exchanged both ways over the session it builds.
#[test]
fn establish_session_round_trip() {
    crypto_init();
    let (server_pk, server_sk) = keypair();
    let (client_pk, client_sk) = keypair();
    let addr = client_addr();
    let mut server = CDGramServer::new(
        server_pk.clone(),
        server_sk,
        vec![client_pk.clone()],
    );
    let mut client = CDGramClient::new(client_pk, client_sk, server_pk);

    establish_session(&mut server, &mut client, addr).unwrap();

    let up = client.seal_payload(&[42, 1]).unwrap();
    match server.handle_datagram(addr, up) {
        RecvOutcome::Delivered(m) => assert_eq!(m, vec![42, 1]),
        _ => panic!("the established session must deliver"),
    }
    let down = server.seal_for(addr, &[7]).unwrap();
    assert_eq!(client.open_payload(&down).unwrap(), vec![7]);
}
