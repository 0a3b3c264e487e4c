//! The pairing exchange: a one-shot, simpler two-message key exchange
//! whose session keys derive an eight-digit PIN both sides display, and
//! authenticate the long-term public keys they then swap.  The sockets and
//! the terminal belong to the caller.

use crate::crypto::{
    argon_derive_key, argon_key_of, auth_tag_of, kx_client_session,
    kx_client_session_keys, kx_ok, kx_pk_of, kx_server_session_keys, onetimeauth_tag,
    onetimeauth_verify, ARGON_SALTBYTES, AUTH_TAGBYTES, KX_PUBLICKEYBYTES,
    SESSIONKEYBYTES,
};
use crate::codec::push_bytes;
use crate::TransportError;
use vstd::bytes::{spec_u32_from_le_bytes, u32_from_le_bytes};
use vstd::prelude::*;

verus! {

/// The UDP port an entangle server listens on.
pub const SERVER_PORT: u16 = 3241;

/// The PIN derived from an ordered pair of session keys: the first
/// `SALTBYTES` of the second key salt an argon2id derivation over the
/// first, and the first four bytes of the result read little-endian.
/// Both sides show it modulo `10^8`.
pub open spec fn spec_pin(a: Seq<u8>, b: Seq<u8>) -> u32 {
    spec_u32_from_le_bytes(argon_key_of(a, b.take(ARGON_SALTBYTES as int)).take(4))
}

/// Derives the verification PIN from an ordered session-key pair.  The
/// two sides pass their `(tx, rx)` and `(rx, tx)` respectively, which are
/// the same ordered pair, so they compute the same number.
pub fn generate_pin(a: &[u8], b: &[u8]) -> (r: Result<u32, TransportError>)
    requires
        a@.len() == SESSIONKEYBYTES,
        b@.len() == SESSIONKEYBYTES,
    ensures
        r matches Ok(pin) ==> pin == spec_pin(a@, b@),
{
    let salt = vstd::slice::slice_subrange(b, 0, ARGON_SALTBYTES);
    match argon_derive_key(a, salt) {
        None => Err(TransportError::Fatal),
        Some(key) => {
            let head = vstd::slice::slice_subrange(key.as_slice(), 0, 4);
            proof {
                assert(b@.subrange(0, ARGON_SALTBYTES as int) =~= b@.take(
                    ARGON_SALTBYTES as int,
                ));
                assert(key@.subrange(0, 4) =~= key@.take(4));
            }
            Ok(u32_from_le_bytes(head))
        },
    }
}

/// The number both sides display: the PIN modulo ten to the eighth.
pub fn pin_display(pin: u32) -> (r: u32)
    ensures
        r == pin % 100000000u32,
{
    pin % 100000000
}

/// Frames a message for the authenticated pairing channel: the message
/// followed by its one-time authenticator tag under the transmit key.
pub fn auth_frame(buf: &[u8], tx: &[u8]) -> (r: Vec<u8>)
    requires
        tx@.len() == SESSIONKEYBYTES,
    ensures
        r@ == buf@ + auth_tag_of(buf@, tx@),
        r@.len() == buf@.len() + AUTH_TAGBYTES,
{
    let tag = onetimeauth_tag(buf, tx);
    let mut out = vstd::slice::slice_to_vec(buf);
    push_bytes(&mut out, tag.as_slice());
    out
}

/// Opens a message from the authenticated pairing channel: the trailing
/// tag must be the authenticator of everything before it under the
/// receive key; then the message is exactly those leading bytes.
pub fn auth_open(data: &[u8], rx: &[u8]) -> (r: Result<Vec<u8>, TransportError>)
    requires
        rx@.len() == SESSIONKEYBYTES,
    ensures
        data@.len() < AUTH_TAGBYTES ==> r == Err::<Vec<u8>, TransportError>(
            TransportError::MalformedPacket,
        ),
        data@.len() >= AUTH_TAGBYTES ==> match r {
            Ok(m) => m@ == data@.take(data@.len() - AUTH_TAGBYTES) && data@.skip(
                data@.len() - AUTH_TAGBYTES,
            ) == auth_tag_of(m@, rx@),
            Err(e) => e == TransportError::AuthFailure && data@.skip(
                data@.len() - AUTH_TAGBYTES,
            ) != auth_tag_of(data@.take(data@.len() - AUTH_TAGBYTES), rx@),
        },
{
    if data.len() < AUTH_TAGBYTES {
        return Err(TransportError::MalformedPacket);
    }
    let body = vstd::slice::slice_subrange(data, 0, data.len() - AUTH_TAGBYTES);
    let tag = vstd::slice::slice_subrange(data, data.len() - AUTH_TAGBYTES, data.len());
    proof {
        assert(data@.subrange(0, data@.len() - AUTH_TAGBYTES) =~= data@.take(
            data@.len() - AUTH_TAGBYTES,
        ));
        assert(data@.subrange(data@.len() - AUTH_TAGBYTES, data@.len() as int)
            =~= data@.skip(data@.len() - AUTH_TAGBYTES));
    }
    if onetimeauth_verify(tag, body, rx) {
        Ok(vstd::slice::slice_to_vec(body))
    } else {
        Err(TransportError::AuthFailure)
    }
}

/// A message framed for the authenticated channel always opens on the
/// other side to exactly the message: the channel loses and forges
/// nothing between honest ends that share the key.  The hypothesis that
/// the tag is `AUTH_TAGBYTES` long holds of every tag the authenticator
/// produces.
pub proof fn lemma_auth_round_trip(m: Seq<u8>, k: Seq<u8>)
    requires
        auth_tag_of(m, k).len() == AUTH_TAGBYTES,
    ensures
        ({
            let framed = m + auth_tag_of(m, k);
            &&& framed.take(framed.len() - AUTH_TAGBYTES) == m
            &&& framed.skip(framed.len() - AUTH_TAGBYTES) == auth_tag_of(
                framed.take(framed.len() - AUTH_TAGBYTES),
                k,
            )
        }),
{
    let framed = m + auth_tag_of(m, k);
    assert(framed.take(framed.len() - AUTH_TAGBYTES) =~= m);
    assert(framed.skip(framed.len() - AUTH_TAGBYTES) =~= auth_tag_of(m, k));
}

/// The host side of the pairing exchange, once both ephemeral public keys
/// are known: derives the session keys, with `rx` first as the server
/// orders them.  The PIN is then `generate_pin(rx, tx)`.  For a genuine
/// own pair this succeeds exactly when the key exchange accepts the
/// peer's key — which it always does for a genuinely generated one.
pub fn pair_server_session(pk: &[u8], sk: &[u8], client_pk: &[u8]) -> (r: Result<
    (Vec<u8>, Vec<u8>),
    TransportError,
>)
    requires
        pk@.len() == KX_PUBLICKEYBYTES,
        sk@.len() == KX_PUBLICKEYBYTES,
        client_pk@.len() == KX_PUBLICKEYBYTES,
    ensures
        pk@ == kx_pk_of(sk@) ==> (r is Ok <==> kx_ok(pk@, client_pk@)),
        r matches Ok(ks) ==> {
            &&& ks.0@.len() == SESSIONKEYBYTES
            &&& ks.1@.len() == SESSIONKEYBYTES
            &&& pk@ == kx_pk_of(sk@) ==> ks.0@ == kx_client_session(client_pk@, pk@).1
                && ks.1@ == kx_client_session(client_pk@, pk@).0
        },
{
    match kx_server_session_keys(pk, sk, client_pk) {
        Some(ks) => Ok(ks),
        None => Err(TransportError::Fatal),
    }
}

/// The joining side of the pairing exchange: derives the session keys,
/// with `rx` first as the client orders them.  The PIN is then
/// `generate_pin(tx, rx)` — the mirror order, so both sides agree.  For a
/// genuine own pair this succeeds exactly when the key exchange accepts
/// the peer's key — which it always does for a genuinely generated one.
pub fn pair_client_session(pk: &[u8], sk: &[u8], server_pk: &[u8]) -> (r: Result<
    (Vec<u8>, Vec<u8>),
    TransportError,
>)
    requires
        pk@.len() == KX_PUBLICKEYBYTES,
        sk@.len() == KX_PUBLICKEYBYTES,
        server_pk@.len() == KX_PUBLICKEYBYTES,
    ensures
        pk@ == kx_pk_of(sk@) ==> (r is Ok <==> kx_ok(pk@, server_pk@)),
        r matches Ok(ks) ==> {
            &&& ks.0@.len() == SESSIONKEYBYTES
            &&& ks.1@.len() == SESSIONKEYBYTES
            &&& pk@ == kx_pk_of(sk@) ==> ks.0@ == kx_client_session(pk@, server_pk@).0
                && ks.1@ == kx_client_session(pk@, server_pk@).1
        },
{
    match kx_client_session_keys(pk, sk, server_pk) {
        Some(ks) => Ok(ks),
        None => Err(TransportError::Fatal),
    }
}

/// Checks a pairing handshake packet: it must be exactly one ephemeral
/// public key.
pub fn check_pair_packet(buf: &[u8]) -> (r: Result<Vec<u8>, TransportError>)
    ensures
        buf@.len() == KX_PUBLICKEYBYTES ==> (r matches Ok(pk) && pk@ == buf@),
        buf@.len() != KX_PUBLICKEYBYTES ==> r == Err::<Vec<u8>, TransportError>(
            TransportError::MalformedPacket,
        ),
{
    if buf.len() != KX_PUBLICKEYBYTES {
        Err(TransportError::MalformedPacket)
    } else {
        Ok(vstd::slice::slice_to_vec(buf))
    }
}

/// Both ends of a pairing compute the same PIN.  The host derives
/// `(rx, tx)` and hashes them in that order; the joiner derives the
/// mirrored `(rx, tx)` and hashes them in the swapped order; for one
/// session the two ordered pairs coincide, so the numbers are equal.
pub proof fn lemma_pin_agreement(client_kx_pk: Seq<u8>, server_kx_pk: Seq<u8>)
    ensures
        ({
            let ks = kx_client_session(client_kx_pk, server_kx_pk);
            let server_rx = ks.1;
            let server_tx = ks.0;
            let client_rx = ks.0;
            let client_tx = ks.1;
            spec_pin(server_rx, server_tx) == spec_pin(client_tx, client_rx)
        }),
{
}

} // verus!
