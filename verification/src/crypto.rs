//! The cryptographic primitives the transport is built on, as trusted
//! wrappers over libsodium (through the `sodiumoxide` crate).  Each wrapper
//! converts between byte strings and the library's own key types and states
//! only what libsodium's documentation promises; results that no short
//! formula can state are given uninterpreted names.

use sodiumoxide::crypto::pwhash::argon2id13;
use sodiumoxide::crypto::{aead, box_, kx, onetimeauth};
use vstd::prelude::*;

verus! {

/// Bytes in a long-term (box) public key.
pub const BOX_PUBLICKEYBYTES: usize = 32;

/// Bytes in a long-term (box) secret key.
pub const BOX_SECRETKEYBYTES: usize = 32;

/// Bytes in a box or AEAD nonce.
pub const NONCEBYTES: usize = 24;

/// Bytes a box seal or an AEAD seal adds for its authenticator.
pub const MACBYTES: usize = 16;

/// Bytes in an ephemeral key-exchange public key.
pub const KX_PUBLICKEYBYTES: usize = 32;

/// Bytes in a session (AEAD) key.
pub const SESSIONKEYBYTES: usize = 32;

/// Bytes in a protocol challenge.
pub const CHALLENGEBYTES: usize = 32;

/// Bytes in a one-time authenticator key.
pub const AUTH_KEYBYTES: usize = 32;

/// Bytes in a one-time authenticator tag.
pub const AUTH_TAGBYTES: usize = 16;

/// Bytes in an argon2id salt.
pub const ARGON_SALTBYTES: usize = 16;

/// Bytes of key material the pairing tool derives for its PIN.
pub const ARGON_KEYBYTES: usize = 128;

/// The public key determined by a box secret key.
pub uninterp spec fn box_pk_of(sk: Seq<u8>) -> Seq<u8>;

/// What `box_::seal` produces from a message, a nonce, the receiver's
/// public key and the sender's secret key.
pub uninterp spec fn box_seal_of(m: Seq<u8>, n: Seq<u8>, pk: Seq<u8>, sk: Seq<u8>) -> Seq<u8>;

/// The public key determined by a key-exchange secret key.
pub uninterp spec fn kx_pk_of(sk: Seq<u8>) -> Seq<u8>;

/// The `(rx, tx)` session-key pair the client side derives from the two
/// ephemeral public keys.  The server side derives the same two keys
/// swapped; both facts are libsodium's `crypto_kx` contract.
pub uninterp spec fn kx_client_session(client_pk: Seq<u8>, server_pk: Seq<u8>) -> (
    Seq<u8>,
    Seq<u8>,
);

/// Whether the key exchange accepts this peer public key for a holder of
/// this own public key: `crypto_kx` fails exactly on degenerate peer
/// points, which is decided by the two public keys alone once the caller's
/// own pair is genuine.
pub uninterp spec fn kx_ok(own_pk: Seq<u8>, peer_pk: Seq<u8>) -> bool;

/// What the AEAD seal produces from a message, a nonce and a key.
pub uninterp spec fn aead_seal_of(m: Seq<u8>, n: Seq<u8>, k: Seq<u8>) -> Seq<u8>;

/// The one-time authenticator tag of a message under a key.
pub uninterp spec fn auth_tag_of(m: Seq<u8>, k: Seq<u8>) -> Seq<u8>;

/// The argon2id13 key material derived, at interactive limits, from a
/// password and a salt.
pub uninterp spec fn argon_key_of(pw: Seq<u8>, salt: Seq<u8>) -> Seq<u8>;

/// Relies on sodiumoxide::init: prepares libsodium for concurrent use.
#[verifier::external_body]
pub fn crypto_init() -> bool {
    sodiumoxide::init().is_ok()
}

/// Relies on box_::gen_keypair: a fresh X25519 key pair; the public key is
/// the one derived from the secret key.
#[verifier::external_body]
pub(crate) fn box_gen_keypair() -> (r: (Vec<u8>, Vec<u8>))
    ensures
        r.0@.len() == BOX_PUBLICKEYBYTES,
        r.1@.len() == BOX_SECRETKEYBYTES,
        r.0@ == box_pk_of(r.1@),
{
    let (pk, sk) = sodiumoxide::crypto::box_::gen_keypair();
    (pk.as_ref().to_vec(), sk.as_ref().to_vec())
}

/// Relies on box_::gen_nonce: 24 fresh random bytes.
#[verifier::external_body]
pub(crate) fn box_gen_nonce() -> (r: Vec<u8>)
    ensures
        r@.len() == NONCEBYTES,
{
    sodiumoxide::crypto::box_::gen_nonce().as_ref().to_vec()
}

/// Relies on randombytes: `n` fresh random bytes.
#[verifier::external_body]
pub(crate) fn random_bytes(n: usize) -> (r: Vec<u8>)
    ensures
        r@.len() == n,
{
    sodiumoxide::randombytes::randombytes(n)
}

/// Relies on box_::seal: public-key authenticated encryption of `m` with
/// nonce `n` to the holder of `pk`, from the holder of `sk`; the result is
/// the message plus a 16-byte authenticator.
#[verifier::external_body]
pub(crate) fn box_seal(m: &[u8], n: &[u8], pk: &[u8], sk: &[u8]) -> (r: Vec<u8>)
    requires
        n@.len() == NONCEBYTES,
        pk@.len() == BOX_PUBLICKEYBYTES,
        sk@.len() == BOX_SECRETKEYBYTES,
    ensures
        r@ == box_seal_of(m@, n@, pk@, sk@),
        r@.len() == m@.len() + MACBYTES,
{
    let n = box_::Nonce::from_slice(n).unwrap();
    let pk = box_::PublicKey::from_slice(pk).unwrap();
    let sk = box_::SecretKey::from_slice(sk).unwrap();
    box_::seal(m, &n, &pk, &sk)
}

/// Relies on box_::open: verifies and decrypts what box_::seal produced
/// between the same pair of key pairs with the same nonce.  The cipher is
/// deterministic and sealing inverts opening, so when the sender's public
/// key is a genuine one, a successful open means the bytes are exactly the
/// seal of the result, and a failed open that they are the seal of
/// nothing.
#[verifier::external_body]
pub(crate) fn box_open(c: &[u8], n: &[u8], pk: &[u8], sk: &[u8]) -> (r: Option<Vec<u8>>)
    requires
        n@.len() == NONCEBYTES,
        pk@.len() == BOX_PUBLICKEYBYTES,
        sk@.len() == BOX_SECRETKEYBYTES,
    ensures
        match r {
            Some(v) => {
                &&& v@.len() + MACBYTES == c@.len()
                &&& forall|psk: Seq<u8>|
                    pk@ == #[trigger] box_pk_of(psk) ==> c@ == box_seal_of(
                        v@,
                        n@,
                        box_pk_of(sk@),
                        psk,
                    )
                &&& forall|m: Seq<u8>, psk: Seq<u8>|
                    pk@ == box_pk_of(psk) && c@ == #[trigger] box_seal_of(
                        m,
                        n@,
                        box_pk_of(sk@),
                        psk,
                    ) ==> v@ == m
            },
            None => forall|m: Seq<u8>, psk: Seq<u8>|
                pk@ == box_pk_of(psk) ==> c@ != #[trigger] box_seal_of(
                    m,
                    n@,
                    box_pk_of(sk@),
                    psk,
                ),
        },
{
    let n = box_::Nonce::from_slice(n).unwrap();
    let pk = box_::PublicKey::from_slice(pk).unwrap();
    let sk = box_::SecretKey::from_slice(sk).unwrap();
    box_::open(c, &n, &pk, &sk).ok()
}

/// Relies on kx::gen_keypair: a fresh key-exchange pair; the public key is
/// the one derived from the secret key.  A generated public key is a
/// multiple of the prime-order base point, which the key exchange never
/// refuses, so it is an acceptable peer key for everyone.
#[verifier::external_body]
pub(crate) fn kx_gen_keypair() -> (r: (Vec<u8>, Vec<u8>))
    ensures
        r.0@.len() == KX_PUBLICKEYBYTES,
        r.1@.len() == KX_PUBLICKEYBYTES,
        r.0@ == kx_pk_of(r.1@),
        forall|opk: Seq<u8>| #[trigger] kx_ok(opk, r.0@),
{
    let (pk, sk) = sodiumoxide::crypto::kx::gen_keypair();
    (pk.as_ref().to_vec(), sk.as_ref().to_vec())
}

/// Relies on kx::client_session_keys: the client-side `(rx, tx)` pair
/// derived from the two ephemeral public keys.  For a genuine own pair the
/// call fails exactly when the peer key is one the exchange refuses.
#[verifier::external_body]
pub(crate) fn kx_client_session_keys(pk: &[u8], sk: &[u8], server_pk: &[u8]) -> (r: Option<
    (Vec<u8>, Vec<u8>),
>)
    requires
        pk@.len() == KX_PUBLICKEYBYTES,
        sk@.len() == KX_PUBLICKEYBYTES,
        server_pk@.len() == KX_PUBLICKEYBYTES,
    ensures
        pk@ == kx_pk_of(sk@) ==> (r is Some <==> kx_ok(pk@, server_pk@)),
        r matches Some(ks) ==> {
            &&& ks.0@.len() == SESSIONKEYBYTES
            &&& ks.1@.len() == SESSIONKEYBYTES
            &&& pk@ == kx_pk_of(sk@) ==> ks.0@ == kx_client_session(pk@, server_pk@).0
                && ks.1@ == kx_client_session(pk@, server_pk@).1
        },
{
    let pk = kx::PublicKey::from_slice(pk).unwrap();
    let sk = kx::SecretKey::from_slice(sk).unwrap();
    let spk = kx::PublicKey::from_slice(server_pk).unwrap();
    let (rx, tx) = kx::client_session_keys(&pk, &sk, &spk).ok()?;
    Some((rx.as_ref().to_vec(), tx.as_ref().to_vec()))
}

/// Relies on kx::server_session_keys: the server-side `(rx, tx)` pair; by
/// libsodium's `crypto_kx` contract the server's `rx` is the client's `tx`
/// and the server's `tx` is the client's `rx`.  For a genuine own pair the
/// call fails exactly when the peer key is one the exchange refuses.
#[verifier::external_body]
pub(crate) fn kx_server_session_keys(pk: &[u8], sk: &[u8], client_pk: &[u8]) -> (r: Option<
    (Vec<u8>, Vec<u8>),
>)
    requires
        pk@.len() == KX_PUBLICKEYBYTES,
        sk@.len() == KX_PUBLICKEYBYTES,
        client_pk@.len() == KX_PUBLICKEYBYTES,
    ensures
        pk@ == kx_pk_of(sk@) ==> (r is Some <==> kx_ok(pk@, client_pk@)),
        r matches Some(ks) ==> {
            &&& ks.0@.len() == SESSIONKEYBYTES
            &&& ks.1@.len() == SESSIONKEYBYTES
            &&& pk@ == kx_pk_of(sk@) ==> ks.0@ == kx_client_session(client_pk@, pk@).1
                && ks.1@ == kx_client_session(client_pk@, pk@).0
        },
{
    let pk = kx::PublicKey::from_slice(pk).unwrap();
    let sk = kx::SecretKey::from_slice(sk).unwrap();
    let cpk = kx::PublicKey::from_slice(client_pk).unwrap();
    let (rx, tx) = kx::server_session_keys(&pk, &sk, &cpk).ok()?;
    Some((rx.as_ref().to_vec(), tx.as_ref().to_vec()))
}

/// Relies on aead::gen_nonce (XChaCha20-Poly1305): 24 fresh random bytes.
#[verifier::external_body]
pub(crate) fn aead_gen_nonce() -> (r: Vec<u8>)
    ensures
        r@.len() == NONCEBYTES,
{
    sodiumoxide::crypto::aead::gen_nonce().as_ref().to_vec()
}

/// Relies on aead::seal (XChaCha20-Poly1305, no additional data): the
/// sealed form of `m` under nonce `n` and key `k`.
#[verifier::external_body]
pub(crate) fn aead_seal(m: &[u8], n: &[u8], k: &[u8]) -> (r: Vec<u8>)
    requires
        n@.len() == NONCEBYTES,
        k@.len() == SESSIONKEYBYTES,
    ensures
        r@ == aead_seal_of(m@, n@, k@),
        r@.len() == m@.len() + MACBYTES,
{
    let n = aead::Nonce::from_slice(n).unwrap();
    let k = aead::Key::from_slice(k).unwrap();
    aead::seal(m, None, &n, &k)
}

/// Relies on aead::open: verifies and decrypts what aead::seal produced
/// under the same nonce and key.  The AEAD is deterministic and sealing
/// inverts opening, so a successful open means the bytes are exactly the
/// seal of the result, and a failed open that they are the seal of
/// nothing.
#[verifier::external_body]
pub(crate) fn aead_open(c: &[u8], n: &[u8], k: &[u8]) -> (r: Option<Vec<u8>>)
    requires
        n@.len() == NONCEBYTES,
        k@.len() == SESSIONKEYBYTES,
    ensures
        match r {
            Some(v) => {
                &&& v@.len() + MACBYTES == c@.len()
                &&& c@ == aead_seal_of(v@, n@, k@)
                &&& forall|m: Seq<u8>|
                    c@ == #[trigger] aead_seal_of(m, n@, k@) ==> v@ == m
            },
            None => forall|m: Seq<u8>| c@ != #[trigger] aead_seal_of(m, n@, k@),
        },
{
    let n = aead::Nonce::from_slice(n).unwrap();
    let k = aead::Key::from_slice(k).unwrap();
    aead::open(c, None, &n, &k).ok()
}

/// Relies on onetimeauth::authenticate: the Poly1305 tag of `m` under `k`.
#[verifier::external_body]
pub(crate) fn onetimeauth_tag(m: &[u8], k: &[u8]) -> (r: Vec<u8>)
    requires
        k@.len() == AUTH_KEYBYTES,
    ensures
        r@ == auth_tag_of(m@, k@),
        r@.len() == AUTH_TAGBYTES,
{
    let k = onetimeauth::Key::from_slice(k).unwrap();
    onetimeauth::authenticate(m, &k).as_ref().to_vec()
}

/// Relies on onetimeauth::verify: true exactly when `tag` is the
/// authenticator of `m` under `k`.
#[verifier::external_body]
pub(crate) fn onetimeauth_verify(tag: &[u8], m: &[u8], k: &[u8]) -> (r: bool)
    requires
        tag@.len() == AUTH_TAGBYTES,
        k@.len() == AUTH_KEYBYTES,
    ensures
        r == (tag@ == auth_tag_of(m@, k@)),
{
    let t = onetimeauth::Tag::from_slice(tag).unwrap();
    let k = onetimeauth::Key::from_slice(k).unwrap();
    onetimeauth::verify(&t, m, &k)
}

/// Relies on pwhash::argon2id13::derive_key at interactive limits: key
/// material determined by the password and the salt alone.
#[verifier::external_body]
pub(crate) fn argon_derive_key(pw: &[u8], salt: &[u8]) -> (r: Option<Vec<u8>>)
    requires
        salt@.len() == ARGON_SALTBYTES,
    ensures
        r matches Some(v) ==> v@ == argon_key_of(pw@, salt@) && v@.len() == ARGON_KEYBYTES,
{
    let salt = argon2id13::Salt::from_slice(salt).unwrap();
    let mut key = vec![0u8; 128];
    argon2id13::derive_key(
        key.as_mut_slice(),
        pw,
        &salt,
        argon2id13::OPSLIMIT_INTERACTIVE,
        argon2id13::MEMLIMIT_INTERACTIVE,
    ).ok()?;
    Some(key)
}

} // verus!
