//! The persisted identity: a long-term key pair and the set of paired
//! peers.  Keys travel through the configuration file base64url-encoded
//! without padding; reading and writing that file is the caller's
//! business.

use crate::cdgram::Addr;
use crate::crypto::{box_gen_keypair, box_pk_of, BOX_PUBLICKEYBYTES, BOX_SECRETKEYBYTES};
use crate::proto::clone_bytes;
use vstd::prelude::*;

verus! {

/// One paired peer: its long-term public key, and the address clients use
/// to reach it if it is a server.
pub struct Peer {
    addr: Option<Addr>,
    public: Vec<u8>,
}

impl Peer {
    #[verifier::type_invariant]
    spec fn inv(self) -> bool {
        self.public@.len() == BOX_PUBLICKEYBYTES
    }

    /// The peer's long-term public key.
    pub closed spec fn pk_spec(&self) -> Seq<u8> {
        self.public@
    }

    /// The peer's address, if one is known.
    pub closed spec fn addr_spec(&self) -> Option<Addr> {
        self.addr
    }

    /// A peer record.
    pub fn new(addr: Option<Addr>, pk: Vec<u8>) -> (r: Peer)
        requires
            pk@.len() == BOX_PUBLICKEYBYTES,
        ensures
            r.addr_spec() == addr,
            r.pk_spec() == pk@,
    {
        Peer { addr, public: pk }
    }

    /// The peer's public key, as bytes.
    pub fn public(&self) -> (r: Vec<u8>)
        ensures
            r@ == self.pk_spec(),
            r@.len() == BOX_PUBLICKEYBYTES,
    {
        proof {
            use_type_invariant(&*self);
        }
        clone_bytes(&self.public)
    }

    /// The peer's address, if one is known.
    pub fn addr(&self) -> (r: Option<Addr>)
        ensures
            r == self.addr_spec(),
    {
        self.addr
    }
}

/// The daemon's own identity and its paired peers.
pub struct Config {
    public: Vec<u8>,
    secret: Vec<u8>,
    peers: Vec<Peer>,
}

impl Config {
    #[verifier::type_invariant]
    spec fn inv(self) -> bool {
        &&& self.public@.len() == BOX_PUBLICKEYBYTES
        &&& self.secret@.len() == BOX_SECRETKEYBYTES
    }

    /// The configured long-term public key.
    pub closed spec fn pk_spec(&self) -> Seq<u8> {
        self.public@
    }

    /// The configured long-term secret key.
    pub closed spec fn sk_spec(&self) -> Seq<u8> {
        self.secret@
    }

    /// The paired peers.
    pub closed spec fn peers_spec(&self) -> Seq<Peer> {
        self.peers@
    }

    /// A configuration from keys read back from storage.
    pub fn from_keys(public: Vec<u8>, secret: Vec<u8>, peers: Vec<Peer>) -> (r: Config)
        requires
            public@.len() == BOX_PUBLICKEYBYTES,
            secret@.len() == BOX_SECRETKEYBYTES,
        ensures
            r.pk_spec() == public@,
            r.sk_spec() == secret@,
            r.peers_spec() == peers@,
    {
        Config { public, secret, peers }
    }

    /// A fresh identity: a newly generated key pair and no peers.  The
    /// stored public key is the one the secret key determines.
    pub fn generate() -> (r: Config)
        ensures
            r.pk_spec() == box_pk_of(r.sk_spec()),
            r.peers_spec() == Seq::<Peer>::empty(),
    {
        let (public, secret) = box_gen_keypair();
        Config { public, secret, peers: Vec::new() }
    }

    /// The configured public key, as bytes.
    pub fn public(&self) -> (r: Vec<u8>)
        ensures
            r@ == self.pk_spec(),
            r@.len() == BOX_PUBLICKEYBYTES,
    {
        proof {
            use_type_invariant(&*self);
        }
        clone_bytes(&self.public)
    }

    /// The configured secret key, as bytes.
    pub fn secret(&self) -> (r: Vec<u8>)
        ensures
            r@ == self.sk_spec(),
            r@.len() == BOX_SECRETKEYBYTES,
    {
        proof {
            use_type_invariant(&*self);
        }
        clone_bytes(&self.secret)
    }

    /// How many peers are paired.
    pub fn peers_len(&self) -> (r: usize)
        ensures
            r == self.peers_spec().len(),
    {
        self.peers.len()
    }

    /// One paired peer.
    pub fn peer_at(&self, i: usize) -> (r: &Peer)
        requires
            i < self.peers_spec().len(),
        ensures
            *r == self.peers_spec()[i as int],
    {
        &self.peers[i]
    }

    /// Records a newly paired peer.
    pub fn add_peer(&mut self, peer: Peer)
        ensures
            final(self).pk_spec() == old(self).pk_spec(),
            final(self).sk_spec() == old(self).sk_spec(),
            final(self).peers_spec() == old(self).peers_spec().push(peer),
    {
        proof {
            use_type_invariant(&*self);
        }
        let mut peers: Vec<Peer> = Vec::new();
        core::mem::swap(&mut self.peers, &mut peers);
        peers.push(peer);
        core::mem::swap(&mut self.peers, &mut peers);
    }
}

} // verus!
