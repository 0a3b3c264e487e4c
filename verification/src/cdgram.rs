//! CDGram: the authenticated, encrypted datagram transport.  The server
//! keeps one auth state per remote address — a running handshake or a pair
//! of session keys — and turns each incoming datagram into at most one
//! reply or one delivered payload.  The client drives the mirror handshake
//! and then seals and opens payloads under the established keys.  Sockets
//! live outside: the caller feeds datagrams in and sends what comes back.

use crate::crypto::{
    aead_gen_nonce, aead_open, aead_seal, aead_seal_of, box_gen_nonce, box_open,
    box_pk_of, box_seal, box_seal_of, kx_client_session, kx_client_session_keys,
    kx_gen_keypair, kx_ok, kx_pk_of, random_bytes, BOX_PUBLICKEYBYTES, BOX_SECRETKEYBYTES,
    CHALLENGEBYTES, KX_PUBLICKEYBYTES, MACBYTES, NONCEBYTES, SESSIONKEYBYTES,
};
use crate::generator::{accept_response, Either, Generator};
use crate::proto::{bytes_eq, clone_bytes};
use crate::codec::push_bytes;
use crate::TransportError;
use vstd::prelude::*;

verus! {

/// A remote endpoint: an IP (IPv4 addresses in their IPv6-mapped form) and
/// a port, as plain numbers.
#[derive(Clone, Copy, Debug, PartialEq, Eq, Structural, Hash)]
pub struct Addr {
    pub ip: u128,
    pub port: u16,
}

/// One address appears at most once in an association list.
pub open spec fn unique_addrs<T>(s: Seq<(Addr, T)>) -> bool {
    forall|i: int, j: int|
        0 <= i < j < s.len() ==> (#[trigger] s[i]).0 != (#[trigger] s[j]).0
}

/// Whether `pk` is one of the listed keys.
pub open spec fn key_listed(keys: Seq<Seq<u8>>, pk: Seq<u8>) -> bool {
    exists|i: int| 0 <= i < keys.len() && keys[i] == pk
}

/// The per-peer auth state, as contracts see it.
pub enum PeerModel {
    /// The handshake replied to the first packet and waits for the third.
    Handshaking { pk: Seq<u8>, client_kx_pk: Seq<u8>, kx_pk: Seq<u8>, challenge: Seq<u8> },
    /// The handshake completed with these session keys, for a peer that
    /// proved ownership of `pk`.
    Established { rx: Seq<u8>, tx: Seq<u8>, pk: Seq<u8> },
}

enum AuthState {
    Initiated(Generator),
    Completed { rx: Vec<u8>, tx: Vec<u8>, client_pk: Ghost<Seq<u8>> },
}

spec fn st_model(st: AuthState) -> PeerModel {
    match st {
        AuthState::Initiated(g) => PeerModel::Handshaking {
            pk: g.client_pk(),
            client_kx_pk: g.client_kx_pk(),
            kx_pk: g.kx_pk(),
            challenge: g.challenge(),
        },
        AuthState::Completed { rx, tx, client_pk } => PeerModel::Established {
            rx: rx@,
            tx: tx@,
            pk: client_pk@,
        },
    }
}

spec fn find_state(s: Seq<(Addr, AuthState)>, a: Addr) -> Option<PeerModel>
    decreases s.len(),
{
    if s.len() == 0 {
        None
    } else if s[0].0 == a {
        Some(st_model(s[0].1))
    } else {
        find_state(s.drop_first(), a)
    }
}

proof fn lemma_find_at(s: Seq<(Addr, AuthState)>, i: int, a: Addr)
    requires
        0 <= i < s.len(),
        s[i].0 == a,
        forall|j: int| 0 <= j < i ==> (#[trigger] s[j]).0 != a,
    ensures
        find_state(s, a) == Some(st_model(s[i].1)),
    decreases i,
{
    if i > 0 {
        lemma_find_at(s.drop_first(), i - 1, a);
    }
}

proof fn lemma_find_absent(s: Seq<(Addr, AuthState)>, a: Addr)
    requires
        forall|j: int| 0 <= j < s.len() ==> (#[trigger] s[j]).0 != a,
    ensures
        find_state(s, a) is None,
    decreases s.len(),
{
    if s.len() > 0 {
        lemma_find_absent(s.drop_first(), a);
    }
}

proof fn lemma_find_none_all(s: Seq<(Addr, AuthState)>, a: Addr)
    requires
        find_state(s, a) is None,
    ensures
        forall|j: int| 0 <= j < s.len() ==> (#[trigger] s[j]).0 != a,
    decreases s.len(),
{
    if s.len() > 0 {
        lemma_find_none_all(s.drop_first(), a);
        assert forall|j: int| 0 <= j < s.len() implies (#[trigger] s[j]).0 != a by {
            if j > 0 {
                assert(s[j] == s.drop_first()[j - 1]);
            }
        }
    }
}

proof fn lemma_find_push(s: Seq<(Addr, AuthState)>, e: (Addr, AuthState), a: Addr)
    ensures
        find_state(s.push(e), a) == (if find_state(s, a) is Some {
            find_state(s, a)
        } else if e.0 == a {
            Some(st_model(e.1))
        } else {
            None
        }),
    decreases s.len(),
{
    if s.len() == 0 {
        assert(s.push(e)[0] == e);
        assert(s.push(e).drop_first() =~= Seq::<(Addr, AuthState)>::empty());
        assert(find_state(s.push(e).drop_first(), a) is None);
        assert(find_state(s, a) is None);
    } else {
        assert(s.push(e)[0] == s[0]);
        assert(s.push(e).drop_first() =~= s.drop_first().push(e));
        lemma_find_push(s.drop_first(), e, a);
        assert(find_state(s.push(e).drop_first(), a) == find_state(
            s.drop_first().push(e),
            a,
        ));
        if s[0].0 == a {
            assert(find_state(s.push(e), a) == Some(st_model(s[0].1)));
            assert(find_state(s, a) == Some(st_model(s[0].1)));
        }
    }
}

proof fn lemma_find_remove_other(s: Seq<(Addr, AuthState)>, i: int, a: Addr)
    requires
        0 <= i < s.len(),
        s[i].0 != a,
    ensures
        find_state(s.remove(i), a) == find_state(s, a),
    decreases s.len(),
{
    s.remove_ensures(i);
    if i == 0 {
        assert(s.remove(0) =~= s.drop_first());
    } else {
        assert(s.remove(i).drop_first() =~= s.drop_first().remove(i - 1));
        assert(s.remove(i)[0] == s[0]);
        if s[0].0 != a {
            lemma_find_remove_other(s.drop_first(), i - 1, a);
        }
    }
}

proof fn lemma_find_some_index(s: Seq<(Addr, AuthState)>, a: Addr)
    requires
        find_state(s, a) is Some,
    ensures
        exists|i: int|
            0 <= i < s.len() && (#[trigger] s[i]).0 == a && find_state(s, a) == Some(
                st_model(s[i].1),
            ),
    decreases s.len(),
{
    if s.len() > 0 && s[0].0 != a {
        lemma_find_some_index(s.drop_first(), a);
        let j = choose|j: int|
            0 <= j < s.drop_first().len() && (#[trigger] s.drop_first()[j]).0 == a
                && find_state(s.drop_first(), a) == Some(st_model(s.drop_first()[j].1));
        assert(s[j + 1] == s.drop_first()[j]);
    }
}

/// A transport payload packet: some nonce followed by the AEAD seal of
/// `m` under `key` with that nonce.
pub open spec fn sealed_packet(pkt: Seq<u8>, m: Seq<u8>, key: Seq<u8>) -> bool {
    exists|nn: Seq<u8>|
        nn.len() == NONCEBYTES && pkt == nn + #[trigger] aead_seal_of(m, nn, key)
}

/// What the server does with one incoming datagram.
pub enum RecvOutcome {
    /// Send these bytes back to the sender; the handshake goes on.
    Reply(Vec<u8>),
    /// The datagram decrypted under the peer's session key: a payload.
    Delivered(Vec<u8>),
    /// Nothing to send and nothing to deliver.
    Ignored,
    /// A datagram from an established peer that was malformed or failed to
    /// decrypt; the peer's state is untouched.
    Failed(TransportError),
}

/// The server side of the transport: long-term keys, the allow-list, and
/// one auth state per remote address.
pub struct CDGramServer {
    public: Vec<u8>,
    secret: Vec<u8>,
    authorized_keys: Vec<Vec<u8>>,
    auth_states: Vec<(Addr, AuthState)>,
}

impl CDGramServer {
    #[verifier::type_invariant]
    spec fn inv(self) -> bool {
        &&& self.secret@.len() == BOX_SECRETKEYBYTES
        &&& unique_addrs(self.auth_states@)
        &&& forall|i: int|
            0 <= i < self.auth_states@.len() ==> self.st_ok(
                (#[trigger] self.auth_states@[i]).1,
            )
    }

    spec fn st_ok(self, st: AuthState) -> bool {
        match st {
            AuthState::Initiated(g) => {
                &&& g.spec_started()
                &&& g.phase() is AwaitPkt3
                &&& g.server_sk() == self.secret@
                &&& self.is_authorized(g.client_pk())
            },
            AuthState::Completed { rx, tx, client_pk } => {
                &&& rx@.len() == SESSIONKEYBYTES
                &&& tx@.len() == SESSIONKEYBYTES
                &&& self.is_authorized(client_pk@)
            },
        }
    }

    /// Whether `pk` is in the allow-list.
    pub closed spec fn is_authorized(&self, pk: Seq<u8>) -> bool {
        key_listed(self.authorized_keys@.map_values(|k: Vec<u8>| k@), pk)
    }

    /// The server's long-term secret key.
    pub closed spec fn sk_spec(&self) -> Seq<u8> {
        self.secret@
    }

    /// The auth state held for an address.
    pub closed spec fn peer(&self, a: Addr) -> Option<PeerModel> {
        find_state(self.auth_states@, a)
    }

    /// A server with these long-term keys and this allow-list, and no peer
    /// state at all.
    pub fn new(
        public: Vec<u8>,
        secret: Vec<u8>,
        authorized_keys: Vec<Vec<u8>>,
    ) -> (r: CDGramServer)
        requires
            secret@.len() == BOX_SECRETKEYBYTES,
        ensures
            r.sk_spec() == secret@,
            forall|a: Addr| r.peer(a) is None,
            forall|pk: Seq<u8>| r.is_authorized(pk) == key_listed(
                authorized_keys@.map_values(|k: Vec<u8>| k@),
                pk,
            ),
    {
        let r = CDGramServer { public, secret, authorized_keys, auth_states: Vec::new() };
        proof {
            assert forall|a: Addr| r.peer(a) is None by {
                lemma_find_absent(r.auth_states@, a);
            }
        }
        r
    }

    /// Whether the first-packet public key is in the allow-list.
    fn check_authorized(&self, pk: &[u8]) -> (r: bool)
        ensures
            r == self.is_authorized(pk@),
    {
        let ghost keys = self.authorized_keys@.map_values(|k: Vec<u8>| k@);
        let mut i: usize = 0;
        while i < self.authorized_keys.len()
            invariant
                i <= self.authorized_keys@.len(),
                keys == self.authorized_keys@.map_values(|k: Vec<u8>| k@),
                forall|j: int| 0 <= j < i ==> keys[j] != pk@,
            decreases self.authorized_keys@.len() - i,
        {
            if bytes_eq(self.authorized_keys[i].as_slice(), pk) {
                proof {
                    assert(keys[i as int] == pk@);
                }
                return true;
            }
            i = i + 1;
        }
        false
    }

    /// The index of the entry for `addr`, if one exists.
    fn find_index(&self, addr: Addr) -> (r: Option<usize>)
        ensures
            match r {
                Some(i) => i < self.auth_states@.len() && self.auth_states@[
                    i as int
                ].0 == addr && self.peer(addr) == Some(
                    st_model(self.auth_states@[i as int].1),
                ),
                None => self.peer(addr) is None,
            },
    {
        let mut i: usize = 0;
        while i < self.auth_states.len()
            invariant
                i <= self.auth_states@.len(),
                forall|j: int| 0 <= j < i ==> (#[trigger] self.auth_states@[j]).0
                    != addr,
            decreases self.auth_states@.len() - i,
        {
            if self.auth_states[i].0 == addr {
                proof {
                    lemma_find_at(self.auth_states@, i as int, addr);
                }
                return Some(i);
            }
            i = i + 1;
        }
        proof {
            lemma_find_absent(self.auth_states@, addr);
        }
        None
    }

    /// Handles one datagram that arrived from `addr`.
    ///
    /// An address with no state is admitted only through a well-formed
    /// first handshake packet whose leading public key is in the
    /// allow-list; anything else from it is dropped without reply.  A
    /// handshaking address is fed the packet: completion happens exactly
    /// for a genuine seal of the issued challenge under an acceptable
    /// key-exchange key, stores the mirrored session keys, and sends
    /// nothing; every other packet evicts the state silently.  An
    /// established address has its packet opened under the session receive
    /// key: what decrypts is delivered exactly, and a failure is reported
    /// but never evicts.
    pub fn handle_datagram(&mut self, addr: Addr, buf: Vec<u8>) -> (r: RecvOutcome)
        ensures
            forall|a: Addr| a != addr ==> final(self).peer(a) == old(self).peer(a),
            forall|pk: Seq<u8>| final(self).is_authorized(pk) == old(
                self,
            ).is_authorized(pk),
            final(self).sk_spec() == old(self).sk_spec(),
            forall|a: Addr|
                #[trigger] final(self).peer(a) matches Some(
                    PeerModel::Established { pk, .. },
                ) ==> final(self).is_authorized(pk),
            old(self).peer(addr) is None ==> {
                &&& (r is Ignored || r is Reply)
                &&& buf@.len() < BOX_PUBLICKEYBYTES ==> r is Ignored && final(self).peer(addr) is None
                &&& buf@.len() >= BOX_PUBLICKEYBYTES && !old(self).is_authorized(
                    buf@.take(BOX_PUBLICKEYBYTES as int),
                ) ==> r is Ignored && final(self).peer(addr) is None
                &&& buf@.len() != BOX_PUBLICKEYBYTES + KX_PUBLICKEYBYTES
                    + CHALLENGEBYTES && buf@.len() >= BOX_PUBLICKEYBYTES && old(
                    self,
                ).is_authorized(buf@.take(BOX_PUBLICKEYBYTES as int)) ==> r
                    is Ignored && final(self).peer(addr) is None
                &&& buf@.len() == BOX_PUBLICKEYBYTES + KX_PUBLICKEYBYTES
                    + CHALLENGEBYTES && old(self).is_authorized(
                    buf@.take(BOX_PUBLICKEYBYTES as int),
                ) ==> match final(self).peer(addr) {
                    Some(pm) => pm matches PeerModel::Handshaking {
                        pk,
                        client_kx_pk,
                        kx_pk,
                        challenge,
                    } && pk == buf@.take(BOX_PUBLICKEYBYTES as int) && client_kx_pk
                        == buf@.subrange(
                        BOX_PUBLICKEYBYTES as int,
                        (BOX_PUBLICKEYBYTES + KX_PUBLICKEYBYTES) as int,
                    ) && challenge.len() == CHALLENGEBYTES && kx_pk.len()
                        == KX_PUBLICKEYBYTES && (forall|opk: Seq<u8>|
                        #[trigger] kx_ok(opk, kx_pk)) && (r
                        matches RecvOutcome::Reply(reply)
                        && reply@.len() == CHALLENGEBYTES + KX_PUBLICKEYBYTES
                        + NONCEBYTES + CHALLENGEBYTES + MACBYTES && (exists|
                        nn: Seq<u8>,
                    |
                        nn.len() == NONCEBYTES && reply@ == challenge + kx_pk + nn
                            + #[trigger] box_seal_of(
                            buf@.skip((BOX_PUBLICKEYBYTES + KX_PUBLICKEYBYTES) as int),
                            nn,
                            buf@.take(BOX_PUBLICKEYBYTES as int),
                            old(self).sk_spec(),
                        ))),
                    None => false,
                }
            },
            old(self).peer(addr) matches Some(PeerModel::Handshaking {
                pk,
                client_kx_pk,
                kx_pk,
                challenge,
            }) ==> {
                &&& r is Ignored
                &&& buf@.len() != NONCEBYTES + CHALLENGEBYTES + MACBYTES ==> final(self).peer(addr) is None
                &&& match final(self).peer(addr) {
                    Some(pm) => pm matches PeerModel::Established {
                        rx,
                        tx,
                        pk: pk2,
                    } && pk2 == pk && rx == kx_client_session(client_kx_pk, kx_pk).1
                        && tx == kx_client_session(client_kx_pk, kx_pk).0 && buf@.len()
                        == NONCEBYTES + CHALLENGEBYTES + MACBYTES && (forall|
                        psk: Seq<u8>,
                    |
                        pk == #[trigger] box_pk_of(psk) ==> buf@.skip(NONCEBYTES as int)
                            == box_seal_of(
                            challenge,
                            buf@.take(NONCEBYTES as int),
                            box_pk_of(old(self).sk_spec()),
                            psk,
                        )),
                    None => true,
                }
                &&& buf@.len() == NONCEBYTES + CHALLENGEBYTES + MACBYTES && (exists|
                    psk: Seq<u8>,
                |
                    pk == box_pk_of(psk) && buf@.skip(NONCEBYTES as int)
                        == #[trigger] box_seal_of(
                        challenge,
                        buf@.take(NONCEBYTES as int),
                        box_pk_of(old(self).sk_spec()),
                        psk,
                    )) && kx_ok(kx_pk, client_kx_pk) ==> (final(self).peer(addr)
                    matches Some(PeerModel::Established { .. }))
            },
            old(self).peer(addr) matches Some(PeerModel::Established {
                rx,
                tx,
                pk,
            }) ==> {
                &&& final(self).peer(addr) == old(self).peer(addr)
                &&& buf@.len() < NONCEBYTES + MACBYTES ==> r == RecvOutcome::Failed(
                    TransportError::MalformedPacket,
                )
                &&& buf@.len() >= NONCEBYTES + MACBYTES ==> {
                    &&& (r is Delivered || r == RecvOutcome::Failed(
                        TransportError::AuthFailure,
                    ))
                    &&& r matches RecvOutcome::Delivered(v) ==> buf@.skip(
                        NONCEBYTES as int,
                    ) == aead_seal_of(v@, buf@.take(NONCEBYTES as int), rx)
                    &&& forall|m0: Seq<u8>|
                        buf@.skip(NONCEBYTES as int) == #[trigger] aead_seal_of(
                            m0,
                            buf@.take(NONCEBYTES as int),
                            rx,
                        ) ==> (r matches RecvOutcome::Delivered(v) && v@ == m0)
                }
            },
    {
        proof {
            use_type_invariant(&*self);
        }
        let found = self.find_index(addr);
        let mut states: Vec<(Addr, AuthState)> = Vec::new();
        core::mem::swap(&mut self.auth_states, &mut states);
        let ghost s0 = states@;
        let out = match found {
            None => {
                if buf.len() < BOX_PUBLICKEYBYTES {
                    RecvOutcome::Ignored
                } else {
                    let pk = vstd::slice::slice_subrange(
                        buf.as_slice(),
                        0,
                        BOX_PUBLICKEYBYTES,
                    );
                    if !self.check_authorized(pk) {
                        // An unauthorized key: drop the packet without a word.
                        RecvOutcome::Ignored
                    } else {
                        let mut g = Generator::new(clone_bytes(&self.secret));
                        let _ = g.start();
                        match g.turn(buf) {
                            Either::Left(reply_opt) => match reply_opt {
                                Some(reply) => {
                                    proof {
                                        lemma_find_none_all(s0, addr);
                                        lemma_find_push(
                                            s0,
                                            (addr, AuthState::Initiated(g)),
                                            addr,
                                        );
                                        assert forall|a: Addr| a != addr implies
                                            find_state(
                                            s0.push((addr, AuthState::Initiated(g))),
                                            a,
                                        ) == find_state(s0, a) by {
                                            lemma_find_push(
                                                s0,
                                                (addr, AuthState::Initiated(g)),
                                                a,
                                            );
                                        }
                                    }
                                    states.push((addr, AuthState::Initiated(g)));
                                    RecvOutcome::Reply(reply)
                                },
                                None => RecvOutcome::Ignored,
                            },
                            Either::Right(_) => RecvOutcome::Ignored,
                        }
                    }
                }
            },
            Some(idx) => {
                let (a0, st) = states.remove(idx);
                proof {
                    s0.remove_ensures(idx as int);
                    assert forall|j: int|
                        0 <= j < states@.len() implies (#[trigger] states@[j]).0
                        != addr by {}
                    lemma_find_absent(states@, addr);
                    assert forall|a: Addr| a != addr implies find_state(states@, a)
                        == find_state(s0, a) by {
                        lemma_find_remove_other(s0, idx as int, a);
                    }
                }
                match st {
                    AuthState::Initiated(mut g) => {
                        let ghost pk0 = g.client_pk();
                        match g.turn(buf) {
                            Either::Right(fin) => match fin {
                                Ok((rx, tx)) => {
                                    let st2 = AuthState::Completed {
                                        rx,
                                        tx,
                                        client_pk: Ghost(pk0),
                                    };
                                    proof {
                                        lemma_find_push(states@, (addr, st2), addr);
                                        assert forall|a: Addr| a != addr implies
                                            find_state(
                                            states@.push((addr, st2)),
                                            a,
                                        ) == find_state(states@, a) by {
                                            lemma_find_push(states@, (addr, st2), a);
                                        }
                                    }
                                    states.push((addr, st2));
                                    RecvOutcome::Ignored
                                },
                                Err(_) => {
                                    // A handshake failure evicts the peer and
                                    // is never answered: no oracle.
                                    RecvOutcome::Ignored
                                },
                            },
                            Either::Left(_) => RecvOutcome::Ignored,
                        }
                    },
                    AuthState::Completed { rx, tx, client_pk } => {
                        let outcome = if buf.len() < NONCEBYTES + MACBYTES {
                            RecvOutcome::Failed(TransportError::MalformedPacket)
                        } else {
                            let nonce = vstd::slice::slice_subrange(
                                buf.as_slice(),
                                0,
                                NONCEBYTES,
                            );
                            let body = vstd::slice::slice_subrange(
                                buf.as_slice(),
                                NONCEBYTES,
                                buf.len(),
                            );
                            match aead_open(body, nonce, rx.as_slice()) {
                                Some(m) => RecvOutcome::Delivered(m),
                                None => RecvOutcome::Failed(TransportError::AuthFailure),
                            }
                        };
                        let st2 = AuthState::Completed { rx, tx, client_pk };
                        proof {
                            lemma_find_push(states@, (addr, st2), addr);
                            assert forall|a: Addr| a != addr implies find_state(
                                states@.push((addr, st2)),
                                a,
                            ) == find_state(states@, a) by {
                                lemma_find_push(states@, (addr, st2), a);
                            }
                        }
                        states.push((addr, st2));
                        outcome
                    },
                }
            },
        };
        core::mem::swap(&mut self.auth_states, &mut states);
        proof {
            use_type_invariant(&*self);
            assert forall|a: Addr|
                #[trigger] self.peer(a) matches Some(
                    PeerModel::Established { pk, .. },
                ) ==> self.is_authorized(pk) by {
                if self.peer(a) is Some {
                    lemma_find_some_index(self.auth_states@, a);
                }
            }
        }
        out
    }

    /// Seals a payload for an established peer: a fresh nonce followed by
    /// the AEAD seal under the peer's transmit key.  Sending to an unknown
    /// client or one still in its handshake is refused.
    pub fn seal_for(&self, addr: Addr, buf: &[u8]) -> (r: Result<
        Vec<u8>,
        TransportError,
    >)
        ensures
            match self.peer(addr) {
                None => r == Err::<Vec<u8>, TransportError>(
                    TransportError::UnknownClient,
                ),
                Some(PeerModel::Handshaking { .. }) => r == Err::<
                    Vec<u8>,
                    TransportError,
                >(TransportError::HandshakeInProgress),
                Some(PeerModel::Established { tx, .. }) => r matches Ok(pkt)
                    && pkt@.len() == NONCEBYTES + buf@.len() + MACBYTES
                    && sealed_packet(pkt@, buf@, tx),
            },
    {
        proof {
            use_type_invariant(&*self);
        }
        let found = self.find_index(addr);
        match found {
            None => Err(TransportError::UnknownClient),
            Some(idx) => match &self.auth_states[idx].1 {
                AuthState::Initiated(_) => Err(TransportError::HandshakeInProgress),
                AuthState::Completed { tx, .. } => {
                    let nonce = aead_gen_nonce();
                    let sealed = aead_seal(buf, nonce.as_slice(), tx.as_slice());
                    let ghost nn = nonce@;
                    let mut pkt = nonce;
                    push_bytes(&mut pkt, sealed.as_slice());
                    proof {
                        assert(pkt@.len() == NONCEBYTES + buf@.len() + MACBYTES);
                        assert(pkt@ == nn + aead_seal_of(buf@, nn, tx@));
                        assert(sealed_packet(pkt@, buf@, tx@));
                    }
                    Ok(pkt)
                },
            },
        }
    }

    /// Drops whatever state is held for `addr`; afterwards a packet from
    /// that address is treated as the start of a fresh handshake.
    pub fn close(&mut self, addr: Addr)
        ensures
            final(self).peer(addr) is None,
            forall|a: Addr| a != addr ==> final(self).peer(a) == old(self).peer(a),
            forall|pk: Seq<u8>| final(self).is_authorized(pk) == old(
                self,
            ).is_authorized(pk),
            final(self).sk_spec() == old(self).sk_spec(),
    {
        proof {
            use_type_invariant(&*self);
        }
        let found = self.find_index(addr);
        match found {
            None => {
            },
            Some(idx) => {
                let mut states: Vec<(Addr, AuthState)> = Vec::new();
                core::mem::swap(&mut self.auth_states, &mut states);
                let ghost s0 = states@;
                let _ = states.remove(idx);
                proof {
                    s0.remove_ensures(idx as int);
                    assert forall|j: int|
                        0 <= j < states@.len() implies (#[trigger] states@[j]).0
                        != addr by {}
                    lemma_find_absent(states@, addr);
                    assert forall|a: Addr| a != addr implies find_state(states@, a)
                        == find_state(s0, a) by {
                        lemma_find_remove_other(s0, idx as int, a);
                    }
                }
                core::mem::swap(&mut self.auth_states, &mut states);
            },
        }
    }
}

/// Picks the address a send resolves to: the first of the resolution
/// result, or `ResolveFailure` when resolution produced none.
pub fn resolve_first(addrs: &Vec<Addr>) -> (r: Result<Addr, TransportError>)
    ensures
        addrs@.len() == 0 ==> r == Err::<Addr, TransportError>(
            TransportError::ResolveFailure,
        ),
        addrs@.len() > 0 ==> r == Ok::<Addr, TransportError>(addrs@[0]),
{
    if addrs.len() == 0 {
        Err(TransportError::ResolveFailure)
    } else {
        Ok(addrs[0])
    }
}

/// Splits a length-prefixed packet off the front of a byte string: the
/// first byte gives the packet length; a length running past the end
/// yields an empty packet and the rest.
pub fn pop_packet(data: &[u8]) -> (r: (&[u8], &[u8]))
    requires
        data@.len() >= 1,
    ensures
        data@[0] <= data@.len() - 1 ==> r.0@ == data@.subrange(1, 1 + data@[0]) && r.1@
            == data@.skip(1 + data@[0]),
        data@[0] > data@.len() - 1 ==> r.0@ == Seq::<u8>::empty() && r.1@ == data@.skip(
            1,
        ),
{
    let len: usize = data[0] as usize;
    if data.len() - 1 < len {
        let head = vstd::slice::slice_subrange(data, 1, 1);
        let tail = vstd::slice::slice_subrange(data, 1, data.len());
        proof {
            assert(data@.subrange(1, 1) =~= Seq::<u8>::empty());
            assert(data@.subrange(1, data@.len() as int) =~= data@.skip(1));
        }
        (head, tail)
    } else {
        let head = vstd::slice::slice_subrange(data, 1, 1 + len);
        let tail = vstd::slice::slice_subrange(data, 1 + len, data.len());
        proof {
            assert(data@.subrange(1 + len, data@.len() as int) =~= data@.skip(
                1 + len,
            ));
        }
        (head, tail)
    }
}

struct PendingConnect {
    kx_pk: Vec<u8>,
    kx_sk: Vec<u8>,
    challenge: Vec<u8>,
}

/// The client side of the transport: it drives the mirror handshake and
/// then seals and opens payloads under the session keys.
pub struct CDGramClient {
    public: Vec<u8>,
    secret: Vec<u8>,
    server_public: Vec<u8>,
    session_keys: Option<(Vec<u8>, Vec<u8>)>,
    pending: Option<PendingConnect>,
}

impl CDGramClient {
    #[verifier::type_invariant]
    spec fn inv(self) -> bool {
        &&& self.public@.len() == BOX_PUBLICKEYBYTES
        &&& self.secret@.len() == BOX_SECRETKEYBYTES
        &&& self.server_public@.len() == BOX_PUBLICKEYBYTES
        &&& match self.session_keys {
            Some((rx, tx)) => rx@.len() == SESSIONKEYBYTES && tx@.len()
                == SESSIONKEYBYTES,
            None => true,
        }
        &&& match self.pending {
            Some(p) => {
                &&& p.kx_pk@.len() == KX_PUBLICKEYBYTES
                &&& p.kx_sk@.len() == KX_PUBLICKEYBYTES
                &&& p.challenge@.len() == CHALLENGEBYTES
                &&& p.kx_pk@ == kx_pk_of(p.kx_sk@)
            },
            None => true,
        }
    }

    /// The client's long-term public key.
    pub closed spec fn own_pk(&self) -> Seq<u8> {
        self.public@
    }

    /// The client's long-term secret key.
    pub closed spec fn own_sk(&self) -> Seq<u8> {
        self.secret@
    }

    /// The server's long-term public key this client will talk to.
    pub closed spec fn server_pk(&self) -> Seq<u8> {
        self.server_public@
    }

    /// Whether a handshake has completed and session keys are held.
    pub closed spec fn connected(&self) -> bool {
        self.session_keys is Some
    }

    /// The session receive key.
    pub closed spec fn rx_key(&self) -> Seq<u8> {
        match self.session_keys {
            Some((rx, _)) => rx@,
            None => Seq::empty(),
        }
    }

    /// The session transmit key.
    pub closed spec fn tx_key(&self) -> Seq<u8> {
        match self.session_keys {
            Some((_, tx)) => tx@,
            None => Seq::empty(),
        }
    }

    /// Whether a handshake has been begun and awaits the server's reply.
    pub closed spec fn connecting(&self) -> bool {
        self.pending is Some
    }

    /// The ephemeral key-exchange public key of the pending handshake.
    pub closed spec fn pending_kx_pk(&self) -> Seq<u8> {
        match self.pending {
            Some(p) => p.kx_pk@,
            None => Seq::empty(),
        }
    }

    /// The challenge issued in the pending handshake.
    pub closed spec fn pending_challenge(&self) -> Seq<u8> {
        match self.pending {
            Some(p) => p.challenge@,
            None => Seq::empty(),
        }
    }

    /// A client that will authenticate itself with `public`/`secret` to
    /// the server owning `server_public`.  Not yet connected.
    pub fn new(public: Vec<u8>, secret: Vec<u8>, server_public: Vec<u8>) -> (r:
        CDGramClient)
        requires
            public@.len() == BOX_PUBLICKEYBYTES,
            secret@.len() == BOX_SECRETKEYBYTES,
            server_public@.len() == BOX_PUBLICKEYBYTES,
        ensures
            r.own_pk() == public@,
            r.own_sk() == secret@,
            r.server_pk() == server_public@,
            !r.connected(),
            !r.connecting(),
    {
        CDGramClient { public, secret, server_public, session_keys: None, pending: None }
    }

    /// Builds the first handshake packet: the client's long-term public
    /// key, a fresh ephemeral key-exchange public key, and a fresh
    /// 32-byte challenge.
    pub fn connect_begin(&mut self) -> (r: Vec<u8>)
        ensures
            final(self).own_pk() == old(self).own_pk(),
            final(self).own_sk() == old(self).own_sk(),
            final(self).server_pk() == old(self).server_pk(),
            final(self).connecting(),
            !final(self).connected(),
            final(self).pending_challenge().len() == CHALLENGEBYTES,
            final(self).pending_kx_pk().len() == KX_PUBLICKEYBYTES,
            forall|opk: Seq<u8>| #[trigger] kx_ok(opk, final(self).pending_kx_pk()),
            r@ == old(self).own_pk() + final(self).pending_kx_pk() + final(self).pending_challenge(),
            r@.len() == BOX_PUBLICKEYBYTES + KX_PUBLICKEYBYTES + CHALLENGEBYTES,
    {
        proof {
            use_type_invariant(&*self);
        }
        let (kx_pk, kx_sk) = kx_gen_keypair();
        let challenge = random_bytes(CHALLENGEBYTES);
        let mut pkt = clone_bytes(&self.public);
        push_bytes(&mut pkt, kx_pk.as_slice());
        push_bytes(&mut pkt, challenge.as_slice());
        self.session_keys = None;
        self.pending = Some(PendingConnect { kx_pk, kx_sk, challenge });
        pkt
    }

    /// Consumes the server's handshake reply and builds the third packet.
    ///
    /// The reply must be exactly `CH + KXPK + NONCE + CH + MAC` bytes,
    /// its sealed part must open under the server's public key, and the
    /// opened bytes must equal the issued challenge; then the session keys
    /// are derived and the returned packet proves the client's identity by
    /// sealing the server's challenge.  Success implies the reply's sealed
    /// part really was the server's seal of this client's challenge, and a
    /// reply the server really built around this client's challenge with
    /// an acceptable key-exchange key always succeeds.
    pub fn connect_finish(&mut self, reply: &[u8]) -> (r: Result<
        Vec<u8>,
        TransportError,
    >)
        requires
            old(self).connecting(),
        ensures
            final(self).own_pk() == old(self).own_pk(),
            final(self).own_sk() == old(self).own_sk(),
            final(self).server_pk() == old(self).server_pk(),
            !final(self).connecting(),
            reply@.len() != CHALLENGEBYTES + KX_PUBLICKEYBYTES + NONCEBYTES
                + CHALLENGEBYTES + MACBYTES ==> r == Err::<Vec<u8>, TransportError>(
                TransportError::MalformedPacket,
            ) && !final(self).connected(),
            r matches Ok(pkt3) ==> {
                &&& final(self).connected()
                &&& final(self).rx_key() == kx_client_session(
                    old(self).pending_kx_pk(),
                    reply@.subrange(
                        CHALLENGEBYTES as int,
                        (CHALLENGEBYTES + KX_PUBLICKEYBYTES) as int,
                    ),
                ).0
                &&& final(self).tx_key() == kx_client_session(
                    old(self).pending_kx_pk(),
                    reply@.subrange(
                        CHALLENGEBYTES as int,
                        (CHALLENGEBYTES + KX_PUBLICKEYBYTES) as int,
                    ),
                ).1
                &&& pkt3@.len() == NONCEBYTES + CHALLENGEBYTES + MACBYTES
                &&& exists|nn: Seq<u8>|
                    nn.len() == NONCEBYTES && pkt3@ == nn + #[trigger] box_seal_of(
                        reply@.take(CHALLENGEBYTES as int),
                        nn,
                        old(self).server_pk(),
                        old(self).own_sk(),
                    )
                &&& forall|ssk: Seq<u8>|
                    old(self).server_pk() == #[trigger] box_pk_of(ssk) ==> reply@.skip(
                        (CHALLENGEBYTES + KX_PUBLICKEYBYTES + NONCEBYTES) as int,
                    ) == box_seal_of(
                        old(self).pending_challenge(),
                        reply@.subrange(
                            (CHALLENGEBYTES + KX_PUBLICKEYBYTES) as int,
                            (CHALLENGEBYTES + KX_PUBLICKEYBYTES + NONCEBYTES) as int,
                        ),
                        box_pk_of(old(self).own_sk()),
                        ssk,
                    )
            },
            r is Err ==> !final(self).connected(),
            reply@.len() == CHALLENGEBYTES + KX_PUBLICKEYBYTES + NONCEBYTES
                + CHALLENGEBYTES + MACBYTES && (exists|ssk: Seq<u8>|
                old(self).server_pk() == box_pk_of(ssk) && reply@.skip(
                    (CHALLENGEBYTES + KX_PUBLICKEYBYTES + NONCEBYTES) as int,
                ) == #[trigger] box_seal_of(
                    old(self).pending_challenge(),
                    reply@.subrange(
                        (CHALLENGEBYTES + KX_PUBLICKEYBYTES) as int,
                        (CHALLENGEBYTES + KX_PUBLICKEYBYTES + NONCEBYTES) as int,
                    ),
                    box_pk_of(old(self).own_sk()),
                    ssk,
                )) ==> {
                &&& !(r == Err::<Vec<u8>, TransportError>(
                    TransportError::AuthFailure,
                ))
                &&& kx_ok(
                    old(self).pending_kx_pk(),
                    reply@.subrange(
                        CHALLENGEBYTES as int,
                        (CHALLENGEBYTES + KX_PUBLICKEYBYTES) as int,
                    ),
                ) ==> r is Ok
            },
    {
        proof {
            use_type_invariant(&*self);
        }
        let mut pending: Option<PendingConnect> = None;
        core::mem::swap(&mut self.pending, &mut pending);
        let p = match pending {
            Some(p) => p,
            None => {
                return Err(TransportError::NotConnected);
            },
        };
        if reply.len() != CHALLENGEBYTES + KX_PUBLICKEYBYTES + NONCEBYTES
            + CHALLENGEBYTES + MACBYTES {
            self.session_keys = None;
            return Err(TransportError::MalformedPacket);
        }
        let server_challenge = vstd::slice::slice_subrange(reply, 0, CHALLENGEBYTES);
        let server_kx_pk = vstd::slice::slice_subrange(
            reply,
            CHALLENGEBYTES,
            CHALLENGEBYTES + KX_PUBLICKEYBYTES,
        );
        let nonce = vstd::slice::slice_subrange(
            reply,
            CHALLENGEBYTES + KX_PUBLICKEYBYTES,
            CHALLENGEBYTES + KX_PUBLICKEYBYTES + NONCEBYTES,
        );
        let sealed = vstd::slice::slice_subrange(
            reply,
            CHALLENGEBYTES + KX_PUBLICKEYBYTES + NONCEBYTES,
            reply.len(),
        );
        let response = box_open(
            sealed,
            nonce,
            self.server_public.as_slice(),
            self.secret.as_slice(),
        );
        if !accept_response(&response, p.challenge.as_slice()) {
            self.session_keys = None;
            return Err(TransportError::AuthFailure);
        }
        let nonce2 = box_gen_nonce();
        let sealed2 = box_seal(
            server_challenge,
            nonce2.as_slice(),
            self.server_public.as_slice(),
            self.secret.as_slice(),
        );
        let ghost nn = nonce2@;
        let mut pkt3 = nonce2;
        push_bytes(&mut pkt3, sealed2.as_slice());
        match kx_client_session_keys(
            p.kx_pk.as_slice(),
            p.kx_sk.as_slice(),
            server_kx_pk,
        ) {
            Some((rx, tx)) => {
                self.session_keys = Some((rx, tx));
                proof {
                    assert(pkt3@ == nn + box_seal_of(
                        reply@.take(CHALLENGEBYTES as int),
                        nn,
                        old(self).server_pk(),
                        old(self).own_sk(),
                    ));
                }
                Ok(pkt3)
            },
            None => {
                self.session_keys = None;
                Err(TransportError::Fatal)
            },
        }
    }

    /// Seals a payload under the session transmit key: a fresh nonce, then
    /// the AEAD seal.  Refused until a handshake has completed.
    pub fn seal_payload(&self, buf: &[u8]) -> (r: Result<Vec<u8>, TransportError>)
        ensures
            !self.connected() ==> r == Err::<Vec<u8>, TransportError>(
                TransportError::NotConnected,
            ),
            self.connected() ==> (r matches Ok(pkt) && pkt@.len() == NONCEBYTES
                + buf@.len() + MACBYTES && sealed_packet(pkt@, buf@, self.tx_key())),
    {
        proof {
            use_type_invariant(&*self);
        }
        match &self.session_keys {
            None => Err(TransportError::NotConnected),
            Some((_, tx)) => {
                let nonce = aead_gen_nonce();
                let sealed = aead_seal(buf, nonce.as_slice(), tx.as_slice());
                let ghost nn = nonce@;
                let mut pkt = nonce;
                push_bytes(&mut pkt, sealed.as_slice());
                proof {
                    assert(pkt@ == nn + aead_seal_of(buf@, nn, tx@));
                    assert(sealed_packet(pkt@, buf@, tx@));
                }
                Ok(pkt)
            },
        }
    }

    /// Opens a payload packet under the session receive key.  Refused
    /// until a handshake has completed; a packet shorter than a nonce and
    /// an authenticator is malformed; any packet the session peer sealed
    /// under the matching key opens to exactly its payload.
    pub fn open_payload(&self, pkt: &[u8]) -> (r: Result<Vec<u8>, TransportError>)
        ensures
            !self.connected() ==> r == Err::<Vec<u8>, TransportError>(
                TransportError::NotConnected,
            ),
            self.connected() && pkt@.len() < NONCEBYTES + MACBYTES ==> r == Err::<
                Vec<u8>,
                TransportError,
            >(TransportError::MalformedPacket),
            self.connected() && pkt@.len() >= NONCEBYTES + MACBYTES ==> match r {
                Ok(m) => pkt@.skip(NONCEBYTES as int) == aead_seal_of(
                    m@,
                    pkt@.take(NONCEBYTES as int),
                    self.rx_key(),
                ) && forall|m0: Seq<u8>|
                    pkt@.skip(NONCEBYTES as int) == #[trigger] aead_seal_of(
                        m0,
                        pkt@.take(NONCEBYTES as int),
                        self.rx_key(),
                    ) ==> m@ == m0,
                Err(e) => e == TransportError::AuthFailure && forall|m0: Seq<u8>|
                    pkt@.skip(NONCEBYTES as int) != #[trigger] aead_seal_of(
                        m0,
                        pkt@.take(NONCEBYTES as int),
                        self.rx_key(),
                    ),
            },
    {
        proof {
            use_type_invariant(&*self);
        }
        match &self.session_keys {
            None => Err(TransportError::NotConnected),
            Some((rx, _)) => {
                if pkt.len() < NONCEBYTES + MACBYTES {
                    return Err(TransportError::MalformedPacket);
                }
                let nonce = vstd::slice::slice_subrange(pkt, 0, NONCEBYTES);
                let body = vstd::slice::slice_subrange(pkt, NONCEBYTES, pkt.len());
                match aead_open(body, nonce, rx.as_slice()) {
                    Some(m) => Ok(m),
                    None => Err(TransportError::AuthFailure),
                }
            },
        }
    }
}

/// A payload sealed under one side's transmit key is exactly what the
/// other side's receive key accepts: for a completed session the client's
/// `tx` is the server's `rx` and the client's `rx` is the server's `tx`,
/// so a packet built by `seal_payload` satisfies, nonce and all, the
/// decrypt condition of the peer's receive path, which then returns the
/// payload unchanged.
pub proof fn lemma_payload_round_trip(
    m: Seq<u8>,
    nn: Seq<u8>,
    client_kx_pk: Seq<u8>,
    server_kx_pk: Seq<u8>,
)
    requires
        nn.len() == NONCEBYTES,
    ensures
        ({
            let client_tx = kx_client_session(client_kx_pk, server_kx_pk).1;
            let server_rx = kx_client_session(client_kx_pk, server_kx_pk).1;
            let pkt = nn + aead_seal_of(m, nn, client_tx);
            &&& client_tx == server_rx
            &&& pkt.take(NONCEBYTES as int) == nn
            &&& pkt.skip(NONCEBYTES as int) == aead_seal_of(
                m,
                pkt.take(NONCEBYTES as int),
                server_rx,
            )
        }),
        ({
            let server_tx = kx_client_session(client_kx_pk, server_kx_pk).0;
            let client_rx = kx_client_session(client_kx_pk, server_kx_pk).0;
            let pkt = nn + aead_seal_of(m, nn, server_tx);
            &&& server_tx == client_rx
            &&& pkt.take(NONCEBYTES as int) == nn
            &&& pkt.skip(NONCEBYTES as int) == aead_seal_of(
                m,
                pkt.take(NONCEBYTES as int),
                client_rx,
            )
        }),
{
    let c = kx_client_session(client_kx_pk, server_kx_pk);
    assert((nn + aead_seal_of(m, nn, c.1)).take(NONCEBYTES as int) =~= nn);
    assert((nn + aead_seal_of(m, nn, c.1)).skip(NONCEBYTES as int) =~= aead_seal_of(
        m,
        nn,
        c.1,
    ));
    assert((nn + aead_seal_of(m, nn, c.0)).take(NONCEBYTES as int) =~= nn);
    assert((nn + aead_seal_of(m, nn, c.0)).skip(NONCEBYTES as int) =~= aead_seal_of(
        m,
        nn,
        c.0,
    ));
}

/// An honest server reply parses on the client into exactly the fields
/// the server put there, and meets the client's acceptance hypothesis:
/// `connect_finish` never refuses it as an authentication failure.  The
/// hypotheses are what `Generator::turn` guarantees of the reply it
/// yields, taken with the genuine key pairs of the two ends.
pub proof fn lemma_honest_reply_accepted(
    reply: Seq<u8>,
    challenge: Seq<u8>,
    kx_pk: Seq<u8>,
    nn: Seq<u8>,
    client_challenge: Seq<u8>,
    client_sk: Seq<u8>,
    server_sk: Seq<u8>,
)
    requires
        challenge.len() == CHALLENGEBYTES,
        kx_pk.len() == KX_PUBLICKEYBYTES,
        nn.len() == NONCEBYTES,
        box_seal_of(client_challenge, nn, box_pk_of(client_sk), server_sk).len()
            == client_challenge.len() + MACBYTES,
        client_challenge.len() == CHALLENGEBYTES,
        reply == challenge + kx_pk + nn + box_seal_of(
            client_challenge,
            nn,
            box_pk_of(client_sk),
            server_sk,
        ),
    ensures
        reply.len() == CHALLENGEBYTES + KX_PUBLICKEYBYTES + NONCEBYTES + CHALLENGEBYTES
            + MACBYTES,
        reply.take(CHALLENGEBYTES as int) == challenge,
        reply.subrange(
            CHALLENGEBYTES as int,
            (CHALLENGEBYTES + KX_PUBLICKEYBYTES) as int,
        ) == kx_pk,
        reply.subrange(
            (CHALLENGEBYTES + KX_PUBLICKEYBYTES) as int,
            (CHALLENGEBYTES + KX_PUBLICKEYBYTES + NONCEBYTES) as int,
        ) == nn,
        exists|ssk: Seq<u8>|
            box_pk_of(server_sk) == box_pk_of(ssk) && reply.skip(
                (CHALLENGEBYTES + KX_PUBLICKEYBYTES + NONCEBYTES) as int,
            ) == #[trigger] box_seal_of(
                client_challenge,
                reply.subrange(
                    (CHALLENGEBYTES + KX_PUBLICKEYBYTES) as int,
                    (CHALLENGEBYTES + KX_PUBLICKEYBYTES + NONCEBYTES) as int,
                ),
                box_pk_of(client_sk),
                ssk,
            ),
{
    let sealed = box_seal_of(client_challenge, nn, box_pk_of(client_sk), server_sk);
    assert(reply.take(CHALLENGEBYTES as int) =~= challenge);
    assert(reply.subrange(
        CHALLENGEBYTES as int,
        (CHALLENGEBYTES + KX_PUBLICKEYBYTES) as int,
    ) =~= kx_pk);
    assert(reply.subrange(
        (CHALLENGEBYTES + KX_PUBLICKEYBYTES) as int,
        (CHALLENGEBYTES + KX_PUBLICKEYBYTES + NONCEBYTES) as int,
    ) =~= nn);
    assert(reply.skip((CHALLENGEBYTES + KX_PUBLICKEYBYTES + NONCEBYTES) as int)
        =~= sealed);
}

/// An honest third packet meets the server's acceptance hypothesis:
/// `Generator::turn` never refuses it as an authentication failure.  The
/// hypotheses are what `connect_finish` guarantees of the packet it
/// returns, taken with the genuine key pairs of the two ends.
pub proof fn lemma_honest_third_packet_accepted(
    pkt3: Seq<u8>,
    nn: Seq<u8>,
    server_challenge: Seq<u8>,
    client_sk: Seq<u8>,
    server_sk: Seq<u8>,
)
    requires
        nn.len() == NONCEBYTES,
        server_challenge.len() == CHALLENGEBYTES,
        box_seal_of(server_challenge, nn, box_pk_of(server_sk), client_sk).len()
            == server_challenge.len() + MACBYTES,
        pkt3 == nn + box_seal_of(
            server_challenge,
            nn,
            box_pk_of(server_sk),
            client_sk,
        ),
    ensures
        pkt3.len() == NONCEBYTES + CHALLENGEBYTES + MACBYTES,
        pkt3.take(NONCEBYTES as int) == nn,
        exists|psk: Seq<u8>|
            box_pk_of(client_sk) == box_pk_of(psk) && pkt3.skip(NONCEBYTES as int)
                == #[trigger] box_seal_of(
                server_challenge,
                pkt3.take(NONCEBYTES as int),
                box_pk_of(server_sk),
                psk,
            ),
{
    let sealed = box_seal_of(server_challenge, nn, box_pk_of(server_sk), client_sk);
    assert(pkt3.take(NONCEBYTES as int) =~= nn);
    assert(pkt3.skip(NONCEBYTES as int) =~= sealed);
}

/// The happy path, machine-checked end to end: a client whose key pair is
/// genuine and allow-listed connects to a server whose public key it
/// really holds, by the three handshake packets carried in memory.  Under
/// those hypotheses — stated in the conclusion, since no caller can test
/// a key pair's genuineness after the fact — the handshake always
/// completes, the server holds the client as established, and the two
/// ends' session keys mirror: the client's transmit key is the server's
/// receive key and the other way round, so by `lemma_payload_round_trip`
/// and the payload contracts every payload sealed on one end opens on the
/// other.  On anything less than an honest configuration the error of the
/// failing step comes back.
pub fn establish_session(
    server: &mut CDGramServer,
    client: &mut CDGramClient,
    addr: Addr,
) -> (r: Result<(), TransportError>)
    ensures
        ({
            &&& old(server).peer(addr) is None
            &&& old(server).is_authorized(old(client).own_pk())
            &&& old(client).own_pk() == box_pk_of(old(client).own_sk())
            &&& old(client).server_pk() == box_pk_of(old(server).sk_spec())
        }) ==> {
            &&& r is Ok
            &&& final(client).connected()
            &&& match final(server).peer(addr) {
                Some(pm) => pm matches PeerModel::Established { rx, tx, pk } && rx
                    == final(client).tx_key() && tx == final(client).rx_key() && pk
                    == old(client).own_pk(),
                None => false,
            }
            &&& forall|a: Addr| a != addr ==> final(server).peer(a) == old(
                server,
            ).peer(a)
        },
{
    let ghost honest = {
        &&& old(server).peer(addr) is None
        &&& old(server).is_authorized(old(client).own_pk())
        &&& old(client).own_pk() == box_pk_of(old(client).own_sk())
        &&& old(client).server_pk() == box_pk_of(old(server).sk_spec())
    };
    let pkt1 = client.connect_begin();
    proof {
        assert(pkt1@.take(BOX_PUBLICKEYBYTES as int) =~= old(client).own_pk());
        assert(pkt1@.subrange(
            BOX_PUBLICKEYBYTES as int,
            (BOX_PUBLICKEYBYTES + KX_PUBLICKEYBYTES) as int,
        ) =~= client.pending_kx_pk());
        assert(pkt1@.skip((BOX_PUBLICKEYBYTES + KX_PUBLICKEYBYTES) as int)
            =~= client.pending_challenge());
    }
    let ghost client_ch = client.pending_challenge();
    let reply = match server.handle_datagram(addr, pkt1) {
        RecvOutcome::Reply(reply) => reply,
        RecvOutcome::Ignored => {
            return Err(TransportError::Unauthorized);
        },
        _ => {
            return Err(TransportError::Fatal);
        },
    };
    let ghost server_ch = match server.peer(addr) {
        Some(PeerModel::Handshaking { challenge, .. }) => challenge,
        _ => Seq::empty(),
    };
    let ghost server_kx = match server.peer(addr) {
        Some(PeerModel::Handshaking { kx_pk, .. }) => kx_pk,
        _ => Seq::empty(),
    };
    proof {
        if honest {
            let nn = choose|nn: Seq<u8>|
                nn.len() == NONCEBYTES && reply@ == server_ch + server_kx + nn
                    + #[trigger] box_seal_of(
                    pkt1@.skip((BOX_PUBLICKEYBYTES + KX_PUBLICKEYBYTES) as int),
                    nn,
                    pkt1@.take(BOX_PUBLICKEYBYTES as int),
                    old(server).sk_spec(),
                );
            lemma_honest_reply_accepted(
                reply@,
                server_ch,
                server_kx,
                nn,
                client_ch,
                old(client).own_sk(),
                old(server).sk_spec(),
            );
        }
    }
    let pkt3 = match client.connect_finish(&reply) {
        Ok(pkt3) => pkt3,
        Err(e) => {
            return Err(e);
        },
    };
    proof {
        if honest {
            assert(reply@.subrange(
                CHALLENGEBYTES as int,
                (CHALLENGEBYTES + KX_PUBLICKEYBYTES) as int,
            ) == server_kx);
            let nn2 = choose|nn2: Seq<u8>|
                nn2.len() == NONCEBYTES && pkt3@ == nn2 + #[trigger] box_seal_of(
                    reply@.take(CHALLENGEBYTES as int),
                    nn2,
                    old(client).server_pk(),
                    old(client).own_sk(),
                );
            lemma_honest_third_packet_accepted(
                pkt3@,
                nn2,
                server_ch,
                old(client).own_sk(),
                old(server).sk_spec(),
            );
        }
    }
    match server.handle_datagram(addr, pkt3) {
        RecvOutcome::Ignored => {},
        _ => {
            return Err(TransportError::Fatal);
        },
    }
    Ok(())
}

} // verus!
