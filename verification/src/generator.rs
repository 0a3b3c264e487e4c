//! The coroutine driver for the server-side handshake.  The handshake is a
//! straight-line exchange with two suspension points; here it is an
//! explicit state machine behind the same `start`/`turn` interface the
//! driver offers, so one socket loop can multiplex many of them.  The
//! fed/yielded cell that carries values across suspensions is kept as a
//! small verified data structure of its own.

use crate::crypto::{
    box_gen_nonce, box_open, box_pk_of, box_seal, box_seal_of, kx_client_session,
    kx_gen_keypair, kx_ok, kx_pk_of, kx_server_session_keys, random_bytes, BOX_PUBLICKEYBYTES,
    BOX_SECRETKEYBYTES, CHALLENGEBYTES, KX_PUBLICKEYBYTES, MACBYTES, NONCEBYTES,
    SESSIONKEYBYTES,
};
use crate::codec::push_bytes;
use crate::proto::{bytes_eq, clone_bytes};
use crate::TransportError;
use vstd::prelude::*;

verus! {

/// One or the other: what a driver turn produced (a yielded value on the
/// left, the coroutine's final result on the right).
#[derive(Debug, PartialEq, Eq)]
pub enum Either<A, B> {
    Left(A),
    Right(B),
}

/// The cell a suspended coroutine and its driver share: either a value the
/// coroutine yielded, a value the driver fed, or nothing.
pub enum GeneratorStateInner<I, O> {
    Yielded(O),
    Fed(I),
    Idle,
}

impl<I, O> GeneratorStateInner<I, O> {
    /// The fed value, if this is one.
    pub fn into_fed(self) -> (r: Option<I>)
        ensures
            match self {
                GeneratorStateInner::Fed(v) => r matches Some(x) && x == v,
                _ => r is None,
            },
    {
        match self {
            GeneratorStateInner::Yielded(_) => None,
            GeneratorStateInner::Idle => None,
            GeneratorStateInner::Fed(v) => Some(v),
        }
    }

    /// The yielded value, if this is one.
    pub fn into_yielded(self) -> (r: Option<O>)
        ensures
            match self {
                GeneratorStateInner::Yielded(v) => r matches Some(x) && x == v,
                _ => r is None,
            },
    {
        match self {
            GeneratorStateInner::Yielded(v) => Some(v),
            GeneratorStateInner::Idle => None,
            GeneratorStateInner::Fed(_) => None,
        }
    }

    /// Moves the fed value out, leaving the cell idle; anything else stays.
    pub fn take_fed(&mut self) -> (r: Option<I>)
        ensures
            match *old(self) {
                GeneratorStateInner::Fed(v) => r matches Some(x) && x == v
                    && *final(self) is Idle,
                _ => r is None && *final(self) == *old(self),
            },
    {
        match self {
            GeneratorStateInner::Yielded(_) => None,
            GeneratorStateInner::Idle => None,
            GeneratorStateInner::Fed(_) => {
                let mut cell = GeneratorStateInner::Idle;
                core::mem::swap(self, &mut cell);
                cell.into_fed()
            },
        }
    }

    /// Moves the yielded value out, leaving the cell idle; anything else
    /// stays.
    pub fn take_yielded(&mut self) -> (r: Option<O>)
        ensures
            match *old(self) {
                GeneratorStateInner::Yielded(v) => r matches Some(x) && x == v
                    && *final(self) is Idle,
                _ => r is None && *final(self) == *old(self),
            },
    {
        match self {
            GeneratorStateInner::Fed(_) => None,
            GeneratorStateInner::Idle => None,
            GeneratorStateInner::Yielded(_) => {
                let mut cell = GeneratorStateInner::Idle;
                core::mem::swap(self, &mut cell);
                cell.into_yielded()
            },
        }
    }
}

/// The coroutine's handle on the shared cell.
pub struct GeneratorState<I, O> {
    pub cell: GeneratorStateInner<I, O>,
}

/// A pending suspension: the coroutine has yielded and waits to be fed.
pub struct GeneratorStateYield;

impl<I, O> GeneratorState<I, O> {
    /// Stores a yielded value for the driver and suspends.
    pub fn yield_(&mut self, v: O) -> (r: GeneratorStateYield)
        ensures
            final(self).cell matches GeneratorStateInner::Yielded(x) && x == v,
    {
        self.cell = GeneratorStateInner::Yielded(v);
        GeneratorStateYield
    }

    /// Resumes after a suspension: takes the fed value if the driver put
    /// one in.
    pub fn poll(&mut self) -> (r: Option<I>)
        ensures
            match old(self).cell {
                GeneratorStateInner::Fed(v) => r matches Some(x) && x == v
                    && final(self).cell is Idle,
                _ => r is None && *final(self) == *old(self),
            },
    {
        self.cell.take_fed()
    }
}

/// Where the handshake stands.
pub enum HandshakePhase {
    /// Waiting for the client's first packet.
    AwaitPkt1,
    /// The reply went out; waiting for the client's challenge response.
    AwaitPkt3,
    /// Finished, successfully or not.
    Done,
}

enum HandshakeState {
    AwaitPkt1,
    AwaitPkt3 {
        client_pk: Vec<u8>,
        client_kx_pk: Vec<u8>,
        kx_pk: Vec<u8>,
        kx_sk: Vec<u8>,
        challenge: Vec<u8>,
    },
    Done,
}

/// Checks the peer's decrypted response against the issued challenge: the
/// step that turns a sealed-box open result into an accept/reject
/// decision.
pub fn accept_response(response: &Option<Vec<u8>>, challenge: &[u8]) -> (r: bool)
    ensures
        r == (response matches Some(v) && v@ == challenge@),
{
    match response {
        Some(v) => bytes_eq(v.as_slice(), challenge),
        None => false,
    }
}

/// The driver for one server-side handshake: a suspendable computation
/// held as an explicit state machine, resumed with `turn` once per
/// incoming packet.
pub struct Generator {
    secret: Vec<u8>,
    started: bool,
    state: HandshakeState,
}

impl Generator {
    #[verifier::type_invariant]
    spec fn inv(self) -> bool {
        &&& self.secret@.len() == BOX_SECRETKEYBYTES
        &&& match self.state {
            HandshakeState::AwaitPkt3 {
                client_pk,
                client_kx_pk,
                kx_pk,
                kx_sk,
                challenge,
            } => {
                &&& client_pk@.len() == BOX_PUBLICKEYBYTES
                &&& client_kx_pk@.len() == KX_PUBLICKEYBYTES
                &&& kx_pk@.len() == KX_PUBLICKEYBYTES
                &&& kx_sk@.len() == KX_PUBLICKEYBYTES
                &&& challenge@.len() == CHALLENGEBYTES
                &&& kx_pk@ == kx_pk_of(kx_sk@)
            },
            _ => true,
        }
    }

    /// Whether `start` has run.
    pub closed spec fn spec_started(&self) -> bool {
        self.started
    }

    /// Which packet the machine waits for.
    pub closed spec fn phase(&self) -> HandshakePhase {
        match self.state {
            HandshakeState::AwaitPkt1 => HandshakePhase::AwaitPkt1,
            HandshakeState::AwaitPkt3 { .. } => HandshakePhase::AwaitPkt3,
            HandshakeState::Done => HandshakePhase::Done,
        }
    }

    /// The server's long-term secret key this handshake answers with.
    pub closed spec fn server_sk(&self) -> Seq<u8> {
        self.secret@
    }

    /// The client public key claimed in the first packet.
    pub closed spec fn client_pk(&self) -> Seq<u8> {
        match self.state {
            HandshakeState::AwaitPkt3 { client_pk, .. } => client_pk@,
            _ => Seq::empty(),
        }
    }

    /// The client's ephemeral key-exchange public key.
    pub closed spec fn client_kx_pk(&self) -> Seq<u8> {
        match self.state {
            HandshakeState::AwaitPkt3 { client_kx_pk, .. } => client_kx_pk@,
            _ => Seq::empty(),
        }
    }

    /// The server's ephemeral key-exchange public key.
    pub closed spec fn kx_pk(&self) -> Seq<u8> {
        match self.state {
            HandshakeState::AwaitPkt3 { kx_pk, .. } => kx_pk@,
            _ => Seq::empty(),
        }
    }

    /// The challenge the server issued in its reply.
    pub closed spec fn challenge(&self) -> Seq<u8> {
        match self.state {
            HandshakeState::AwaitPkt3 { challenge, .. } => challenge@,
            _ => Seq::empty(),
        }
    }

    /// A fresh handshake for a server holding this long-term secret key.
    pub fn new(secret: Vec<u8>) -> (r: Generator)
        requires
            secret@.len() == BOX_SECRETKEYBYTES,
        ensures
            !r.spec_started(),
            r.phase() is AwaitPkt1,
            r.server_sk() == secret@,
    {
        Generator { secret, started: false, state: HandshakeState::AwaitPkt1 }
    }

    /// Runs the coroutine to its first suspension.  The handshake yields
    /// nothing before it has seen a packet, so this is always `Left(None)`;
    /// calling it again changes nothing.
    pub fn start(&mut self) -> (r: Either<
        Option<Vec<u8>>,
        Result<(Vec<u8>, Vec<u8>), TransportError>,
    >)
        ensures
            r matches Either::Left(y) && y is None,
            final(self).spec_started(),
            final(self).phase() == old(self).phase(),
            final(self).server_sk() == old(self).server_sk(),
            final(self).client_pk() == old(self).client_pk(),
            final(self).client_kx_pk() == old(self).client_kx_pk(),
            final(self).kx_pk() == old(self).kx_pk(),
            final(self).challenge() == old(self).challenge(),
    {
        proof {
            use_type_invariant(&*self);
        }
        self.started = true;
        Either::Left(None)
    }

    /// Feeds the next packet to the handshake.
    ///
    /// Waiting for the first packet: a packet of exactly
    /// `BOXPK + KXPK + CH` bytes is accepted and answered with the reply
    /// `challenge || kx_pk || nonce || seal(client_challenge)` of
    /// `CH + KXPK + NONCE + CH + MAC` bytes; any other length ends the
    /// handshake with `MalformedPacket` and no reply.
    ///
    /// Waiting for the third packet: the handshake always completes.  A
    /// packet of exactly `NONCE + CH + MAC` bytes whose sealed part opens
    /// to the issued challenge yields the server-side session keys, the
    /// swap of the client-side pair for the two ephemeral public keys;
    /// a wrong length yields `MalformedPacket`, and a response that does
    /// not open to the challenge yields `AuthFailure`.  A packet the
    /// authorized client really sealed around the issued challenge is
    /// never refused as an authentication failure; only the key exchange
    /// itself can still fail, as `Fatal`.
    pub fn turn(&mut self, feed: Vec<u8>) -> (r: Either<
        Option<Vec<u8>>,
        Result<(Vec<u8>, Vec<u8>), TransportError>,
    >)
        requires
            old(self).spec_started(),
        ensures
            final(self).spec_started(),
            final(self).server_sk() == old(self).server_sk(),
            old(self).phase() is AwaitPkt1 && feed@.len() != BOX_PUBLICKEYBYTES
                + KX_PUBLICKEYBYTES + CHALLENGEBYTES ==> r == Either::<
                Option<Vec<u8>>,
                Result<(Vec<u8>, Vec<u8>), TransportError>,
            >::Right(Err(TransportError::MalformedPacket)) && final(self).phase() is Done,
            old(self).phase() is AwaitPkt1 && feed@.len() == BOX_PUBLICKEYBYTES
                + KX_PUBLICKEYBYTES + CHALLENGEBYTES ==> {
                &&& final(self).phase() is AwaitPkt3
                &&& final(self).client_pk() == feed@.take(BOX_PUBLICKEYBYTES as int)
                &&& final(self).client_kx_pk() == feed@.subrange(
                    BOX_PUBLICKEYBYTES as int,
                    (BOX_PUBLICKEYBYTES + KX_PUBLICKEYBYTES) as int,
                )
                &&& final(self).challenge().len() == CHALLENGEBYTES
                &&& final(self).kx_pk().len() == KX_PUBLICKEYBYTES
                &&& forall|opk: Seq<u8>| #[trigger] kx_ok(opk, final(self).kx_pk())
                &&& r matches Either::Left(y) && y matches Some(reply) && reply@.len()
                    == CHALLENGEBYTES + KX_PUBLICKEYBYTES + NONCEBYTES + CHALLENGEBYTES
                    + MACBYTES && (exists|nn: Seq<u8>|
                    nn.len() == NONCEBYTES && reply@ == final(self).challenge()
                        + final(self).kx_pk() + nn + #[trigger] box_seal_of(
                        feed@.skip((BOX_PUBLICKEYBYTES + KX_PUBLICKEYBYTES) as int),
                        nn,
                        feed@.take(BOX_PUBLICKEYBYTES as int),
                        old(self).server_sk(),
                    ))
            },
            old(self).phase() is AwaitPkt3 ==> {
                &&& final(self).phase() is Done
                &&& r is Right
                &&& feed@.len() != NONCEBYTES + CHALLENGEBYTES + MACBYTES ==> (r
                    matches Either::Right(f) && f == Err::<
                    (Vec<u8>, Vec<u8>),
                    TransportError,
                >(TransportError::MalformedPacket))
                &&& feed@.len() == NONCEBYTES + CHALLENGEBYTES + MACBYTES ==> match r {
                    Either::Right(f) => match f {
                        Ok(ks) => {
                            &&& ks.0@.len() == SESSIONKEYBYTES
                            &&& ks.1@.len() == SESSIONKEYBYTES
                            &&& ks.0@ == kx_client_session(
                                old(self).client_kx_pk(),
                                old(self).kx_pk(),
                            ).1
                            &&& ks.1@ == kx_client_session(
                                old(self).client_kx_pk(),
                                old(self).kx_pk(),
                            ).0
                            &&& forall|psk: Seq<u8>|
                                old(self).client_pk() == #[trigger] box_pk_of(psk)
                                    ==> feed@.skip(NONCEBYTES as int) == box_seal_of(
                                    old(self).challenge(),
                                    feed@.take(NONCEBYTES as int),
                                    box_pk_of(old(self).server_sk()),
                                    psk,
                                )
                        },
                        Err(e) => e == TransportError::AuthFailure || e
                            == TransportError::Fatal,
                    },
                    Either::Left(_) => false,
                }
                &&& feed@.len() == NONCEBYTES + CHALLENGEBYTES + MACBYTES && (exists|
                    psk: Seq<u8>,
                |
                    old(self).client_pk() == box_pk_of(psk) && feed@.skip(
                        NONCEBYTES as int,
                    ) == #[trigger] box_seal_of(
                        old(self).challenge(),
                        feed@.take(NONCEBYTES as int),
                        box_pk_of(old(self).server_sk()),
                        psk,
                    )) ==> {
                    &&& !(r == Either::<
                        Option<Vec<u8>>,
                        Result<(Vec<u8>, Vec<u8>), TransportError>,
                    >::Right(Err(TransportError::AuthFailure)))
                    &&& kx_ok(old(self).kx_pk(), old(self).client_kx_pk()) ==> (r
                        matches Either::Right(f) && f is Ok)
                }
            },
            old(self).phase() is Done ==> r == Either::<
                Option<Vec<u8>>,
                Result<(Vec<u8>, Vec<u8>), TransportError>,
            >::Right(Err(TransportError::AuthFailure)) && final(self).phase() is Done,
    {
        proof {
            use_type_invariant(&*self);
        }
        let mut state = HandshakeState::Done;
        core::mem::swap(&mut self.state, &mut state);
        match state {
            HandshakeState::AwaitPkt1 => {
                if feed.len() != BOX_PUBLICKEYBYTES + KX_PUBLICKEYBYTES + CHALLENGEBYTES {
                    return Either::Right(Err(TransportError::MalformedPacket));
                }
                let client_pk = vstd::slice::slice_to_vec(
                    vstd::slice::slice_subrange(
                        feed.as_slice(),
                        0,
                        BOX_PUBLICKEYBYTES,
                    ),
                );
                let client_kx_pk = vstd::slice::slice_to_vec(
                    vstd::slice::slice_subrange(
                        feed.as_slice(),
                        BOX_PUBLICKEYBYTES,
                        BOX_PUBLICKEYBYTES + KX_PUBLICKEYBYTES,
                    ),
                );
                let client_challenge = vstd::slice::slice_subrange(
                    feed.as_slice(),
                    BOX_PUBLICKEYBYTES + KX_PUBLICKEYBYTES,
                    BOX_PUBLICKEYBYTES + KX_PUBLICKEYBYTES + CHALLENGEBYTES,
                );
                proof {
                    assert(feed@.subrange(
                        (BOX_PUBLICKEYBYTES + KX_PUBLICKEYBYTES) as int,
                        (BOX_PUBLICKEYBYTES + KX_PUBLICKEYBYTES + CHALLENGEBYTES) as int,
                    ) =~= feed@.skip((BOX_PUBLICKEYBYTES + KX_PUBLICKEYBYTES) as int));
                }
                let nonce = box_gen_nonce();
                let response = box_seal(
                    client_challenge,
                    nonce.as_slice(),
                    client_pk.as_slice(),
                    self.secret.as_slice(),
                );
                let (kx_pk, kx_sk) = kx_gen_keypair();
                let challenge = random_bytes(CHALLENGEBYTES);
                let mut reply = clone_bytes(&challenge);
                push_bytes(&mut reply, kx_pk.as_slice());
                push_bytes(&mut reply, nonce.as_slice());
                push_bytes(&mut reply, response.as_slice());
                let ghost nn = nonce@;
                self.state = HandshakeState::AwaitPkt3 {
                    client_pk,
                    client_kx_pk,
                    kx_pk,
                    kx_sk,
                    challenge,
                };
                proof {
                    assert(reply@ =~= self.challenge() + self.kx_pk() + nn
                        + box_seal_of(
                        feed@.skip((BOX_PUBLICKEYBYTES + KX_PUBLICKEYBYTES) as int),
                        nn,
                        feed@.take(BOX_PUBLICKEYBYTES as int),
                        old(self).server_sk(),
                    ));
                }
                Either::Left(Some(reply))
            },
            HandshakeState::AwaitPkt3 {
                client_pk,
                client_kx_pk,
                kx_pk,
                kx_sk,
                challenge,
            } => {
                if feed.len() != NONCEBYTES + CHALLENGEBYTES + MACBYTES {
                    return Either::Right(Err(TransportError::MalformedPacket));
                }
                let nonce = vstd::slice::slice_subrange(feed.as_slice(), 0, NONCEBYTES);
                let sealed = vstd::slice::slice_subrange(
                    feed.as_slice(),
                    NONCEBYTES,
                    NONCEBYTES + CHALLENGEBYTES + MACBYTES,
                );
                proof {
                    assert(feed@.subrange(0, NONCEBYTES as int) =~= feed@.take(
                        NONCEBYTES as int,
                    ));
                    assert(feed@.subrange(
                        NONCEBYTES as int,
                        (NONCEBYTES + CHALLENGEBYTES + MACBYTES) as int,
                    ) =~= feed@.skip(NONCEBYTES as int));
                }
                let response = box_open(
                    sealed,
                    nonce,
                    client_pk.as_slice(),
                    self.secret.as_slice(),
                );
                if !accept_response(&response, challenge.as_slice()) {
                    return Either::Right(Err(TransportError::AuthFailure));
                }
                match kx_server_session_keys(
                    kx_pk.as_slice(),
                    kx_sk.as_slice(),
                    client_kx_pk.as_slice(),
                ) {
                    Some(ks) => Either::Right(Ok(ks)),
                    None => Either::Right(Err(TransportError::Fatal)),
                }
            },
            HandshakeState::Done => Either::Right(Err(TransportError::AuthFailure)),
        }
    }
}

} // verus!
