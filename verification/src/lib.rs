//! Entangle shares HID input devices between machines over an untrusted
//! network.  The core is CDGram, an authenticated encrypted datagram
//! transport: a two-round key-agreement handshake against an allow-list of
//! long-term public keys, per-peer server state keyed by network address,
//! and AEAD packet framing.  On top of it sits an application protocol that
//! synchronises a device registry and streams input events with liveness
//! checks.  Sockets, timers and device files live outside this crate; the
//! decision logic here is pure and verified.

pub mod base64;
pub mod bitset;
pub mod cdgram;
pub mod client_proto;
pub mod codec;
pub mod config;
pub mod crypto;
pub mod evdev_raw;
pub mod generator;
pub mod pair;
pub mod uinput;
pub mod proto;
pub mod server_proto;

use vstd::prelude::*;

verus! {

/// The error kinds that the transport and the application protocol surface.
#[derive(Clone, Copy, Debug, PartialEq, Eq, Structural)]
pub enum TransportError {
    /// Wrong length or structure at some protocol step.
    MalformedPacket,
    /// An AEAD or sealed-box open failed, or a challenge did not match.
    AuthFailure,
    /// A first packet carried a public key outside the allow-list.
    Unauthorized,
    /// A client operation was attempted without a completed handshake.
    NotConnected,
    /// A receive deadline passed without the awaited reply.
    Timeout,
    /// Address resolution returned no addresses.
    ResolveFailure,
    /// An attempt to send to an address with no per-peer state.
    UnknownClient,
    /// An attempt to send to a peer whose handshake is still running.
    HandshakeInProgress,
    /// An unrecoverable failure, such as the key exchange refusing the
    /// peer's public key.
    Fatal,
}

} // verus!
