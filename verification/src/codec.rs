//! The stable binary form of the protocol messages: little-endian
//! fixed-width integers, `u64` length prefixes for byte strings and tables,
//! and a 32-bit discriminant, in declaration order, for each tagged union.
//! Encoding and decoding are written against spec-level functions, and the
//! round trip is proved: the two are mutually inverse.

use crate::bitset::{
    blocks_to_bytes, bytes_to_blocks, lemma_blocks_bytes_round_trip,
    lemma_blocks_to_bytes_len, BitSet,
};
use crate::proto::{
    client_wf, dev_table_wf, device_wf, server_wf, update_table_wf, update_wf,
    ClientMessage, ClientModel, DeviceModel, InputDevice, InputDeviceUpdate, InputEvent,
    ServerMessage, ServerModel, UpdateModel,
};
use vstd::bytes::*;
use vstd::prelude::*;

verus! {

// ---------------------------------------------------------------------------
// Spec encoders
// ---------------------------------------------------------------------------
pub open spec fn enc_u16(x: u16) -> Seq<u8> {
    spec_u16_to_le_bytes(x)
}

pub open spec fn enc_u32(x: u32) -> Seq<u8> {
    spec_u32_to_le_bytes(x)
}

pub open spec fn enc_u64(x: u64) -> Seq<u8> {
    spec_u64_to_le_bytes(x)
}

pub open spec fn enc_i32(x: i32) -> Seq<u8> {
    spec_u32_to_le_bytes(x as u32)
}

/// A byte string: `u64` length, then the bytes.
pub open spec fn enc_bytes(p: Seq<u8>) -> Seq<u8> {
    enc_u64(p.len() as u64) + p
}

/// A bitset: its block bytes as a byte string.
pub open spec fn enc_bitset(s: Seq<u32>) -> Seq<u8> {
    enc_bytes(blocks_to_bytes(s))
}

/// A device: its fields in declaration order.
pub open spec fn enc_device(d: DeviceModel) -> Seq<u8> {
    enc_bitset(d.key_bits) + enc_bitset(d.rel_bits) + enc_bitset(d.cap) + enc_bytes(
        d.name,
    ) + enc_bitset(d.key_vals) + enc_u16(d.vendor) + enc_u16(d.product) + enc_u16(
        d.version,
    )
}

/// An input event: type, code, value.
pub open spec fn enc_event(e: InputEvent) -> Seq<u8> {
    enc_u16(e.type_) + enc_u16(e.code) + enc_i32(e.value)
}

/// A device update: a discriminant, then the payload if any.
pub open spec fn enc_update(u: UpdateModel) -> Seq<u8> {
    match u {
        UpdateModel::Update(d) => enc_u32(0) + enc_device(d),
        UpdateModel::Drop => enc_u32(1),
    }
}

/// Table entries, in order: key then value.
pub open spec fn enc_dev_entries(t: Seq<(u32, DeviceModel)>) -> Seq<u8>
    decreases t.len(),
{
    if t.len() == 0 {
        Seq::empty()
    } else {
        enc_u32(t[0].0) + enc_device(t[0].1) + enc_dev_entries(t.drop_first())
    }
}

pub open spec fn enc_upd_entries(t: Seq<(u32, UpdateModel)>) -> Seq<u8>
    decreases t.len(),
{
    if t.len() == 0 {
        Seq::empty()
    } else {
        enc_u32(t[0].0) + enc_update(t[0].1) + enc_upd_entries(t.drop_first())
    }
}

/// A client message: discriminant, then, for `Sync`, the entry count and
/// the entries.
pub open spec fn enc_client(m: ClientModel) -> Seq<u8> {
    match m {
        ClientModel::Sync(t) => enc_u32(0) + enc_u64(t.len() as u64) + enc_dev_entries(t),
        ClientModel::KeepAlive => enc_u32(1),
        ClientModel::Ping => enc_u32(2),
    }
}

/// A server message.
pub open spec fn enc_server(m: ServerModel) -> Seq<u8> {
    match m {
        ServerModel::Sync(t) => enc_u32(0) + enc_u64(t.len() as u64) + enc_upd_entries(t),
        ServerModel::Event(p) => enc_u32(1) + enc_u32(p.0) + enc_event(p.1),
        ServerModel::Pong => enc_u32(2),
    }
}

// ---------------------------------------------------------------------------
// Spec parsers.  Each consumes a prefix and yields the value and the rest.
// ---------------------------------------------------------------------------
pub open spec fn dec_u16(b: Seq<u8>) -> Option<(u16, Seq<u8>)> {
    if b.len() >= 2 {
        Some((spec_u16_from_le_bytes(b.take(2)), b.skip(2)))
    } else {
        None
    }
}

pub open spec fn dec_u32(b: Seq<u8>) -> Option<(u32, Seq<u8>)> {
    if b.len() >= 4 {
        Some((spec_u32_from_le_bytes(b.take(4)), b.skip(4)))
    } else {
        None
    }
}

pub open spec fn dec_u64(b: Seq<u8>) -> Option<(u64, Seq<u8>)> {
    if b.len() >= 8 {
        Some((spec_u64_from_le_bytes(b.take(8)), b.skip(8)))
    } else {
        None
    }
}

pub open spec fn dec_i32(b: Seq<u8>) -> Option<(i32, Seq<u8>)> {
    match dec_u32(b) {
        Some((x, r)) => Some((x as i32, r)),
        None => None,
    }
}

pub open spec fn dec_bytes(b: Seq<u8>) -> Option<(Seq<u8>, Seq<u8>)> {
    match dec_u64(b) {
        Some((n, r)) => if r.len() >= n {
            Some((r.take(n as int), r.skip(n as int)))
        } else {
            None
        },
        None => None,
    }
}

pub open spec fn dec_bitset(b: Seq<u8>) -> Option<(Seq<u32>, Seq<u8>)> {
    match dec_bytes(b) {
        Some((p, r)) => if p.len() % 4 == 0 {
            Some((bytes_to_blocks(p), r))
        } else {
            None
        },
        None => None,
    }
}

pub open spec fn dec_device(b: Seq<u8>) -> Option<(DeviceModel, Seq<u8>)> {
    match dec_bitset(b) {
        None => None,
        Some((key_bits, b)) => match dec_bitset(b) {
            None => None,
            Some((rel_bits, b)) => match dec_bitset(b) {
                None => None,
                Some((cap, b)) => match dec_bytes(b) {
                    None => None,
                    Some((name, b)) => match dec_bitset(b) {
                        None => None,
                        Some((key_vals, b)) => match dec_u16(b) {
                            None => None,
                            Some((vendor, b)) => match dec_u16(b) {
                                None => None,
                                Some((product, b)) => match dec_u16(b) {
                                    None => None,
                                    Some((version, b)) => Some(
                                        (
                                            DeviceModel {
                                                key_bits,
                                                rel_bits,
                                                cap,
                                                name,
                                                key_vals,
                                                vendor,
                                                product,
                                                version,
                                            },
                                            b,
                                        ),
                                    ),
                                },
                            },
                        },
                    },
                },
            },
        },
    }
}

pub open spec fn dec_event(b: Seq<u8>) -> Option<(InputEvent, Seq<u8>)> {
    match dec_u16(b) {
        None => None,
        Some((type_, b)) => match dec_u16(b) {
            None => None,
            Some((code, b)) => match dec_i32(b) {
                None => None,
                Some((value, b)) => Some((InputEvent { type_, code, value }, b)),
            },
        },
    }
}

pub open spec fn dec_update(b: Seq<u8>) -> Option<(UpdateModel, Seq<u8>)> {
    match dec_u32(b) {
        None => None,
        Some((tag, b)) => if tag == 0 {
            match dec_device(b) {
                None => None,
                Some((d, b)) => Some((UpdateModel::Update(d), b)),
            }
        } else if tag == 1 {
            Some((UpdateModel::Drop, b))
        } else {
            None
        },
    }
}

pub open spec fn dec_dev_entries(b: Seq<u8>, n: nat) -> Option<
    (Seq<(u32, DeviceModel)>, Seq<u8>),
>
    decreases n,
{
    if n == 0 {
        Some((Seq::empty(), b))
    } else {
        match dec_u32(b) {
            None => None,
            Some((k, b)) => match dec_device(b) {
                None => None,
                Some((d, b)) => match dec_dev_entries(b, (n - 1) as nat) {
                    None => None,
                    Some((t, b)) => Some((seq![(k, d)] + t, b)),
                },
            },
        }
    }
}

pub open spec fn dec_upd_entries(b: Seq<u8>, n: nat) -> Option<
    (Seq<(u32, UpdateModel)>, Seq<u8>),
>
    decreases n,
{
    if n == 0 {
        Some((Seq::empty(), b))
    } else {
        match dec_u32(b) {
            None => None,
            Some((k, b)) => match dec_update(b) {
                None => None,
                Some((u, b)) => match dec_upd_entries(b, (n - 1) as nat) {
                    None => None,
                    Some((t, b)) => Some((seq![(k, u)] + t, b)),
                },
            },
        }
    }
}

pub open spec fn dec_client(b: Seq<u8>) -> Option<(ClientModel, Seq<u8>)> {
    match dec_u32(b) {
        None => None,
        Some((tag, b)) => if tag == 0 {
            match dec_u64(b) {
                None => None,
                Some((n, b)) => match dec_dev_entries(b, n as nat) {
                    None => None,
                    Some((t, b)) => Some((ClientModel::Sync(t), b)),
                },
            }
        } else if tag == 1 {
            Some((ClientModel::KeepAlive, b))
        } else if tag == 2 {
            Some((ClientModel::Ping, b))
        } else {
            None
        },
    }
}

pub open spec fn dec_server(b: Seq<u8>) -> Option<(ServerModel, Seq<u8>)> {
    match dec_u32(b) {
        None => None,
        Some((tag, b)) => if tag == 0 {
            match dec_u64(b) {
                None => None,
                Some((n, b)) => match dec_upd_entries(b, n as nat) {
                    None => None,
                    Some((t, b)) => Some((ServerModel::Sync(t), b)),
                },
            }
        } else if tag == 1 {
            match dec_u32(b) {
                None => None,
                Some((id, b)) => match dec_event(b) {
                    None => None,
                    Some((e, b)) => Some((ServerModel::Event((id, e)), b)),
                },
            }
        } else if tag == 2 {
            Some((ServerModel::Pong, b))
        } else {
            None
        },
    }
}

/// The whole-buffer parse of a client message: nothing may trail.
pub open spec fn decode_client(b: Seq<u8>) -> Option<ClientModel> {
    match dec_client(b) {
        Some((m, rest)) => if rest.len() == 0 {
            Some(m)
        } else {
            None
        },
        None => None,
    }
}

/// The whole-buffer parse of a server message: nothing may trail.
pub open spec fn decode_server(b: Seq<u8>) -> Option<ServerModel> {
    match dec_server(b) {
        Some((m, rest)) => if rest.len() == 0 {
            Some(m)
        } else {
            None
        },
        None => None,
    }
}

// ---------------------------------------------------------------------------
// Round-trip lemmas: parsing an encoding, with anything after it, yields the
// encoded value and leaves exactly the rest.
// ---------------------------------------------------------------------------
pub proof fn lemma_dec_u16(x: u16, rest: Seq<u8>)
    ensures
        dec_u16(enc_u16(x) + rest) == Some((x, rest)),
{
    lemma_auto_spec_u16_to_from_le_bytes();
    let b = enc_u16(x) + rest;
    assert(b.take(2) =~= enc_u16(x));
    assert(b.skip(2) =~= rest);
}

pub proof fn lemma_dec_u32(x: u32, rest: Seq<u8>)
    ensures
        dec_u32(enc_u32(x) + rest) == Some((x, rest)),
{
    lemma_auto_spec_u32_to_from_le_bytes();
    let b = enc_u32(x) + rest;
    assert(b.take(4) =~= enc_u32(x));
    assert(b.skip(4) =~= rest);
}

pub proof fn lemma_dec_u64(x: u64, rest: Seq<u8>)
    ensures
        dec_u64(enc_u64(x) + rest) == Some((x, rest)),
{
    lemma_auto_spec_u64_to_from_le_bytes();
    let b = enc_u64(x) + rest;
    assert(b.take(8) =~= enc_u64(x));
    assert(b.skip(8) =~= rest);
}

pub proof fn lemma_dec_i32(x: i32, rest: Seq<u8>)
    ensures
        dec_i32(enc_i32(x) + rest) == Some((x, rest)),
{
    lemma_dec_u32(x as u32, rest);
    assert((x as u32) as i32 == x) by (bit_vector);
}

pub proof fn lemma_dec_bytes(p: Seq<u8>, rest: Seq<u8>)
    requires
        p.len() <= u64::MAX,
    ensures
        dec_bytes(enc_bytes(p) + rest) == Some((p, rest)),
{
    let n = p.len() as u64;
    assert(enc_bytes(p) + rest =~= enc_u64(n) + (p + rest));
    lemma_dec_u64(n, p + rest);
    assert((p + rest).take(n as int) =~= p);
    assert((p + rest).skip(n as int) =~= rest);
}

pub proof fn lemma_dec_bitset(s: Seq<u32>, rest: Seq<u8>)
    requires
        4 * s.len() <= u64::MAX,
    ensures
        dec_bitset(enc_bitset(s) + rest) == Some((s, rest)),
{
    lemma_blocks_to_bytes_len(s);
    lemma_dec_bytes(blocks_to_bytes(s), rest);
    lemma_blocks_bytes_round_trip(s);
}

/// Machine bounds imply the `u64` bounds the wire format needs.
pub proof fn lemma_device_wf_u64(d: DeviceModel)
    requires
        device_wf(d),
    ensures
        4 * d.key_bits.len() <= u64::MAX,
        4 * d.rel_bits.len() <= u64::MAX,
        4 * d.cap.len() <= u64::MAX,
        4 * d.key_vals.len() <= u64::MAX,
        d.name.len() <= u64::MAX,
{
}

#[verifier::rlimit(60)]
pub proof fn lemma_dec_device(d: DeviceModel, rest: Seq<u8>)
    requires
        device_wf(d),
    ensures
        dec_device(enc_device(d) + rest) == Some((d, rest)),
{
    lemma_device_wf_u64(d);
    let b0 = enc_device(d) + rest;
    let r7 = enc_u16(d.version) + rest;
    let r6 = enc_u16(d.product) + r7;
    let r5 = enc_u16(d.vendor) + r6;
    let r4 = enc_bitset(d.key_vals) + r5;
    let r3 = enc_bytes(d.name) + r4;
    let r2 = enc_bitset(d.cap) + r3;
    let r1 = enc_bitset(d.rel_bits) + r2;
    assert(b0 =~= enc_bitset(d.key_bits) + r1);
    lemma_dec_bitset(d.key_bits, r1);
    assert(dec_bitset(b0) == Some((d.key_bits, r1)));
    lemma_dec_bitset(d.rel_bits, r2);
    assert(dec_bitset(r1) == Some((d.rel_bits, r2)));
    lemma_dec_bitset(d.cap, r3);
    assert(dec_bitset(r2) == Some((d.cap, r3)));
    lemma_dec_bytes(d.name, r4);
    assert(dec_bytes(r3) == Some((d.name, r4)));
    lemma_dec_bitset(d.key_vals, r5);
    assert(dec_bitset(r4) == Some((d.key_vals, r5)));
    lemma_dec_u16(d.vendor, r6);
    assert(dec_u16(r5) == Some((d.vendor, r6)));
    lemma_dec_u16(d.product, r7);
    assert(dec_u16(r6) == Some((d.product, r7)));
    lemma_dec_u16(d.version, rest);
    assert(dec_u16(r7) == Some((d.version, rest)));
    assert(dec_device(b0) == Some((d, rest)));
}

pub proof fn lemma_dec_event(e: InputEvent, rest: Seq<u8>)
    ensures
        dec_event(enc_event(e) + rest) == Some((e, rest)),
{
    let r2 = enc_i32(e.value) + rest;
    let r1 = enc_u16(e.code) + r2;
    assert(enc_event(e) + rest =~= enc_u16(e.type_) + r1);
    lemma_dec_u16(e.type_, r1);
    lemma_dec_u16(e.code, r2);
    lemma_dec_i32(e.value, rest);
}

pub proof fn lemma_dec_update(u: UpdateModel, rest: Seq<u8>)
    requires
        update_wf(u),
    ensures
        dec_update(enc_update(u) + rest) == Some((u, rest)),
{
    match u {
        UpdateModel::Update(d) => {
            let r1 = enc_device(d) + rest;
            assert(enc_update(u) + rest =~= enc_u32(0) + r1);
            lemma_dec_u32(0, r1);
            lemma_dec_device(d, rest);
        },
        UpdateModel::Drop => {
            lemma_dec_u32(1, rest);
        },
    }
}

pub proof fn lemma_dec_dev_entries(t: Seq<(u32, DeviceModel)>, rest: Seq<u8>)
    requires
        forall|i: int| 0 <= i < t.len() ==> device_wf(#[trigger] t[i].1),
    ensures
        dec_dev_entries(enc_dev_entries(t) + rest, t.len()) == Some((t, rest)),
    decreases t.len(),
{
    if t.len() == 0 {
        assert(enc_dev_entries(t) + rest =~= rest);
        assert(dec_dev_entries(rest, 0) == Some((Seq::<(u32, DeviceModel)>::empty(), rest)));
        assert(t =~= Seq::<(u32, DeviceModel)>::empty());
    } else {
        let tl = t.drop_first();
        let r2 = enc_dev_entries(tl) + rest;
        let r1 = enc_device(t[0].1) + r2;
        assert(enc_dev_entries(t) + rest =~= enc_u32(t[0].0) + r1);
        lemma_dec_u32(t[0].0, r1);
        lemma_dec_device(t[0].1, r2);
        assert(forall|i: int| 0 <= i < tl.len() ==> device_wf(#[trigger] tl[i].1));
        lemma_dec_dev_entries(tl, rest);
        assert(seq![(t[0].0, t[0].1)] + tl =~= t);
    }
}

pub proof fn lemma_dec_upd_entries(t: Seq<(u32, UpdateModel)>, rest: Seq<u8>)
    requires
        forall|i: int| 0 <= i < t.len() ==> update_wf(#[trigger] t[i].1),
    ensures
        dec_upd_entries(enc_upd_entries(t) + rest, t.len()) == Some((t, rest)),
    decreases t.len(),
{
    if t.len() == 0 {
        assert(enc_upd_entries(t) + rest =~= rest);
        assert(dec_upd_entries(rest, 0) == Some((Seq::<(u32, UpdateModel)>::empty(), rest)));
        assert(t =~= Seq::<(u32, UpdateModel)>::empty());
    } else {
        let tl = t.drop_first();
        let r2 = enc_upd_entries(tl) + rest;
        let r1 = enc_update(t[0].1) + r2;
        assert(enc_upd_entries(t) + rest =~= enc_u32(t[0].0) + r1);
        lemma_dec_u32(t[0].0, r1);
        lemma_dec_update(t[0].1, r2);
        assert(forall|i: int| 0 <= i < tl.len() ==> update_wf(#[trigger] tl[i].1));
        lemma_dec_upd_entries(tl, rest);
        assert(seq![(t[0].0, t[0].1)] + tl =~= t);
    }
}

/// Parsing the encoding of a client message yields the message: the codec
/// round-trips, so the encoding is injective.
pub proof fn lemma_client_round_trip(m: ClientModel)
    requires
        client_wf(m),
    ensures
        decode_client(enc_client(m)) == Some(m),
{
    let empty = Seq::<u8>::empty();
    match m {
        ClientModel::Sync(t) => {
            let n = t.len() as u64;
            let r2 = enc_dev_entries(t) + empty;
            let r1 = enc_u64(n) + r2;
            assert(enc_client(m) + empty =~= enc_u32(0) + r1);
            assert(enc_client(m) =~= enc_client(m) + empty);
            lemma_dec_u32(0, r1);
            lemma_dec_u64(n, r2);
            lemma_dec_dev_entries(t, empty);
        },
        ClientModel::KeepAlive => {
            assert(enc_client(m) =~= enc_u32(1) + empty);
            lemma_dec_u32(1, empty);
        },
        ClientModel::Ping => {
            assert(enc_client(m) =~= enc_u32(2) + empty);
            lemma_dec_u32(2, empty);
        },
    }
}

/// Parsing the encoding of a server message yields the message.
pub proof fn lemma_server_round_trip(m: ServerModel)
    requires
        server_wf(m),
    ensures
        decode_server(enc_server(m)) == Some(m),
{
    let empty = Seq::<u8>::empty();
    match m {
        ServerModel::Sync(t) => {
            let n = t.len() as u64;
            let r2 = enc_upd_entries(t) + empty;
            let r1 = enc_u64(n) + r2;
            assert(enc_server(m) + empty =~= enc_u32(0) + r1);
            assert(enc_server(m) =~= enc_server(m) + empty);
            lemma_dec_u32(0, r1);
            lemma_dec_u64(n, r2);
            lemma_dec_upd_entries(t, empty);
        },
        ServerModel::Event(p) => {
            let r2 = enc_event(p.1) + empty;
            let r1 = enc_u32(p.0) + r2;
            assert(enc_server(m) + empty =~= enc_u32(1) + r1);
            assert(enc_server(m) =~= enc_server(m) + empty);
            lemma_dec_u32(1, r1);
            lemma_dec_u32(p.0, r2);
            lemma_dec_event(p.1, empty);
        },
        ServerModel::Pong => {
            assert(enc_server(m) =~= enc_u32(2) + empty);
            lemma_dec_u32(2, empty);
        },
    }
}

/// The codec is bijective between messages and their encodings: two
/// messages with the same encoding are the same message.
pub proof fn lemma_client_enc_injective(m1: ClientModel, m2: ClientModel)
    requires
        client_wf(m1),
        client_wf(m2),
        enc_client(m1) == enc_client(m2),
    ensures
        m1 == m2,
{
    lemma_client_round_trip(m1);
    lemma_client_round_trip(m2);
}

pub proof fn lemma_server_enc_injective(m1: ServerModel, m2: ServerModel)
    requires
        server_wf(m1),
        server_wf(m2),
        enc_server(m1) == enc_server(m2),
    ensures
        m1 == m2,
{
    lemma_server_round_trip(m1);
    lemma_server_round_trip(m2);
}

/// Appending an entry to a table appends its encoding.
pub proof fn lemma_enc_dev_entries_snoc(t: Seq<(u32, DeviceModel)>, e: (u32, DeviceModel))
    ensures
        enc_dev_entries(t.push(e)) == enc_dev_entries(t) + enc_u32(e.0) + enc_device(e.1),
    decreases t.len(),
{
    let tp = t.push(e);
    if t.len() == 0 {
        assert(tp[0] == e);
        assert(tp.drop_first() =~= Seq::<(u32, DeviceModel)>::empty());
        assert(enc_dev_entries(tp) == enc_u32(tp[0].0) + enc_device(tp[0].1)
            + enc_dev_entries(tp.drop_first()));
        assert(enc_dev_entries(tp.drop_first()) == Seq::<u8>::empty());
        assert(enc_dev_entries(t) == Seq::<u8>::empty());
        assert(enc_dev_entries(tp) =~= enc_dev_entries(t) + enc_u32(e.0) + enc_device(e.1));
    } else {
        assert(tp[0] == t[0]);
        assert(tp.drop_first() =~= t.drop_first().push(e));
        lemma_enc_dev_entries_snoc(t.drop_first(), e);
        assert(enc_dev_entries(tp) == enc_u32(tp[0].0) + enc_device(tp[0].1)
            + enc_dev_entries(tp.drop_first()));
        assert(enc_dev_entries(t) == enc_u32(t[0].0) + enc_device(t[0].1)
            + enc_dev_entries(t.drop_first()));
        assert(enc_dev_entries(tp.drop_first()) == enc_dev_entries(t.drop_first())
            + enc_u32(e.0) + enc_device(e.1));
        assert(enc_dev_entries(tp) =~= enc_dev_entries(t) + enc_u32(e.0) + enc_device(e.1));
    }
}

pub proof fn lemma_enc_upd_entries_snoc(t: Seq<(u32, UpdateModel)>, e: (u32, UpdateModel))
    ensures
        enc_upd_entries(t.push(e)) == enc_upd_entries(t) + enc_u32(e.0) + enc_update(e.1),
    decreases t.len(),
{
    let tp = t.push(e);
    if t.len() == 0 {
        assert(tp[0] == e);
        assert(tp.drop_first() =~= Seq::<(u32, UpdateModel)>::empty());
        assert(enc_upd_entries(tp) == enc_u32(tp[0].0) + enc_update(tp[0].1)
            + enc_upd_entries(tp.drop_first()));
        assert(enc_upd_entries(tp.drop_first()) == Seq::<u8>::empty());
        assert(enc_upd_entries(t) == Seq::<u8>::empty());
        assert(enc_upd_entries(tp) =~= enc_upd_entries(t) + enc_u32(e.0) + enc_update(e.1));
    } else {
        assert(tp[0] == t[0]);
        assert(tp.drop_first() =~= t.drop_first().push(e));
        lemma_enc_upd_entries_snoc(t.drop_first(), e);
        assert(enc_upd_entries(tp) == enc_u32(tp[0].0) + enc_update(tp[0].1)
            + enc_upd_entries(tp.drop_first()));
        assert(enc_upd_entries(t) == enc_u32(t[0].0) + enc_update(t[0].1)
            + enc_upd_entries(t.drop_first()));
        assert(enc_upd_entries(tp.drop_first()) == enc_upd_entries(t.drop_first())
            + enc_u32(e.0) + enc_update(e.1));
        assert(enc_upd_entries(tp) =~= enc_upd_entries(t) + enc_u32(e.0) + enc_update(e.1));
    }
}

// ---------------------------------------------------------------------------
// Executable encoding
// ---------------------------------------------------------------------------
/// Appends a byte string as it stands.
pub fn push_bytes(out: &mut Vec<u8>, p: &[u8])
    ensures
        final(out)@ == old(out)@ + p@,
{
    let mut i: usize = 0;
    while i < p.len()
        invariant
            i <= p@.len(),
            out@ == old(out)@ + p@.take(i as int),
        decreases p@.len() - i,
    {
        out.push(p[i]);
        proof {
            assert(old(out)@ + p@.take(i + 1) =~= (old(out)@ + p@.take(i as int)).push(
                p@[i as int],
            ));
        }
        i = i + 1;
    }
    proof {
        assert(old(out)@ + p@.take(p@.len() as int) =~= old(out)@ + p@);
    }
}

/// Appends a length-prefixed byte string.
pub fn write_len_bytes(out: &mut Vec<u8>, p: &[u8])
    ensures
        final(out)@ == old(out)@ + enc_bytes(p@),
{
    let mut len_bytes = u64_to_le_bytes(p.len() as u64);
    out.append(&mut len_bytes);
    push_bytes(out, p);
    proof {
        assert(old(out)@ + enc_bytes(p@) =~= old(out)@ + enc_u64(p@.len() as u64) + p@);
    }
}

/// Appends a length-prefixed bitset.
pub fn write_bitset(out: &mut Vec<u8>, s: &BitSet)
    requires
        4 * s@.len() <= usize::MAX,
    ensures
        final(out)@ == old(out)@ + enc_bitset(s@),
{
    let bytes = s.to_bytes();
    write_len_bytes(out, bytes.as_slice());
}

/// Appends the encoding of a device.
pub fn write_device(out: &mut Vec<u8>, d: &InputDevice)
    requires
        device_wf(d@),
    ensures
        final(out)@ == old(out)@ + enc_device(d@),
{
    write_bitset(out, &d.key_bits);
    write_bitset(out, &d.rel_bits);
    write_bitset(out, &d.cap);
    write_len_bytes(out, d.name.as_slice());
    write_bitset(out, &d.key_vals);
    let mut w = u16_to_le_bytes(d.vendor);
    out.append(&mut w);
    let mut w = u16_to_le_bytes(d.product);
    out.append(&mut w);
    let mut w = u16_to_le_bytes(d.version);
    out.append(&mut w);
    proof {
        assert(out@ =~= old(out)@ + enc_device(d@));
    }
}

/// Appends the encoding of an event.
pub fn write_event(out: &mut Vec<u8>, e: &InputEvent)
    ensures
        final(out)@ == old(out)@ + enc_event(*e),
{
    let mut w = u16_to_le_bytes(e.type_);
    out.append(&mut w);
    let mut w = u16_to_le_bytes(e.code);
    out.append(&mut w);
    let mut w = u32_to_le_bytes(e.value as u32);
    out.append(&mut w);
    proof {
        assert(out@ =~= old(out)@ + enc_event(*e));
    }
}

/// Appends the encoding of a device update.
pub fn write_update(out: &mut Vec<u8>, u: &InputDeviceUpdate)
    requires
        update_wf(u@),
    ensures
        final(out)@ == old(out)@ + enc_update(u@),
{
    match u {
        InputDeviceUpdate::Update(d) => {
            let mut w = u32_to_le_bytes(0);
            out.append(&mut w);
            write_device(out, d);
            proof {
                assert(out@ =~= old(out)@ + enc_update(u@));
            }
        },
        InputDeviceUpdate::Drop => {
            let mut w = u32_to_le_bytes(1);
            out.append(&mut w);
        },
    }
}

/// The wire form of a client message.
pub fn encode_client_message(m: &ClientMessage) -> (r: Vec<u8>)
    requires
        client_wf(m@),
    ensures
        r@ == enc_client(m@),
{
    let mut out: Vec<u8> = Vec::new();
    match m {
        ClientMessage::Sync(t) => {
            let ghost view = t@.map_values(|e: (u32, InputDevice)| (e.0, e.1@));
            let mut w = u32_to_le_bytes(0);
            out.append(&mut w);
            let mut w = u64_to_le_bytes(t.len() as u64);
            out.append(&mut w);
            let ghost head = enc_u32(0) + enc_u64(t@.len() as u64);
            proof {
                assert(out@ =~= head + enc_dev_entries(view.take(0)));
            }
            let mut i: usize = 0;
            while i < t.len()
                invariant
                    i <= t@.len(),
                    view == t@.map_values(|e: (u32, InputDevice)| (e.0, e.1@)),
                    dev_table_wf(view),
                    head == enc_u32(0) + enc_u64(t@.len() as u64),
                    out@ == head + enc_dev_entries(view.take(i as int)),
                decreases t@.len() - i,
            {
                let mut w = u32_to_le_bytes(t[i].0);
                out.append(&mut w);
                proof {
                    assert(device_wf(view[i as int].1));
                    assert(view[i as int].1 == t@[i as int].1@);
                }
                write_device(&mut out, &t[i].1);
                proof {
                    lemma_enc_dev_entries_snoc(view.take(i as int), view[i as int]);
                    assert(view.take(i + 1) =~= view.take(i as int).push(view[i as int]));
                    assert(out@ =~= head + enc_dev_entries(view.take(i + 1)));
                }
                i = i + 1;
            }
            proof {
                assert(view.take(view.len() as int) =~= view);
                assert(out@ =~= enc_client(m@));
            }
        },
        ClientMessage::KeepAlive => {
            let mut w = u32_to_le_bytes(1);
            out.append(&mut w);
            proof {
                assert(out@ =~= enc_client(m@));
            }
        },
        ClientMessage::Ping => {
            let mut w = u32_to_le_bytes(2);
            out.append(&mut w);
            proof {
                assert(out@ =~= enc_client(m@));
            }
        },
    }
    out
}

/// The wire form of a server message.
pub fn encode_server_message(m: &ServerMessage) -> (r: Vec<u8>)
    requires
        server_wf(m@),
    ensures
        r@ == enc_server(m@),
{
    let mut out: Vec<u8> = Vec::new();
    match m {
        ServerMessage::Sync(t) => {
            let ghost view = t@.map_values(|e: (u32, InputDeviceUpdate)| (e.0, e.1@));
            let mut w = u32_to_le_bytes(0);
            out.append(&mut w);
            let mut w = u64_to_le_bytes(t.len() as u64);
            out.append(&mut w);
            let ghost head = enc_u32(0) + enc_u64(t@.len() as u64);
            proof {
                assert(out@ =~= head + enc_upd_entries(view.take(0)));
            }
            let mut i: usize = 0;
            while i < t.len()
                invariant
                    i <= t@.len(),
                    view == t@.map_values(|e: (u32, InputDeviceUpdate)| (e.0, e.1@)),
                    update_table_wf(view),
                    head == enc_u32(0) + enc_u64(t@.len() as u64),
                    out@ == head + enc_upd_entries(view.take(i as int)),
                decreases t@.len() - i,
            {
                let mut w = u32_to_le_bytes(t[i].0);
                out.append(&mut w);
                proof {
                    assert(update_wf(view[i as int].1));
                    assert(view[i as int].1 == t@[i as int].1@);
                }
                write_update(&mut out, &t[i].1);
                proof {
                    lemma_enc_upd_entries_snoc(view.take(i as int), view[i as int]);
                    assert(view.take(i + 1) =~= view.take(i as int).push(view[i as int]));
                    assert(out@ =~= head + enc_upd_entries(view.take(i + 1)));
                }
                i = i + 1;
            }
            proof {
                assert(view.take(view.len() as int) =~= view);
                assert(out@ =~= enc_server(m@));
            }
        },
        ServerMessage::Event(p) => {
            let mut w = u32_to_le_bytes(1);
            out.append(&mut w);
            let mut w = u32_to_le_bytes(p.0);
            out.append(&mut w);
            write_event(&mut out, &p.1);
            proof {
                assert(out@ =~= enc_server(m@));
            }
        },
        ServerMessage::Pong => {
            let mut w = u32_to_le_bytes(2);
            out.append(&mut w);
            proof {
                assert(out@ =~= enc_server(m@));
            }
        },
    }
    out
}

// ---------------------------------------------------------------------------
// Executable decoding.  Each reader advances a cursor and agrees with the
// spec parser applied at its starting point.
// ---------------------------------------------------------------------------
fn read_u16(buf: &[u8], pos: usize) -> (r: Option<(u16, usize)>)
    requires
        pos <= buf@.len(),
    ensures
        match r {
            Some(v) => pos <= v.1 <= buf@.len() && dec_u16(buf@.skip(pos as int))
                == Some((v.0, buf@.skip(v.1 as int))),
            None => dec_u16(buf@.skip(pos as int)) is None,
        },
{
    if buf.len() - pos >= 2 {
        let s = vstd::slice::slice_subrange(buf, pos, pos + 2);
        let x = u16_from_le_bytes(s);
        proof {
            assert(buf@.skip(pos as int).take(2) =~= buf@.subrange(
                pos as int,
                pos + 2,
            ));
            assert(buf@.skip(pos as int).skip(2) =~= buf@.skip(pos + 2));
        }
        Some((x, pos + 2))
    } else {
        None
    }
}

fn read_u32(buf: &[u8], pos: usize) -> (r: Option<(u32, usize)>)
    requires
        pos <= buf@.len(),
    ensures
        match r {
            Some(v) => pos <= v.1 <= buf@.len() && dec_u32(buf@.skip(pos as int))
                == Some((v.0, buf@.skip(v.1 as int))),
            None => dec_u32(buf@.skip(pos as int)) is None,
        },
{
    if buf.len() - pos >= 4 {
        let s = vstd::slice::slice_subrange(buf, pos, pos + 4);
        let x = u32_from_le_bytes(s);
        proof {
            assert(buf@.skip(pos as int).take(4) =~= buf@.subrange(
                pos as int,
                pos + 4,
            ));
            assert(buf@.skip(pos as int).skip(4) =~= buf@.skip(pos + 4));
        }
        Some((x, pos + 4))
    } else {
        None
    }
}

fn read_u64(buf: &[u8], pos: usize) -> (r: Option<(u64, usize)>)
    requires
        pos <= buf@.len(),
    ensures
        match r {
            Some(v) => pos <= v.1 <= buf@.len() && dec_u64(buf@.skip(pos as int))
                == Some((v.0, buf@.skip(v.1 as int))),
            None => dec_u64(buf@.skip(pos as int)) is None,
        },
{
    if buf.len() - pos >= 8 {
        let s = vstd::slice::slice_subrange(buf, pos, pos + 8);
        let x = u64_from_le_bytes(s);
        proof {
            assert(buf@.skip(pos as int).take(8) =~= buf@.subrange(
                pos as int,
                pos + 8,
            ));
            assert(buf@.skip(pos as int).skip(8) =~= buf@.skip(pos + 8));
        }
        Some((x, pos + 8))
    } else {
        None
    }
}

fn read_i32(buf: &[u8], pos: usize) -> (r: Option<(i32, usize)>)
    requires
        pos <= buf@.len(),
    ensures
        match r {
            Some(v) => pos <= v.1 <= buf@.len() && dec_i32(buf@.skip(pos as int))
                == Some((v.0, buf@.skip(v.1 as int))),
            None => dec_i32(buf@.skip(pos as int)) is None,
        },
{
    match read_u32(buf, pos) {
        Some((x, p2)) => Some((x as i32, p2)),
        None => None,
    }
}

fn read_bytes(buf: &[u8], pos: usize) -> (r: Option<(Vec<u8>, usize)>)
    requires
        pos <= buf@.len(),
    ensures
        match r {
            Some(v) => pos <= v.1 <= buf@.len() && dec_bytes(buf@.skip(pos as int))
                == Some((v.0@, buf@.skip(v.1 as int))),
            None => dec_bytes(buf@.skip(pos as int)) is None,
        },
{
    match read_u64(buf, pos) {
        None => None,
        Some((n, p)) => {
            if n <= (buf.len() - p) as u64 {
                let nn: usize = n as usize;
                let s = vstd::slice::slice_subrange(buf, p, p + nn);
                let v = vstd::slice::slice_to_vec(s);
                proof {
                    assert(buf@.skip(p as int).take(n as int) =~= buf@.subrange(
                        p as int,
                        p + nn,
                    ));
                    assert(buf@.skip(p as int).skip(n as int) =~= buf@.skip(
                        p + nn,
                    ));
                }
                Some((v, p + nn))
            } else {
                proof {
                    assert(buf@.skip(p as int).len() < n);
                }
                None
            }
        },
    }
}

fn read_bitset(buf: &[u8], pos: usize) -> (r: Option<(BitSet, usize)>)
    requires
        pos <= buf@.len(),
    ensures
        match r {
            Some(v) => pos <= v.1 <= buf@.len() && dec_bitset(buf@.skip(pos as int))
                == Some((v.0@, buf@.skip(v.1 as int))),
            None => dec_bitset(buf@.skip(pos as int)) is None,
        },
{
    match read_bytes(buf, pos) {
        None => None,
        Some((v, p)) => match BitSet::from_bytes(v.as_slice()) {
            Some(b) => Some((b, p)),
            None => None,
        },
    }
}

#[verifier::rlimit(60)]
fn read_device(buf: &[u8], pos: usize) -> (r: Option<(InputDevice, usize)>)
    requires
        pos <= buf@.len(),
    ensures
        match r {
            Some(v) => pos <= v.1 <= buf@.len() && dec_device(buf@.skip(pos as int))
                == Some((v.0@, buf@.skip(v.1 as int))),
            None => dec_device(buf@.skip(pos as int)) is None,
        },
{
    let (key_bits, p1) = match read_bitset(buf, pos) {
        Some(v) => v,
        None => {
            return None;
        },
    };
    let (rel_bits, p2) = match read_bitset(buf, p1) {
        Some(v) => v,
        None => {
            return None;
        },
    };
    let (cap, p3) = match read_bitset(buf, p2) {
        Some(v) => v,
        None => {
            return None;
        },
    };
    let (name, p4) = match read_bytes(buf, p3) {
        Some(v) => v,
        None => {
            return None;
        },
    };
    let (key_vals, p5) = match read_bitset(buf, p4) {
        Some(v) => v,
        None => {
            return None;
        },
    };
    let (vendor, p6) = match read_u16(buf, p5) {
        Some(v) => v,
        None => {
            return None;
        },
    };
    let (product, p7) = match read_u16(buf, p6) {
        Some(v) => v,
        None => {
            return None;
        },
    };
    let (version, p8) = match read_u16(buf, p7) {
        Some(v) => v,
        None => {
            return None;
        },
    };
    let d = InputDevice { key_bits, rel_bits, cap, name, key_vals, vendor, product, version };
    proof {
        assert(dec_device(buf@.skip(pos as int)) == Some((d@, buf@.skip(p8 as int))));
    }
    Some((d, p8))
}

fn read_event(buf: &[u8], pos: usize) -> (r: Option<(InputEvent, usize)>)
    requires
        pos <= buf@.len(),
    ensures
        match r {
            Some(v) => pos <= v.1 <= buf@.len() && dec_event(buf@.skip(pos as int))
                == Some((v.0, buf@.skip(v.1 as int))),
            None => dec_event(buf@.skip(pos as int)) is None,
        },
{
    let (type_, p1) = match read_u16(buf, pos) {
        Some(v) => v,
        None => {
            return None;
        },
    };
    let (code, p2) = match read_u16(buf, p1) {
        Some(v) => v,
        None => {
            return None;
        },
    };
    let (value, p3) = match read_i32(buf, p2) {
        Some(v) => v,
        None => {
            return None;
        },
    };
    Some((InputEvent { type_, code, value }, p3))
}

fn read_update(buf: &[u8], pos: usize) -> (r: Option<(InputDeviceUpdate, usize)>)
    requires
        pos <= buf@.len(),
    ensures
        match r {
            Some(v) => pos <= v.1 <= buf@.len() && dec_update(buf@.skip(pos as int))
                == Some((v.0@, buf@.skip(v.1 as int))),
            None => dec_update(buf@.skip(pos as int)) is None,
        },
{
    let (tag, p1) = match read_u32(buf, pos) {
        Some(v) => v,
        None => {
            return None;
        },
    };
    if tag == 0 {
        match read_device(buf, p1) {
            Some((d, p2)) => Some((InputDeviceUpdate::Update(d), p2)),
            None => None,
        }
    } else if tag == 1 {
        Some((InputDeviceUpdate::Drop, p1))
    } else {
        None
    }
}

/// Parses a whole buffer as a client message; fails on any malformed or
/// trailing byte.
pub fn decode_client_message(buf: &[u8]) -> (r: Option<ClientMessage>)
    ensures
        match r {
            Some(m) => decode_client(buf@) == Some(m@),
            None => decode_client(buf@) is None,
        },
{
    proof {
        assert(buf@.skip(0) =~= buf@);
    }
    let (tag, p1) = match read_u32(buf, 0) {
        Some(v) => v,
        None => {
            return None;
        },
    };
    if tag == 0 {
        let (n, p2) = match read_u64(buf, p1) {
            Some(v) => v,
            None => {
                return None;
            },
        };
        let ghost p0 = p2 as int;
        let mut entries: Vec<(u32, InputDevice)> = Vec::new();
        let mut i: u64 = 0;
        let mut p: usize = p2;
        while i < n
            invariant
                i <= n,
                p <= buf@.len(),
                entries@.len() == i,
                p0 <= buf@.len(),
                match dec_dev_entries(buf@.skip(p as int), (n - i) as nat) {
                    Some(sr) => dec_dev_entries(buf@.skip(p0), n as nat) == Some(
                        (
                            entries@.map_values(|e: (u32, InputDevice)| (e.0, e.1@))
                                + sr.0,
                            sr.1,
                        ),
                    ),
                    None => dec_dev_entries(buf@.skip(p0), n as nat) is None,
                },
                match dec_dev_entries(buf@.skip(p0), n as nat) {
                    Some(tr) => dec_client(buf@) == Some(
                        (ClientModel::Sync(tr.0), tr.1),
                    ),
                    None => dec_client(buf@) is None,
                },
            decreases n - i,
        {
            let ghost pb = p as int;
            let (k, pa) = match read_u32(buf, p) {
                Some(v) => v,
                None => {
                    proof {
                        assert(dec_dev_entries(buf@.skip(pb), (n - i) as nat) is None);
                    }
                    return None;
                },
            };
            let (d, pc) = match read_device(buf, pa) {
                Some(v) => v,
                None => {
                    proof {
                        assert(dec_dev_entries(buf@.skip(pb), (n - i) as nat) is None);
                    }
                    return None;
                },
            };
            proof {
                let ev = entries@.map_values(|e: (u32, InputDevice)| (e.0, e.1@));
                let ev2 = entries@.push((k, d)).map_values(
                    |e: (u32, InputDevice)| (e.0, e.1@),
                );
                match dec_dev_entries(buf@.skip(pc as int), (n - i - 1) as nat) {
                    Some(sr) => {
                        assert(dec_dev_entries(buf@.skip(pb), (n - i) as nat) == Some(
                            (seq![(k, d@)] + sr.0, sr.1),
                        ));
                        assert(ev2 + sr.0 =~= ev + (seq![(k, d@)] + sr.0));
                    },
                    None => {
                        assert(dec_dev_entries(buf@.skip(pb), (n - i) as nat) is None);
                    },
                }
            }
            entries.push((k, d));
            p = pc;
            i = i + 1;
        }
        proof {
            let ev = entries@.map_values(|e: (u32, InputDevice)| (e.0, e.1@));
            assert(dec_dev_entries(buf@.skip(p as int), 0) == Some(
                (Seq::<(u32, DeviceModel)>::empty(), buf@.skip(p as int)),
            ));
            assert(ev + Seq::<(u32, DeviceModel)>::empty() =~= ev);
        }
        if p == buf.len() {
            let m = ClientMessage::Sync(entries);
            proof {
                assert(buf@.skip(p as int).len() == 0);
                assert(decode_client(buf@) == Some(m@));
            }
            Some(m)
        } else {
            proof {
                assert(buf@.skip(p as int).len() != 0);
            }
            None
        }
    } else if tag == 1 {
        if p1 == buf.len() {
            Some(ClientMessage::KeepAlive)
        } else {
            proof {
                assert(buf@.skip(p1 as int).len() != 0);
            }
            None
        }
    } else if tag == 2 {
        if p1 == buf.len() {
            Some(ClientMessage::Ping)
        } else {
            proof {
                assert(buf@.skip(p1 as int).len() != 0);
            }
            None
        }
    } else {
        None
    }
}

/// Parses a whole buffer as a server message; fails on any malformed or
/// trailing byte.
pub fn decode_server_message(buf: &[u8]) -> (r: Option<ServerMessage>)
    ensures
        match r {
            Some(m) => decode_server(buf@) == Some(m@),
            None => decode_server(buf@) is None,
        },
{
    proof {
        assert(buf@.skip(0) =~= buf@);
    }
    let (tag, p1) = match read_u32(buf, 0) {
        Some(v) => v,
        None => {
            return None;
        },
    };
    if tag == 0 {
        let (n, p2) = match read_u64(buf, p1) {
            Some(v) => v,
            None => {
                return None;
            },
        };
        let ghost p0 = p2 as int;
        let mut entries: Vec<(u32, InputDeviceUpdate)> = Vec::new();
        let mut i: u64 = 0;
        let mut p: usize = p2;
        while i < n
            invariant
                i <= n,
                p <= buf@.len(),
                entries@.len() == i,
                p0 <= buf@.len(),
                match dec_upd_entries(buf@.skip(p as int), (n - i) as nat) {
                    Some(sr) => dec_upd_entries(buf@.skip(p0), n as nat) == Some(
                        (
                            entries@.map_values(
                                |e: (u32, InputDeviceUpdate)| (e.0, e.1@),
                            ) + sr.0,
                            sr.1,
                        ),
                    ),
                    None => dec_upd_entries(buf@.skip(p0), n as nat) is None,
                },
                match dec_upd_entries(buf@.skip(p0), n as nat) {
                    Some(tr) => dec_server(buf@) == Some(
                        (ServerModel::Sync(tr.0), tr.1),
                    ),
                    None => dec_server(buf@) is None,
                },
            decreases n - i,
        {
            let ghost pb = p as int;
            let (k, pa) = match read_u32(buf, p) {
                Some(v) => v,
                None => {
                    proof {
                        assert(dec_upd_entries(buf@.skip(pb), (n - i) as nat) is None);
                    }
                    return None;
                },
            };
            let (u, pc) = match read_update(buf, pa) {
                Some(v) => v,
                None => {
                    proof {
                        assert(dec_upd_entries(buf@.skip(pb), (n - i) as nat) is None);
                    }
                    return None;
                },
            };
            proof {
                let ev = entries@.map_values(|e: (u32, InputDeviceUpdate)| (e.0, e.1@));
                let ev2 = entries@.push((k, u)).map_values(
                    |e: (u32, InputDeviceUpdate)| (e.0, e.1@),
                );
                match dec_upd_entries(buf@.skip(pc as int), (n - i - 1) as nat) {
                    Some(sr) => {
                        assert(dec_upd_entries(buf@.skip(pb), (n - i) as nat) == Some(
                            (seq![(k, u@)] + sr.0, sr.1),
                        ));
                        assert(ev2 + sr.0 =~= ev + (seq![(k, u@)] + sr.0));
                    },
                    None => {
                        assert(dec_upd_entries(buf@.skip(pb), (n - i) as nat) is None);
                    },
                }
            }
            entries.push((k, u));
            p = pc;
            i = i + 1;
        }
        proof {
            let ev = entries@.map_values(|e: (u32, InputDeviceUpdate)| (e.0, e.1@));
            assert(dec_upd_entries(buf@.skip(p as int), 0) == Some(
                (Seq::<(u32, UpdateModel)>::empty(), buf@.skip(p as int)),
            ));
            assert(ev + Seq::<(u32, UpdateModel)>::empty() =~= ev);
        }
        if p == buf.len() {
            let m = ServerMessage::Sync(entries);
            proof {
                assert(buf@.skip(p as int).len() == 0);
                assert(decode_server(buf@) == Some(m@));
            }
            Some(m)
        } else {
            proof {
                assert(buf@.skip(p as int).len() != 0);
            }
            None
        }
    } else if tag == 1 {
        let (id, p2) = match read_u32(buf, p1) {
            Some(v) => v,
            None => {
                return None;
            },
        };
        let (e, p3) = match read_event(buf, p2) {
            Some(v) => v,
            None => {
                return None;
            },
        };
        if p3 == buf.len() {
            Some(ServerMessage::Event((id, e)))
        } else {
            proof {
                assert(buf@.skip(p3 as int).len() != 0);
            }
            None
        }
    } else if tag == 2 {
        if p1 == buf.len() {
            Some(ServerMessage::Pong)
        } else {
            proof {
                assert(buf@.skip(p1 as int).len() != 0);
            }
            None
        }
    } else {
        None
    }
}

/// Whether a device fits the machine bounds the encoder needs; true of
/// anything a real device layer produces.
pub fn device_encodable(d: &InputDevice) -> (r: bool)
    ensures
        r == device_wf(d@),
{
    let name_len = d.name.len();
    let r = bitset_encodable(&d.key_bits) && bitset_encodable(&d.rel_bits)
        && bitset_encodable(&d.cap) && bitset_encodable(&d.key_vals);
    proof {
        assert(d.name@.len() == name_len);
    }
    r
}

fn bitset_encodable(b: &BitSet) -> (r: bool)
    ensures
        r == (4 * b@.len() <= usize::MAX),
{
    let blocks = b.block_count();
    (blocks as u128) * 4 <= usize::MAX as u128
}

/// Whether a client message fits the machine bounds the encoder needs.
pub fn client_message_encodable(m: &ClientMessage) -> (r: bool)
    ensures
        r == client_wf(m@),
{
    match m {
        ClientMessage::Sync(t) => {
            let ghost view = t@.map_values(|e: (u32, InputDevice)| (e.0, e.1@));
            let mut i: usize = 0;
            while i < t.len()
                invariant
                    i <= t@.len(),
                    view == t@.map_values(|e: (u32, InputDevice)| (e.0, e.1@)),
                    client_wf(m@) == dev_table_wf(view),
                    forall|j: int| 0 <= j < i ==> device_wf((#[trigger] view[j]).1),
                decreases t@.len() - i,
            {
                if !device_encodable(&t[i].1) {
                    proof {
                        assert(view[i as int].1 == t@[i as int].1@);
                        assert(!device_wf(view[i as int].1));
                        assert(!dev_table_wf(view));
                    }
                    return false;
                }
                i = i + 1;
            }
            let n = t.len();
            proof {
                assert(view.len() == n);
            }
            true
        },
        ClientMessage::KeepAlive => true,
        ClientMessage::Ping => true,
    }
}

/// Whether a server message fits the machine bounds the encoder needs.
pub fn server_message_encodable(m: &ServerMessage) -> (r: bool)
    ensures
        r == server_wf(m@),
{
    match m {
        ServerMessage::Sync(t) => {
            let ghost view = t@.map_values(|e: (u32, InputDeviceUpdate)| (e.0, e.1@));
            let mut i: usize = 0;
            while i < t.len()
                invariant
                    i <= t@.len(),
                    view == t@.map_values(|e: (u32, InputDeviceUpdate)| (e.0, e.1@)),
                    server_wf(m@) == update_table_wf(view),
                    forall|j: int| 0 <= j < i ==> update_wf((#[trigger] view[j]).1),
                decreases t@.len() - i,
            {
                let ok = match &t[i].1 {
                    InputDeviceUpdate::Update(d) => device_encodable(d),
                    InputDeviceUpdate::Drop => true,
                };
                if !ok {
                    proof {
                        assert(view[i as int].1 == t@[i as int].1@);
                        assert(!update_wf(view[i as int].1));
                        assert(!update_table_wf(view));
                    }
                    return false;
                }
                i = i + 1;
            }
            let n = t.len();
            proof {
                assert(view.len() == n);
            }
            true
        },
        ServerMessage::Event(_) => true,
        ServerMessage::Pong => true,
    }
}

} // verus!
