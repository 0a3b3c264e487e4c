//! The application-level message schema: what a client and a server say to
//! each other once a session is established.  Tables of devices keyed by a
//! 32-bit device id are carried as ordered entry lists, exactly as they are
//! laid out on the wire.

use crate::bitset::BitSet;
use vstd::prelude::*;

verus! {

/// One raw input event: type, code, value, as the kernel reports them.
#[derive(Clone, Copy, Debug, PartialEq, Eq, Structural)]
pub struct InputEvent {
    pub type_: u16,
    pub code: u16,
    pub value: i32,
}

/// The description of one shared input device.
#[derive(Debug, PartialEq, Eq)]
pub struct InputDevice {
    /// Available keys.
    pub key_bits: BitSet,
    /// Available relative axes.
    pub rel_bits: BitSet,
    /// Supported event types.
    pub cap: BitSet,
    /// Device name (UTF-8 bytes).
    pub name: Vec<u8>,
    /// Currently pressed keys.
    pub key_vals: BitSet,
    /// Vendor id.
    pub vendor: u16,
    /// Product id.
    pub product: u16,
    /// Hardware revision.
    pub version: u16,
}

/// The mathematical content of an `InputDevice`.
#[verifier::ext_equal]
pub struct DeviceModel {
    pub key_bits: Seq<u32>,
    pub rel_bits: Seq<u32>,
    pub cap: Seq<u32>,
    pub name: Seq<u8>,
    pub key_vals: Seq<u32>,
    pub vendor: u16,
    pub product: u16,
    pub version: u16,
}

impl View for InputDevice {
    type V = DeviceModel;

    open spec fn view(&self) -> DeviceModel {
        DeviceModel {
            key_bits: self.key_bits@,
            rel_bits: self.rel_bits@,
            cap: self.cap@,
            name: self.name@,
            key_vals: self.key_vals@,
            vendor: self.vendor,
            product: self.product,
            version: self.version,
        }
    }
}

/// The machine-size bounds under which a device serialises: each bitset's
/// byte form and the name fit in memory.
pub open spec fn device_wf(d: DeviceModel) -> bool {
    &&& 4 * d.key_bits.len() <= usize::MAX
    &&& 4 * d.rel_bits.len() <= usize::MAX
    &&& 4 * d.cap.len() <= usize::MAX
    &&& 4 * d.key_vals.len() <= usize::MAX
    &&& d.name.len() <= usize::MAX
}

impl InputDevice {
    /// Field-for-field equality, the comparison the protocol uses to decide
    /// whether a device must be re-announced or re-created.
    pub fn same_as(&self, other: &InputDevice) -> (r: bool)
        ensures
            r == (self@ == other@),
    {
        let r = self.key_bits.eq_bits(&other.key_bits) && self.rel_bits.eq_bits(
            &other.rel_bits,
        ) && self.cap.eq_bits(&other.cap) && bytes_eq(&self.name, &other.name)
            && self.key_vals.eq_bits(&other.key_vals) && self.vendor == other.vendor
            && self.product == other.product && self.version == other.version;
        proof {
            if r {
                assert(self@ =~= other@);
            }
        }
        r
    }
}

impl Clone for InputDevice {
    fn clone(&self) -> (r: Self)
        ensures
            r@ == self@,
    {
        InputDevice {
            key_bits: self.key_bits.clone_set(),
            rel_bits: self.rel_bits.clone_set(),
            cap: self.cap.clone_set(),
            name: clone_bytes(&self.name),
            key_vals: self.key_vals.clone_set(),
            vendor: self.vendor,
            product: self.product,
            version: self.version,
        }
    }
}

/// Byte-string equality.
pub fn bytes_eq(a: &[u8], b: &[u8]) -> (r: bool)
    ensures
        r == (a@ == b@),
{
    if a.len() != b.len() {
        return false;
    }
    let mut i: usize = 0;
    while i < a.len()
        invariant
            i <= a@.len(),
            a@.len() == b@.len(),
            forall|j: int| 0 <= j < i ==> a@[j] == b@[j],
        decreases a@.len() - i,
    {
        if a[i] != b[i] {
            return false;
        }
        i = i + 1;
    }
    proof {
        assert(a@ =~= b@);
    }
    true
}

/// A copy of a byte string.
pub fn clone_bytes(a: &Vec<u8>) -> (r: Vec<u8>)
    ensures
        r@ == a@,
{
    let mut out: Vec<u8> = Vec::new();
    let mut i: usize = 0;
    while i < a.len()
        invariant
            i <= a@.len(),
            out@ == a@.take(i as int),
        decreases a@.len() - i,
    {
        out.push(a[i]);
        proof {
            assert(a@.take(i + 1) =~= a@.take(i as int).push(a@[i as int]));
        }
        i = i + 1;
    }
    proof {
        assert(a@.take(a@.len() as int) =~= a@);
    }
    out
}

/// What the server tells a client about one device id.
#[derive(Debug, PartialEq, Eq)]
pub enum InputDeviceUpdate {
    /// This device exists and has this description.
    Update(InputDevice),
    /// This device has gone away.
    Drop,
}

/// The model of an update.
#[verifier::ext_equal]
pub enum UpdateModel {
    Update(DeviceModel),
    Drop,
}

impl View for InputDeviceUpdate {
    type V = UpdateModel;

    open spec fn view(&self) -> UpdateModel {
        match self {
            InputDeviceUpdate::Update(d) => UpdateModel::Update(d@),
            InputDeviceUpdate::Drop => UpdateModel::Drop,
        }
    }
}

pub open spec fn update_wf(u: UpdateModel) -> bool {
    match u {
        UpdateModel::Update(d) => device_wf(d),
        UpdateModel::Drop => true,
    }
}

/// What a client sends to the server.
#[derive(Debug, PartialEq, Eq)]
pub enum ClientMessage {
    /// The list of devices the client currently knows, keyed by id.
    Sync(Vec<(u32, InputDevice)>),
    /// Nothing to say; resets the server's liveness timer.
    KeepAlive,
    /// A liveness probe; the server answers `Pong`.
    Ping,
}

/// The model of a client message.
#[verifier::ext_equal]
pub enum ClientModel {
    Sync(Seq<(u32, DeviceModel)>),
    KeepAlive,
    Ping,
}

impl View for ClientMessage {
    type V = ClientModel;

    open spec fn view(&self) -> ClientModel {
        match self {
            ClientMessage::Sync(t) => ClientModel::Sync(
                t@.map_values(|e: (u32, InputDevice)| (e.0, e.1@)),
            ),
            ClientMessage::KeepAlive => ClientModel::KeepAlive,
            ClientMessage::Ping => ClientModel::Ping,
        }
    }
}

/// What the server sends to a client.
#[derive(Debug, PartialEq, Eq)]
pub enum ServerMessage {
    /// Corrections to the client's view of the device table.
    Sync(Vec<(u32, InputDeviceUpdate)>),
    /// One input event from one device.
    Event((u32, InputEvent)),
    /// The answer to a `Ping`.
    Pong,
}

/// The model of a server message.
#[verifier::ext_equal]
pub enum ServerModel {
    Sync(Seq<(u32, UpdateModel)>),
    Event((u32, InputEvent)),
    Pong,
}

impl View for ServerMessage {
    type V = ServerModel;

    open spec fn view(&self) -> ServerModel {
        match self {
            ServerMessage::Sync(t) => ServerModel::Sync(
                t@.map_values(|e: (u32, InputDeviceUpdate)| (e.0, e.1@)),
            ),
            ServerMessage::Event(p) => ServerModel::Event(*p),
            ServerMessage::Pong => ServerModel::Pong,
        }
    }
}

pub open spec fn dev_table_wf(t: Seq<(u32, DeviceModel)>) -> bool {
    &&& t.len() <= usize::MAX
    &&& forall|i: int| 0 <= i < t.len() ==> device_wf(#[trigger] t[i].1)
}

pub open spec fn update_table_wf(t: Seq<(u32, UpdateModel)>) -> bool {
    &&& t.len() <= usize::MAX
    &&& forall|i: int| 0 <= i < t.len() ==> update_wf(#[trigger] t[i].1)
}

pub open spec fn client_wf(m: ClientModel) -> bool {
    match m {
        ClientModel::Sync(t) => dev_table_wf(t),
        _ => true,
    }
}

pub open spec fn server_wf(m: ServerModel) -> bool {
    match m {
        ServerModel::Sync(t) => update_table_wf(t),
        _ => true,
    }
}

} // verus!
