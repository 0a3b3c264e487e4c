//! The client side of the application protocol: applying the server's
//! device updates to the local table of recreated devices, turning events
//! into the raw records the kernel takes, and the liveness rule that pings
//! an idle server and gives a dead one up.

use crate::proto::{DeviceModel, InputDevice, InputDeviceUpdate, InputEvent};
use crate::server_proto::reg_lookup;
use vstd::bytes::{spec_u16_to_le_bytes, spec_u32_to_le_bytes, spec_u64_to_le_bytes, u16_to_le_bytes, u32_to_le_bytes, u64_to_le_bytes};
use vstd::prelude::*;

verus! {

/// Milliseconds the client waits for a server packet before probing.
pub const CLIENT_IDLE_MS: u64 = 1000;

/// Milliseconds the client waits for the `Pong` after a `Ping`.
pub const CLIENT_PONG_MS: u64 = 200;

/// Milliseconds after a packet before the client sends a `KeepAlive`.
pub const KEEPALIVE_DELAY_MS: u64 = 50;

/// The event type whose arrival flushes the device file: `EV_SYN`.
pub const SYN_EVENT_TYPE: u16 = 0;

/// Whether two descriptions call for the same virtual device: everything
/// but the pressed-key state must agree.
pub open spec fn descriptor_eq(a: DeviceModel, b: DeviceModel) -> bool {
    &&& a.cap == b.cap
    &&& a.key_bits == b.key_bits
    &&& a.rel_bits == b.rel_bits
    &&& a.name == b.name
    &&& a.vendor == b.vendor
    &&& a.product == b.product
    &&& a.version == b.version
}

/// Compares two descriptions as `descriptor_eq` does.
pub fn same_descriptor(a: &InputDevice, b: &InputDevice) -> (r: bool)
    ensures
        r == descriptor_eq(a@, b@),
{
    let r = a.cap.eq_bits(&b.cap) && a.key_bits.eq_bits(&b.key_bits)
        && a.rel_bits.eq_bits(&b.rel_bits) && crate::proto::bytes_eq(&a.name, &b.name)
        && a.vendor == b.vendor && a.product == b.product && a.version == b.version;
    r
}

/// What the device layer must do after one update is applied.
#[derive(Clone, Copy, Debug, PartialEq, Eq, Structural)]
pub enum DeviceAction {
    /// Create a fresh virtual device for this id.
    Create,
    /// Destroy the old virtual device and create one anew.
    Recreate,
    /// The existing virtual device fits; nothing to do.
    Keep,
    /// Destroy the virtual device, if any.
    Remove,
}

/// The client's table of devices it has recreated, keyed by the server's
/// device id.
pub struct ClientDevices {
    entries: Vec<(u32, InputDevice)>,
}

impl View for ClientDevices {
    type V = Seq<(u32, DeviceModel)>;

    closed spec fn view(&self) -> Seq<(u32, DeviceModel)> {
        self.entries@.map_values(|e: (u32, InputDevice)| (e.0, e.1@))
    }
}

impl ClientDevices {
    /// An empty table.
    pub fn new() -> (r: ClientDevices)
        ensures
            r@ == Seq::<(u32, DeviceModel)>::empty(),
    {
        let r = ClientDevices { entries: Vec::new() };
        proof {
            assert(r@ =~= Seq::<(u32, DeviceModel)>::empty());
        }
        r
    }

    /// Whether a device id is present.
    pub fn knows(&self, id: u32) -> (r: bool)
        ensures
            r == (reg_lookup(self@, id) is Some),
    {
        let mut i: usize = 0;
        while i < self.entries.len()
            invariant
                i <= self.entries@.len(),
                forall|j: int| 0 <= j < i ==> (#[trigger] self@[j]).0 != id,
                self@.len() == self.entries@.len(),
            decreases self.entries@.len() - i,
        {
            if self.entries[i].0 == id {
                proof {
                    crate::server_proto::lemma_reg_lookup_at(self@, i as int, id);
                }
                return true;
            }
            i = i + 1;
        }
        proof {
            crate::server_proto::lemma_reg_lookup_absent(self@, id);
        }
        false
    }

    /// Applies one server update for one id and says what the device
    /// layer must do: an unknown id with a new description is created; a
    /// known id whose descriptor changed is recreated with the new
    /// description; a known id with the same descriptor is kept, with the
    /// stored description refreshed; a dropped id is removed.
    pub fn apply_update(&mut self, id: u32, update: InputDeviceUpdate) -> (r:
        DeviceAction)
        ensures
            match update {
                InputDeviceUpdate::Update(d) => {
                    &&& reg_lookup(final(self)@, id) == Some(d@)
                    &&& match reg_lookup(old(self)@, id) {
                        None => r == DeviceAction::Create,
                        Some(cur) => (descriptor_eq(cur, d@) ==> r
                            == DeviceAction::Keep) && (!descriptor_eq(cur, d@) ==> r
                            == DeviceAction::Recreate),
                    }
                },
                InputDeviceUpdate::Drop => {
                    &&& r == DeviceAction::Remove
                    &&& reg_lookup(final(self)@, id) is None
                },
            },
            forall|k: u32| k != id ==> #[trigger] reg_lookup(final(self)@, k)
                == reg_lookup(old(self)@, k),
    {
        match update {
            InputDeviceUpdate::Drop => {
                self.remove_entry(id);
                DeviceAction::Remove
            },
            InputDeviceUpdate::Update(d) => {
                let action = match self.get_entry(id) {
                    None => DeviceAction::Create,
                    Some(cur) => {
                        if same_descriptor(cur, &d) {
                            DeviceAction::Keep
                        } else {
                            DeviceAction::Recreate
                        }
                    },
                };
                self.remove_entry(id);
                proof {
                    crate::server_proto::lemma_reg_lookup_push_back(self@, (id, d@), id);
                    assert forall|k: u32| k != id implies #[trigger] reg_lookup(
                        self@.push((id, d@)),
                        k,
                    ) == reg_lookup(self@, k) by {
                        crate::server_proto::lemma_reg_lookup_push_back(self@, (id, d@), k);
                    }
                    assert((self@.push((id, d@))) =~= self.entries@.push(
                        (id, d),
                    ).map_values(|e: (u32, InputDevice)| (e.0, e.1@)));
                }
                self.entries.push((id, d));
                action
            },
        }
    }

    /// A copy of the description stored for an id.
    pub fn device_of(&self, id: u32) -> (r: Option<InputDevice>)
        ensures
            match r {
                Some(d) => reg_lookup(self@, id) == Some(d@),
                None => reg_lookup(self@, id) is None,
            },
    {
        match self.get_entry(id) {
            Some(d) => Some(d.clone()),
            None => None,
        }
    }

    /// The description stored for an id.
    fn get_entry(&self, id: u32) -> (r: Option<&InputDevice>)
        ensures
            match r {
                Some(d) => reg_lookup(self@, id) == Some(d@),
                None => reg_lookup(self@, id) is None,
            },
    {
        let mut i: usize = 0;
        while i < self.entries.len()
            invariant
                i <= self.entries@.len(),
                forall|j: int| 0 <= j < i ==> (#[trigger] self@[j]).0 != id,
                self@.len() == self.entries@.len(),
            decreases self.entries@.len() - i,
        {
            if self.entries[i].0 == id {
                proof {
                    crate::server_proto::lemma_reg_lookup_at(self@, i as int, id);
                }
                return Some(&self.entries[i].1);
            }
            i = i + 1;
        }
        proof {
            crate::server_proto::lemma_reg_lookup_absent(self@, id);
        }
        None
    }

    /// Removes every entry for an id.
    fn remove_entry(&mut self, id: u32)
        ensures
            reg_lookup(final(self)@, id) is None,
            forall|k: u32| k != id ==> #[trigger] reg_lookup(final(self)@, k)
                == reg_lookup(old(self)@, k),
    {
        let ghost s0 = self.entries@;
        let mut i: usize = 0;
        let mut out: Vec<(u32, InputDevice)> = Vec::new();
        while i < self.entries.len()
            invariant
                i <= self.entries@.len(),
                self.entries@ == s0,
                out@.map_values(|e: (u32, InputDevice)| (e.0, e.1@))
                    == crate::server_proto::reg_filter(
                    s0.map_values(|e: (u32, InputDevice)| (e.0, e.1@)).take(i as int),
                    id,
                ),
            decreases self.entries@.len() - i,
        {
            let (k, d) = (self.entries[i].0, self.entries[i].1.clone());
            if k != id {
                out.push((k, d));
            }
            proof {
                let mapped = s0.map_values(|e: (u32, InputDevice)| (e.0, e.1@));
                assert(mapped.take(i + 1).drop_last() =~= mapped.take(i as int));
                assert(out@.map_values(|e: (u32, InputDevice)| (e.0, e.1@))
                    =~= crate::server_proto::reg_filter(mapped.take(i + 1), id));
            }
            i = i + 1;
        }
        self.entries = out;
        proof {
            let mapped = s0.map_values(|e: (u32, InputDevice)| (e.0, e.1@));
            assert(mapped.take(mapped.len() as int) =~= mapped);
            crate::server_proto::lemma_reg_filter_lookup(mapped, id);
        }
    }
}

/// The raw input-event record the kernel takes: a zeroed 16-byte
/// timestamp, then type, code and value, little-endian.
pub open spec fn spec_event_record(ev: InputEvent) -> Seq<u8> {
    spec_u64_to_le_bytes(0) + spec_u64_to_le_bytes(0) + spec_u16_to_le_bytes(ev.type_)
        + spec_u16_to_le_bytes(ev.code) + spec_u32_to_le_bytes(ev.value as u32)
}

/// Serialises one event as a 24-byte kernel input-event record.
pub fn event_record(ev: &InputEvent) -> (r: Vec<u8>)
    ensures
        r@ == spec_event_record(*ev),
        r@.len() == 24,
{
    let mut out = u64_to_le_bytes(0);
    let mut w = u64_to_le_bytes(0);
    out.append(&mut w);
    let mut w = u16_to_le_bytes(ev.type_);
    out.append(&mut w);
    let mut w = u16_to_le_bytes(ev.code);
    out.append(&mut w);
    let mut w = u32_to_le_bytes(ev.value as u32);
    out.append(&mut w);
    proof {
        assert(out@ =~= spec_event_record(*ev));
    }
    out
}

/// Whether the device file must be flushed after this event: exactly on a
/// synchronization event.
pub fn needs_flush(ev: &InputEvent) -> (r: bool)
    ensures
        r == (ev.type_ == SYN_EVENT_TYPE),
{
    ev.type_ == SYN_EVENT_TYPE
}

/// What the client does when its receive deadline passes.
#[derive(Clone, Copy, Debug, PartialEq, Eq, Structural)]
pub enum TimeoutAction {
    /// Probe the server with a `Ping` and wait the short deadline.
    SendPing,
    /// The `Ping` went unanswered: the connection is dead.
    GiveUp,
}

/// The client's liveness rule: after `CLIENT_IDLE_MS` of silence send a
/// `Ping` and wait `CLIENT_PONG_MS`; if that passes too, the connection
/// is dead.  Any packet clears the pending probe.
pub struct Liveness {
    pong_pending: bool,
}

impl Liveness {
    /// Whether a `Ping` is outstanding.
    pub closed spec fn pending(&self) -> bool {
        self.pong_pending
    }

    /// A fresh connection with no probe outstanding.
    pub fn new() -> (r: Liveness)
        ensures
            !r.pending(),
    {
        Liveness { pong_pending: false }
    }

    /// The receive deadline to use now.
    pub fn recv_timeout_ms(&self) -> (r: u64)
        ensures
            self.pending() ==> r == CLIENT_PONG_MS,
            !self.pending() ==> r == CLIENT_IDLE_MS,
    {
        if self.pong_pending {
            CLIENT_PONG_MS
        } else {
            CLIENT_IDLE_MS
        }
    }

    /// A packet arrived: any outstanding probe is answered.
    pub fn on_packet(&mut self)
        ensures
            !final(self).pending(),
    {
        self.pong_pending = false;
    }

    /// The deadline passed: probe once, and give up if the probe itself
    /// went unanswered.
    pub fn on_timeout(&mut self) -> (r: TimeoutAction)
        ensures
            old(self).pending() ==> r == TimeoutAction::GiveUp && final(self).pending(),
            !old(self).pending() ==> r == TimeoutAction::SendPing && final(self).pending(),
    {
        if self.pong_pending {
            TimeoutAction::GiveUp
        } else {
            self.pong_pending = true;
            TimeoutAction::SendPing
        }
    }
}

} // verus!
