//! The server side of the application protocol: the device registry, the
//! per-client view state, and the rule that turns each event into at most
//! one message for a client.  Events are forwarded only for devices the
//! client has acknowledged through a `Sync`.

use crate::cdgram::Addr;
use crate::evdev_raw::input_id;
use crate::bitset::BitSet;
use crate::proto::{
    DeviceModel, InputDevice, InputDeviceUpdate, InputEvent, ClientMessage,
    ServerMessage, UpdateModel,
};
use vstd::prelude::*;

verus! {

/// Milliseconds of silence after the last reply before the server evicts a
/// client.
pub const SERVER_TIMEOUT_MS: u64 = 200;

/// What can reach the server's main loop.
pub enum Event {
    /// A decoded packet from a client.
    ClientPacket(ClientMessage),
    /// One raw event read from a local device.
    InputEvent((u32, InputEvent)),
    /// A local device went away.
    RemoveDevice(u32),
    /// A local device appeared.
    NewDevice((u32, InputDevice)),
}

/// What the registry holds for a device id.
pub open spec fn reg_lookup(reg: Seq<(u32, DeviceModel)>, id: u32) -> Option<
    DeviceModel,
>
    decreases reg.len(),
{
    if reg.len() == 0 {
        None
    } else if reg[0].0 == id {
        Some(reg[0].1)
    } else {
        reg_lookup(reg.drop_first(), id)
    }
}

/// Whether a claimed table mentions an id.
pub open spec fn claimed_has(claimed: Seq<(u32, DeviceModel)>, id: u32) -> bool {
    exists|i: int| 0 <= i < claimed.len() && (#[trigger] claimed[i]).0 == id
}

/// The corrections for the devices a client claimed: `Drop` for an id the
/// server lacks, `Update` with the server's description where it differs,
/// nothing where they agree.
pub open spec fn sync_part1(
    claimed: Seq<(u32, DeviceModel)>,
    reg: Seq<(u32, DeviceModel)>,
) -> Seq<(u32, UpdateModel)>
    decreases claimed.len(),
{
    if claimed.len() == 0 {
        Seq::empty()
    } else {
        sync_part1(claimed.drop_last(), reg) + sync_entry(claimed.last(), reg)
    }
}

pub open spec fn sync_entry(e: (u32, DeviceModel), reg: Seq<(u32, DeviceModel)>) -> Seq<
    (u32, UpdateModel),
> {
    match reg_lookup(reg, e.0) {
        None => seq![(e.0, UpdateModel::Drop)],
        Some(cur) => if cur != e.1 {
            seq![(e.0, UpdateModel::Update(cur))]
        } else {
            Seq::empty()
        },
    }
}

/// The announcements for the server devices the client did not claim.
pub open spec fn sync_part2(
    claimed: Seq<(u32, DeviceModel)>,
    reg: Seq<(u32, DeviceModel)>,
) -> Seq<(u32, UpdateModel)>
    decreases reg.len(),
{
    if reg.len() == 0 {
        Seq::empty()
    } else {
        sync_part2(claimed, reg.drop_last()) + (if claimed_has(claimed, reg.last().0) {
            Seq::empty()
        } else {
            seq![(reg.last().0, UpdateModel::Update(reg.last().1))]
        })
    }
}

/// The full `Sync` reply: corrections first, then the unclaimed devices.
pub open spec fn sync_reply(
    claimed: Seq<(u32, DeviceModel)>,
    reg: Seq<(u32, DeviceModel)>,
) -> Seq<(u32, UpdateModel)> {
    sync_part1(claimed, reg) + sync_part2(claimed, reg)
}

/// The server's registry of live local devices, keyed by a device id that
/// is the insertion index.
pub struct DeviceRegistry {
    entries: Vec<(u32, InputDevice)>,
}

impl View for DeviceRegistry {
    type V = Seq<(u32, DeviceModel)>;

    closed spec fn view(&self) -> Seq<(u32, DeviceModel)> {
        self.entries@.map_values(|e: (u32, InputDevice)| (e.0, e.1@))
    }
}

impl DeviceRegistry {
    /// An empty registry.
    pub fn new() -> (r: DeviceRegistry)
        ensures
            r@ == Seq::<(u32, DeviceModel)>::empty(),
    {
        let r = DeviceRegistry { entries: Vec::new() };
        proof {
            assert(r@ =~= Seq::<(u32, DeviceModel)>::empty());
        }
        r
    }

    /// How many devices are registered.
    pub fn len(&self) -> (r: usize)
        ensures
            r == self@.len(),
    {
        self.entries.len()
    }

    /// The id at a position.
    pub fn id_at(&self, i: usize) -> (r: u32)
        requires
            i < self@.len(),
        ensures
            r == self@[i as int].0,
    {
        self.entries[i].0
    }

    /// The device at a position.
    pub fn device_at(&self, i: usize) -> (r: &InputDevice)
        requires
            i < self@.len(),
        ensures
            r@ == self@[i as int].1,
    {
        &self.entries[i].1
    }

    /// The device registered under an id.
    pub fn get(&self, id: u32) -> (r: Option<&InputDevice>)
        ensures
            match r {
                Some(d) => reg_lookup(self@, id) == Some(d@),
                None => reg_lookup(self@, id) is None,
            },
    {
        let mut i: usize = 0;
        while i < self.entries.len()
            invariant
                i <= self.entries@.len(),
                forall|j: int| 0 <= j < i ==> (#[trigger] self@[j]).0 != id,
                self@.len() == self.entries@.len(),
            decreases self.entries@.len() - i,
        {
            if self.entries[i].0 == id {
                proof {
                    lemma_reg_lookup_at(self@, i as int, id);
                }
                return Some(&self.entries[i].1);
            }
            i = i + 1;
        }
        proof {
            lemma_reg_lookup_absent(self@, id);
        }
        None
    }

    /// Registers a device under a fresh id.
    pub fn insert(&mut self, id: u32, dev: InputDevice)
        requires
            reg_lookup(old(self)@, id) is None,
        ensures
            final(self)@ == old(self)@.push((id, dev@)),
    {
        self.entries.push((id, dev));
        proof {
            assert(self@ =~= old(self)@.push((id, dev@)));
        }
    }

    /// Unregisters the device under an id; nothing happens for an unknown
    /// id.
    pub fn remove(&mut self, id: u32)
        ensures
            reg_lookup(final(self)@, id) is None,
            forall|k: u32| k != id ==> #[trigger] reg_lookup(final(self)@, k)
                == reg_lookup(old(self)@, k),
    {
        let ghost s0 = self.entries@;
        let mut i: usize = 0;
        let mut out: Vec<(u32, InputDevice)> = Vec::new();
        while i < self.entries.len()
            invariant
                i <= self.entries@.len(),
                self.entries@ == s0,
                out@.map_values(|e: (u32, InputDevice)| (e.0, e.1@)) == reg_filter(
                    s0.map_values(|e: (u32, InputDevice)| (e.0, e.1@)).take(i as int),
                    id,
                ),
            decreases self.entries@.len() - i,
        {
            let (k, d) = (self.entries[i].0, self.entries[i].1.clone());
            if k != id {
                out.push((k, d));
            }
            proof {
                let mapped = s0.map_values(|e: (u32, InputDevice)| (e.0, e.1@));
                assert(mapped.take(i + 1).drop_last() =~= mapped.take(i as int));
                assert(out@.map_values(|e: (u32, InputDevice)| (e.0, e.1@))
                    =~= reg_filter(mapped.take(i + 1), id));
            }
            i = i + 1;
        }
        self.entries = out;
        proof {
            let mapped = s0.map_values(|e: (u32, InputDevice)| (e.0, e.1@));
            assert(mapped.take(mapped.len() as int) =~= mapped);
            lemma_reg_filter_lookup(mapped, id);
        }
    }
}

/// The entries of a registry that do not carry the given id.
pub open spec fn reg_filter(reg: Seq<(u32, DeviceModel)>, id: u32) -> Seq<
    (u32, DeviceModel),
>
    decreases reg.len(),
{
    if reg.len() == 0 {
        Seq::empty()
    } else {
        reg_filter(reg.drop_last(), id) + (if reg.last().0 == id {
            Seq::empty()
        } else {
            seq![reg.last()]
        })
    }
}

pub proof fn lemma_reg_lookup_at(reg: Seq<(u32, DeviceModel)>, i: int, id: u32)
    requires
        0 <= i < reg.len(),
        reg[i].0 == id,
        forall|j: int| 0 <= j < i ==> (#[trigger] reg[j]).0 != id,
    ensures
        reg_lookup(reg, id) == Some(reg[i].1),
    decreases i,
{
    if i > 0 {
        lemma_reg_lookup_at(reg.drop_first(), i - 1, id);
    }
}

pub proof fn lemma_reg_lookup_absent(reg: Seq<(u32, DeviceModel)>, id: u32)
    requires
        forall|j: int| 0 <= j < reg.len() ==> (#[trigger] reg[j]).0 != id,
    ensures
        reg_lookup(reg, id) is None,
    decreases reg.len(),
{
    if reg.len() > 0 {
        lemma_reg_lookup_absent(reg.drop_first(), id);
    }
}

/// Filtering an id out removes exactly that id's entries: a lookup of the
/// id fails, any other lookup is unchanged.
pub proof fn lemma_reg_filter_lookup(reg: Seq<(u32, DeviceModel)>, id: u32)
    ensures
        reg_lookup(reg_filter(reg, id), id) is None,
        forall|k: u32| k != id ==> #[trigger] reg_lookup(reg_filter(reg, id), k)
            == reg_lookup(reg, k),
    decreases reg.len(),
{
    if reg.len() == 0 {
    } else {
        lemma_reg_filter_lookup(reg.drop_last(), id);
        let f = reg_filter(reg, id);
        let fp = reg_filter(reg.drop_last(), id);
        lemma_reg_lookup_push_back(fp, reg.last(), id);
        assert forall|k: u32| k != id implies #[trigger] reg_lookup(f, k) == reg_lookup(
            reg,
            k,
        ) by {
            lemma_reg_lookup_push_back(fp, reg.last(), k);
            lemma_reg_lookup_push_back(reg.drop_last(), reg.last(), k);
            if reg.last().0 == id {
                assert(f =~= fp);
                assert(reg =~= reg.drop_last().push(reg.last()));
            } else {
                assert(f =~= fp.push(reg.last()));
                assert(reg =~= reg.drop_last().push(reg.last()));
            }
        }
        if reg.last().0 == id {
            assert(f =~= fp);
        } else {
            assert(f =~= fp.push(reg.last()));
            lemma_reg_lookup_push_back(fp, reg.last(), id);
        }
    }
}

/// A lookup in `s.push(e)`: the old result if there was one, else `e` if
/// it carries the id.
pub proof fn lemma_reg_lookup_push_back(
    s: Seq<(u32, DeviceModel)>,
    e: (u32, DeviceModel),
    id: u32,
)
    ensures
        reg_lookup(s.push(e), id) == (if reg_lookup(s, id) is Some {
            reg_lookup(s, id)
        } else if e.0 == id {
            Some(e.1)
        } else {
            None
        }),
    decreases s.len(),
{
    if s.len() == 0 {
        assert(s.push(e)[0] == e);
        assert(s.push(e).drop_first() =~= Seq::<(u32, DeviceModel)>::empty());
        assert(reg_lookup(s.push(e).drop_first(), id) is None);
    } else {
        assert(s.push(e)[0] == s[0]);
        assert(s.push(e).drop_first() =~= s.drop_first().push(e));
        lemma_reg_lookup_push_back(s.drop_first(), e, id);
    }
}

/// What the server keeps per active client: the devices the client has
/// acknowledged, and its address.  The liveness timer that belongs to it
/// is armed and cancelled by the loop outside.
pub struct ClientStates {
    synced_devices: Vec<u32>,
    pub addr: Addr,
}

impl ClientStates {
    /// The set of device ids the client has acknowledged.
    pub closed spec fn synced(&self) -> Seq<u32> {
        self.synced_devices@
    }

    /// The client's address.
    pub closed spec fn addr_spec(&self) -> Addr {
        self.addr
    }

    /// Whether the client has acknowledged a device id.
    pub open spec fn knows(&self, id: u32) -> bool {
        self.synced().contains(id)
    }

    /// A fresh client record that has acknowledged nothing.
    pub fn new(addr: Addr) -> (r: ClientStates)
        ensures
            r.synced() == Seq::<u32>::empty(),
            r.addr_spec() == addr,
    {
        ClientStates { synced_devices: Vec::new(), addr }
    }

    /// Computes this client's reply to one event, given the current device
    /// registry.
    ///
    /// A `Sync` is answered with the corrections and announcements of
    /// `sync_reply`, and the client is thereafter taken to know exactly
    /// the registry's ids.  A `KeepAlive` gets nothing, a `Ping` a `Pong`.
    /// Device arrivals and departures become one-entry `Sync` messages.
    /// An input event is forwarded exactly when the client knows its
    /// device id — never otherwise.
    pub fn handle_event(&mut self, event: &Event, devices: &DeviceRegistry) -> (r:
        Option<ServerMessage>)
        ensures
            final(self).addr_spec() == old(self).addr_spec(),
            match event {
                Event::ClientPacket(cm) => match cm {
                    ClientMessage::Sync(claimed) => {
                        &&& (r matches Some(sm) && sm matches ServerMessage::Sync(u)
                            && u@.map_values(
                            |e: (u32, InputDeviceUpdate)| (e.0, e.1@),
                        ) == sync_reply(
                            claimed@.map_values(
                                |e: (u32, InputDevice)| (e.0, e.1@),
                            ),
                            devices@,
                        ))
                        &&& final(self).synced().len() == devices@.len()
                        &&& forall|j: int|
                            0 <= j < devices@.len() ==> final(self).synced()[j] == (
                            #[trigger] devices@[j]).0
                    },
                    ClientMessage::KeepAlive => r is None && final(self).synced()
                        == old(self).synced(),
                    ClientMessage::Ping => r == Some(ServerMessage::Pong) && final(self).synced() == old(self).synced(),
                },
                Event::RemoveDevice(id) => {
                    &&& final(self).synced() == old(self).synced()
                    &&& r matches Some(sm) && sm matches ServerMessage::Sync(u)
                        && u@.map_values(|e: (u32, InputDeviceUpdate)| (e.0, e.1@))
                        == seq![(*id, UpdateModel::Drop)]
                },
                Event::NewDevice(p) => {
                    &&& final(self).synced() == old(self).synced()
                    &&& r matches Some(sm) && sm matches ServerMessage::Sync(u)
                        && u@.map_values(|e: (u32, InputDeviceUpdate)| (e.0, e.1@))
                        == seq![(p.0, UpdateModel::Update(p.1@))]
                },
                Event::InputEvent(p) => {
                    &&& final(self).synced() == old(self).synced()
                    &&& old(self).knows(p.0) ==> r == Some(
                        ServerMessage::Event((p.0, p.1)),
                    )
                    &&& !old(self).knows(p.0) ==> r is None
                },
            },
    {
        match event {
            Event::ClientPacket(cm) => match cm {
                ClientMessage::Sync(claimed) => {
                    let ghost cl = claimed@.map_values(
                        |e: (u32, InputDevice)| (e.0, e.1@),
                    );
                    let mut updates: Vec<(u32, InputDeviceUpdate)> = Vec::new();
                    let mut i: usize = 0;
                    proof {
                        assert(updates@.map_values(
                            |e: (u32, InputDeviceUpdate)| (e.0, e.1@),
                        ) =~= sync_part1(cl.take(0), devices@));
                    }
                    while i < claimed.len()
                        invariant
                            i <= claimed@.len(),
                            cl == claimed@.map_values(
                                |e: (u32, InputDevice)| (e.0, e.1@),
                            ),
                            updates@.map_values(
                                |e: (u32, InputDeviceUpdate)| (e.0, e.1@),
                            ) == sync_part1(cl.take(i as int), devices@),
                        decreases claimed@.len() - i,
                    {
                        let (id, dev) = (&claimed[i].0, &claimed[i].1);
                        match devices.get(*id) {
                            None => {
                                updates.push((*id, InputDeviceUpdate::Drop));
                            },
                            Some(cur) => {
                                if !cur.same_as(dev) {
                                    updates.push(
                                        (*id, InputDeviceUpdate::Update(cur.clone())),
                                    );
                                }
                            },
                        }
                        proof {
                            assert(cl.take(i + 1).drop_last() =~= cl.take(i as int));
                            assert(cl.take(i + 1).last() == cl[i as int]);
                            assert(updates@.map_values(
                                |e: (u32, InputDeviceUpdate)| (e.0, e.1@),
                            ) =~= sync_part1(cl.take(i + 1), devices@));
                        }
                        i = i + 1;
                    }
                    proof {
                        assert(cl.take(cl.len() as int) =~= cl);
                        assert(updates@.map_values(
                            |e: (u32, InputDeviceUpdate)| (e.0, e.1@),
                        ) =~= sync_part1(cl, devices@) + sync_part2(
                            cl,
                            devices@.take(0),
                        ));
                    }
                    let mut k: usize = 0;
                    let mut synced: Vec<u32> = Vec::new();
                    while k < devices.len()
                        invariant
                            k <= devices@.len(),
                            cl == claimed@.map_values(
                                |e: (u32, InputDevice)| (e.0, e.1@),
                            ),
                            synced@.len() == k,
                            forall|j: int| 0 <= j < k ==> synced@[j] == (
                            #[trigger] devices@[j]).0,
                            updates@.map_values(
                                |e: (u32, InputDeviceUpdate)| (e.0, e.1@),
                            ) == sync_part1(cl, devices@) + sync_part2(
                                cl,
                                devices@.take(k as int),
                            ),
                        decreases devices@.len() - k,
                    {
                        let id = devices.id_at(k);
                        let ghost mpre = updates@.map_values(
                            |e: (u32, InputDeviceUpdate)| (e.0, e.1@),
                        );
                        let ghost was_claimed = claimed_has(cl, devices@[k as int].0);
                        if !claimed_contains(claimed, id) {
                            let dev = devices.device_at(k);
                            updates.push((id, InputDeviceUpdate::Update(dev.clone())));
                            proof {
                                assert(updates@.map_values(
                                    |e: (u32, InputDeviceUpdate)| (e.0, e.1@),
                                ) =~= mpre.push(
                                    (
                                        devices@[k as int].0,
                                        UpdateModel::Update(devices@[k as int].1),
                                    ),
                                ));
                            }
                        }
                        synced.push(id);
                        proof {
                            let regk = devices@.take(k + 1);
                            assert(regk.drop_last() =~= devices@.take(k as int));
                            assert(regk.last() == devices@[k as int]);
                            assert(sync_part2(cl, regk) == sync_part2(
                                cl,
                                devices@.take(k as int),
                            ) + (if claimed_has(cl, devices@[k as int].0) {
                                Seq::<(u32, UpdateModel)>::empty()
                            } else {
                                seq![
                                    (
                                        devices@[k as int].0,
                                        UpdateModel::Update(devices@[k as int].1),
                                    ),
                                ]
                            }));
                            assert(updates@.map_values(
                                |e: (u32, InputDeviceUpdate)| (e.0, e.1@),
                            ) =~= sync_part1(cl, devices@) + sync_part2(cl, regk));
                        }
                        k = k + 1;
                    }
                    proof {
                        assert(devices@.take(devices@.len() as int) =~= devices@);
                    }
                    self.synced_devices = synced;
                    Some(ServerMessage::Sync(updates))
                },
                ClientMessage::KeepAlive => None,
                ClientMessage::Ping => Some(ServerMessage::Pong),
            },
            Event::RemoveDevice(id) => {
                let updates: Vec<(u32, InputDeviceUpdate)> = vec![
                    (*id, InputDeviceUpdate::Drop),
                ];
                proof {
                    assert(updates@.map_values(
                        |e: (u32, InputDeviceUpdate)| (e.0, e.1@),
                    ) =~= seq![(*id, UpdateModel::Drop)]);
                }
                Some(ServerMessage::Sync(updates))
            },
            Event::NewDevice(p) => {
                let updates: Vec<(u32, InputDeviceUpdate)> = vec![
                    (p.0, InputDeviceUpdate::Update(p.1.clone())),
                ];
                proof {
                    assert(updates@.map_values(
                        |e: (u32, InputDeviceUpdate)| (e.0, e.1@),
                    ) =~= seq![(p.0, UpdateModel::Update(p.1@))]);
                }
                Some(ServerMessage::Sync(updates))
            },
            Event::InputEvent(p) => {
                if contains_id(&self.synced_devices, p.0) {
                    Some(ServerMessage::Event((p.0, p.1)))
                } else {
                    None
                }
            },
        }
    }
}

/// Whether a claimed device table mentions an id.
fn claimed_contains(claimed: &Vec<(u32, InputDevice)>, id: u32) -> (r: bool)
    ensures
        r == claimed_has(claimed@.map_values(|e: (u32, InputDevice)| (e.0, e.1@)), id),
{
    let ghost cl = claimed@.map_values(|e: (u32, InputDevice)| (e.0, e.1@));
    let mut i: usize = 0;
    while i < claimed.len()
        invariant
            i <= claimed@.len(),
            cl == claimed@.map_values(|e: (u32, InputDevice)| (e.0, e.1@)),
            forall|j: int| 0 <= j < i ==> (#[trigger] cl[j]).0 != id,
        decreases claimed@.len() - i,
    {
        if claimed[i].0 == id {
            proof {
                assert(cl[i as int].0 == id);
            }
            return true;
        }
        i = i + 1;
    }
    false
}

/// Whether an id list contains an id.
fn contains_id(ids: &Vec<u32>, id: u32) -> (r: bool)
    ensures
        r == ids@.contains(id),
{
    let mut i: usize = 0;
    while i < ids.len()
        invariant
            i <= ids@.len(),
            forall|j: int| 0 <= j < i ==> ids@[j] != id,
        decreases ids@.len() - i,
    {
        if ids[i] == id {
            return true;
        }
        i = i + 1;
    }
    false
}

/// Builds the shared description of a local device from what the device
/// layer read: its name, capability bitsets, pressed keys, and identity.
pub fn get_device_state(
    id: u32,
    name: Vec<u8>,
    key_bits: BitSet,
    rel_bits: BitSet,
    cap: BitSet,
    key_vals: BitSet,
    dev_id: input_id,
) -> (r: (u32, InputDevice))
    ensures
        r.0 == id,
        r.1@ == (DeviceModel {
            key_bits: key_bits@,
            rel_bits: rel_bits@,
            cap: cap@,
            name: name@,
            key_vals: key_vals@,
            vendor: dev_id.vendor,
            product: dev_id.product,
            version: dev_id.version,
        }),
{
    (
        id,
        InputDevice {
            key_bits,
            rel_bits,
            cap,
            name,
            key_vals,
            vendor: dev_id.vendor,
            product: dev_id.product,
            version: dev_id.version,
        },
    )
}

/// The per-client liveness timer rule the server's loop follows.  After
/// every successfully sent reply a fresh timer is armed and identified by
/// a token; any packet from the client defuses whatever timer is pending;
/// a fired timer evicts the client only while it is the armed, current
/// one.  Tokens of superseded timers therefore never evict, and a client
/// that keeps sending — if only `KeepAlive` — is never evicted by a timer
/// armed before its last packet.
pub struct ClientTimer {
    armed: bool,
    generation: u64,
}

impl ClientTimer {
    /// Whether a timer is pending.
    pub closed spec fn armed_spec(&self) -> bool {
        self.armed
    }

    /// The token of the most recently armed timer.
    pub closed spec fn gen_spec(&self) -> u64 {
        self.generation
    }

    /// A fresh client: nothing armed.
    pub fn new() -> (r: ClientTimer)
        ensures
            !r.armed_spec(),
    {
        ClientTimer { armed: false, generation: 0 }
    }

    /// A packet arrived from the client: the pending timer is defused.
    /// Every outstanding token stops evicting.
    pub fn on_client_packet(&mut self)
        ensures
            !final(self).armed_spec(),
            final(self).gen_spec() == old(self).gen_spec(),
    {
        self.armed = false;
    }

    /// A reply went out: arm a fresh timer and hand its token to the
    /// caller's alarm.  The token differs from every earlier one until the
    /// counter wraps.
    pub fn on_reply_sent(&mut self) -> (r: u64)
        ensures
            final(self).armed_spec(),
            r == final(self).gen_spec(),
            final(self).gen_spec() != old(self).gen_spec(),
    {
        if self.generation == u64::MAX {
            self.generation = 0;
        } else {
            self.generation = self.generation + 1;
        }
        self.armed = true;
        self.generation
    }

    /// An alarm fired with its token: evict exactly when that timer is
    /// still the armed, current one.
    pub fn should_evict(&self, token: u64) -> (r: bool)
        ensures
            r == (self.armed_spec() && token == self.gen_spec()),
    {
        self.armed && token == self.generation
    }
}

} // verus!
