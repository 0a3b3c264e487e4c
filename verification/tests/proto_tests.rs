//! The application protocol: the server's per-client event handling, the
//! client's device-table updates, raw event records, and liveness.

use entangle::bitset::BitSet;
use entangle::cdgram::Addr;
use entangle::client_proto::{
    event_record, needs_flush, ClientDevices, DeviceAction, Liveness, TimeoutAction,
    CLIENT_IDLE_MS, CLIENT_PONG_MS,
};
use entangle::proto::{ClientMessage, InputDevice, InputDeviceUpdate, InputEvent, ServerMessage};
use entangle::server_proto::{ClientStates, ClientTimer, DeviceRegistry, Event};

fn sample_device(name: &[u8]) -> InputDevice {
    let mut key_bits = BitSet::with_capacity(64);
    key_bits.insert(30);
    let mut cap = BitSet::with_capacity(32);
    cap.insert(1);
    InputDevice {
        key_bits,
        rel_bits: BitSet::with_capacity(32),
        cap,
        name: name.to_vec(),
        key_vals: BitSet::with_capacity(64),
        vendor: 0x46d,
        product: 0xc52b,
        version: 1,
    }
}

fn addr() -> Addr {
    Addr { ip: 10, port: 7 }
}

/// The device lifecycle: an empty `Sync` is answered with the registry,
/// and only afterwards are events forwarded.
#[test]
fn device_lifecycle() {
    let mut devices = DeviceRegistry::new();
    devices.insert(0, sample_device(b"kbd"));
    let mut client = ClientStates::new(addr());

    // Before any sync, events are withheld.
    let ev = InputEvent { type_: 1, code: 30, value: 1 };
    assert_eq!(client.handle_event(&Event::InputEvent((0, ev)), &devices), None);

    // An empty sync is answered with the one device.
    let reply = client
        .handle_event(&Event::ClientPacket(ClientMessage::Sync(Vec::new())), &devices)
        .unwrap();
    match reply {
        ServerMessage::Sync(updates) => {
            assert_eq!(updates.len(), 1);
            assert_eq!(updates[0].0, 0);
            match &updates[0].1 {
                InputDeviceUpdate::Update(d) => assert_eq!(d.name, b"kbd".to_vec()),
                _ => panic!("a fresh device is announced as an update"),
            }
        },
        _ => panic!("a sync is answered with a sync"),
    }

    // Now the event is forwarded, and a following syn flushes.
    let fwd = client.handle_event(&Event::InputEvent((0, ev)), &devices).unwrap();
    assert_eq!(fwd, ServerMessage::Event((0, ev)));
    let rec = event_record(&ev);
    assert_eq!(rec.len(), 24);
    assert!(!needs_flush(&ev));
    let syn = InputEvent { type_: 0, code: 0, value: 0 };
    assert!(needs_flush(&syn));
}

/// A claimed device the server lacks is dropped; a changed one is
/// corrected; an unknown event id is withheld.
#[test]
fn sync_corrections() {
    let mut devices = DeviceRegistry::new();
    devices.insert(0, sample_device(b"kbd"));
    let mut client = ClientStates::new(addr());

    let mut stale = sample_device(b"kbd");
    stale.vendor = 0xdead;
    let claimed = vec![(0u32, stale), (9u32, sample_device(b"ghost"))];
    let reply = client
        .handle_event(&Event::ClientPacket(ClientMessage::Sync(claimed)), &devices)
        .unwrap();
    match reply {
        ServerMessage::Sync(updates) => {
            assert_eq!(updates.len(), 2);
            assert_eq!(updates[0].0, 0);
            assert!(matches!(updates[0].1, InputDeviceUpdate::Update(_)));
            assert_eq!(updates[1].0, 9);
            assert!(matches!(updates[1].1, InputDeviceUpdate::Drop));
        },
        _ => panic!(),
    }

    // Events for ids outside the registry's key set are withheld.
    let ev = InputEvent { type_: 1, code: 30, value: 1 };
    assert_eq!(client.handle_event(&Event::InputEvent((9, ev)), &devices), None);
    assert!(client.handle_event(&Event::InputEvent((0, ev)), &devices).is_some());
}

/// `KeepAlive`, `Ping`, and the device arrival and departure events.
#[test]
fn small_events() {
    let devices = DeviceRegistry::new();
    let mut client = ClientStates::new(addr());
    assert_eq!(
        client.handle_event(&Event::ClientPacket(ClientMessage::KeepAlive), &devices),
        None
    );
    assert_eq!(
        client.handle_event(&Event::ClientPacket(ClientMessage::Ping), &devices),
        Some(ServerMessage::Pong)
    );
    let dev = sample_device(b"new");
    match client.handle_event(&Event::NewDevice((3, dev)), &devices) {
        Some(ServerMessage::Sync(u)) => {
            assert_eq!(u.len(), 1);
            assert_eq!(u[0].0, 3);
            assert!(matches!(u[0].1, InputDeviceUpdate::Update(_)));
        },
        _ => panic!(),
    }
    match client.handle_event(&Event::RemoveDevice(3), &devices) {
        Some(ServerMessage::Sync(u)) => {
            assert_eq!(u.len(), 1);
            assert_eq!(u[0].0, 3);
            assert!(matches!(u[0].1, InputDeviceUpdate::Drop));
        },
        _ => panic!(),
    }
}

/// The client's device table: create, keep, recreate, remove.
#[test]
fn apply_update_actions() {
    let mut table = ClientDevices::new();
    let dev = sample_device(b"kbd");
    assert_eq!(
        table.apply_update(0, InputDeviceUpdate::Update(dev)),
        DeviceAction::Create
    );
    assert!(table.knows(0));

    // The same descriptor again: keep, even if the pressed keys moved.
    let mut same = sample_device(b"kbd");
    same.key_vals.insert(30);
    assert_eq!(
        table.apply_update(0, InputDeviceUpdate::Update(same)),
        DeviceAction::Keep
    );

    // A changed descriptor: recreate.
    let mut renamed = sample_device(b"kbd2");
    renamed.name = b"kbd2".to_vec();
    assert_eq!(
        table.apply_update(0, InputDeviceUpdate::Update(renamed)),
        DeviceAction::Recreate
    );

    assert_eq!(table.apply_update(0, InputDeviceUpdate::Drop), DeviceAction::Remove);
    assert!(!table.knows(0));
}

/// The liveness rule: a quiet server is pinged after the long deadline;
/// an unanswered ping after the short one ends the connection.
#[test]
fn liveness_rule() {
    let mut live = Liveness::new();
    assert_eq!(live.recv_timeout_ms(), CLIENT_IDLE_MS);
    assert_eq!(CLIENT_IDLE_MS, 1000);
    assert_eq!(live.on_timeout(), TimeoutAction::SendPing);
    assert_eq!(live.recv_timeout_ms(), CLIENT_PONG_MS);
    assert_eq!(CLIENT_PONG_MS, 200);
    // A pong (any packet) clears the probe.
    live.on_packet();
    assert_eq!(live.recv_timeout_ms(), CLIENT_IDLE_MS);
    // Two deadlines with nothing in between: give up.
    assert_eq!(live.on_timeout(), TimeoutAction::SendPing);
    assert_eq!(live.on_timeout(), TimeoutAction::GiveUp);
}

/// The server-side timer rule: a packet — a `KeepAlive` included — defuses
/// the pending timer, and only the armed, current token evicts.
#[test]
fn server_timer_rule() {
    let mut timer = ClientTimer::new();
    assert!(!timer.should_evict(0));

    let t1 = timer.on_reply_sent();
    assert!(timer.should_evict(t1));

    // A client packet arrives before the alarm fires: defused.
    timer.on_client_packet();
    assert!(!timer.should_evict(t1));

    // A new reply arms a fresh timer; the stale token stays dead.
    let t2 = timer.on_reply_sent();
    assert_ne!(t1, t2);
    assert!(!timer.should_evict(t1));
    assert!(timer.should_evict(t2));
}
