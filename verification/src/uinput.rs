//! The uinput device-setup record and its construction from a shared
//! device description.  The ioctl that hands it to the kernel lives
//! outside this crate.

use crate::evdev_raw::input_id;
use crate::proto::InputDevice;
use vstd::prelude::*;

verus! {

/// The kernel's limit on a uinput device name.
pub const UINPUT_MAX_NAME_SIZE: usize = 80;

/// The USB bus type, the identity every recreated device reports.
pub const BUS_USB: u16 = 3;

/// The record `UI_DEV_SETUP` takes: identity, a fixed-size name buffer,
/// and the force-feedback effect limit.
#[derive(Clone, Copy, Debug)]
pub struct uinput_setup {
    pub id: input_id,
    pub name: [u8; UINPUT_MAX_NAME_SIZE],
    pub ff_effects_max: u32,
}

/// Builds the setup record for a device description: USB bus type, the
/// device's vendor, product and version, the name copied into the buffer
/// with zero padding, and no force-feedback effects.  A name longer than
/// the buffer is refused.
pub fn make_uinput_setup(state: &InputDevice) -> (r: Option<uinput_setup>)
    ensures
        r is Some <==> state.name@.len() <= UINPUT_MAX_NAME_SIZE,
        r matches Some(u) ==> {
            &&& u.id.bustype == BUS_USB
            &&& u.id.vendor == state.vendor
            &&& u.id.product == state.product
            &&& u.id.version == state.version
            &&& u.ff_effects_max == 0
            &&& forall|i: int|
                0 <= i < state.name@.len() ==> u.name@[i] == state.name@[i]
            &&& forall|i: int|
                state.name@.len() <= i < UINPUT_MAX_NAME_SIZE ==> u.name@[i] == 0u8
        },
{
    if state.name.len() > UINPUT_MAX_NAME_SIZE {
        return None;
    }
    let mut name: [u8; UINPUT_MAX_NAME_SIZE] = [0; UINPUT_MAX_NAME_SIZE];
    let mut i: usize = 0;
    while i < state.name.len()
        invariant
            i <= state.name@.len(),
            state.name@.len() <= UINPUT_MAX_NAME_SIZE,
            name@.len() == UINPUT_MAX_NAME_SIZE,
            forall|j: int| 0 <= j < i ==> name@[j] == state.name@[j],
            forall|j: int| i <= j < UINPUT_MAX_NAME_SIZE ==> name@[j] == 0u8,
        decreases state.name@.len() - i,
    {
        name[i] = state.name[i];
        i = i + 1;
    }
    Some(
        uinput_setup {
            id: input_id {
                bustype: BUS_USB,
                vendor: state.vendor,
                product: state.product,
                version: state.version,
            },
            name,
            ff_effects_max: 0,
        },
    )
}

} // verus!
