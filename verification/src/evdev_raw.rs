//! The kernel input-subsystem data structures the daemon exchanges with
//! its device layer: identity and force-feedback records, as plain data.
//! The ioctl calls that fill them live outside this crate.

use vstd::prelude::*;

verus! {

/// Bus, vendor, product and version of an input device.
#[derive(Clone, Copy, Debug, PartialEq, Eq, Structural)]
pub struct input_id {
    pub bustype: u16,
    pub vendor: u16,
    pub product: u16,
    pub version: u16,
}

impl Default for input_id {
    fn default() -> (r: Self)
        ensures
            r.bustype == 0 && r.vendor == 0 && r.product == 0 && r.version == 0,
    {
        input_id { bustype: 0, vendor: 0, product: 0, version: 0 }
    }
}

/// Scheduling of a force-feedback effect.
#[derive(Clone, Copy, Debug, PartialEq, Eq, Structural)]
pub struct ff_replay {
    pub length: u16,
    pub delay: u16,
}

impl Default for ff_replay {
    fn default() -> (r: Self)
        ensures
            r.length == 0 && r.delay == 0,
    {
        ff_replay { length: 0, delay: 0 }
    }
}

/// What triggers a force-feedback effect.
#[derive(Clone, Copy, Debug, PartialEq, Eq, Structural)]
pub struct ff_trigger {
    pub button: u16,
    pub interval: u16,
}

impl Default for ff_trigger {
    fn default() -> (r: Self)
        ensures
            r.button == 0 && r.interval == 0,
    {
        ff_trigger { button: 0, interval: 0 }
    }
}

/// Attack and fade of a force-feedback effect.
#[derive(Clone, Copy, Debug, PartialEq, Eq, Structural)]
pub struct ff_envelope {
    pub attack_length: u16,
    pub attack_level: u16,
    pub fade_length: u16,
    pub fade_level: u16,
}

impl Default for ff_envelope {
    fn default() -> (r: Self)
        ensures
            r.attack_length == 0 && r.attack_level == 0 && r.fade_length == 0
                && r.fade_level == 0,
    {
        ff_envelope { attack_length: 0, attack_level: 0, fade_length: 0, fade_level: 0 }
    }
}

/// A constant-force effect.
#[derive(Clone, Copy, Debug, PartialEq, Eq, Structural)]
pub struct ff_constant_effect {
    pub level: i16,
    pub envelope: ff_envelope,
}

impl Default for ff_constant_effect {
    fn default() -> (r: Self)
        ensures
            r.level == 0 && r.envelope == (ff_envelope { attack_length: 0, attack_level: 0, fade_length: 0, fade_level: 0 }),
    {
        ff_constant_effect { level: 0, envelope: Default::default() }
    }
}

/// A ramp effect.
#[derive(Clone, Copy, Debug, PartialEq, Eq, Structural)]
pub struct ff_ramp_effect {
    pub start_level: i16,
    pub end_level: i16,
    pub envelope: ff_envelope,
}

impl Default for ff_ramp_effect {
    fn default() -> (r: Self)
        ensures
            r.start_level == 0 && r.end_level == 0 && r.envelope == (ff_envelope {
                attack_length: 0,
                attack_level: 0,
                fade_length: 0,
                fade_level: 0,
            }),
    {
        ff_ramp_effect { start_level: 0, end_level: 0, envelope: Default::default() }
    }
}

/// A spring- or friction-like effect.
#[derive(Clone, Copy, Debug, PartialEq, Eq, Structural)]
pub struct ff_condition_effect {
    pub right_saturation: u16,
    pub left_saturation: u16,
    pub right_coeff: i16,
    pub left_coeff: i16,
    pub deadband: u16,
    pub center: i16,
}

impl Default for ff_condition_effect {
    fn default() -> (r: Self)
        ensures
            r.right_saturation == 0 && r.left_saturation == 0 && r.right_coeff == 0
                && r.left_coeff == 0 && r.deadband == 0 && r.center == 0,
    {
        ff_condition_effect {
            right_saturation: 0,
            left_saturation: 0,
            right_coeff: 0,
            left_coeff: 0,
            deadband: 0,
            center: 0,
        }
    }
}

/// A periodic (waveform) effect.  The kernel structure ends with a pointer
/// to custom waveform data; only its length is represented here.
#[derive(Clone, Copy, Debug, PartialEq, Eq, Structural)]
pub struct ff_periodic_effect {
    pub waveform: u16,
    pub period: u16,
    pub magnitude: i16,
    pub offset: i16,
    pub phase: u16,
    pub envelope: ff_envelope,
    pub custom_len: u32,
}

impl Default for ff_periodic_effect {
    fn default() -> (r: Self)
        ensures
            r.waveform == 0 && r.period == 0 && r.magnitude == 0 && r.offset == 0
                && r.phase == 0 && r.envelope == (ff_envelope {
                attack_length: 0,
                attack_level: 0,
                fade_length: 0,
                fade_level: 0,
            }) && r.custom_len == 0,
    {
        ff_periodic_effect {
            waveform: 0,
            period: 0,
            magnitude: 0,
            offset: 0,
            phase: 0,
            envelope: Default::default(),
            custom_len: 0,
        }
    }
}

/// A rumble effect.
#[derive(Clone, Copy, Debug, PartialEq, Eq, Structural)]
pub struct ff_rumble_effect {
    pub strong_magnitude: u16,
    pub weak_magnitude: u16,
}

impl Default for ff_rumble_effect {
    fn default() -> (r: Self)
        ensures
            r.strong_magnitude == 0 && r.weak_magnitude == 0,
    {
        ff_rumble_effect { strong_magnitude: 0, weak_magnitude: 0 }
    }
}

/// The effect-specific payload of `ff_effect`, kept as the raw words the
/// kernel sees; which effect structure they spell depends on `_type`.
#[derive(Clone, Copy, Debug, PartialEq, Eq)]
pub struct Union_Unnamed16 {
    pub _bindgen_data_: [u64; 4],
}

impl Default for Union_Unnamed16 {
    fn default() -> (r: Self)
        ensures
            r._bindgen_data_@ =~= seq![0u64, 0u64, 0u64, 0u64],
    {
        Union_Unnamed16 { _bindgen_data_: [0, 0, 0, 0] }
    }
}

/// One force-feedback effect as uploaded to a device.
#[derive(Clone, Copy, Debug, PartialEq, Eq)]
pub struct ff_effect {
    pub _type: u16,
    pub id: i16,
    pub direction: u16,
    pub trigger: ff_trigger,
    pub replay: ff_replay,
    pub u: Union_Unnamed16,
}

/// A keymap entry as read from or written to a device.
#[derive(Clone, Copy, Debug, PartialEq, Eq)]
pub struct input_keymap_entry {
    pub flags: u8,
    pub len: u8,
    pub index: u16,
    pub keycode: u32,
    pub scancode: [u8; 32],
}

impl Default for input_keymap_entry {
    fn default() -> (r: Self)
        ensures
            r.flags == 0 && r.len == 0 && r.index == 0 && r.keycode == 0,
    {
        input_keymap_entry { flags: 0, len: 0, index: 0, keycode: 0, scancode: [0; 32] }
    }
}

/// The range and tuning of an absolute axis.
#[derive(Clone, Copy, Debug, PartialEq, Eq, Structural)]
pub struct input_absinfo {
    pub value: i32,
    pub minimum: i32,
    pub maximum: i32,
    pub fuzz: i32,
    pub flat: i32,
    pub resolution: i32,
}

impl Default for input_absinfo {
    fn default() -> (r: Self)
        ensures
            r.value == 0 && r.minimum == 0 && r.maximum == 0 && r.fuzz == 0 && r.flat
                == 0 && r.resolution == 0,
    {
        input_absinfo { value: 0, minimum: 0, maximum: 0, fuzz: 0, flat: 0, resolution: 0 }
    }
}

} // verus!
