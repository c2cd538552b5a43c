//! Device messages and the device-selection policy.
//!
//! A device message is a fixed three-byte command: a status byte naming the
//! kind (note-on, note-off, controller-change) and two data bytes. Device
//! data bytes carry values 0..=127; out-of-range inputs are clamped to 127,
//! uniformly for every message kind.

use vstd::prelude::*;
use crate::PipelineError;

verus! {

/// Status byte of a note-on device message.
pub const NOTE_ON_STATUS: u8 = 0x90;
/// Status byte of a note-off device message.
pub const NOTE_OFF_STATUS: u8 = 0x80;
/// Status byte of a controller-change device message.
pub const CONTROL_CHANGE_STATUS: u8 = 0xB0;

/// A fixed three-byte device command, value-typed.
#[derive(Clone, Copy, Debug, PartialEq, Eq, Structural)]
pub struct DeviceMessage {
    pub status: u8,
    pub data1: u8,
    pub data2: u8,
}

/// The clamping policy for device data bytes: values above 127 become 127.
pub open spec fn clamp_data(x: u8) -> u8 {
    if x > 127 { 127 } else { x }
}

pub open spec fn spec_note_on(note: u8, velocity: u8) -> DeviceMessage {
    DeviceMessage { status: NOTE_ON_STATUS, data1: clamp_data(note), data2: clamp_data(velocity) }
}

pub open spec fn spec_note_off(note: u8, velocity: u8) -> DeviceMessage {
    DeviceMessage { status: NOTE_OFF_STATUS, data1: clamp_data(note), data2: clamp_data(velocity) }
}

pub open spec fn spec_control_change(controller: u8, value: u8) -> DeviceMessage {
    DeviceMessage {
        status: CONTROL_CHANGE_STATUS,
        data1: clamp_data(controller),
        data2: clamp_data(value),
    }
}

/// Clamp a byte into the device's 0..=127 data range.
pub fn clamp_to_data_range(x: u8) -> (r: u8)
    ensures
        r == clamp_data(x),
{
    if x > 127 { 127 } else { x }
}

/// Encode a note-on command for the given note and velocity.
pub fn encode_note_on(note: u8, velocity: u8) -> (r: DeviceMessage)
    ensures
        r == spec_note_on(note, velocity),
{
    DeviceMessage {
        status: NOTE_ON_STATUS,
        data1: clamp_to_data_range(note),
        data2: clamp_to_data_range(velocity),
    }
}

/// Encode a note-off command for the given note and velocity.
pub fn encode_note_off(note: u8, velocity: u8) -> (r: DeviceMessage)
    ensures
        r == spec_note_off(note, velocity),
{
    DeviceMessage {
        status: NOTE_OFF_STATUS,
        data1: clamp_to_data_range(note),
        data2: clamp_to_data_range(velocity),
    }
}

/// Encode a controller-change command for the given controller and value.
pub fn encode_control_change(controller: u8, value: u8) -> (r: DeviceMessage)
    ensures
        r == spec_control_change(controller, value),
{
    DeviceMessage {
        status: CONTROL_CHANGE_STATUS,
        data1: clamp_to_data_range(controller),
        data2: clamp_to_data_range(value),
    }
}

impl DeviceMessage {
    /// The three bytes written to the device, in wire order.
    pub fn to_bytes(&self) -> (r: Vec<u8>)
        ensures
            r@ =~= seq![self.status, self.data1, self.data2],
    {
        let mut out: Vec<u8> = Vec::new();
        out.push(self.status);
        out.push(self.data1);
        out.push(self.data2);
        out
    }
}

/// Deterministic device selection over an enumeration of `device_count`
/// output devices: zero devices is a fatal `NoDeviceAvailable`; otherwise the
/// first device in enumeration order (index 0) is chosen, so repeated runs
/// against the same enumeration pick the same device and never block on
/// input.
pub fn select_device(device_count: usize) -> (r: Result<usize, PipelineError>)
    ensures
        device_count == 0 <==> r == Err::<usize, PipelineError>(PipelineError::NoDeviceAvailable),
        device_count > 0 <==> r == Ok::<usize, PipelineError>(0usize),
{
    if device_count == 0 {
        Err(PipelineError::NoDeviceAvailable)
    } else {
        Ok(0)
    }
}

} // verus!
