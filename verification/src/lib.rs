//! A bridge from a datagram-borne control protocol to a hardware device
//! protocol. Datagrams are decoded into control packets (single messages or
//! nested bundles), bundles are flattened in order, recognized addresses are
//! routed, and matching float arguments become fixed three-byte
//! controller-change device messages. Decoding, routing, flattening and
//! device-selection policy live here; sockets and the device connection are
//! the caller's concern.

use vstd::prelude::*;

pub mod packet;
pub mod wire;
pub mod codec;
pub mod device;
pub mod router;
pub mod dispatch;
pub mod laws;

verus! {

/// The failures the pipeline distinguishes.
///
/// `MalformedPacket` is decode-time and recoverable: the datagram is dropped.
/// `NoDeviceAvailable` is fatal at startup: the pipeline has no sink.
/// `DeviceWriteFailed` is a runtime device-write failure; the dispatcher
/// keeps running. `SocketBindFailed` and `SocketReceiveFailed` end the
/// listener.
#[derive(Clone, Copy, Debug, PartialEq, Eq, Structural)]
pub enum PipelineError {
    MalformedPacket,
    NoDeviceAvailable,
    DeviceWriteFailed,
    SocketBindFailed,
    SocketReceiveFailed,
}

} // verus!
