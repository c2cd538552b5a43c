//! The structured form of decoded traffic: control messages (an address plus
//! typed arguments), control packets (a message or a nested bundle of
//! packets), and sourced packets (a packet tagged with the origin it arrived
//! on).
//!
//! Addresses and string arguments are kept as their wire bytes. Float
//! arguments are kept as the 32-bit wide big-endian bit pattern read from the
//! wire, so the structured form is exact and round-trips byte-for-byte.

use vstd::prelude::*;

verus! {

/// A bundle timestamp: seconds and fraction words, as carried on the wire.
#[derive(Clone, Copy, Debug, PartialEq, Eq, Structural)]
pub struct TimeTag {
    pub seconds: u32,
    pub fraction: u32,
}

/// One typed argument of a control message.
///
/// `Float` holds the argument's 32-bit wide bit pattern (sign, exponent,
/// mantissa as read from the wire). `Unrecognized` is the catch-all for type
/// tags the system can frame but does not interpret: the tag byte plus the
/// raw payload bytes it covers.
#[derive(Clone, Debug, PartialEq, Eq)]
pub enum ControlArg {
    Int(i32),
    Float(u32),
    Str(Vec<u8>),
    Bool(bool),
    Blob(Vec<u8>),
    Unrecognized(u8, Vec<u8>),
}

/// A control message: a hierarchical address pattern plus its arguments, in
/// wire order.
#[derive(Clone, Debug, PartialEq, Eq)]
pub struct ControlMessage {
    pub addr: Vec<u8>,
    pub args: Vec<ControlArg>,
}

/// A control packet: a single message, or a bundle — a timestamp plus an
/// ordered sequence of nested packets (bundles are trees and may nest
/// arbitrarily).
#[derive(Debug)]
pub enum ControlPacket {
    Message(ControlMessage),
    Bundle(TimeTag, Vec<ControlPacket>),
}

/// A control packet tagged with the integer origin identifier (the listening
/// port) it arrived on; the router's match key includes the origin.
#[derive(Debug)]
pub struct SourcedPacket {
    pub origin: u16,
    pub packet: ControlPacket,
}

/// Mathematical form of a `ControlArg`.
#[verifier::ext_equal]
pub enum ArgView {
    Int(i32),
    Float(u32),
    Str(Seq<u8>),
    Bool(bool),
    Blob(Seq<u8>),
    Unrecognized(u8, Seq<u8>),
}

/// Mathematical form of a `ControlMessage`.
#[verifier::ext_equal]
pub struct MsgView {
    pub addr: Seq<u8>,
    pub args: Seq<ArgView>,
}

/// Mathematical form of a `ControlPacket`.
#[verifier::ext_equal]
pub enum PacketView {
    Message(MsgView),
    Bundle(TimeTag, Seq<PacketView>),
}

impl View for ControlArg {
    type V = ArgView;

    open spec fn view(&self) -> ArgView {
        match self {
            ControlArg::Int(v) => ArgView::Int(*v),
            ControlArg::Float(bits) => ArgView::Float(*bits),
            ControlArg::Str(s) => ArgView::Str(s@),
            ControlArg::Bool(b) => ArgView::Bool(*b),
            ControlArg::Blob(b) => ArgView::Blob(b@),
            ControlArg::Unrecognized(t, d) => ArgView::Unrecognized(*t, d@),
        }
    }
}

/// Mathematical form of a sequence of `ControlArg`s, element by element.
pub open spec fn args_view(s: Seq<ControlArg>) -> Seq<ArgView> {
    s.map_values(|a: ControlArg| a@)
}

/// Mathematical form of a sequence of `ControlMessage`s, element by element.
pub open spec fn msgs_view(s: Seq<ControlMessage>) -> Seq<MsgView> {
    s.map_values(|m: ControlMessage| m@)
}

impl View for ControlMessage {
    type V = MsgView;

    open spec fn view(&self) -> MsgView {
        MsgView { addr: self.addr@, args: args_view(self.args@) }
    }
}

/// Mathematical form of a `ControlPacket`, recursively.
pub open spec fn packet_view(p: ControlPacket) -> PacketView
    decreases p,
{
    match p {
        ControlPacket::Message(m) => PacketView::Message(m@),
        ControlPacket::Bundle(tt, elems) => PacketView::Bundle(tt, packets_view(elems@)),
    }
}

/// Mathematical form of a sequence of `ControlPacket`s, element by element.
pub open spec fn packets_view(s: Seq<ControlPacket>) -> Seq<PacketView>
    decreases s,
{
    if s.len() == 0 {
        Seq::empty()
    } else {
        seq![packet_view(s[0])] + packets_view(s.subrange(1, s.len() as int))
    }
}

impl View for ControlPacket {
    type V = PacketView;

    open spec fn view(&self) -> PacketView {
        packet_view(*self)
    }
}

impl View for SourcedPacket {
    type V = (u16, PacketView);

    open spec fn view(&self) -> (u16, PacketView) {
        (self.origin, self.packet@)
    }
}

/// Payload width, in bytes, of a recognized-but-uninterpreted type tag;
/// `None` for tags the decoder rejects outright.
pub open spec fn unrec_payload_len(tag: u8) -> Option<int> {
    if tag == 0x68 || tag == 0x74 || tag == 0x64 {
        // 'h', 't', 'd': 64-bit payloads
        Some(8int)
    } else if tag == 0x63 || tag == 0x72 || tag == 0x6d {
        // 'c', 'r', 'm': 32-bit payloads
        Some(4int)
    } else if tag == 0x4e || tag == 0x49 {
        // 'N', 'I': no payload
        Some(0int)
    } else {
        None
    }
}

/// A well-formed address: non-empty, starts with the path separator '/',
/// and free of NUL bytes (NUL terminates the address on the wire).
pub open spec fn wf_addr(addr: Seq<u8>) -> bool {
    &&& addr.len() >= 1
    &&& addr[0] == 0x2f
    &&& forall|i: int| 0 <= i < addr.len() ==> addr[i] != 0
}

/// A well-formed argument: string arguments are NUL-free, blob lengths fit
/// the wire's signed 32-bit size field, and an unrecognized argument carries
/// exactly the payload its tag covers.
pub open spec fn wf_arg(a: ArgView) -> bool {
    match a {
        ArgView::Int(_) => true,
        ArgView::Float(_) => true,
        ArgView::Str(s) => forall|i: int| 0 <= i < s.len() ==> s[i] != 0,
        ArgView::Bool(_) => true,
        ArgView::Blob(b) => b.len() <= 0x7fff_ffff,
        ArgView::Unrecognized(t, d) => unrec_payload_len(t) == Some(d.len() as int),
    }
}

/// A well-formed control message: well-formed address and arguments.
pub open spec fn wf_msg(m: MsgView) -> bool {
    &&& wf_addr(m.addr)
    &&& forall|i: int| 0 <= i < m.args.len() ==> wf_arg(#[trigger] m.args[i])
}

} // verus!
