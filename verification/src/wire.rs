//! The wire format of the control protocol, stated mathematically.
//!
//! A datagram is either a single message — a NUL-terminated, four-byte-padded
//! address string, a comma-led type-tag string framed the same way, then the
//! argument payloads in tag order — or a bundle: an eight-byte marker, an
//! eight-byte timestamp, then size-prefixed nested packets. The parse
//! functions here are the definition of validity: the executable decoder
//! returns exactly what they say, and any deviation from the framing is a
//! malformed packet.

use vstd::prelude::*;
use crate::packet::ArgView;
use crate::packet::MsgView;
use crate::packet::PacketView;
use crate::packet::TimeTag;
use crate::packet::unrec_payload_len;

verus! {

/// Round `n` up to the next multiple of four (the wire's padding rule).
pub open spec fn pad4(n: int) -> int {
    ((n + 3) / 4) * 4
}

/// The big-endian 32-bit word whose bytes sit at `pos..pos + 4`.
pub open spec fn be32_at(data: Seq<u8>, pos: int) -> u32 {
    ((data[pos] as u32) << 24) | ((data[pos + 1] as u32) << 16) | ((data[pos + 2] as u32) << 8)
        | (data[pos + 3] as u32)
}

/// The four big-endian bytes of `x`.
pub open spec fn be32_bytes(x: u32) -> Seq<u8> {
    seq![(x >> 24) as u8, ((x >> 16) & 0xff) as u8, ((x >> 8) & 0xff) as u8, (x & 0xff) as u8]
}

/// Position of the first NUL byte in `data[pos..end)`, if any.
pub open spec fn find_nul(data: Seq<u8>, pos: int, end: int) -> Option<int>
    decreases end - pos,
{
    if pos >= end {
        None
    } else if data[pos] == 0 {
        Some(pos)
    } else {
        find_nul(data, pos + 1, end)
    }
}

/// Every byte of `data[from..to)` is zero.
pub open spec fn all_zero(data: Seq<u8>, from: int, to: int) -> bool {
    forall|i: int| from <= i < to ==> data[i] == 0
}

/// Parse a string field at `pos`: bytes up to the first NUL, whose frame —
/// string, NUL, zero padding — ends on a four-byte boundary within `end`.
pub open spec fn parse_str(data: Seq<u8>, pos: int, end: int) -> Option<(Seq<u8>, int)> {
    match find_nul(data, pos, end) {
        None => None,
        Some(n) => {
            let stop = pos + pad4(n + 1 - pos);
            if stop <= end && all_zero(data, n, stop) {
                Some((data.subrange(pos, n), stop))
            } else {
                None
            }
        },
    }
}

/// Parse one argument payload for the type tag `tag` at `pos`. A tag outside
/// the recognized set fails; `T`, `F` and the empty uninterpreted tags
/// consume no bytes.
pub open spec fn parse_arg(tag: u8, data: Seq<u8>, pos: int, end: int) -> Option<(ArgView, int)> {
    if tag == 0x69 {
        // 'i': big-endian signed 32-bit integer
        if pos + 4 <= end {
            Some((ArgView::Int(be32_at(data, pos) as i32), pos + 4))
        } else {
            None
        }
    } else if tag == 0x66 {
        // 'f': 32-bit float, kept as its bit pattern
        if pos + 4 <= end {
            Some((ArgView::Float(be32_at(data, pos)), pos + 4))
        } else {
            None
        }
    } else if tag == 0x73 {
        // 's': string field
        match parse_str(data, pos, end) {
            None => None,
            Some((s, p)) => Some((ArgView::Str(s), p)),
        }
    } else if tag == 0x62 {
        // 'b': signed 32-bit size, payload, zero padding to a boundary
        if pos + 4 <= end {
            let size = be32_at(data, pos) as int;
            if size <= 0x7fff_ffff {
                let stop = pos + 4 + pad4(size);
                if stop <= end && all_zero(data, pos + 4 + size, stop) {
                    Some((ArgView::Blob(data.subrange(pos + 4, pos + 4 + size)), stop))
                } else {
                    None
                }
            } else {
                None
            }
        } else {
            None
        }
    } else if tag == 0x54 {
        // 'T': true, no payload
        Some((ArgView::Bool(true), pos))
    } else if tag == 0x46 {
        // 'F': false, no payload
        Some((ArgView::Bool(false), pos))
    } else {
        match unrec_payload_len(tag) {
            Some(n) => {
                if pos + n <= end {
                    Some((ArgView::Unrecognized(tag, data.subrange(pos, pos + n)), pos + n))
                } else {
                    None
                }
            },
            None => None,
        }
    }
}

/// Parse the payloads for a sequence of type tags, in order, keeping tags and
/// values index-aligned.
pub open spec fn parse_args(tags: Seq<u8>, data: Seq<u8>, pos: int, end: int) -> Option<
    (Seq<ArgView>, int),
>
    decreases tags.len(),
{
    if tags.len() == 0 {
        Some((Seq::empty(), pos))
    } else {
        match parse_arg(tags[0], data, pos, end) {
            None => None,
            Some((a, p1)) => match parse_args(tags.subrange(1, tags.len() as int), data, p1, end) {
                None => None,
                Some((rest, p2)) => Some((seq![a] + rest, p2)),
            },
        }
    }
}

/// Parse a complete message occupying `data[pos..end)` exactly: an address
/// field starting with '/', a type-tag field starting with ',', then the
/// payloads, with nothing left over.
pub open spec fn parse_message(data: Seq<u8>, pos: int, end: int) -> Option<MsgView> {
    match parse_str(data, pos, end) {
        None => None,
        Some((addr, p1)) => {
            if addr.len() == 0 || addr[0] != 0x2f {
                None
            } else {
                match parse_str(data, p1, end) {
                    None => None,
                    Some((tagstr, p2)) => {
                        if tagstr.len() == 0 || tagstr[0] != 0x2c {
                            None
                        } else {
                            match parse_args(
                                tagstr.subrange(1, tagstr.len() as int),
                                data,
                                p2,
                                end,
                            ) {
                                None => None,
                                Some((args, p3)) => {
                                    if p3 == end {
                                        Some(MsgView { addr, args })
                                    } else {
                                        None
                                    }
                                },
                            }
                        }
                    },
                }
            }
        },
    }
}

/// The eight marker bytes `#bundle` plus NUL sit at `pos`.
pub open spec fn has_bundle_marker(data: Seq<u8>, pos: int) -> bool {
    &&& data[pos] == 0x23
    &&& data[pos + 1] == 0x62
    &&& data[pos + 2] == 0x75
    &&& data[pos + 3] == 0x6e
    &&& data[pos + 4] == 0x64
    &&& data[pos + 5] == 0x6c
    &&& data[pos + 6] == 0x65
    &&& data[pos + 7] == 0x00
}

/// Parse a complete packet occupying `data[pos..end)` exactly: a message if
/// it opens with '/', a bundle if it opens with the marker, malformed
/// otherwise.
pub open spec fn parse_packet(data: Seq<u8>, pos: int, end: int) -> Option<PacketView>
    decreases end - pos, 1int,
{
    if pos >= end {
        None
    } else if data[pos] == 0x2f {
        match parse_message(data, pos, end) {
            None => None,
            Some(m) => Some(PacketView::Message(m)),
        }
    } else if end - pos >= 16 && has_bundle_marker(data, pos) {
        let tt = TimeTag { seconds: be32_at(data, pos + 8), fraction: be32_at(data, pos + 12) };
        match parse_elems(data, pos + 16, end) {
            None => None,
            Some(elems) => Some(PacketView::Bundle(tt, elems)),
        }
    } else {
        None
    }
}

/// Parse a bundle's elements: size-prefixed packets, each filling its
/// declared size exactly, until `end`.
pub open spec fn parse_elems(data: Seq<u8>, pos: int, end: int) -> Option<Seq<PacketView>>
    decreases end - pos, 0int,
{
    if pos == end {
        Some(Seq::empty())
    } else if pos + 4 <= end {
        let size = be32_at(data, pos) as int;
        if pos + 4 + size <= end {
            match parse_packet(data, pos + 4, pos + 4 + size) {
                None => None,
                Some(p) => match parse_elems(data, pos + 4 + size, end) {
                    None => None,
                    Some(rest) => Some(seq![p] + rest),
                },
            }
        } else {
            None
        }
    } else {
        None
    }
}

/// The padding rule in arithmetic form: a string frame of `n` content bytes
/// plus its NUL is padded with `4 - n % 4` total trailing zero bytes (NUL
/// included), and a blob of `n` bytes with `(4 - n % 4) % 4`.
pub proof fn lemma_pad4(n: int)
    requires
        n >= 0,
    ensures
        pad4(n) - n == (4 - (n % 4)) % 4,
        pad4(n + 1) - n == 4 - (n % 4),
        n <= pad4(n) < n + 4,
{
}

/// `n` zero bytes.
pub open spec fn zeros(n: int) -> Seq<u8> {
    Seq::new(n as nat, |i: int| 0u8)
}

/// Wire form of a string field: the bytes, then a NUL and zero padding out
/// to a four-byte boundary.
pub open spec fn enc_str(s: Seq<u8>) -> Seq<u8> {
    s + zeros(pad4(s.len() as int + 1) - s.len() as int)
}

/// The type-tag byte of an argument.
pub open spec fn tag_of(a: ArgView) -> u8 {
    match a {
        ArgView::Int(_) => 0x69,
        ArgView::Float(_) => 0x66,
        ArgView::Str(_) => 0x73,
        ArgView::Bool(b) => if b { 0x54 } else { 0x46 },
        ArgView::Blob(_) => 0x62,
        ArgView::Unrecognized(t, _) => t,
    }
}

/// Wire payload of one argument.
pub open spec fn enc_arg(a: ArgView) -> Seq<u8> {
    match a {
        ArgView::Int(v) => be32_bytes(v as u32),
        ArgView::Float(bits) => be32_bytes(bits),
        ArgView::Str(s) => enc_str(s),
        ArgView::Bool(_) => Seq::empty(),
        ArgView::Blob(b) => be32_bytes(b.len() as u32) + b + zeros(pad4(b.len() as int) - b.len() as int),
        ArgView::Unrecognized(_, d) => d,
    }
}

/// Wire payloads of a sequence of arguments, concatenated in order.
pub open spec fn enc_args(args: Seq<ArgView>) -> Seq<u8>
    decreases args.len(),
{
    if args.len() == 0 {
        Seq::empty()
    } else {
        enc_arg(args[0]) + enc_args(args.subrange(1, args.len() as int))
    }
}

/// The type-tag bytes of a sequence of arguments, in order.
pub open spec fn tags_of(args: Seq<ArgView>) -> Seq<u8> {
    args.map_values(|a: ArgView| tag_of(a))
}

/// Complete wire form of a message: address field, comma-led type-tag
/// field, then the payloads.
pub open spec fn enc_msg(m: MsgView) -> Seq<u8> {
    enc_str(m.addr) + enc_str(seq![0x2cu8] + tags_of(m.args)) + enc_args(m.args)
}

} // verus!
