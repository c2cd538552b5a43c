//! The executable decoder and encoder for the wire format.
//!
//! The decoder turns a datagram buffer into a `ControlPacket` or fails with
//! `MalformedPacket`; it returns exactly what the parse functions of `wire`
//! say, so success, failure, and the decoded structure are all pinned down.
//! The encoder produces the wire form `wire::enc_msg` defines.

use vstd::prelude::*;
use vstd::slice::slice_subrange;
use vstd::slice::slice_to_vec;
use crate::PipelineError;
use crate::packet::ArgView;
use crate::packet::ControlArg;
use crate::packet::ControlMessage;
use crate::packet::ControlPacket;
use crate::packet::MsgView;
use crate::packet::SourcedPacket;
use crate::packet::TimeTag;
use crate::packet::args_view;
use crate::packet::packets_view;
use crate::wire::all_zero;
use crate::wire::be32_at;
use crate::wire::find_nul;
use crate::wire::has_bundle_marker;
use crate::wire::pad4;
use crate::wire::parse_arg;
use crate::wire::parse_args;
use crate::wire::parse_elems;
use crate::wire::parse_message;
use crate::wire::parse_packet;
use crate::wire::parse_str;
use crate::wire::be32_bytes;
use crate::wire::enc_arg;
use crate::wire::enc_args;
use crate::wire::enc_msg;
use crate::wire::enc_str;
use crate::wire::lemma_pad4;
use crate::wire::tag_of;
use crate::wire::tags_of;
use crate::wire::zeros;

verus! {

/// The fixed maximum datagram size the decoder accepts; a receive buffer of
/// this size covers every datagram the listener can be handed.
pub const MAX_TRANSMISSION_LEN: usize = 1536;

/// The big-endian 32-bit word at `pos`.
fn be32_read(data: &[u8], pos: usize) -> (r: u32)
    requires
        pos + 4 <= data@.len(),
    ensures
        r == be32_at(data@, pos as int),
{
    ((data[pos] as u32) << 24u32) | ((data[pos + 1] as u32) << 16u32) | ((data[pos + 2]
        as u32) << 8u32) | (data[pos + 3] as u32)
}

/// First NUL in `data[pos..end)`, per `wire::find_nul`.
fn find_nul_from(data: &[u8], pos: usize, end: usize) -> (r: Option<usize>)
    requires
        pos <= end <= data@.len(),
    ensures
        match r {
            Some(n) => {
                &&& find_nul(data@, pos as int, end as int) == Some(n as int)
                &&& pos <= n < end
            },
            None => find_nul(data@, pos as int, end as int) is None,
        },
{
    let mut i = pos;
    while i < end
        invariant
            pos <= i <= end <= data@.len(),
            find_nul(data@, pos as int, end as int) == find_nul(data@, i as int, end as int),
        decreases end - i,
    {
        if data[i] == 0 {
            return Some(i);
        }
        i = i + 1;
    }
    None
}

/// Whether every byte of `data[from..to)` is zero.
fn check_all_zero(data: &[u8], from: usize, to: usize) -> (r: bool)
    requires
        from <= to <= data@.len(),
    ensures
        r <==> all_zero(data@, from as int, to as int),
{
    let mut i = from;
    while i < to
        invariant
            from <= i <= to <= data@.len(),
            all_zero(data@, from as int, i as int),
        decreases to - i,
    {
        if data[i] != 0 {
            return false;
        }
        i = i + 1;
    }
    true
}

/// Parse a string field at `pos`, per `wire::parse_str`.
fn parse_str_field(data: &[u8], pos: usize, end: usize) -> (r: Option<(Vec<u8>, usize)>)
    requires
        pos <= end <= data@.len(),
        data@.len() <= MAX_TRANSMISSION_LEN,
    ensures
        match r {
            Some(p) => {
                &&& parse_str(data@, pos as int, end as int) == Some((p.0@, p.1 as int))
                &&& pos <= p.1 <= end
            },
            None => parse_str(data@, pos as int, end as int) is None,
        },
{
    match find_nul_from(data, pos, end) {
        None => None,
        Some(n) => {
            let frame = n + 1 - pos;
            let stop = pos + ((frame + 3) / 4) * 4;
            proof {
                assert(stop == pos + pad4(frame as int));
            }
            if stop <= end && check_all_zero(data, n, stop) {
                let s = slice_to_vec(slice_subrange(data, pos, n));
                proof {
                    assert(s@ =~= data@.subrange(pos as int, n as int));
                }
                Some((s, stop))
            } else {
                None
            }
        },
    }
}

/// Parse one argument payload for `tag` at `pos`, per `wire::parse_arg`.
fn parse_one_arg(tag: u8, data: &[u8], pos: usize, end: usize) -> (r: Option<(ControlArg, usize)>)
    requires
        pos <= end <= data@.len(),
        data@.len() <= MAX_TRANSMISSION_LEN,
    ensures
        match r {
            Some(p) => {
                &&& parse_arg(tag, data@, pos as int, end as int) == Some((p.0@, p.1 as int))
                &&& pos <= p.1 <= end
            },
            None => parse_arg(tag, data@, pos as int, end as int) is None,
        },
{
    if tag == 0x69 {
        if pos + 4 <= end {
            let w = be32_read(data, pos);
            let v = #[verifier::truncate] (w as i32);
            Some((ControlArg::Int(v), pos + 4))
        } else {
            None
        }
    } else if tag == 0x66 {
        if pos + 4 <= end {
            Some((ControlArg::Float(be32_read(data, pos)), pos + 4))
        } else {
            None
        }
    } else if tag == 0x73 {
        match parse_str_field(data, pos, end) {
            None => None,
            Some((s, p)) => Some((ControlArg::Str(s), p)),
        }
    } else if tag == 0x62 {
        if pos + 4 <= end {
            let size32 = be32_read(data, pos);
            if size32 <= 0x7fff_ffff && size32 <= (end - (pos + 4)) as u32 {
                let size = size32 as usize;
                let stop = pos + 4 + ((size + 3) / 4) * 4;
                proof {
                    assert(stop == pos + 4 + pad4(size32 as int));
                }
                if stop <= end && check_all_zero(data, pos + 4 + size, stop) {
                    let b = slice_to_vec(slice_subrange(data, pos + 4, pos + 4 + size));
                    proof {
                        assert(b@ =~= data@.subrange(pos + 4 as int, pos + 4 + size32 as int));
                    }
                    Some((ControlArg::Blob(b), stop))
                } else {
                    None
                }
            } else {
                None
            }
        } else {
            None
        }
    } else if tag == 0x54 {
        Some((ControlArg::Bool(true), pos))
    } else if tag == 0x46 {
        Some((ControlArg::Bool(false), pos))
    } else if tag == 0x68 || tag == 0x74 || tag == 0x64 || tag == 0x63 || tag == 0x72 || tag
        == 0x6d || tag == 0x4e || tag == 0x49 {
        let need: usize = if tag == 0x68 || tag == 0x74 || tag == 0x64 {
            8
        } else if tag == 0x63 || tag == 0x72 || tag == 0x6d {
            4
        } else {
            0
        };
        if end - pos >= need {
            let d = slice_to_vec(slice_subrange(data, pos, pos + need));
            proof {
                assert(d@ =~= data@.subrange(pos as int, pos + need as int));
            }
            Some((ControlArg::Unrecognized(tag, d), pos + need))
        } else {
            None
        }
    } else {
        None
    }
}

/// Parse the payloads for the tags `tags[ti..]`, per `wire::parse_args`.
fn parse_args_from(tags: &Vec<u8>, ti: usize, data: &[u8], pos: usize, end: usize) -> (r: Option<
    (Vec<ControlArg>, usize),
>)
    requires
        ti <= tags@.len(),
        pos <= end <= data@.len(),
        data@.len() <= MAX_TRANSMISSION_LEN,
    ensures
        match r {
            Some(p) => {
                &&& parse_args(
                    tags@.subrange(ti as int, tags@.len() as int),
                    data@,
                    pos as int,
                    end as int,
                ) == Some((args_view(p.0@), p.1 as int))
                &&& pos <= p.1 <= end
            },
            None => parse_args(
                tags@.subrange(ti as int, tags@.len() as int),
                data@,
                pos as int,
                end as int,
            ) is None,
        },
    decreases tags@.len() - ti,
{
    let ghost rest = tags@.subrange(ti as int, tags@.len() as int);
    if ti == tags.len() {
        proof {
            assert(args_view(Seq::<ControlArg>::empty()) =~= Seq::<ArgView>::empty());
        }
        Some((Vec::new(), pos))
    } else {
        proof {
            assert(rest[0] == tags@[ti as int]);
        }
        match parse_one_arg(tags[ti], data, pos, end) {
            None => None,
            Some((a, p1)) => {
                proof {
                    assert(rest.subrange(1, rest.len() as int) =~= tags@.subrange(
                        ti + 1 as int,
                        tags@.len() as int,
                    ));
                }
                match parse_args_from(tags, ti + 1, data, p1, end) {
                    None => None,
                    Some((mut v, p2)) => {
                        let ghost v0 = v@;
                        v.insert(0, a);
                        proof {
                            assert(v@.subrange(1, v@.len() as int) =~= v0);
                            assert(args_view(v@) =~= seq![a@] + args_view(v0));
                        }
                        Some((v, p2))
                    },
                }
            },
        }
    }
}

/// Parse a complete message filling `data[pos..end)`, per
/// `wire::parse_message`.
fn parse_message_at(data: &[u8], pos: usize, end: usize) -> (r: Option<ControlMessage>)
    requires
        pos <= end <= data@.len(),
        data@.len() <= MAX_TRANSMISSION_LEN,
    ensures
        match r {
            Some(m) => parse_message(data@, pos as int, end as int) == Some(m@),
            None => parse_message(data@, pos as int, end as int) is None,
        },
{
    match parse_str_field(data, pos, end) {
        None => None,
        Some((addr, p1)) => {
            if addr.len() == 0 || addr[0] != 0x2f {
                None
            } else {
                match parse_str_field(data, p1, end) {
                    None => None,
                    Some((tagstr, p2)) => {
                        if tagstr.len() == 0 || tagstr[0] != 0x2c {
                            None
                        } else {
                            match parse_args_from(&tagstr, 1, data, p2, end) {
                                None => None,
                                Some((argv, p3)) => {
                                    if p3 == end {
                                        let m = ControlMessage { addr, args: argv };
                                        proof {
                                            assert(m@ =~= MsgView {
                                                addr: m.addr@,
                                                args: args_view(argv@),
                                            });
                                        }
                                        Some(m)
                                    } else {
                                        None
                                    }
                                },
                            }
                        }
                    },
                }
            }
        },
    }
}

/// Parse a complete packet filling `data[pos..end)`, per
/// `wire::parse_packet`.
fn parse_packet_at(data: &[u8], pos: usize, end: usize) -> (r: Option<ControlPacket>)
    requires
        pos <= end <= data@.len(),
        data@.len() <= MAX_TRANSMISSION_LEN,
    ensures
        match r {
            Some(p) => parse_packet(data@, pos as int, end as int) == Some(p@),
            None => parse_packet(data@, pos as int, end as int) is None,
        },
    decreases end - pos, 1int,
{
    if pos >= end {
        None
    } else if data[pos] == 0x2f {
        match parse_message_at(data, pos, end) {
            None => None,
            Some(m) => Some(ControlPacket::Message(m)),
        }
    } else if end - pos >= 16 && data[pos] == 0x23 && data[pos + 1] == 0x62 && data[pos + 2]
        == 0x75 && data[pos + 3] == 0x6e && data[pos + 4] == 0x64 && data[pos + 5] == 0x6c && data[
        pos + 6] == 0x65 && data[pos + 7] == 0x00 {
        let tt = TimeTag { seconds: be32_read(data, pos + 8), fraction: be32_read(data, pos + 12) };
        match parse_elems_at(data, pos + 16, end) {
            None => None,
            Some(elems) => Some(ControlPacket::Bundle(tt, elems)),
        }
    } else {
        proof {
            assert(!has_bundle_marker(data@, pos as int) || end - pos < 16);
        }
        None
    }
}

/// Parse a bundle's size-prefixed elements, per `wire::parse_elems`.
fn parse_elems_at(data: &[u8], pos: usize, end: usize) -> (r: Option<Vec<ControlPacket>>)
    requires
        pos <= end <= data@.len(),
        data@.len() <= MAX_TRANSMISSION_LEN,
    ensures
        match r {
            Some(v) => parse_elems(data@, pos as int, end as int) == Some(packets_view(v@)),
            None => parse_elems(data@, pos as int, end as int) is None,
        },
    decreases end - pos, 0int,
{
    if pos == end {
        proof {
            assert(packets_view(Seq::<ControlPacket>::empty()) =~= Seq::<
                crate::packet::PacketView,
            >::empty());
        }
        Some(Vec::new())
    } else if pos + 4 <= end {
        let size32 = be32_read(data, pos);
        if size32 <= (end - (pos + 4)) as u32 {
            let size = size32 as usize;
            match parse_packet_at(data, pos + 4, pos + 4 + size) {
                None => None,
                Some(p) => {
                    match parse_elems_at(data, pos + 4 + size, end) {
                        None => None,
                        Some(mut v) => {
                            let ghost v0 = v@;
                            v.insert(0, p);
                            proof {
                                assert(v@.subrange(1, v@.len() as int) =~= v0);
                                assert(packets_view(v@) =~= seq![crate::packet::packet_view(p)]
                                    + packets_view(v0));
                            }
                            Some(v)
                        },
                    }
                },
            }
        } else {
            None
        }
    } else {
        None
    }
}

/// Append every byte of `s`.
fn push_bytes(out: &mut Vec<u8>, s: &Vec<u8>)
    ensures
        final(out)@ == old(out)@ + s@,
{
    let ghost base = out@;
    let mut j: usize = 0;
    while j < s.len()
        invariant
            j <= s@.len(),
            out@ == base + s@.subrange(0, j as int),
        decreases s@.len() - j,
    {
        out.push(s[j]);
        proof {
            assert(out@ =~= base + s@.subrange(0, j + 1 as int));
        }
        j = j + 1;
    }
    proof {
        assert(out@ =~= base + s@);
    }
}

/// Append `n` zero bytes.
fn push_zero_bytes(out: &mut Vec<u8>, n: usize)
    ensures
        final(out)@ == old(out)@ + zeros(n as int),
{
    let ghost base = out@;
    let mut j: usize = 0;
    proof {
        assert(base + zeros(0) =~= base);
    }
    while j < n
        invariant
            j <= n,
            out@ == base + zeros(j as int),
        decreases n - j,
    {
        out.push(0);
        proof {
            assert(out@ =~= base + zeros(j + 1 as int));
        }
        j = j + 1;
    }
}

/// Append the four big-endian bytes of `x`.
fn push_be32(out: &mut Vec<u8>, x: u32)
    ensures
        final(out)@ == old(out)@ + be32_bytes(x),
{
    out.push(#[verifier::truncate] ((x >> 24u32) as u8));
    out.push(#[verifier::truncate] (((x >> 16u32) & 0xff) as u8));
    out.push(#[verifier::truncate] (((x >> 8u32) & 0xff) as u8));
    out.push(#[verifier::truncate] ((x & 0xff) as u8));
    proof {
        assert(out@ =~= old(out)@ + be32_bytes(x));
    }
}

/// Append a string field: the bytes, a NUL, zero padding to a boundary.
fn push_str_field(out: &mut Vec<u8>, s: &Vec<u8>)
    ensures
        final(out)@ == old(out)@ + enc_str(s@),
{
    push_bytes(out, s);
    let z = 4 - (s.len() % 4);
    proof {
        lemma_pad4(s@.len() as int);
    }
    push_zero_bytes(out, z);
    proof {
        assert(out@ =~= old(out)@ + enc_str(s@));
    }
}

/// The wire type-tag byte of an argument.
fn tag_byte(a: &ControlArg) -> (r: u8)
    ensures
        r == tag_of(a@),
{
    match a {
        ControlArg::Int(_) => 0x69,
        ControlArg::Float(_) => 0x66,
        ControlArg::Str(_) => 0x73,
        ControlArg::Bool(b) => if *b {
            0x54
        } else {
            0x46
        },
        ControlArg::Blob(_) => 0x62,
        ControlArg::Unrecognized(t, _) => *t,
    }
}

/// Append the wire payload of one argument.
fn push_arg_payload(out: &mut Vec<u8>, a: &ControlArg)
    ensures
        final(out)@ == old(out)@ + enc_arg(a@),
{
    match a {
        ControlArg::Int(v) => {
            push_be32(out, #[verifier::truncate] (*v as u32));
        },
        ControlArg::Float(bits) => {
            push_be32(out, *bits);
        },
        ControlArg::Str(s) => {
            push_str_field(out, s);
        },
        ControlArg::Bool(_) => {
            proof {
                assert(out@ =~= old(out)@ + enc_arg(a@));
            }
        },
        ControlArg::Blob(b) => {
            push_be32(out, #[verifier::truncate] (b.len() as u32));
            push_bytes(out, b);
            let zc = (4 - (b.len() % 4)) % 4;
            proof {
                lemma_pad4(b@.len() as int);
            }
            push_zero_bytes(out, zc);
            proof {
                assert(out@ =~= old(out)@ + enc_arg(a@));
            }
        },
        ControlArg::Unrecognized(_, d) => {
            push_bytes(out, d);
        },
    }
}

/// Append the payloads of `args[i..]`, in order.
fn push_args_from(args: &Vec<ControlArg>, i: usize, out: &mut Vec<u8>)
    requires
        i <= args@.len(),
    ensures
        final(out)@ == old(out)@ + enc_args(args_view(args@).subrange(i as int, args@.len() as int)),
    decreases args@.len() - i,
{
    let ghost av = args_view(args@);
    if i == args.len() {
        proof {
            assert(out@ =~= old(out)@ + enc_args(av.subrange(i as int, av.len() as int)));
        }
    } else {
        push_arg_payload(out, &args[i]);
        push_args_from(args, i + 1, out);
        proof {
            let tail = av.subrange(i as int, av.len() as int);
            assert(tail[0] == av[i as int]);
            assert(av[i as int] == args@[i as int]@);
            assert(tail.subrange(1, tail.len() as int) =~= av.subrange(
                i + 1 as int,
                av.len() as int,
            ));
            assert(out@ =~= old(out)@ + enc_args(tail));
        }
    }
}

/// Encode a control message into its wire form, exactly as `wire::enc_msg`
/// states it: address field, comma-led type-tag field, argument payloads.
pub fn encode_message(m: &ControlMessage) -> (r: Vec<u8>)
    ensures
        r@ == enc_msg(m@),
{
    let ghost av = args_view(m.args@);
    let mut out: Vec<u8> = Vec::new();
    push_str_field(&mut out, &m.addr);
    let ghost part1 = out@;
    let mut tagv: Vec<u8> = Vec::new();
    tagv.push(0x2c);
    let mut i: usize = 0;
    proof {
        assert(tagv@ =~= seq![0x2cu8] + tags_of(av.subrange(0, 0)));
    }
    while i < m.args.len()
        invariant
            i <= m.args@.len(),
            av == args_view(m.args@),
            tagv@ == seq![0x2cu8] + tags_of(av.subrange(0, i as int)),
        decreases m.args@.len() - i,
    {
        let t = tag_byte(&m.args[i]);
        tagv.push(t);
        proof {
            assert(av[i as int] == m.args@[i as int]@);
            assert(tagv@ =~= seq![0x2cu8] + tags_of(av.subrange(0, i + 1 as int)));
        }
        i = i + 1;
    }
    proof {
        assert(av.subrange(0, av.len() as int) =~= av);
    }
    push_str_field(&mut out, &tagv);
    push_args_from(&m.args, 0, &mut out);
    proof {
        assert(out@ =~= enc_msg(m@));
    }
    out
}

/// Decode a datagram buffer into a control packet, or fail with
/// `MalformedPacket`. The result is exactly what `wire::parse_packet` says of
/// the buffer: decoding succeeds if and only if the buffer is a well-framed
/// packet, and then returns its parse.
pub fn decode_packet(data: &[u8]) -> (r: Result<ControlPacket, PipelineError>)
    requires
        data@.len() <= MAX_TRANSMISSION_LEN,
    ensures
        match r {
            Ok(p) => parse_packet(data@, 0, data@.len() as int) == Some(p@),
            Err(e) => {
                &&& parse_packet(data@, 0, data@.len() as int) is None
                &&& e == PipelineError::MalformedPacket
            },
        },
{
    match parse_packet_at(data, 0, data.len()) {
        Some(p) => Ok(p),
        None => Err(PipelineError::MalformedPacket),
    }
}

/// The listener's per-datagram step: decode the buffer and tag the packet
/// with the origin it arrived on; a malformed datagram is dropped (`None`).
pub fn ingest_datagram(data: &[u8], origin: u16) -> (r: Option<SourcedPacket>)
    requires
        data@.len() <= MAX_TRANSMISSION_LEN,
    ensures
        match r {
            Some(sp) => {
                &&& sp.origin == origin
                &&& parse_packet(data@, 0, data@.len() as int) == Some(sp.packet@)
            },
            None => parse_packet(data@, 0, data@.len() as int) is None,
        },
{
    match decode_packet(data) {
        Ok(p) => Some(SourcedPacket { origin, packet: p }),
        Err(_) => None,
    }
}

} // verus!
