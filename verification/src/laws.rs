//! The stated laws of the codec and the router, proved once and for all:
//! encoding a well-formed message and parsing the result gives back the same
//! message; routing is exact on origin and address; non-float arguments never
//! produce device actions.

use vstd::prelude::*;
use crate::device::DeviceMessage;
use crate::device::spec_control_change;
use crate::packet::ArgView;
use crate::packet::MsgView;
use crate::packet::PacketView;
use crate::packet::unrec_payload_len;
use crate::packet::wf_arg;
use crate::packet::wf_msg;
use crate::router::RouteConfigView;
use crate::router::cc_of_args;
use crate::router::float_bits_to_data;
use crate::router::route_spec;
use crate::wire::all_zero;
use crate::wire::be32_at;
use crate::wire::be32_bytes;
use crate::wire::enc_arg;
use crate::wire::enc_args;
use crate::wire::enc_msg;
use crate::wire::enc_str;
use crate::wire::find_nul;
use crate::wire::lemma_pad4;
use crate::wire::pad4;
use crate::wire::parse_arg;
use crate::wire::parse_args;
use crate::wire::parse_message;
use crate::wire::parse_packet;
use crate::wire::parse_str;
use crate::wire::tag_of;
use crate::wire::tags_of;
use crate::wire::zeros;

verus! {

proof fn lemma_find_nul_at(data: Seq<u8>, pos: int, end: int, n: int)
    requires
        0 <= pos <= n < end <= data.len(),
        forall|j: int| pos <= j < n ==> data[j] != 0,
        data[n] == 0,
    ensures
        find_nul(data, pos, end) == Some(n),
    decreases n - pos,
{
    if pos < n {
        lemma_find_nul_at(data, pos + 1, end, n);
    }
}

proof fn lemma_parse_str_at(data: Seq<u8>, pos: int, end: int, s: Seq<u8>)
    requires
        0 <= pos,
        pos + enc_str(s).len() <= end <= data.len(),
        forall|i: int| 0 <= i < s.len() ==> s[i] != 0,
        data.subrange(pos, pos + enc_str(s).len() as int) == enc_str(s),
    ensures
        parse_str(data, pos, end) == Some((s, pos + enc_str(s).len() as int)),
{
    let lth = s.len() as int;
    lemma_pad4(lth);
    let total = pad4(lth + 1);
    assert(enc_str(s).len() == total);
    assert forall|j: int| pos <= j < pos + lth implies #[trigger] data[j] != 0 by {
        assert(data.subrange(pos, pos + total)[j - pos] == data[j]);
        assert(enc_str(s)[j - pos] == s[j - pos]);
    }
    assert(data.subrange(pos, pos + total)[lth] == data[pos + lth]);
    assert(enc_str(s)[lth] == zeros(total - lth)[0]);
    lemma_find_nul_at(data, pos, end, pos + lth);
    assert(pad4(pos + lth + 1 - pos) == total);
    assert forall|j: int| pos + lth <= j < pos + total implies #[trigger] data[j] == 0 by {
        assert(data.subrange(pos, pos + total)[j - pos] == data[j]);
        assert(enc_str(s)[j - pos] == zeros(total - lth)[j - pos - lth]);
    }
    assert forall|j: int| 0 <= j < lth implies data.subrange(pos, pos + lth)[j] == s[j] by {
        assert(data.subrange(pos, pos + total)[j] == data[pos + j]);
        assert(enc_str(s)[j] == s[j]);
    }
    assert(data.subrange(pos, pos + lth) =~= s);
}

proof fn lemma_be32_at(data: Seq<u8>, pos: int, x: u32)
    requires
        0 <= pos,
        pos + 4 <= data.len(),
        data.subrange(pos, pos + 4) == be32_bytes(x),
    ensures
        be32_at(data, pos) == x,
{
    assert forall|j: int| 0 <= j < 4 implies data[pos + j] == be32_bytes(x)[j] by {
        assert(data.subrange(pos, pos + 4)[j] == data[pos + j]);
    }
    let b0 = (x >> 24u32) as u8;
    let b1 = ((x >> 16u32) & 0xff) as u8;
    let b2 = ((x >> 8u32) & 0xff) as u8;
    let b3 = (x & 0xff) as u8;
    assert(((b0 as u32) << 24u32) | ((b1 as u32) << 16u32) | ((b2 as u32) << 8u32) | (b3 as u32)
        == x) by (bit_vector)
        requires
            b0 == (x >> 24u32) as u8,
            b1 == ((x >> 16u32) & 0xff) as u8,
            b2 == ((x >> 8u32) & 0xff) as u8,
            b3 == (x & 0xff) as u8,
    ;
}

proof fn lemma_parse_arg_at(a: ArgView, data: Seq<u8>, pos: int, end: int)
    requires
        wf_arg(a),
        0 <= pos,
        pos + enc_arg(a).len() <= end <= data.len(),
        data.subrange(pos, pos + enc_arg(a).len() as int) == enc_arg(a),
    ensures
        parse_arg(tag_of(a), data, pos, end) == Some((a, pos + enc_arg(a).len() as int)),
{
    match a {
        ArgView::Int(v) => {
            lemma_be32_at(data, pos, v as u32);
            assert(((v as u32) as i32) == v) by (bit_vector);
        },
        ArgView::Float(bits) => {
            lemma_be32_at(data, pos, bits);
        },
        ArgView::Str(s) => {
            lemma_parse_str_at(data, pos, end, s);
        },
        ArgView::Bool(_) => {},
        ArgView::Blob(b) => {
            let blen = b.len() as int;
            lemma_pad4(blen);
            let total = enc_arg(a).len() as int;
            assert(total == 4 + pad4(blen));
            assert forall|j: int| 0 <= j < 4 implies #[trigger] data.subrange(pos, pos + 4)[j]
                == be32_bytes(b.len() as u32)[j] by {
                assert(data.subrange(pos, pos + total)[j] == data[pos + j]);
                assert(data.subrange(pos, pos + 4)[j] == data[pos + j]);
                assert(enc_arg(a)[j] == be32_bytes(b.len() as u32)[j]);
            }
            assert(data.subrange(pos, pos + 4) =~= be32_bytes(b.len() as u32));
            lemma_be32_at(data, pos, b.len() as u32);
            assert(be32_at(data, pos) as int == blen);
            assert forall|j: int| pos + 4 + blen <= j < pos + total implies #[trigger] data[j]
                == 0 by {
                assert(data.subrange(pos, pos + total)[j - pos] == data[j]);
                assert(enc_arg(a)[j - pos] == zeros(pad4(blen) - blen)[j - pos - 4 - blen]);
            }
            assert forall|j: int| 0 <= j < blen implies data.subrange(pos + 4, pos + 4 + blen)[j]
                == b[j] by {
                assert(data.subrange(pos, pos + total)[4 + j] == data[pos + 4 + j]);
                assert(data.subrange(pos + 4, pos + 4 + blen)[j] == data[pos + 4 + j]);
                assert(enc_arg(a)[4 + j] == b[j]);
            }
            assert(data.subrange(pos + 4, pos + 4 + blen) =~= b);
        },
        ArgView::Unrecognized(t, d) => {
            let n = d.len() as int;
            assert(unrec_payload_len(t) == Some(n));
            assert forall|j: int| 0 <= j < n implies data.subrange(pos, pos + n)[j] == d[j] by {
                assert(data.subrange(pos, pos + n)[j] == data[pos + j]);
                assert(data.subrange(pos, pos + enc_arg(a).len() as int)[j] == data[pos + j]);
            }
            assert(data.subrange(pos, pos + n) =~= d);
        },
    }
}

proof fn lemma_parse_args_at(args: Seq<ArgView>, data: Seq<u8>, pos: int, end: int)
    requires
        forall|i: int| 0 <= i < args.len() ==> wf_arg(#[trigger] args[i]),
        0 <= pos,
        pos + enc_args(args).len() <= end <= data.len(),
        data.subrange(pos, pos + enc_args(args).len() as int) == enc_args(args),
    ensures
        parse_args(tags_of(args), data, pos, end) == Some(
            (args, pos + enc_args(args).len() as int),
        ),
    decreases args.len(),
{
    if args.len() == 0 {
        assert(tags_of(args).len() == 0);
    } else {
        let a = args[0];
        let rest = args.subrange(1, args.len() as int);
        let e0 = enc_arg(a).len() as int;
        let er = enc_args(rest).len() as int;
        let total = enc_args(args).len() as int;
        assert(enc_args(args) == enc_arg(a) + enc_args(rest));
        assert(total == e0 + er);
        assert forall|j: int| 0 <= j < e0 implies data.subrange(pos, pos + e0)[j] == enc_arg(a)[j]
            by {
            assert(data.subrange(pos, pos + total)[j] == data[pos + j]);
            assert(data.subrange(pos, pos + e0)[j] == data[pos + j]);
            assert(enc_args(args)[j] == enc_arg(a)[j]);
        }
        assert(data.subrange(pos, pos + e0) =~= enc_arg(a));
        lemma_parse_arg_at(a, data, pos, end);
        assert forall|j: int| 0 <= j < er implies data.subrange(pos + e0, pos + e0 + er)[j]
            == enc_args(rest)[j] by {
            assert(data.subrange(pos, pos + total)[e0 + j] == data[pos + e0 + j]);
            assert(data.subrange(pos + e0, pos + e0 + er)[j] == data[pos + e0 + j]);
            assert(enc_args(args)[e0 + j] == enc_args(rest)[j]);
        }
        assert(data.subrange(pos + e0, pos + e0 + er) =~= enc_args(rest));
        lemma_parse_args_at(rest, data, pos + e0, end);
        let tags = tags_of(args);
        assert(tags[0] == tag_of(a));
        assert(tags.subrange(1, tags.len() as int) =~= tags_of(rest));
        assert(seq![a] + rest =~= args);
    }
}

/// Every type-tag byte of a well-formed argument is a non-NUL, printable tag
/// byte, so the type-tag string parses back intact.
proof fn lemma_tag_nonzero(a: ArgView)
    requires
        wf_arg(a),
    ensures
        tag_of(a) != 0,
{
}

/// Law: decoder round-trip. Encoding a well-formed control message and
/// parsing the resulting buffer yields exactly the same message — address,
/// argument order, argument types and values all preserved.
pub proof fn lemma_message_round_trip(m: MsgView)
    requires
        wf_msg(m),
    ensures
        parse_message(enc_msg(m), 0, enc_msg(m).len() as int) == Some(m),
        parse_packet(enc_msg(m), 0, enc_msg(m).len() as int) == Some(PacketView::Message(m)),
{
    let data = enc_msg(m);
    let tagstr = seq![0x2cu8] + tags_of(m.args);
    let fa = enc_str(m.addr);
    let ft = enc_str(tagstr);
    let fp = enc_args(m.args);
    let la = fa.len() as int;
    let lt = ft.len() as int;
    let lp = fp.len() as int;
    let end = data.len() as int;
    assert(data == fa + ft + fp);
    assert(end == la + lt + lp);
    // address field
    assert(data.subrange(0, la) =~= fa);
    lemma_parse_str_at(data, 0, end, m.addr);
    // type-tag field: its bytes are ',' then the tags, all non-NUL
    assert(tagstr[0] == 0x2c);
    assert forall|i: int| 0 <= i < tagstr.len() implies tagstr[i] != 0 by {
        if i >= 1 {
            assert(tagstr[i] == tags_of(m.args)[i - 1]);
            assert(tags_of(m.args)[i - 1] == tag_of(m.args[i - 1]));
            lemma_tag_nonzero(m.args[i - 1]);
        }
    }
    assert(data.subrange(la, la + lt) =~= ft);
    lemma_parse_str_at(data, la, end, tagstr);
    assert(tagstr.subrange(1, tagstr.len() as int) =~= tags_of(m.args));
    // argument payloads
    assert(data.subrange(la + lt, la + lt + lp) =~= fp);
    lemma_parse_args_at(m.args, data, la + lt, end);
    assert(parse_message(data, 0, end) == Some(MsgView { addr: m.addr, args: m.args }));
    assert(MsgView { addr: m.addr, args: m.args } =~= m);
    // the whole datagram parses as a single-message packet
    assert(data[0] == fa[0]);
    assert(fa[0] == m.addr[0]);
    assert(end > 0);
}

proof fn lemma_find_nul_props(data: Seq<u8>, pos: int, end: int)
    ensures
        match find_nul(data, pos, end) {
            Some(n) => {
                &&& pos <= n < end
                &&& data[n] == 0
                &&& forall|j: int| pos <= j < n ==> data[j] != 0
            },
            None => forall|j: int| pos <= j < end ==> data[j] != 0,
        },
    decreases end - pos,
{
    if pos < end && data[pos] != 0 {
        lemma_find_nul_props(data, pos + 1, end);
    }
}

proof fn lemma_find_nul_none(data: Seq<u8>, pos: int, k: int)
    requires
        forall|j: int| pos <= j < k ==> data[j] != 0,
    ensures
        find_nul(data, pos, k) is None,
    decreases k - pos,
{
    if pos < k {
        lemma_find_nul_none(data, pos + 1, k);
    }
}

proof fn lemma_parse_str_cut(data: Seq<u8>, pos: int, end: int, k: int)
    requires
        0 <= pos <= k <= end <= data.len(),
        parse_str(data, pos, end) is Some,
    ensures
        ({
            let q = parse_str(data, pos, end)->Some_0.1;
            if q <= k {
                parse_str(data, pos, k) == parse_str(data, pos, end)
            } else {
                parse_str(data, pos, k) is None
            }
        }),
{
    lemma_find_nul_props(data, pos, end);
    let n = find_nul(data, pos, end)->Some_0;
    lemma_pad4(n + 1 - pos);
    let q = pos + pad4(n + 1 - pos);
    assert(n < q);
    if n < k {
        lemma_find_nul_at(data, pos, k, n);
    } else {
        lemma_find_nul_none(data, pos, k);
    }
}

proof fn lemma_parse_arg_cut(tag: u8, data: Seq<u8>, pos: int, end: int, k: int)
    requires
        0 <= pos <= k <= end <= data.len(),
        parse_arg(tag, data, pos, end) is Some,
    ensures
        ({
            let q = parse_arg(tag, data, pos, end)->Some_0.1;
            if q <= k {
                parse_arg(tag, data, pos, k) == parse_arg(tag, data, pos, end)
            } else {
                parse_arg(tag, data, pos, k) is None
            }
        }),
{
    if tag == 0x73 {
        lemma_parse_str_cut(data, pos, end, k);
    } else if tag == 0x62 {
        lemma_pad4(be32_at(data, pos) as int);
    }
}

proof fn lemma_parse_arg_bounds(tag: u8, data: Seq<u8>, pos: int, end: int)
    requires
        pos <= end,
        parse_arg(tag, data, pos, end) is Some,
    ensures
        pos <= parse_arg(tag, data, pos, end)->Some_0.1 <= end,
{
    if tag == 0x73 {
        lemma_find_nul_props(data, pos, end);
        let n = find_nul(data, pos, end)->Some_0;
        lemma_pad4(n + 1 - pos);
    } else if tag == 0x62 {
        lemma_pad4(be32_at(data, pos) as int);
    }
}

proof fn lemma_parse_args_bounds(tags: Seq<u8>, data: Seq<u8>, pos: int, end: int)
    requires
        pos <= end,
        parse_args(tags, data, pos, end) is Some,
    ensures
        pos <= parse_args(tags, data, pos, end)->Some_0.1 <= end,
    decreases tags.len(),
{
    if tags.len() > 0 {
        let p1 = parse_arg(tags[0], data, pos, end)->Some_0.1;
        lemma_parse_arg_bounds(tags[0], data, pos, end);
        lemma_parse_args_bounds(tags.subrange(1, tags.len() as int), data, p1, end);
    }
}

proof fn lemma_parse_args_cut(tags: Seq<u8>, data: Seq<u8>, pos: int, end: int, k: int)
    requires
        0 <= pos <= k <= end <= data.len(),
        parse_args(tags, data, pos, end) is Some,
    ensures
        ({
            let q = parse_args(tags, data, pos, end)->Some_0.1;
            if q <= k {
                parse_args(tags, data, pos, k) == parse_args(tags, data, pos, end)
            } else {
                parse_args(tags, data, pos, k) is None
            }
        }),
    decreases tags.len(),
{
    if tags.len() > 0 {
        let p1 = parse_arg(tags[0], data, pos, end)->Some_0.1;
        lemma_parse_arg_bounds(tags[0], data, pos, end);
        lemma_parse_args_bounds(tags.subrange(1, tags.len() as int), data, p1, end);
        lemma_parse_arg_cut(tags[0], data, pos, end, k);
        if p1 <= k {
            lemma_parse_args_cut(tags.subrange(1, tags.len() as int), data, p1, end, k);
        }
    }
}

/// Law: truncated input is rejected. Every strict prefix of a well-formed
/// encoded message fails to parse — as a message and as a packet — so the
/// decoder answers `MalformedPacket` on it rather than reading past the end.
pub proof fn lemma_truncated_message_rejected(m: MsgView, cut: int)
    requires
        wf_msg(m),
        0 <= cut < enc_msg(m).len(),
    ensures
        parse_message(enc_msg(m).subrange(0, cut), 0, cut) is None,
        parse_packet(enc_msg(m).subrange(0, cut), 0, cut) is None,
{
    let data = enc_msg(m);
    let end = data.len() as int;
    let prefix = data.subrange(0, cut);
    lemma_message_round_trip(m);
    lemma_parse_message_cut(data, 0, end, cut);
    lemma_parse_message_frame(data, prefix, 0, cut);
    if cut > 0 {
        assert(prefix[0] == data[0]);
    }
}

proof fn lemma_parse_message_cut(data: Seq<u8>, pos: int, end: int, k: int)
    requires
        0 <= pos <= k < end <= data.len(),
        parse_message(data, pos, end) is Some,
    ensures
        parse_message(data, pos, k) is None,
{
    let (addr, p1) = parse_str(data, pos, end)->Some_0;
    lemma_parse_str_bounds_ok(data, pos, end);
    lemma_parse_str_cut(data, pos, end, k);
    if p1 <= k {
        let (tagstr, p2) = parse_str(data, p1, end)->Some_0;
        lemma_parse_str_bounds_ok(data, p1, end);
        lemma_parse_str_cut(data, p1, end, k);
        if p2 <= k {
            let tags = tagstr.subrange(1, tagstr.len() as int);
            let p3 = parse_args(tags, data, p2, end)->Some_0.1;
            assert(p3 == end);
            lemma_parse_args_cut(tags, data, p2, end, k);
        }
    }
}

proof fn lemma_find_nul_frame(d1: Seq<u8>, d2: Seq<u8>, pos: int, end: int)
    requires
        forall|j: int| pos <= j < end ==> d1[j] == d2[j],
    ensures
        find_nul(d1, pos, end) == find_nul(d2, pos, end),
    decreases end - pos,
{
    if pos < end && d1[pos] != 0 {
        lemma_find_nul_frame(d1, d2, pos + 1, end);
    }
}

proof fn lemma_parse_str_frame(d1: Seq<u8>, d2: Seq<u8>, pos: int, end: int)
    requires
        0 <= pos,
        end <= d1.len(),
        end <= d2.len(),
        forall|j: int| pos <= j < end ==> d1[j] == d2[j],
    ensures
        parse_str(d1, pos, end) == parse_str(d2, pos, end),
{
    lemma_find_nul_frame(d1, d2, pos, end);
    lemma_find_nul_props(d1, pos, end);
    if find_nul(d1, pos, end) is Some {
        let n = find_nul(d1, pos, end)->Some_0;
        let stop = pos + pad4(n + 1 - pos);
        lemma_pad4(n + 1 - pos);
        if stop <= end {
            assert(all_zero(d1, n, stop) <==> all_zero(d2, n, stop)) by {
                assert(forall|j: int| n <= j < stop ==> d1[j] == d2[j]);
            }
            if all_zero(d1, n, stop) {
                assert(d1.subrange(pos, n) =~= d2.subrange(pos, n));
            }
        }
    }
}

proof fn lemma_parse_arg_frame(tag: u8, d1: Seq<u8>, d2: Seq<u8>, pos: int, end: int)
    requires
        0 <= pos,
        end <= d1.len(),
        end <= d2.len(),
        forall|j: int| pos <= j < end ==> d1[j] == d2[j],
    ensures
        parse_arg(tag, d1, pos, end) == parse_arg(tag, d2, pos, end),
{
    if tag == 0x69 || tag == 0x66 || tag == 0x62 {
        if pos + 4 <= end {
            assert(be32_at(d1, pos) == be32_at(d2, pos));
        }
    }
    if tag == 0x73 {
        lemma_parse_str_frame(d1, d2, pos, end);
    } else if tag == 0x62 {
        if pos + 4 <= end {
            let size = be32_at(d1, pos) as int;
            if size <= 0x7fff_ffff {
                let stop = pos + 4 + pad4(size);
                lemma_pad4(size);
                if stop <= end {
                    assert(all_zero(d1, pos + 4 + size, stop) <==> all_zero(
                        d2,
                        pos + 4 + size,
                        stop,
                    )) by {
                        assert(forall|j: int| pos + 4 + size <= j < stop ==> d1[j] == d2[j]);
                    }
                    if all_zero(d1, pos + 4 + size, stop) {
                        assert(d1.subrange(pos + 4, pos + 4 + size) =~= d2.subrange(
                            pos + 4,
                            pos + 4 + size,
                        ));
                    }
                }
            }
        }
    } else {
        match unrec_payload_len(tag) {
            Some(n) => {
                if pos + n <= end {
                    assert(d1.subrange(pos, pos + n) =~= d2.subrange(pos, pos + n));
                }
            },
            None => {},
        }
    }
}

proof fn lemma_parse_args_frame(tags: Seq<u8>, d1: Seq<u8>, d2: Seq<u8>, pos: int, end: int)
    requires
        0 <= pos <= end,
        end <= d1.len(),
        end <= d2.len(),
        forall|j: int| pos <= j < end ==> d1[j] == d2[j],
    ensures
        parse_args(tags, d1, pos, end) == parse_args(tags, d2, pos, end),
    decreases tags.len(),
{
    if tags.len() > 0 {
        lemma_parse_arg_frame(tags[0], d1, d2, pos, end);
        if parse_arg(tags[0], d1, pos, end) is Some {
            let p1 = parse_arg(tags[0], d1, pos, end)->Some_0.1;
            lemma_parse_arg_bounds(tags[0], d1, pos, end);
            lemma_parse_args_frame(tags.subrange(1, tags.len() as int), d1, d2, p1, end);
        }
    }
}

proof fn lemma_parse_message_frame(d1: Seq<u8>, d2: Seq<u8>, pos: int, end: int)
    requires
        0 <= pos <= end,
        end <= d1.len(),
        end <= d2.len(),
        forall|j: int| pos <= j < end ==> d1[j] == d2[j],
    ensures
        parse_message(d1, pos, end) == parse_message(d2, pos, end),
{
    lemma_parse_str_frame(d1, d2, pos, end);
    if parse_str(d1, pos, end) is Some {
        let (addr, p1) = parse_str(d1, pos, end)->Some_0;
        lemma_parse_str_bounds_ok(d1, pos, end);
        lemma_parse_str_frame(d1, d2, p1, end);
        if addr.len() > 0 && addr[0] == 0x2f && parse_str(d1, p1, end) is Some {
            let (tagstr, p2) = parse_str(d1, p1, end)->Some_0;
            lemma_parse_str_bounds_ok(d1, p1, end);
            if tagstr.len() > 0 && tagstr[0] == 0x2c {
                lemma_parse_args_frame(
                    tagstr.subrange(1, tagstr.len() as int),
                    d1,
                    d2,
                    p2,
                    end,
                );
            }
        }
    }
}

proof fn lemma_parse_str_bounds_ok(data: Seq<u8>, pos: int, end: int)
    requires
        pos <= end,
        parse_str(data, pos, end) is Some,
    ensures
        pos <= parse_str(data, pos, end)->Some_0.1 <= end,
{
    lemma_find_nul_props(data, pos, end);
    let n = find_nul(data, pos, end)->Some_0;
    lemma_pad4(n + 1 - pos);
}

/// Law: router exact-match. A message whose address equals the configured
/// path, arriving on the configured origin, with a single float argument,
/// produces exactly one controller-change with the scaled value; the same
/// message on any other origin produces no actions at all.
pub proof fn lemma_route_exact_match(cfg: RouteConfigView, origin: u16, bits: u32)
    ensures
        route_spec(
            cfg,
            cfg.origin,
            MsgView { addr: cfg.address, args: seq![ArgView::Float(bits)] },
        ) == seq![spec_control_change(cfg.controller, float_bits_to_data(bits))],
        origin != cfg.origin ==> route_spec(
            cfg,
            origin,
            MsgView { addr: cfg.address, args: seq![ArgView::Float(bits)] },
        ) == Seq::<DeviceMessage>::empty(),
{
    let args = seq![ArgView::Float(bits)];
    assert(args.subrange(1, 1) =~= Seq::<ArgView>::empty());
    assert(cc_of_args(Seq::<ArgView>::empty(), cfg.controller) == Seq::<DeviceMessage>::empty());
    assert(cc_of_args(args, cfg.controller) =~= seq![
        spec_control_change(cfg.controller, float_bits_to_data(bits)),
    ]);
}

proof fn lemma_cc_of_args_no_float(args: Seq<ArgView>, controller: u8)
    requires
        forall|i: int| 0 <= i < args.len() ==> !(#[trigger] args[i] is Float),
    ensures
        cc_of_args(args, controller) == Seq::<DeviceMessage>::empty(),
    decreases args.len(),
{
    if args.len() > 0 {
        lemma_cc_of_args_no_float(args.subrange(1, args.len() as int), controller);
        assert(cc_of_args(args, controller) =~= Seq::<DeviceMessage>::empty());
    }
}

/// Law: the router ignores unmatched argument types. A message none of whose
/// arguments is a float — strings, blobs, integers, booleans, uninterpreted
/// types — produces zero device actions, on any origin, without error.
pub proof fn lemma_route_ignores_unmatched_types(cfg: RouteConfigView, origin: u16, m: MsgView)
    requires
        forall|i: int| 0 <= i < m.args.len() ==> !(#[trigger] m.args[i] is Float),
    ensures
        route_spec(cfg, origin, m) == Seq::<DeviceMessage>::empty(),
{
    lemma_cc_of_args_no_float(m.args, cfg.controller);
}

} // verus!
