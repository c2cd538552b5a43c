//! The dispatcher's per-packet work: flatten a packet into its messages in
//! order (recursively through nested bundles), route each message, and return
//! the device commands to send. The consume loop itself — blocking on the
//! queue until it closes — belongs to the caller; this module is every
//! decision the loop makes.

use vstd::prelude::*;
use crate::device::DeviceMessage;
use crate::packet::ControlMessage;
use crate::packet::ControlPacket;
use crate::packet::MsgView;
use crate::packet::PacketView;
use crate::packet::SourcedPacket;
use crate::packet::msgs_view;
use crate::packet::packet_view;
use crate::packet::packets_view;
use crate::router::RouteConfig;
use crate::router::RouteConfigView;
use crate::router::route;
use crate::router::route_spec;

verus! {

/// The messages a packet flattens to: a message is itself; a bundle is its
/// elements' flattenings, concatenated in element order.
pub open spec fn flatten_view(p: PacketView) -> Seq<MsgView>
    decreases p,
{
    match p {
        PacketView::Message(m) => seq![m],
        PacketView::Bundle(_, elems) => flatten_elems_view(elems),
    }
}

/// The messages a sequence of packets flattens to, in order.
pub open spec fn flatten_elems_view(s: Seq<PacketView>) -> Seq<MsgView>
    decreases s,
{
    if s.len() == 0 {
        Seq::empty()
    } else {
        flatten_view(s[0]) + flatten_elems_view(s.subrange(1, s.len() as int))
    }
}

/// Law: flattening preserves order. A single message flattens to exactly
/// itself, a bundle flattens to its elements' flattenings in element order,
/// and flattening distributes over concatenation — so the messages of
/// `s1 + s2` are the messages of `s1` followed by the messages of `s2`,
/// however deeply bundles are nested.
pub proof fn lemma_flatten_preserves_order(s1: Seq<PacketView>, s2: Seq<PacketView>)
    ensures
        flatten_elems_view(s1 + s2) == flatten_elems_view(s1) + flatten_elems_view(s2),
    decreases s1.len(),
{
    if s1.len() == 0 {
        assert(s1 + s2 =~= s2);
        assert(flatten_elems_view(s1) + flatten_elems_view(s2) =~= flatten_elems_view(s2));
    } else {
        let t = s1 + s2;
        assert(t[0] == s1[0]);
        assert(t.subrange(1, t.len() as int) =~= s1.subrange(1, s1.len() as int) + s2);
        lemma_flatten_preserves_order(s1.subrange(1, s1.len() as int), s2);
        assert(flatten_elems_view(s1 + s2) =~= flatten_elems_view(s1) + flatten_elems_view(s2));
    }
}

/// Size measure of a packet: one for itself plus its nested elements.
pub open spec fn packet_size(p: PacketView) -> nat
    decreases p,
{
    match p {
        PacketView::Message(_) => 1,
        PacketView::Bundle(_, elems) => 1 + elems_size(elems),
    }
}

/// Combined size of a sequence of packets.
pub open spec fn elems_size(s: Seq<PacketView>) -> nat
    decreases s,
{
    if s.len() == 0 {
        0
    } else {
        packet_size(s[0]) + elems_size(s.subrange(1, s.len() as int))
    }
}

proof fn lemma_elems_size_append(s1: Seq<PacketView>, s2: Seq<PacketView>)
    ensures
        elems_size(s1 + s2) == elems_size(s1) + elems_size(s2),
    decreases s1.len(),
{
    if s1.len() == 0 {
        assert(s1 + s2 =~= s2);
    } else {
        let t = s1 + s2;
        assert(t[0] == s1[0]);
        assert(t.subrange(1, t.len() as int) =~= s1.subrange(1, s1.len() as int) + s2);
        lemma_elems_size_append(s1.subrange(1, s1.len() as int), s2);
    }
}

/// Flatten a packet into its messages, preserving order through arbitrarily
/// nested bundles.
pub fn flatten(p: ControlPacket) -> (r: Vec<ControlMessage>)
    ensures
        msgs_view(r@) == flatten_view(packet_view(p)),
{
    let ghost target = flatten_view(packet_view(p));
    let mut work: Vec<ControlPacket> = Vec::new();
    let mut out: Vec<ControlMessage> = Vec::new();
    work.push(p);
    proof {
        let wv = packets_view(work@);
        assert(work@.subrange(1, work@.len() as int) =~= Seq::<ControlPacket>::empty());
        assert(packets_view(Seq::<ControlPacket>::empty()) =~= Seq::<PacketView>::empty());
        assert(wv =~= seq![packet_view(work@[0])]);
        assert(wv.subrange(1, wv.len() as int) =~= Seq::<PacketView>::empty());
        assert(flatten_elems_view(Seq::<PacketView>::empty()) == Seq::<MsgView>::empty());
        assert(flatten_elems_view(wv) =~= flatten_view(packet_view(work@[0])));
        assert(msgs_view(out@) =~= Seq::<MsgView>::empty());
        assert(msgs_view(out@) + flatten_elems_view(packets_view(work@)) =~= target);
    }
    while work.len() > 0
        invariant
            msgs_view(out@) + flatten_elems_view(packets_view(work@)) == target,
        decreases elems_size(packets_view(work@)),
    {
        let ghost pre_views = packets_view(work@);
        let ghost out0 = out@;
        let first = work.remove(0);
        let ghost rest_views = packets_view(work@);
        proof {
            assert(pre_views[0] == packet_view(first));
            assert(pre_views.subrange(1, pre_views.len() as int) =~= rest_views);
            assert(flatten_elems_view(pre_views) == flatten_view(packet_view(first))
                + flatten_elems_view(rest_views));
            assert(elems_size(pre_views) == packet_size(packet_view(first)) + elems_size(
                rest_views,
            ));
        }
        match first {
            ControlPacket::Message(m) => {
                let ghost m0 = m@;
                proof {
                    assert(flatten_view(packet_view(ControlPacket::Message(m))) =~= seq![m0]);
                }
                out.push(m);
                proof {
                    assert(msgs_view(out@) =~= msgs_view(out0) + seq![m0]);
                    assert(msgs_view(out@) + flatten_elems_view(packets_view(work@)) =~= target);
                }
            },
            ControlPacket::Bundle(tt, mut elems) => {
                let ghost e0 = elems@;
                let ghost ev = packets_view(elems@);
                proof {
                    assert(packet_view(ControlPacket::Bundle(tt, elems)) == PacketView::Bundle(
                        tt,
                        ev,
                    ));
                    assert(flatten_view(PacketView::Bundle(tt, ev)) == flatten_elems_view(ev));
                    assert(packet_size(PacketView::Bundle(tt, ev)) == 1 + elems_size(ev));
                    lemma_flatten_preserves_order(ev, rest_views);
                    lemma_elems_size_append(ev, rest_views);
                    lemma_packets_view_concat(e0, work@);
                }
                elems.append(&mut work);
                work = elems;
                proof {
                    assert(packets_view(work@) == ev + rest_views);
                    assert(msgs_view(out@) + flatten_elems_view(packets_view(work@)) =~= target);
                    assert(elems_size(packets_view(work@)) < elems_size(pre_views));
                }
            },
        }
    }
    proof {
        assert(packets_view(work@) =~= Seq::<PacketView>::empty());
        assert(msgs_view(out@) =~= target);
    }
    out
}

/// The views of concatenated packet vectors are the concatenated views.
proof fn lemma_packets_view_concat(a: Seq<ControlPacket>, b: Seq<ControlPacket>)
    ensures
        packets_view(a + b) == packets_view(a) + packets_view(b),
    decreases a.len(),
{
    if a.len() == 0 {
        assert(a + b =~= b);
        assert(packets_view(a) + packets_view(b) =~= packets_view(b));
    } else {
        let t = a + b;
        assert(t[0] == a[0]);
        assert(t.subrange(1, t.len() as int) =~= a.subrange(1, a.len() as int) + b);
        lemma_packets_view_concat(a.subrange(1, a.len() as int), b);
        assert(packets_view(a + b) =~= packets_view(a) + packets_view(b));
    }
}

/// The device commands a sequence of messages produces through the router,
/// concatenated in message order.
pub open spec fn route_all(cfg: RouteConfigView, origin: u16, msgs: Seq<MsgView>) -> Seq<
    DeviceMessage,
>
    decreases msgs.len(),
{
    if msgs.len() == 0 {
        Seq::empty()
    } else {
        route_spec(cfg, origin, msgs[0]) + route_all(
            cfg,
            origin,
            msgs.subrange(1, msgs.len() as int),
        )
    }
}

/// What dispatching one sourced packet sends to the device: flatten, then
/// route every message in order.
pub open spec fn dispatch_spec(cfg: RouteConfigView, origin: u16, p: PacketView) -> Seq<
    DeviceMessage,
> {
    route_all(cfg, origin, flatten_view(p))
}

/// The dispatcher's step for one queued packet: flatten it (recursively, in
/// order), route each message with the packet's origin, and return the device
/// commands to send, exactly as `dispatch_spec` states them.
pub fn dispatch(cfg: &RouteConfig, sp: SourcedPacket) -> (r: Vec<DeviceMessage>)
    ensures
        r@ == dispatch_spec(cfg@, sp.origin, packet_view(sp.packet)),
{
    let origin = sp.origin;
    let msgs = flatten(sp.packet);
    let ghost mv = msgs_view(msgs@);
    let mut out: Vec<DeviceMessage> = Vec::new();
    let mut i: usize = msgs.len();
    proof {
        assert(mv.subrange(i as int, mv.len() as int) =~= Seq::<MsgView>::empty());
    }
    while i > 0
        invariant
            i <= msgs@.len(),
            mv == msgs_view(msgs@),
            out@ == route_all(cfg@, origin, mv.subrange(i as int, mv.len() as int)),
        decreases i,
    {
        i = i - 1;
        let mut chunk = route(cfg, origin, &msgs[i]);
        chunk.append(&mut out);
        out = chunk;
        proof {
            let tail = mv.subrange(i as int, mv.len() as int);
            assert(tail[0] == mv[i as int]);
            assert(mv[i as int] == msgs@[i as int]@);
            assert(tail.subrange(1, tail.len() as int) =~= mv.subrange(
                i + 1 as int,
                mv.len() as int,
            ));
            assert(out@ =~= route_all(cfg@, origin, tail));
        }
    }
    proof {
        assert(mv.subrange(0, mv.len() as int) =~= mv);
    }
    out
}

} // verus!
