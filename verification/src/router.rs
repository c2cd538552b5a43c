//! The address-pattern router: an explicit, single-entry match table.
//!
//! A message matches when its origin equals the configured listening port and
//! its address equals the configured path exactly (no wildcards). On a match
//! the arguments are walked in order: each float argument becomes one
//! controller-change command for the configured controller; integer arguments
//! are observed only; every other argument type is deliberately unhandled.
//! A non-matching message produces no actions and no error.

use vstd::prelude::*;
use crate::device::DeviceMessage;
use crate::device::encode_control_change;
use crate::device::spec_control_change;
use crate::packet::ArgView;
use crate::packet::ControlArg;
use crate::packet::ControlMessage;
use crate::packet::MsgView;
use crate::packet::args_view;

verus! {

/// The router's configuration: the origin port and address that must match,
/// and the controller number driven by matched float arguments.
pub struct RouteConfig {
    pub origin: u16,
    pub address: Vec<u8>,
    pub controller: u8,
}

/// Mathematical form of a `RouteConfig`.
#[verifier::ext_equal]
pub struct RouteConfigView {
    pub origin: u16,
    pub address: Seq<u8>,
    pub controller: u8,
}

impl View for RouteConfig {
    type V = RouteConfigView;

    open spec fn view(&self) -> RouteConfigView {
        RouteConfigView {
            origin: self.origin,
            address: self.address@,
            controller: self.controller,
        }
    }
}

/// The scaling policy for a float argument, on its 32-bit wide bit pattern:
/// the value is truncated toward zero and clamped into the device range
/// 0..=127. Negative values and NaN give 0; positive infinity gives 127.
pub open spec fn float_bits_to_data(bits: u32) -> u8 {
    let sign = bits >> 31u32;
    let exp = (bits >> 23u32) & 0xff;
    let frac = bits & 0x7f_ffff;
    if sign == 1 {
        0
    } else if exp == 0xff {
        if frac == 0 {
            127
        } else {
            0
        }
    } else if exp < 127 {
        0
    } else if exp >= 134 {
        127
    } else {
        let whole = (0x80_0000u32 | frac) >> ((150 - exp) as u32);
        if whole > 127 {
            127
        } else {
            whole as u8
        }
    }
}

/// Scale a float argument's bit pattern into a device data byte, per
/// `float_bits_to_data`.
pub fn float_to_data_byte(bits: u32) -> (r: u8)
    ensures
        r == float_bits_to_data(bits),
{
    let sign = bits >> 31u32;
    let exp = (bits >> 23u32) & 0xff;
    let frac = bits & 0x7f_ffff;
    if sign == 1 {
        0
    } else if exp == 0xff {
        if frac == 0 {
            127
        } else {
            0
        }
    } else if exp < 127 {
        0
    } else if exp >= 134 {
        127
    } else {
        let v = (0x80_0000u32 | frac) >> (150 - exp);
        if v > 127 {
            127
        } else {
            v as u8
        }
    }
}

/// The controller-change commands a matched message's arguments produce, in
/// argument order: one per float argument, none for any other type.
pub open spec fn cc_of_args(args: Seq<ArgView>, controller: u8) -> Seq<DeviceMessage>
    decreases args.len(),
{
    if args.len() == 0 {
        Seq::empty()
    } else {
        (match args[0] {
            ArgView::Float(bits) => seq![spec_control_change(controller, float_bits_to_data(bits))],
            _ => Seq::empty(),
        }) + cc_of_args(args.subrange(1, args.len() as int), controller)
    }
}

/// What the router returns for a message from `origin`: the commands of
/// `cc_of_args` when both origin and address match, nothing otherwise.
pub open spec fn route_spec(cfg: RouteConfigView, origin: u16, m: MsgView) -> Seq<DeviceMessage> {
    if origin == cfg.origin && m.addr == cfg.address {
        cc_of_args(m.args, cfg.controller)
    } else {
        Seq::empty()
    }
}

/// Whether two byte vectors hold the same bytes.
fn bytes_eq(a: &Vec<u8>, b: &Vec<u8>) -> (r: bool)
    ensures
        r <==> a@ == b@,
{
    if a.len() != b.len() {
        return false;
    }
    let mut i: usize = 0;
    while i < a.len()
        invariant
            i <= a@.len(),
            a@.len() == b@.len(),
            forall|j: int| 0 <= j < i ==> a@[j] == b@[j],
        decreases a@.len() - i,
    {
        if a[i] != b[i] {
            return false;
        }
        i = i + 1;
    }
    proof {
        assert(a@ =~= b@);
    }
    true
}

/// Route one message: returns the device commands to send, exactly as
/// `route_spec` states them, in argument order.
pub fn route(cfg: &RouteConfig, origin: u16, msg: &ControlMessage) -> (r: Vec<DeviceMessage>)
    ensures
        r@ == route_spec(cfg@, origin, msg@),
{
    if origin != cfg.origin || !bytes_eq(&msg.addr, &cfg.address) {
        let r: Vec<DeviceMessage> = Vec::new();
        proof {
            assert(r@ =~= route_spec(cfg@, origin, msg@));
        }
        return r;
    }
    let ghost av = args_view(msg.args@);
    let mut out: Vec<DeviceMessage> = Vec::new();
    let mut i: usize = msg.args.len();
    proof {
        assert(av.subrange(i as int, av.len() as int) =~= Seq::<ArgView>::empty());
    }
    while i > 0
        invariant
            i <= msg.args@.len(),
            av == args_view(msg.args@),
            out@ == cc_of_args(av.subrange(i as int, av.len() as int), cfg.controller),
        decreases i,
    {
        i = i - 1;
        match &msg.args[i] {
            ControlArg::Float(bits) => {
                let dm = encode_control_change(cfg.controller, float_to_data_byte(*bits));
                out.insert(0, dm);
            },
            _ => {},
        }
        proof {
            let tail = av.subrange(i as int, av.len() as int);
            assert(tail[0] == av[i as int]);
            assert(av[i as int] == msg.args@[i as int]@);
            assert(tail.subrange(1, tail.len() as int) =~= av.subrange(
                i + 1 as int,
                av.len() as int,
            ));
            assert(out@ =~= cc_of_args(tail, cfg.controller));
        }
    }
    proof {
        assert(av.subrange(0, av.len() as int) =~= av);
    }
    out
}

} // verus!
