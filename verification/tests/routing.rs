use control_bridge::codec::encode_message;
use control_bridge::codec::ingest_datagram;
use control_bridge::device::encode_control_change;
use control_bridge::device::encode_note_off;
use control_bridge::device::encode_note_on;
use control_bridge::device::select_device;
use control_bridge::device::DeviceMessage;
use control_bridge::dispatch::dispatch;
use control_bridge::dispatch::flatten;
use control_bridge::packet::ControlArg;
use control_bridge::packet::ControlMessage;
use control_bridge::packet::ControlPacket;
use control_bridge::packet::SourcedPacket;
use control_bridge::packet::TimeTag;
use control_bridge::router::float_to_data_byte;
use control_bridge::router::route;
use control_bridge::router::RouteConfig;
use control_bridge::PipelineError;

fn crank_config() -> RouteConfig {
    RouteConfig { origin: 9010, address: b"/device/input/crank".to_vec(), controller: 2 }
}

fn msg(addr: &[u8], args: Vec<ControlArg>) -> ControlMessage {
    ControlMessage { addr: addr.to_vec(), args }
}

#[test]
fn float_scaling_truncates_and_clamps() {
    assert_eq!(float_to_data_byte(0.5f32.to_bits()), 0);
    assert_eq!(float_to_data_byte(1.0f32.to_bits()), 1);
    assert_eq!(float_to_data_byte(1.9f32.to_bits()), 1);
    assert_eq!(float_to_data_byte(64.25f32.to_bits()), 64);
    assert_eq!(float_to_data_byte(127.0f32.to_bits()), 127);
    assert_eq!(float_to_data_byte(127.9f32.to_bits()), 127);
    assert_eq!(float_to_data_byte(300.0f32.to_bits()), 127);
    assert_eq!(float_to_data_byte((-3.0f32).to_bits()), 0);
    assert_eq!(float_to_data_byte((-0.0f32).to_bits()), 0);
    assert_eq!(float_to_data_byte(f32::NAN.to_bits()), 0);
    assert_eq!(float_to_data_byte(f32::INFINITY.to_bits()), 127);
}

#[test]
fn route_exact_match_emits_one_control_change() {
    let cfg = crank_config();
    let m = msg(b"/device/input/crank", vec![ControlArg::Float(0.5f32.to_bits())]);
    let actions = route(&cfg, 9010, &m);
    assert_eq!(
        actions,
        vec![DeviceMessage { status: 0xb0, data1: 2, data2: 0 }]
    );
}

#[test]
fn route_other_origin_emits_nothing() {
    let cfg = crank_config();
    let m = msg(b"/device/input/crank", vec![ControlArg::Float(0.5f32.to_bits())]);
    assert!(route(&cfg, 9011, &m).is_empty());
}

#[test]
fn route_other_address_emits_nothing() {
    let cfg = crank_config();
    let m = msg(b"/device/input/other", vec![ControlArg::Float(0.5f32.to_bits())]);
    assert!(route(&cfg, 9010, &m).is_empty());
}

#[test]
fn route_ignores_unmatched_types() {
    let cfg = crank_config();
    let m = msg(
        b"/device/input/crank",
        vec![
            ControlArg::Str(b"text".to_vec()),
            ControlArg::Blob(vec![1, 2, 3]),
            ControlArg::Int(64),
            ControlArg::Bool(true),
        ],
    );
    assert!(route(&cfg, 9010, &m).is_empty());
}

#[test]
fn route_keeps_argument_order() {
    let cfg = crank_config();
    let m = msg(
        b"/device/input/crank",
        vec![
            ControlArg::Float(1.0f32.to_bits()),
            ControlArg::Int(9),
            ControlArg::Float(2.0f32.to_bits()),
        ],
    );
    let actions = route(&cfg, 9010, &m);
    assert_eq!(
        actions,
        vec![
            DeviceMessage { status: 0xb0, data1: 2, data2: 1 },
            DeviceMessage { status: 0xb0, data1: 2, data2: 2 },
        ]
    );
}

#[test]
fn flatten_preserves_order_including_nested_bundles() {
    let tt = TimeTag { seconds: 0, fraction: 1 };
    let a = msg(b"/a", vec![]);
    let b = msg(b"/b", vec![]);
    let c = msg(b"/c", vec![]);
    let nested = ControlPacket::Bundle(
        tt,
        vec![ControlPacket::Message(b.clone()), ControlPacket::Message(c.clone())],
    );
    let outer = ControlPacket::Bundle(tt, vec![ControlPacket::Message(a.clone()), nested]);
    let flat = flatten(outer);
    assert_eq!(flat, vec![a, b, c]);
}

#[test]
fn flatten_single_message_is_itself() {
    let a = msg(b"/only", vec![ControlArg::Int(3)]);
    assert_eq!(flatten(ControlPacket::Message(a.clone())), vec![a]);
}

#[test]
fn select_device_is_deterministic() {
    assert_eq!(select_device(0), Err(PipelineError::NoDeviceAvailable));
    assert_eq!(select_device(1), Ok(0));
    assert_eq!(select_device(5), Ok(0));
    assert_eq!(select_device(5), Ok(0));
}

#[test]
fn device_encoders_clamp_into_data_range() {
    assert_eq!(
        encode_note_on(200, 64),
        DeviceMessage { status: 0x90, data1: 127, data2: 64 }
    );
    assert_eq!(
        encode_note_off(10, 255),
        DeviceMessage { status: 0x80, data1: 10, data2: 127 }
    );
    assert_eq!(
        encode_control_change(2, 64),
        DeviceMessage { status: 0xb0, data1: 2, data2: 64 }
    );
    let bytes = encode_control_change(2, 64).to_bytes();
    assert_eq!(bytes, vec![0xb0, 2, 64]);
}

#[test]
fn end_to_end_crank_datagram_drives_the_device() {
    // one encoded datagram with a single float argument 1.0, on the
    // configured port, yields exactly one three-byte controller change
    let cfg = crank_config();
    let m = msg(b"/device/input/crank", vec![ControlArg::Float(1.0f32.to_bits())]);
    let datagram = encode_message(&m);
    let sp = ingest_datagram(&datagram, 9010).expect("datagram is well-formed");
    let actions = dispatch(&cfg, sp);
    assert_eq!(actions.len(), 1);
    assert_eq!(actions[0].to_bytes(), vec![0xb0, 2, 1]);
}

#[test]
fn dispatch_routes_every_bundled_message_in_order() {
    let cfg = crank_config();
    let tt = TimeTag { seconds: 0, fraction: 0 };
    let m1 = msg(b"/device/input/crank", vec![ControlArg::Float(3.0f32.to_bits())]);
    let m2 = msg(b"/elsewhere", vec![ControlArg::Float(9.0f32.to_bits())]);
    let m3 = msg(b"/device/input/crank", vec![ControlArg::Float(4.0f32.to_bits())]);
    let bundle = ControlPacket::Bundle(
        tt,
        vec![
            ControlPacket::Message(m1),
            ControlPacket::Message(m2),
            ControlPacket::Message(m3),
        ],
    );
    let actions = dispatch(&cfg, SourcedPacket { origin: 9010, packet: bundle });
    assert_eq!(
        actions,
        vec![
            DeviceMessage { status: 0xb0, data1: 2, data2: 3 },
            DeviceMessage { status: 0xb0, data1: 2, data2: 4 },
        ]
    );
}
