//! Cross-checks of the codec against the rosc implementation of the same
//! wire protocol: what this library encodes, rosc decodes to the same values,
//! and what rosc encodes, this library decodes to the same values.

use control_bridge::codec::decode_packet;
use control_bridge::codec::encode_message;
use control_bridge::packet::ControlArg;
use control_bridge::packet::ControlMessage;
use control_bridge::packet::ControlPacket;

#[test]
fn rosc_decodes_our_encoding() {
    let m = ControlMessage {
        addr: b"/device/input/crank".to_vec(),
        args: vec![
            ControlArg::Int(-42),
            ControlArg::Float(0.5f32.to_bits()),
            ControlArg::Str(b"hi".to_vec()),
            ControlArg::Bool(true),
            ControlArg::Blob(vec![1, 2, 3, 4, 5]),
        ],
    };
    let bytes = encode_message(&m);
    let (rest, packet) = rosc::decoder::decode_udp(&bytes).expect("rosc accepts the encoding");
    assert!(rest.is_empty());
    match packet {
        rosc::OscPacket::Message(got) => {
            assert_eq!(got.addr, "/device/input/crank");
            assert_eq!(got.args.len(), 5);
            assert_eq!(got.args[0], rosc::OscType::Int(-42));
            assert_eq!(got.args[1], rosc::OscType::Float(0.5));
            assert_eq!(got.args[2], rosc::OscType::String("hi".to_string()));
            assert_eq!(got.args[3], rosc::OscType::Bool(true));
            assert_eq!(got.args[4], rosc::OscType::Blob(vec![1, 2, 3, 4, 5]));
        }
        _ => panic!("expected a message"),
    }
}

#[test]
fn we_decode_rosc_encoding() {
    let rm = rosc::OscMessage {
        addr: "/device/input/crank".to_string(),
        args: vec![
            rosc::OscType::Float(1.0),
            rosc::OscType::Int(7),
            rosc::OscType::String("abc".to_string()),
        ],
    };
    let bytes = rosc::encoder::encode(&rosc::OscPacket::Message(rm)).expect("rosc encodes");
    match decode_packet(&bytes) {
        Ok(ControlPacket::Message(got)) => {
            assert_eq!(got.addr, b"/device/input/crank".to_vec());
            assert_eq!(
                got.args,
                vec![
                    ControlArg::Float(1.0f32.to_bits()),
                    ControlArg::Int(7),
                    ControlArg::Str(b"abc".to_vec()),
                ]
            );
        }
        _ => panic!("expected a decoded message"),
    }
}

#[test]
fn we_decode_rosc_bundle() {
    let rm = |addr: &str| {
        rosc::OscPacket::Message(rosc::OscMessage {
            addr: addr.to_string(),
            args: vec![rosc::OscType::Int(1)],
        })
    };
    let bundle = rosc::OscPacket::Bundle(rosc::OscBundle {
        timetag: rosc::OscTime { seconds: 0, fractional: 1 },
        content: vec![rm("/a"), rm("/b")],
    });
    let bytes = rosc::encoder::encode(&bundle).expect("rosc encodes");
    match decode_packet(&bytes) {
        Ok(ControlPacket::Bundle(_, elems)) => {
            assert_eq!(elems.len(), 2);
            match &elems[0] {
                ControlPacket::Message(m) => assert_eq!(m.addr, b"/a".to_vec()),
                _ => panic!("expected a message"),
            }
            match &elems[1] {
                ControlPacket::Message(m) => assert_eq!(m.addr, b"/b".to_vec()),
                _ => panic!("expected a message"),
            }
        }
        _ => panic!("expected a decoded bundle"),
    }
}
