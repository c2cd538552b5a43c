use control_bridge::codec::decode_packet;
use control_bridge::codec::encode_message;
use control_bridge::codec::ingest_datagram;
use control_bridge::packet::ControlArg;
use control_bridge::packet::ControlMessage;
use control_bridge::packet::ControlPacket;
use control_bridge::PipelineError;

fn msg(addr: &[u8], args: Vec<ControlArg>) -> ControlMessage {
    ControlMessage { addr: addr.to_vec(), args }
}

#[test]
fn encode_known_bytes() {
    let m = msg(b"/a", vec![ControlArg::Int(5)]);
    let bytes = encode_message(&m);
    assert_eq!(
        bytes,
        vec![0x2f, 0x61, 0, 0, 0x2c, 0x69, 0, 0, 0, 0, 0, 5]
    );
}

#[test]
fn round_trip_int_and_float() {
    let m = msg(
        b"/device/input/crank",
        vec![ControlArg::Int(-7), ControlArg::Float(1.5f32.to_bits())],
    );
    let bytes = encode_message(&m);
    match decode_packet(&bytes) {
        Ok(ControlPacket::Message(got)) => assert_eq!(got, m),
        _ => panic!("expected a decoded message"),
    }
}

#[test]
fn round_trip_all_argument_types() {
    let m = msg(
        b"/x/y",
        vec![
            ControlArg::Int(123456),
            ControlArg::Float(0.25f32.to_bits()),
            ControlArg::Str(b"hello".to_vec()),
            ControlArg::Bool(true),
            ControlArg::Bool(false),
            ControlArg::Blob(vec![1, 2, 3]),
            ControlArg::Unrecognized(0x4e, vec![]),
            ControlArg::Unrecognized(0x49, vec![]),
            ControlArg::Unrecognized(0x68, vec![0, 0, 0, 0, 0, 0, 0, 9]),
            ControlArg::Unrecognized(0x6d, vec![0, 0x90, 60, 100]),
            ControlArg::Unrecognized(0x64, vec![0x40, 9, 0x21, 0xfb, 0x54, 0x44, 0x2d, 0x18]),
        ],
    );
    let bytes = encode_message(&m);
    match decode_packet(&bytes) {
        Ok(ControlPacket::Message(got)) => assert_eq!(got, m),
        _ => panic!("expected a decoded message"),
    }
}

#[test]
fn every_truncation_is_rejected() {
    let m = msg(
        b"/device/input/crank",
        vec![
            ControlArg::Float(0.5f32.to_bits()),
            ControlArg::Str(b"abc".to_vec()),
            ControlArg::Blob(vec![9, 8, 7, 6, 5]),
        ],
    );
    let bytes = encode_message(&m);
    for k in 0..bytes.len() {
        match decode_packet(&bytes[..k]) {
            Err(PipelineError::MalformedPacket) => {}
            _ => panic!("prefix of length {} must be malformed", k),
        }
    }
}

#[test]
fn empty_datagram_is_rejected() {
    assert!(matches!(
        decode_packet(&[]),
        Err(PipelineError::MalformedPacket)
    ));
}

#[test]
fn bad_type_tag_is_rejected() {
    // ",q" names a tag outside the recognized set
    let bytes = [0x2f, 0x61, 0, 0, 0x2c, 0x71, 0, 0, 0, 0, 0, 0];
    assert!(matches!(
        decode_packet(&bytes),
        Err(PipelineError::MalformedPacket)
    ));
}

#[test]
fn address_without_slash_is_rejected() {
    let bytes = [0x61, 0x62, 0, 0, 0x2c, 0, 0, 0];
    assert!(matches!(
        decode_packet(&bytes),
        Err(PipelineError::MalformedPacket)
    ));
}

#[test]
fn missing_type_tag_string_is_rejected() {
    let bytes = [0x2f, 0x61, 0, 0];
    assert!(matches!(
        decode_packet(&bytes),
        Err(PipelineError::MalformedPacket)
    ));
}

#[test]
fn nonzero_padding_is_rejected() {
    // address "/a" padded with a stray byte where a zero must sit
    let bytes = [0x2f, 0x61, 0, 1, 0x2c, 0, 0, 0];
    assert!(matches!(
        decode_packet(&bytes),
        Err(PipelineError::MalformedPacket)
    ));
}

#[test]
fn unterminated_string_is_rejected() {
    let bytes = [0x2f, 0x61, 0x62, 0x63];
    assert!(matches!(
        decode_packet(&bytes),
        Err(PipelineError::MalformedPacket)
    ));
}

fn be32(x: u32) -> [u8; 4] {
    [(x >> 24) as u8, (x >> 16) as u8, (x >> 8) as u8, x as u8]
}

fn bundle_bytes(elements: &[Vec<u8>]) -> Vec<u8> {
    let mut out: Vec<u8> = Vec::new();
    out.extend_from_slice(b"#bundle\0");
    out.extend_from_slice(&be32(0));
    out.extend_from_slice(&be32(1));
    for e in elements {
        out.extend_from_slice(&be32(e.len() as u32));
        out.extend_from_slice(e);
    }
    out
}

#[test]
fn bundle_decodes_in_order() {
    let a = encode_message(&msg(b"/a", vec![ControlArg::Int(1)]));
    let b = encode_message(&msg(b"/b", vec![ControlArg::Int(2)]));
    let bytes = bundle_bytes(&[a, b]);
    match decode_packet(&bytes) {
        Ok(ControlPacket::Bundle(tt, elems)) => {
            assert_eq!(tt.seconds, 0);
            assert_eq!(tt.fraction, 1);
            assert_eq!(elems.len(), 2);
            match &elems[0] {
                ControlPacket::Message(m) => assert_eq!(m.addr, b"/a".to_vec()),
                _ => panic!("expected a message"),
            }
            match &elems[1] {
                ControlPacket::Message(m) => assert_eq!(m.addr, b"/b".to_vec()),
                _ => panic!("expected a message"),
            }
        }
        _ => panic!("expected a decoded bundle"),
    }
}

#[test]
fn truncated_bundle_is_rejected() {
    let a = encode_message(&msg(b"/a", vec![ControlArg::Int(1)]));
    let bytes = bundle_bytes(&[a]);
    for k in 0..bytes.len() {
        if k == 16 {
            // this prefix is itself a complete, empty bundle
            match decode_packet(&bytes[..k]) {
                Ok(ControlPacket::Bundle(_, elems)) => assert!(elems.is_empty()),
                _ => panic!("marker plus timestamp decodes as an empty bundle"),
            }
            continue;
        }
        match decode_packet(&bytes[..k]) {
            Err(PipelineError::MalformedPacket) => {}
            _ => panic!("bundle prefix of length {} must be malformed", k),
        }
    }
}

#[test]
fn ingest_tags_origin_and_drops_malformed() {
    let m = msg(b"/a", vec![]);
    let bytes = encode_message(&m);
    let sp = ingest_datagram(&bytes, 9010).expect("well-formed datagram");
    assert_eq!(sp.origin, 9010);
    match sp.packet {
        ControlPacket::Message(got) => assert_eq!(got, m),
        _ => panic!("expected a message"),
    }
    assert!(ingest_datagram(&bytes[..3], 9010).is_none());
}
