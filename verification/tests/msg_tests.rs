use sdn_core::msg::{MsgDecodeError, TransportMsg};
use sdn_core::router::RouteRule;

fn roundtrip(msg: TransportMsg) {
    let encoded = msg.to_vec();
    let decoded = TransportMsg::from_vec(encoded).expect("an encoded frame must decode");
    assert_eq!(decoded, msg);
}

#[test]
fn codec_roundtrip_direct() {
    roundtrip(TransportMsg::build(4, RouteRule::Direct, 0, false, None, vec![], vec![1, 2, 3, 4]));
}

#[test]
fn codec_roundtrip_to_node_with_sender() {
    roundtrip(TransportMsg::build(
        4,
        RouteRule::ToNode(0xDEADBEEF),
        77,
        false,
        Some(42),
        vec![9, 9],
        vec![],
    ));
}

#[test]
fn codec_roundtrip_to_key_secure() {
    roundtrip(TransportMsg::build(
        255,
        RouteRule::ToKey(123456),
        0xFFFF_FFFF,
        true,
        Some(0xFFFF_FFFF),
        vec![0; 127],
        vec![7; 1000],
    ));
}

#[test]
fn codec_roundtrip_to_service() {
    roundtrip(TransportMsg::build(1, RouteRule::ToService(9), 3, false, None, vec![5], vec![6]));
}

#[test]
fn decode_rejects_short_frame() {
    assert_eq!(TransportMsg::from_vec(vec![]), Err(MsgDecodeError::TooShort));
    assert_eq!(TransportMsg::from_vec(vec![0, 1, 2]), Err(MsgDecodeError::TooShort));
}

#[test]
fn decode_rejects_unknown_route_kind() {
    // flags with route kind bits 4: 4 * 16 = 64
    assert_eq!(
        TransportMsg::from_vec(vec![64, 0, 0, 0, 0, 0, 0]),
        Err(MsgDecodeError::InvalidRouteType)
    );
}

#[test]
fn decode_rejects_meta_continuation_bit() {
    // direct route, no sender; length byte 0x80 asks for a longer
    // varint than the codec carries
    assert_eq!(
        TransportMsg::from_vec(vec![0, 0, 0, 0, 0, 0, 128]),
        Err(MsgDecodeError::InvalidMeta)
    );
}

#[test]
fn decode_rejects_meta_overrun() {
    // direct route, no sender; meta length byte promises 5 bytes, none follow
    assert_eq!(
        TransportMsg::from_vec(vec![0, 0, 0, 0, 0, 0, 5]),
        Err(MsgDecodeError::InvalidMeta)
    );
}

#[test]
fn decode_rejects_truncated_route_payload() {
    // route kind 1 (to-node) needs four bytes after the fixed fields
    assert_eq!(
        TransportMsg::from_vec(vec![16, 0, 0, 0, 0, 0, 1]),
        Err(MsgDecodeError::TooShort)
    );
}

#[test]
fn secure_bit_rides_the_top_of_the_flags_byte() {
    assert!(TransportMsg::is_secure_header(128));
    assert!(TransportMsg::is_secure_header(255));
    assert!(!TransportMsg::is_secure_header(127));
    let secure = TransportMsg::build(1, RouteRule::Direct, 0, true, None, vec![], vec![]);
    let plain = TransportMsg::build(1, RouteRule::Direct, 0, false, None, vec![], vec![]);
    assert!(TransportMsg::is_secure_header(secure.to_vec()[0]));
    assert!(!TransportMsg::is_secure_header(plain.to_vec()[0]));
}

#[test]
fn encode_layout_is_the_documented_frame() {
    let msg = TransportMsg::build(
        7,
        RouteRule::ToNode(0x01020304),
        0x0A0B0C0D,
        false,
        Some(0x11223344),
        vec![0xEE],
        vec![0xFF],
    );
    let b = msg.to_vec();
    // flags: route kind 1 in bits 6..4, sender bit set
    assert_eq!(b[0], 16 + 8);
    assert_eq!(b[1], 7);
    assert_eq!(&b[2..6], &[0x0A, 0x0B, 0x0C, 0x0D]);
    assert_eq!(&b[6..10], &[0x01, 0x02, 0x03, 0x04]);
    assert_eq!(&b[10..14], &[0x11, 0x22, 0x33, 0x44]);
    assert_eq!(b[14], 1);
    assert_eq!(b[15], 0xEE);
    assert_eq!(b[16], 0xFF);
    assert_eq!(b.len(), 17);
}
