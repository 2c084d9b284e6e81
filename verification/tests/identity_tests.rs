use sdn_core::identity::{AddrDecodeError, ConnDirection, ConnId, NodeAddr, Protocol};

#[test]
fn conn_id_carries_direction_and_uuid() {
    let inc = ConnId::from_incoming(7);
    let out = ConnId::from_outgoing(7);
    assert_eq!(inc.direction(), ConnDirection::Incoming);
    assert_eq!(out.direction(), ConnDirection::Outgoing);
    assert_eq!(inc.uuid(), 7);
    assert_ne!(inc, out);
}

#[test]
fn addr_codec_roundtrip() {
    let addr = NodeAddr {
        node_id: 0x01020304,
        parts: vec![Protocol::Udp(0x7F000001, 8080), Protocol::Tcp(0x0A000001, 443)],
    };
    let bytes = addr.to_vec();
    assert_eq!(
        bytes,
        vec![
            1, 2, 3, 4, // node id
            1, 0x7F, 0, 0, 1, 0x1F, 0x90, // udp endpoint
            2, 0x0A, 0, 0, 1, 0x01, 0xBB, // tcp endpoint
        ]
    );
    let decoded = NodeAddr::from_vec(bytes).expect("a serialized address must decode");
    assert_eq!(decoded, addr);
}

#[test]
fn addr_codec_roundtrip_empty() {
    let addr = NodeAddr::empty(42);
    let decoded = NodeAddr::from_vec(addr.to_vec()).expect("a serialized address must decode");
    assert_eq!(decoded, addr);
}

#[test]
fn addr_decode_rejects_bad_bytes() {
    assert_eq!(NodeAddr::from_vec(vec![1, 2, 3]), Err(AddrDecodeError::TooShort));
    assert_eq!(
        NodeAddr::from_vec(vec![0, 0, 0, 1, 9, 0, 0, 0, 0, 0, 0]),
        Err(AddrDecodeError::UnknownProtocol)
    );
    assert_eq!(
        NodeAddr::from_vec(vec![0, 0, 0, 1, 1, 0, 0]),
        Err(AddrDecodeError::TooShort)
    );
}
