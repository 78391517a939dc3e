use mtt::frame::{
    decode_frame, encode_frame, Control, PacketHeader, PacketType, ProtocolError, Reliability,
    Split,
};

fn round_trip(header: PacketHeader, body: Vec<u8>) {
    let datagram = encode_frame(&header, &body);
    let (decoded, rest) = decode_frame(&datagram).unwrap();
    assert_eq!(decoded, header);
    assert_eq!(rest, body);
}

#[test]
fn frame_round_trip_original_reliable() {
    round_trip(
        PacketHeader {
            peer_id: 0x1234,
            channel: 1,
            reliability: Reliability::Reliable { seqnum: 0xFFDC },
            ty: PacketType::Original,
        },
        vec![1, 2, 3, 4],
    );
}

#[test]
fn frame_round_trip_original_unreliable() {
    round_trip(
        PacketHeader {
            peer_id: 0,
            channel: 0,
            reliability: Reliability::Unreliable,
            ty: PacketType::Original,
        },
        vec![],
    );
}

#[test]
fn frame_round_trip_controls() {
    for control in [
        Control::Ack { seqnum: 77 },
        Control::SetPeerId { peer_id: 2 },
        Control::Ping,
        Control::Disco,
    ] {
        round_trip(
            PacketHeader {
                peer_id: 9,
                channel: 2,
                reliability: Reliability::Unreliable,
                ty: PacketType::Control(control),
            },
            vec![],
        );
    }
}

#[test]
fn frame_round_trip_split() {
    round_trip(
        PacketHeader {
            peer_id: 5,
            channel: 1,
            reliability: Reliability::Reliable { seqnum: 41 },
            ty: PacketType::Split(Split { seqnum: 7, chunk_count: 3, chunk_number: 2 }),
        },
        vec![0xAA; 100],
    );
}

#[test]
fn frame_header_bytes_are_exact() {
    let header = PacketHeader {
        peer_id: 0xABCD,
        channel: 1,
        reliability: Reliability::Reliable { seqnum: 0xFFDC },
        ty: PacketType::Original,
    };
    let datagram = encode_frame(&header, &vec![0x42]);
    assert_eq!(
        datagram,
        vec![0x4F, 0x45, 0x74, 0x03, 0xAB, 0xCD, 0x01, 0x03, 0xFF, 0xDC, 0x01, 0x42]
    );
}

#[test]
fn magic_mismatch_is_rejected() {
    let mut datagram = encode_frame(
        &PacketHeader {
            peer_id: 0,
            channel: 0,
            reliability: Reliability::Unreliable,
            ty: PacketType::Original,
        },
        &vec![],
    );
    datagram[0] = 0x00;
    assert_eq!(
        decode_frame(&datagram),
        Err(ProtocolError::IdMismatch { id: 0x00457403 })
    );
}

#[test]
fn unknown_packet_type_is_rejected() {
    let datagram = vec![0x4F, 0x45, 0x74, 0x03, 0, 0, 0, 9];
    assert_eq!(
        decode_frame(&datagram),
        Err(ProtocolError::UnknownPacketType { value: 9 })
    );
}

#[test]
fn unknown_control_type_is_rejected() {
    let datagram = vec![0x4F, 0x45, 0x74, 0x03, 0, 0, 0, 0, 4];
    assert_eq!(
        decode_frame(&datagram),
        Err(ProtocolError::UnknownControlType { value: 4 })
    );
}

#[test]
fn truncated_header_is_rejected() {
    let datagram = vec![0x4F, 0x45, 0x74];
    assert_eq!(decode_frame(&datagram), Err(ProtocolError::Truncated));
}
