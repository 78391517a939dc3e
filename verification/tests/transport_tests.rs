use mtt::frame::{
    decode_frame, encode_frame, Control, PacketHeader, PacketType, Reliability, Split,
};
use mtt::transport::{
    Transport, TransportEvent, INITIAL_SEQNUM, SPLIT_THRESHOLD,
};

fn original_frame(
    peer_id: u16,
    channel: u8,
    reliability: Reliability,
    body: &[u8],
) -> Vec<u8> {
    encode_frame(
        &PacketHeader { peer_id, channel, reliability, ty: PacketType::Original },
        &body.to_vec(),
    )
}

#[test]
fn outbound_seqnums_start_at_initial_and_increase() {
    let mut t = Transport::new();
    let first = t.send_payload(&vec![1, 2, 3], true, 0, 0).unwrap();
    let second = t.send_payload(&vec![4, 5], true, 0, 0).unwrap();
    let (h1, _) = decode_frame(&first[0]).unwrap();
    let (h2, _) = decode_frame(&second[0]).unwrap();
    assert_eq!(h1.reliability, Reliability::Reliable { seqnum: INITIAL_SEQNUM });
    assert_eq!(h2.reliability, Reliability::Reliable { seqnum: INITIAL_SEQNUM + 1 });
}

#[test]
fn outbound_seqnum_wraps_at_ffff() {
    let mut t = Transport::new();
    // Walk the channel-1 counter to 0xFFFF.
    for _ in 0..0x23 {
        t.send_payload(&vec![0], true, 1, 0).unwrap();
    }
    let at_edge = t.send_payload(&vec![0], true, 1, 0).unwrap();
    let wrapped = t.send_payload(&vec![0], true, 1, 0).unwrap();
    let (h1, _) = decode_frame(&at_edge[0]).unwrap();
    let (h2, _) = decode_frame(&wrapped[0]).unwrap();
    assert_eq!(h1.reliability, Reliability::Reliable { seqnum: 0xFFFF });
    assert_eq!(h2.reliability, Reliability::Reliable { seqnum: 0x0000 });
}

#[test]
fn threshold_payload_is_one_original_frame() {
    let mut t = Transport::new();
    let payload = vec![7u8; SPLIT_THRESHOLD];
    let frames = t.send_payload(&payload, false, 1, 0).unwrap();
    assert_eq!(frames.len(), 1);
    let (h, body) = decode_frame(&frames[0]).unwrap();
    assert_eq!(h.ty, PacketType::Original);
    assert_eq!(body, payload);
}

#[test]
fn threshold_plus_one_is_split() {
    let mut t = Transport::new();
    let payload: Vec<u8> = (0..SPLIT_THRESHOLD + 1).map(|i| (i % 251) as u8).collect();
    let frames = t.send_payload(&payload, false, 1, 0).unwrap();
    assert_eq!(frames.len(), 2);
    let mut reassembled = Vec::new();
    for (k, frame) in frames.iter().enumerate() {
        let (h, body) = decode_frame(frame).unwrap();
        match h.ty {
            PacketType::Split(s) => {
                assert_eq!(s.chunk_count, 2);
                assert_eq!(s.chunk_number, k as u16);
            }
            other => panic!("expected split, got {:?}", other),
        }
        reassembled.extend_from_slice(&body);
    }
    assert_eq!(reassembled, payload);
}

#[test]
fn ack_is_sent_for_reliable_frame() {
    let mut t = Transport::new();
    let datagram = original_frame(
        0,
        0,
        Reliability::Reliable { seqnum: INITIAL_SEQNUM },
        &[0x00, 0x02, 29, 0, 0, 0, 40, 0, 40, 0, 0],
    );
    let inbound = t.process_datagram(&datagram).unwrap();
    assert_eq!(inbound.acks.len(), 1);
    let (ack_header, ack_body) = decode_frame(&inbound.acks[0]).unwrap();
    assert_eq!(ack_header.channel, 0);
    assert_eq!(
        ack_header.ty,
        PacketType::Control(Control::Ack { seqnum: INITIAL_SEQNUM })
    );
    assert!(ack_body.is_empty());
    assert_eq!(inbound.events.len(), 1);
}

#[test]
fn unreliable_frame_gets_no_ack() {
    let mut t = Transport::new();
    let datagram = original_frame(0, 0, Reliability::Unreliable, &[1, 2, 3]);
    let inbound = t.process_datagram(&datagram).unwrap();
    assert!(inbound.acks.is_empty());
    assert_eq!(inbound.events.len(), 1);
}

#[test]
fn duplicate_reliable_is_acked_but_dropped() {
    let mut t = Transport::new();
    let datagram = original_frame(
        0,
        1,
        Reliability::Reliable { seqnum: INITIAL_SEQNUM },
        &[9, 9, 9],
    );
    let first = t.process_datagram(&datagram).unwrap();
    assert_eq!(first.acks.len(), 1);
    assert_eq!(first.events.len(), 1);
    let second = t.process_datagram(&datagram).unwrap();
    assert_eq!(second.acks.len(), 1);
    assert!(second.events.is_empty());
}

#[test]
fn out_of_order_reliables_are_delivered_in_order() {
    let mut t = Transport::new();
    let later = original_frame(
        0,
        0,
        Reliability::Reliable { seqnum: INITIAL_SEQNUM + 1 },
        &[2],
    );
    let first = original_frame(0, 0, Reliability::Reliable { seqnum: INITIAL_SEQNUM }, &[1]);
    let parked = t.process_datagram(&later).unwrap();
    assert_eq!(parked.acks.len(), 1);
    assert!(parked.events.is_empty());
    let drained = t.process_datagram(&first).unwrap();
    assert_eq!(drained.acks.len(), 1);
    let payloads: Vec<Vec<u8>> = drained
        .events
        .iter()
        .map(|e| match e {
            TransportEvent::Payload(p) => p.clone(),
            TransportEvent::Disconnected => panic!("unexpected disconnect"),
        })
        .collect();
    assert_eq!(payloads, vec![vec![1], vec![2]]);
}

#[test]
fn set_peer_id_is_stored() {
    let mut t = Transport::new();
    let datagram = encode_frame(
        &PacketHeader {
            peer_id: 0,
            channel: 0,
            reliability: Reliability::Reliable { seqnum: INITIAL_SEQNUM },
            ty: PacketType::Control(Control::SetPeerId { peer_id: 0x1234 }),
        },
        &Vec::new(),
    );
    let inbound = t.process_datagram(&datagram).unwrap();
    assert_eq!(t.peer_id, 0x1234);
    // The ack already carries the assigned peer id.
    let (ack_header, _) = decode_frame(&inbound.acks[0]).unwrap();
    assert_eq!(ack_header.peer_id, 0x1234);
}

#[test]
fn split_receive_out_of_order_reassembles() {
    let mut t = Transport::new();
    let payload: Vec<u8> = (0..900).map(|i| (i % 255) as u8).collect();
    let chunks: Vec<&[u8]> = vec![&payload[0..300], &payload[300..600], &payload[600..900]];
    let mut deliveries = Vec::new();
    for index in [2usize, 0, 1] {
        let datagram = encode_frame(
            &PacketHeader {
                peer_id: 0,
                channel: 0,
                reliability: Reliability::Unreliable,
                ty: PacketType::Split(Split {
                    seqnum: 7,
                    chunk_count: 3,
                    chunk_number: index as u16,
                }),
            },
            &chunks[index].to_vec(),
        );
        let inbound = t.process_datagram(&datagram).unwrap();
        deliveries.extend(inbound.events);
    }
    assert_eq!(deliveries.len(), 1);
    match &deliveries[0] {
        TransportEvent::Payload(p) => assert_eq!(*p, payload),
        TransportEvent::Disconnected => panic!("unexpected disconnect"),
    }
}

#[test]
fn retransmit_resends_byte_identical_frames_until_acked() {
    let mut t = Transport::new();
    let frames = t.send_payload(&vec![0x11, 0x22], true, 1, 0).unwrap();
    let original = frames[0].clone();
    let mut resends = Vec::new();
    // 350 ms with no ack: due at 100 (rto 100), 300 (rto 200); a third
    // resend comes once the backoff elapses again.
    for now in [100u64, 300, 700] {
        let due = t.retransmit_due(now).unwrap();
        assert_eq!(due.len(), 1);
        resends.push(due[0].clone());
    }
    assert!(resends.len() >= 3);
    for r in &resends {
        assert_eq!(*r, original);
    }
    // A late ack stops the retransmission.
    t.handle_ack(1, INITIAL_SEQNUM);
    let after = t.retransmit_due(100_000).unwrap();
    assert!(after.is_empty());
}

#[test]
fn disco_is_reported() {
    let mut t = Transport::new();
    let datagram = encode_frame(
        &PacketHeader {
            peer_id: 0,
            channel: 0,
            reliability: Reliability::Unreliable,
            ty: PacketType::Control(Control::Disco),
        },
        &Vec::new(),
    );
    let inbound = t.process_datagram(&datagram).unwrap();
    assert_eq!(inbound.events.len(), 1);
    assert!(matches!(inbound.events[0], TransportEvent::Disconnected));
}
