use mtt::clientbound::{
    AnnounceMedia, AuthAccept, ClientBound, Hello, Media, NodeDef, SrpBytesSB, TimeOfDay,
};
use mtt::codec::{RawBytes16, RawBytes32};
use mtt::game::Game;
use mtt::math::Vector3;
use mtt::media::MediaStorage;
use mtt::serverbound::ServerBound;
use mtt::session::{Client, ConnectionState, Credentials, OutMessage};
use mtt::worldstate::WorldState;
use mtt::frame::{encode_frame, Control, PacketHeader, PacketType, Reliability};
use mtt::transport::{Transport, TransportEvent, INITIAL_SEQNUM};
use sha2::Sha256;
use srp::client::{srp_private_key, SrpClient};
use srp::groups::G_2048;
use std::io::Write;

fn new_client() -> Client {
    Client::new(
        Credentials {
            name: String::from("Alice"),
            password: String::from("password123"),
        },
        vec![5u8; 64],
    )
}

fn hello() -> ClientBound {
    ClientBound::Hello(Hello {
        serialization_version: 29,
        compression_mode: 0,
        protocol_version: 40,
        supported_auth_modes: 2,
        legacy_player_name: String::from("Alice"),
    })
}

/// A minimal but complete node record with the given name and mesh.
fn node_record(name: &str, mesh: &str) -> Vec<u8> {
    let mut record = Vec::new();
    record.push(13u8); // record version
    record.extend_from_slice(&(name.len() as u16).to_be_bytes());
    record.extend_from_slice(name.as_bytes());
    record.extend_from_slice(&[0, 0]); // no groups
    record.push(0); // param_type1
    record.push(0); // param_type2
    record.push(0); // draw type: Normal
    record.extend_from_slice(&(mesh.len() as u16).to_be_bytes());
    record.extend_from_slice(mesh.as_bytes());
    record.extend_from_slice(&[0x3F, 0x80, 0, 0]); // visual scale 1.0
    record.push(6); // tile count
    for _ in 0..12 {
        // six tiles, six overlay tiles
        record.push(6); // tile version
        record.extend_from_slice(&[0, 0]); // name
        record.push(0); // animation: still
        record.extend_from_slice(&[0, 0]); // flags
    }
    record.push(6); // special tile count
    for _ in 0..6 {
        record.push(6);
        record.extend_from_slice(&[0, 0]);
        record.push(0);
        record.extend_from_slice(&[0, 0]);
    }
    record.push(255); // alpha
    record.extend_from_slice(&[10, 20, 30]); // base colour
    record.extend_from_slice(&[0, 0]); // palette name
    record.push(0); // waving
    record.push(0); // connect sides
    record.extend_from_slice(&[0, 0]); // connects_to: none
    record.extend_from_slice(&[0, 0, 0, 0]); // post effect colour
    record.push(0); // leveled
    record.extend_from_slice(&[1, 1, 0]); // lighting
    record.push(1); // is_ground_content
    record.extend_from_slice(&[1, 1, 1, 0, 1, 0]); // interaction booleans
    record.extend_from_slice(&[0, 0, 0, 0]); // damage per second
    // liquid
    record.push(0);
    record.extend_from_slice(&[0, 0]);
    record.extend_from_slice(&[0, 0]);
    record.push(0);
    record.push(0);
    record.push(0);
    record.push(0);
    record.push(0);
    // three node boxes: version 6, regular
    for _ in 0..3 {
        record.push(6);
        record.push(0);
    }
    // three sounds: empty name, three float fields
    for _ in 0..3 {
        record.extend_from_slice(&[0, 0]);
        record.extend_from_slice(&[0; 12]);
    }
    record.extend_from_slice(&[0, 0]); // two trailing bytes
    record
}

/// A compressed registry blob holding the given `(id, record)` entries.
fn registry_blob(entries: &[(u16, Vec<u8>)], trailing_garbage: bool) -> Vec<u8> {
    let mut body = Vec::new();
    body.push(1u8); // registry version
    body.extend_from_slice(&(entries.len() as u16).to_be_bytes());
    body.extend_from_slice(&[0, 0, 0, 0]); // reserved length
    for (id, record) in entries {
        body.extend_from_slice(&id.to_be_bytes());
        body.extend_from_slice(&(record.len() as u16).to_be_bytes());
        body.extend_from_slice(record);
    }
    if trailing_garbage {
        body.extend_from_slice(&[0xDE, 0xAD, 0xBE, 0xEF]);
    }

    let mut encoder =
        flate2::write::ZlibEncoder::new(Vec::new(), flate2::Compression::default());
    encoder.write_all(&body).unwrap();
    encoder.finish().unwrap()
}

fn node_def_blob(trailing_garbage: bool) -> Vec<u8> {
    registry_blob(&[(0, node_record("stone", ""))], trailing_garbage)
}

fn count_ready(out: &[OutMessage]) -> usize {
    out.iter()
        .filter(|m| matches!(m.message, ServerBound::ClientReady(_)))
        .count()
}

#[test]
fn handshake_reaches_auth() {
    let mut client = new_client();
    let opening = client.start();
    assert_eq!(opening.len(), 1);
    assert!(matches!(opening[0].message, ServerBound::Handshake(_)));
    assert!(opening[0].reliable);
    assert_eq!(opening[0].channel, 0);

    let mut world = WorldState::new();
    let mut game = Game::new();
    let mut media = MediaStorage::new();
    let out = client
        .handle_message(hello(), &mut world, &mut game, &mut media)
        .unwrap();
    assert_eq!(client.state, ConnectionState::Auth);
    assert_eq!(out.len(), 1);
    match &out[0].message {
        ServerBound::SrpBytesA(m) => {
            let expected = SrpClient::<Sha256>::new(&[5u8; 64], &G_2048).get_a_pub();
            assert_eq!(m.data.0, expected);
            assert_eq!(m.based_on, 1);
        }
        _ => panic!("expected SrpBytesA"),
    }
    assert!(out[0].reliable);
    assert_eq!(out[0].channel, 1);
}

#[test]
fn srp_proof_matches_direct_computation_and_is_sent_once() {
    let mut client = new_client();
    client.start();
    let mut world = WorldState::new();
    let mut game = Game::new();
    let mut media = MediaStorage::new();
    client
        .handle_message(hello(), &mut world, &mut game, &mut media)
        .unwrap();

    let salt: Vec<u8> = (1..=16).collect();
    let b_pub: Vec<u8> = (1..=32).collect();
    let reply = ClientBound::SrpBytesSB(SrpBytesSB {
        s: RawBytes16(salt.clone()),
        b: RawBytes16(b_pub.clone()),
    });
    let out = client
        .handle_message(reply.clone(), &mut world, &mut game, &mut media)
        .unwrap();
    assert_eq!(out.len(), 1);
    let m1 = match &out[0].message {
        ServerBound::SrpBytesM(m) => m.data.0.clone(),
        _ => panic!("expected SrpBytesM"),
    };

    // The same proof, computed directly: private key over the lowercased
    // name, proof over the original name.
    let x = srp_private_key::<Sha256>(b"alice", b"password123", &salt);
    let verifier = SrpClient::<Sha256>::new(&[5u8; 64], &G_2048)
        .process_reply_with_username_and_salt(b"Alice", &salt, &x, &b_pub)
        .unwrap();
    assert_eq!(m1, verifier.get_proof().to_vec());

    // A second server reply does not produce a second proof.
    let again = client
        .handle_message(reply, &mut world, &mut game, &mut media)
        .unwrap();
    assert!(again.is_empty());
}

#[test]
fn auth_accept_sends_init2() {
    let mut client = new_client();
    client.start();
    let mut world = WorldState::new();
    let mut game = Game::new();
    let mut media = MediaStorage::new();
    let out = client
        .handle_message(
            ClientBound::AuthAccept(AuthAccept {
                player_position: Vector3 { x: 0, y: 0, z: 0 },
                seed: 1,
                send_interval: 0,
                supported_sudo_auth_methods: 2,
            }),
            &mut world,
            &mut game,
            &mut media,
        )
        .unwrap();
    assert_eq!(client.state, ConnectionState::InGame);
    assert_eq!(out.len(), 1);
    assert!(matches!(out[0].message, ServerBound::Init2(_)));
}

#[test]
fn readiness_gate_requires_both_media_and_nodes() {
    let mut client = new_client();
    client.start();
    let mut world = WorldState::new();
    let mut game = Game::new();
    let mut media = MediaStorage::new();

    // Node definitions first: no ClientReady yet.
    let out = client
        .handle_message(
            ClientBound::NodeDef(NodeDef { data: RawBytes32(node_def_blob(false)) }),
            &mut world,
            &mut game,
            &mut media,
        )
        .unwrap();
    assert_eq!(count_ready(&out), 0);
    assert!(client.nodes_ready);
    assert!(!client.client_ready_sent);
    assert_eq!(game.nodes.len(), 1);
    assert_eq!(game.nodes[0].name, "stone");

    // An empty announcement answers with an empty request.
    let out = client
        .handle_message(
            ClientBound::AnnounceMedia(AnnounceMedia {
                digests: Vec::new(),
                content_servers: String::new(),
            }),
            &mut world,
            &mut game,
            &mut media,
        )
        .unwrap();
    assert_eq!(count_ready(&out), 0);
    match &out[0].message {
        ServerBound::RequestMedia(m) => assert!(m.media.is_empty()),
        _ => panic!("expected RequestMedia"),
    }

    // The final (empty) media bunch completes readiness: exactly one
    // ClientReady, immediately.
    let out = client
        .handle_message(
            ClientBound::Media(Media { bunch_count: 1, bunch_id: 0, files: Vec::new() }),
            &mut world,
            &mut game,
            &mut media,
        )
        .unwrap();
    assert_eq!(count_ready(&out), 1);
    assert!(client.client_ready_sent);
    match &out[0].message {
        ServerBound::ClientReady(m) => {
            assert_eq!(m.version_major, 5);
            assert_eq!(m.version_minor, 5);
            assert_eq!(m.version_patch, 0);
            assert_eq!(m.reserved, 0x77);
            assert_eq!(m.formspec_version, 4);
            assert!(m.full_version.starts_with("mtt "));
        }
        _ => panic!("expected ClientReady"),
    }

    // Readiness is announced only once.
    let out = client
        .handle_message(
            ClientBound::Media(Media { bunch_count: 1, bunch_id: 0, files: Vec::new() }),
            &mut world,
            &mut game,
            &mut media,
        )
        .unwrap();
    assert_eq!(count_ready(&out), 0);
}

#[test]
fn node_def_blob_with_trailing_garbage_is_accepted() {
    let game = Game::deserialize_nodes(&node_def_blob(true)).unwrap();
    assert_eq!(game.nodes.len(), 1);
    assert_eq!(game.nodes[0].name, "stone");
    assert!(matches!(game.nodes[0].draw_type, mtt::game::DrawType::Normal));
}

#[test]
fn time_of_day_updates_world() {
    let mut client = new_client();
    let mut world = WorldState::new();
    let mut game = Game::new();
    let mut media = MediaStorage::new();
    client
        .handle_message(
            ClientBound::TimeOfDay(TimeOfDay { time: 9000, time_speed: 0x41A00000 }),
            &mut world,
            &mut game,
            &mut media,
        )
        .unwrap();
    assert_eq!(world.time, 9000);
    assert_eq!(world.time_speed, 0x41A00000);
}

#[test]
fn clean_handshake_end_to_end() {
    let mut transport = Transport::new();
    let mut client = new_client();
    client.start();
    let mut world = WorldState::new();
    let mut game = Game::new();
    let mut media = MediaStorage::new();

    // The server assigns peer id 0x1234 with a reliable control frame.
    let assign = encode_frame(
        &PacketHeader {
            peer_id: 0,
            channel: 0,
            reliability: Reliability::Reliable { seqnum: INITIAL_SEQNUM },
            ty: PacketType::Control(Control::SetPeerId { peer_id: 0x1234 }),
        },
        &Vec::new(),
    );
    let inbound = transport.process_datagram(&assign).unwrap();
    assert_eq!(transport.peer_id, 0x1234);
    assert_eq!(inbound.acks.len(), 1);

    // The server's Hello arrives as a reliable Original frame.
    let hello_bytes = mtt::clientbound::encode_clientbound(&hello()).unwrap();
    let hello_frame = encode_frame(
        &PacketHeader {
            peer_id: 0,
            channel: 0,
            reliability: Reliability::Reliable { seqnum: INITIAL_SEQNUM + 1 },
            ty: PacketType::Original,
        },
        &hello_bytes,
    );
    let inbound = transport.process_datagram(&hello_frame).unwrap();
    assert_eq!(inbound.acks.len(), 1);
    assert_eq!(inbound.events.len(), 1);
    let payload = match &inbound.events[0] {
        TransportEvent::Payload(p) => p.clone(),
        TransportEvent::Disconnected => panic!("unexpected disconnect"),
    };
    let message = mtt::clientbound::decode_clientbound(&payload).unwrap();
    let out = client
        .handle_message(message, &mut world, &mut game, &mut media)
        .unwrap();
    assert_eq!(client.state, ConnectionState::Auth);
    assert_eq!(out.len(), 1);
    assert!(matches!(out[0].message, ServerBound::SrpBytesA(_)));
}


#[test]
fn registry_fills_sparse_ids_with_air_and_later_duplicate_wins() {
    let blob = registry_blob(
        &[(2, node_record("stone", "")), (2, node_record("dirt", ""))],
        false,
    );
    let game = Game::deserialize_nodes(&blob).unwrap();
    assert_eq!(game.nodes.len(), 3);
    assert_eq!(game.nodes[0].name, "air");
    assert!(matches!(game.nodes[0].draw_type, mtt::game::DrawType::AirLike));
    assert_eq!(game.nodes[1].name, "air");
    assert_eq!(game.nodes[2].name, "dirt");
    assert!(game.nodes[0].lighting.light_propagates);
}

#[test]
fn record_length_prefix_bounds_the_record() {
    // Extra bytes inside the record, covered by its length prefix, are
    // tolerated; parsing continues at the next record.
    let mut rec = node_record("stone", "");
    rec.extend_from_slice(&[9, 9, 9]);
    let blob = registry_blob(&[(0, rec), (1, node_record("dirt", ""))], false);
    let game = Game::deserialize_nodes(&blob).unwrap();
    assert_eq!(game.nodes.len(), 2);
    assert_eq!(game.nodes[0].name, "stone");
    assert_eq!(game.nodes[1].name, "dirt");
}

#[test]
fn mesh_name_empty_means_no_mesh() {
    let blob = registry_blob(
        &[(0, node_record("a", "")), (1, node_record("b", "m.obj"))],
        false,
    );
    let game = Game::deserialize_nodes(&blob).unwrap();
    assert!(game.nodes[0].mesh.is_none());
    assert_eq!(game.nodes[1].mesh.as_deref(), Some("m.obj"));
}

#[test]
fn bad_draw_type_code_is_rejected() {
    let mut rec = node_record("stone", "");
    // The draw-type byte follows version(1) + name(2+5) + groups(2) +
    // param types(2).
    rec[12] = 42;
    let blob = registry_blob(&[(0, rec)], false);
    assert!(matches!(
        Game::deserialize_nodes(&blob),
        Err(mtt::game::NodeDefError::Codec(
            mtt::codec::CodecError::UnknownVariant { value: 42 }
        ))
    ));
}

#[test]
fn registry_version_must_be_one() {
    let mut body = vec![2u8, 0, 0, 0, 0, 0, 0];
    body.extend_from_slice(&[]);
    let mut encoder =
        flate2::write::ZlibEncoder::new(Vec::new(), flate2::Compression::default());
    encoder.write_all(&body).unwrap();
    let blob = encoder.finish().unwrap();
    assert!(matches!(
        Game::deserialize_nodes(&blob),
        Err(mtt::game::NodeDefError::BadVersion)
    ));
}
