use mtt::clientbound::{
    decode_clientbound, encode_clientbound, AuthAccept, Breath, ClientBound, DetachedInventory,
    Hello, Hp, MovePlayer, Movement, NodeDef, SrpBytesSB, TimeOfDay,
};
use mtt::codec::{CodecError, RawBytes16, RawBytes32, RawBytesUnsized};
use mtt::math::{Vector3, Vector3i16};
use mtt::serverbound::{
    decode_serverbound, encode_serverbound, ClientReady, GotBlocks, Handshake, Init, Init2,
    RequestMedia, ServerBound, SrpBytesA, SrpBytesM,
};

#[test]
fn serverbound_init_round_trip() {
    let message = ServerBound::Init(Init {
        max_serialization_version: 29,
        supported_compression_modes: 0,
        min_protocol_version: 40,
        max_protocol_version: 40,
        player_name: String::from("alice"),
    });
    let bytes = encode_serverbound(&message).unwrap();
    assert_eq!(bytes[0..2], [0x00, 0x02]);
    match decode_serverbound(&bytes).unwrap() {
        ServerBound::Init(m) => {
            assert_eq!(m.max_serialization_version, 29);
            assert_eq!(m.supported_compression_modes, 0);
            assert_eq!(m.min_protocol_version, 40);
            assert_eq!(m.max_protocol_version, 40);
            assert_eq!(m.player_name, "alice");
        }
        other => panic!("wrong variant: {:?}", other),
    }
}

#[test]
fn serverbound_handshake_is_bare_id() {
    let bytes = encode_serverbound(&ServerBound::Handshake(Handshake {})).unwrap();
    assert_eq!(bytes, vec![0x00, 0x00]);
    assert!(matches!(
        decode_serverbound(&bytes).unwrap(),
        ServerBound::Handshake(_)
    ));
}

#[test]
fn serverbound_client_ready_round_trip() {
    let message = ServerBound::ClientReady(ClientReady {
        version_major: 5,
        version_minor: 5,
        version_patch: 0,
        reserved: 0x77,
        full_version: String::from("mtt 0.1.0"),
        formspec_version: 4,
    });
    let bytes = encode_serverbound(&message).unwrap();
    match decode_serverbound(&bytes).unwrap() {
        ServerBound::ClientReady(m) => {
            assert_eq!(m.reserved, 0x77);
            assert_eq!(m.full_version, "mtt 0.1.0");
            assert_eq!(m.formspec_version, 4);
        }
        other => panic!("wrong variant: {:?}", other),
    }
}

#[test]
fn serverbound_request_media_round_trip() {
    let message = ServerBound::RequestMedia(RequestMedia {
        media: vec![String::from("a.png"), String::from("b.ogg")],
    });
    let bytes = encode_serverbound(&message).unwrap();
    match decode_serverbound(&bytes).unwrap() {
        ServerBound::RequestMedia(m) => {
            assert_eq!(m.media, vec!["a.png", "b.ogg"]);
        }
        other => panic!("wrong variant: {:?}", other),
    }
}

#[test]
fn serverbound_srp_round_trips() {
    let a = ServerBound::SrpBytesA(SrpBytesA {
        data: RawBytes16(vec![1, 2, 3]),
        based_on: 1,
    });
    let bytes = encode_serverbound(&a).unwrap();
    match decode_serverbound(&bytes).unwrap() {
        ServerBound::SrpBytesA(m) => {
            assert_eq!(m.data.0, vec![1, 2, 3]);
            assert_eq!(m.based_on, 1);
        }
        other => panic!("wrong variant: {:?}", other),
    }
    let m1 = ServerBound::SrpBytesM(SrpBytesM { data: RawBytes16(vec![9; 32]) });
    let bytes = encode_serverbound(&m1).unwrap();
    match decode_serverbound(&bytes).unwrap() {
        ServerBound::SrpBytesM(m) => assert_eq!(m.data.0, vec![9; 32]),
        other => panic!("wrong variant: {:?}", other),
    }
}

#[test]
fn serverbound_got_blocks_round_trip() {
    let message = ServerBound::GotBlocks(GotBlocks {
        count: 1,
        blocks: RawBytesUnsized(vec![0, 1, 0, 2, 0, 3]),
    });
    let bytes = encode_serverbound(&message).unwrap();
    match decode_serverbound(&bytes).unwrap() {
        ServerBound::GotBlocks(m) => {
            assert_eq!(m.count, 1);
            assert_eq!(m.blocks.0, vec![0, 1, 0, 2, 0, 3]);
        }
        other => panic!("wrong variant: {:?}", other),
    }
}

#[test]
fn serverbound_init2_round_trip() {
    let message = ServerBound::Init2(Init2 { language_code: String::new() });
    let bytes = encode_serverbound(&message).unwrap();
    assert_eq!(bytes, vec![0x00, 0x11, 0x00, 0x00]);
    assert!(matches!(
        decode_serverbound(&bytes).unwrap(),
        ServerBound::Init2(_)
    ));
}

#[test]
fn clientbound_hello_round_trip() {
    let message = ClientBound::Hello(Hello {
        serialization_version: 29,
        compression_mode: 0,
        protocol_version: 40,
        supported_auth_modes: 2,
        legacy_player_name: String::from("alice"),
    });
    let bytes = encode_clientbound(&message).unwrap();
    assert_eq!(bytes[0..2], [0x00, 0x02]);
    match decode_clientbound(&bytes).unwrap() {
        ClientBound::Hello(m) => {
            assert_eq!(m.serialization_version, 29);
            assert_eq!(m.protocol_version, 40);
            assert_eq!(m.legacy_player_name, "alice");
        }
        other => panic!("wrong variant: {:?}", other),
    }
}

#[test]
fn clientbound_auth_accept_round_trip() {
    let message = ClientBound::AuthAccept(AuthAccept {
        player_position: Vector3 { x: 0x41200000, y: 0x42480000, z: 0 },
        seed: 0xDEADBEEF,
        send_interval: 0x3DCCCCCD,
        supported_sudo_auth_methods: 2,
    });
    let bytes = encode_clientbound(&message).unwrap();
    match decode_clientbound(&bytes).unwrap() {
        ClientBound::AuthAccept(m) => {
            assert_eq!(m.player_position.x, 0x41200000);
            assert_eq!(m.seed, 0xDEADBEEF);
            assert_eq!(m.send_interval, 0x3DCCCCCD);
        }
        other => panic!("wrong variant: {:?}", other),
    }
}

#[test]
fn clientbound_time_of_day_round_trip() {
    let message = ClientBound::TimeOfDay(TimeOfDay { time: 6000, time_speed: 0x41A00000 });
    let bytes = encode_clientbound(&message).unwrap();
    assert_eq!(bytes, vec![0x00, 0x29, 0x17, 0x70, 0x41, 0xA0, 0x00, 0x00]);
    match decode_clientbound(&bytes).unwrap() {
        ClientBound::TimeOfDay(m) => {
            assert_eq!(m.time, 6000);
            assert_eq!(m.time_speed, 0x41A00000);
        }
        other => panic!("wrong variant: {:?}", other),
    }
}

#[test]
fn clientbound_move_player_round_trip() {
    let message = ClientBound::MovePlayer(MovePlayer {
        position: Vector3 { x: 1, y: 2, z: 3 },
        pitch: 4,
        yaw: 5,
    });
    let bytes = encode_clientbound(&message).unwrap();
    match decode_clientbound(&bytes).unwrap() {
        ClientBound::MovePlayer(m) => {
            assert_eq!(m.position, Vector3 { x: 1, y: 2, z: 3 });
            assert_eq!(m.pitch, 4);
            assert_eq!(m.yaw, 5);
        }
        other => panic!("wrong variant: {:?}", other),
    }
}

#[test]
fn clientbound_block_data_round_trip() {
    let message = ClientBound::BlockData(mtt::clientbound::BlockData {
        position: Vector3i16 { x: -1, y: 2, z: -3 },
        data: RawBytesUnsized(vec![0xAB; 40]),
    });
    let bytes = encode_clientbound(&message).unwrap();
    match decode_clientbound(&bytes).unwrap() {
        ClientBound::BlockData(m) => {
            assert_eq!(m.position, Vector3i16 { x: -1, y: 2, z: -3 });
            assert_eq!(m.data.0, vec![0xAB; 40]);
        }
        other => panic!("wrong variant: {:?}", other),
    }
}

#[test]
fn clientbound_movement_round_trip() {
    let message = ClientBound::Movement(Movement {
        acceleration_default: 1,
        acceleration_air: 2,
        acceleration_fast: 3,
        speed_walk: 4,
        speed_crouch: 5,
        speed_fast: 6,
        speed_climb: 7,
        speed_jump: 8,
        liquid_fluidity: 9,
        liquid_fluidity_smooth: 10,
        liquid_sink: 11,
        gravity: 12,
    });
    let bytes = encode_clientbound(&message).unwrap();
    assert_eq!(bytes.len(), 50);
    match decode_clientbound(&bytes).unwrap() {
        ClientBound::Movement(m) => {
            assert_eq!(m.acceleration_default, 1);
            assert_eq!(m.gravity, 12);
        }
        other => panic!("wrong variant: {:?}", other),
    }
}

#[test]
fn clientbound_srp_bytes_sb_round_trip() {
    let message = ClientBound::SrpBytesSB(SrpBytesSB {
        s: RawBytes16(vec![1; 16]),
        b: RawBytes16(vec![2; 32]),
    });
    let bytes = encode_clientbound(&message).unwrap();
    match decode_clientbound(&bytes).unwrap() {
        ClientBound::SrpBytesSB(m) => {
            assert_eq!(m.s.0, vec![1; 16]);
            assert_eq!(m.b.0, vec![2; 32]);
        }
        other => panic!("wrong variant: {:?}", other),
    }
}

#[test]
fn clientbound_small_messages_round_trip() {
    for message in [
        ClientBound::Hp(Hp { hp: 20 }),
        ClientBound::Breath(Breath { breath: 10 }),
        ClientBound::NodeDef(NodeDef { data: RawBytes32(vec![5, 6, 7]) }),
        ClientBound::DetachedInventory(DetachedInventory { name: String::from("chest") }),
        ClientBound::Inventory,
        ClientBound::HudAdd,
        ClientBound::UpdatePlayerList,
    ] {
        let bytes = encode_clientbound(&message).unwrap();
        let decoded = decode_clientbound(&bytes).unwrap();
        assert_eq!(
            std::mem::discriminant(&decoded),
            std::mem::discriminant(&message)
        );
    }
}

#[test]
fn clientbound_chat_message_decodes_utf16() {
    // id 0x2F, version 1, type 1, sender "a", message "hi", time 0.
    let bytes = vec![
        0x00, 0x2F, 1, 1, 0, 1, 0, 0x61, 0, 2, 0, 0x68, 0, 0x69, 0, 0, 0, 0, 0, 0, 0, 0,
    ];
    match decode_clientbound(&bytes).unwrap() {
        ClientBound::ChatMessage(m) => {
            assert_eq!(m.version, 1);
            assert_eq!(m.sender, "a");
            assert_eq!(m.message, "hi");
            assert_eq!(m.time, 0);
        }
        other => panic!("wrong variant: {:?}", other),
    }
}

#[test]
fn clientbound_announce_media_decodes() {
    let mut bytes = vec![0x00, 0x3C, 0, 1];
    // name "x.png"
    bytes.extend_from_slice(&[0, 5]);
    bytes.extend_from_slice(b"x.png");
    // base64 digest "AAECAw==" of [0,1,2,3]
    bytes.extend_from_slice(&[0, 8]);
    bytes.extend_from_slice(b"AAECAw==");
    // content servers: empty string
    bytes.extend_from_slice(&[0, 0]);
    match decode_clientbound(&bytes).unwrap() {
        ClientBound::AnnounceMedia(m) => {
            assert_eq!(m.digests.len(), 1);
            assert_eq!(m.digests[0].name, "x.png");
            assert_eq!(m.digests[0].digest_b64, "AAECAw==");
            assert_eq!(m.content_servers, "");
        }
        other => panic!("wrong variant: {:?}", other),
    }
}

#[test]
fn clientbound_media_decodes() {
    let mut bytes = vec![0x00, 0x38, 0, 1, 0, 0, 0, 0, 0, 1];
    bytes.extend_from_slice(&[0, 5]);
    bytes.extend_from_slice(b"x.png");
    bytes.extend_from_slice(&[0, 0, 0, 3, 7, 8, 9]);
    match decode_clientbound(&bytes).unwrap() {
        ClientBound::Media(m) => {
            assert_eq!(m.bunch_count, 1);
            assert_eq!(m.bunch_id, 0);
            assert_eq!(m.files.len(), 1);
            assert_eq!(m.files[0].name, "x.png");
            assert_eq!(m.files[0].data, vec![7, 8, 9]);
        }
        other => panic!("wrong variant: {:?}", other),
    }
}

#[test]
fn unknown_clientbound_id_is_reported() {
    let bytes = vec![0x00, 0x77, 1, 2, 3];
    match decode_clientbound(&bytes) {
        Err(CodecError::UnknownVariant { value }) => assert_eq!(value, 0x77),
        other => panic!("unexpected: {:?}", other.map(|_| "decoded")),
    }
}

#[test]
fn unknown_serverbound_id_is_reported() {
    let bytes = vec![0x00, 0x99];
    match decode_serverbound(&bytes) {
        Err(CodecError::UnknownVariant { value }) => assert_eq!(value, 0x99),
        other => panic!("unexpected: {:?}", other),
    }
}
