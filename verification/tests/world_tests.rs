use mtt::block::{Block, BlockError, NODE_DATA_LEN};
use mtt::clientbound::{BlockData, ClientBound};
use mtt::codec::RawBytesUnsized;
use mtt::game::Game;
use mtt::math::Vector3i16;
use mtt::media::{MediaDigest, MediaStorage};
use mtt::session::{Client, Credentials};
use mtt::math::Vector3u16;
use mtt::schematic::Schematic;
use mtt::worldmap::BlockMap;
use mtt::worldstate::WorldState;
use std::io::Write;

/// Builds the wire form of a block: zstd of the inner serialisation, plus
/// the legacy trailing byte.
fn wire_block(node_data: &[u8]) -> Vec<u8> {
    let block = Block { node_data: node_data.to_vec() };
    let inner = block.encode_inner();
    let mut wire = zstd::stream::encode_all(&inner[..], 0).unwrap();
    wire.push(0x00);
    wire
}

fn sample_node_data() -> Vec<u8> {
    let mut data = vec![0u8; NODE_DATA_LEN];
    // Node at index 0: id 0x0102, param1 0x33, param2 0x44.
    data[0] = 0x01;
    data[1] = 0x02;
    data[2 * 4096] = 0x33;
    data[3 * 4096] = 0x44;
    // Node at x=1, y=2, z=3: index 3*256 + 2*16 + 1 = 801.
    data[2 * 801] = 0xAB;
    data[2 * 801 + 1] = 0xCD;
    data
}

#[test]
fn block_decode_inverts_encode() {
    let node_data = sample_node_data();
    let decoded = Block::decode(&wire_block(&node_data)).unwrap();
    assert_eq!(decoded.node_data, node_data);
}

#[test]
fn block_node_indexing() {
    let block = Block { node_data: sample_node_data() };
    let origin = block.node(0, 0, 0);
    assert_eq!(origin.id, 0x0102);
    assert_eq!(origin.param1, 0x33);
    assert_eq!(origin.param2, 0x44);
    let other = block.node(1, 2, 3);
    assert_eq!(other.id, 0xABCD);
}

#[test]
fn block_decode_rejects_garbage() {
    assert!(matches!(Block::decode(&vec![]), Err(BlockError::Truncated)));
    assert!(matches!(
        Block::decode(&vec![1, 2, 3, 4, 5]),
        Err(BlockError::Decompress)
    ));
}

#[test]
fn block_decode_rejects_bad_widths() {
    // flags, lighting, content width 1, params width 2.
    let mut inner = vec![0u8, 0, 0, 1, 2];
    inner.extend_from_slice(&[0u8; NODE_DATA_LEN]);
    let mut wire = zstd::stream::encode_all(&inner[..], 0).unwrap();
    wire.push(0);
    assert!(matches!(Block::decode(&wire), Err(BlockError::InvalidBlock)));
}

#[test]
fn dirty_list_has_no_duplicates_within_a_drain() {
    let mut map = BlockMap::new();
    let pos = Vector3i16 { x: 1, y: -2, z: 3 };
    let data = sample_node_data();
    map.update_or_set(pos, Block { node_data: data.clone() });
    map.update_or_set(pos, Block { node_data: data.clone() });
    map.update_or_set(Vector3i16 { x: 0, y: 0, z: 0 }, Block { node_data: data });
    let drained = map.take_dirty();
    assert_eq!(drained.len(), 2);
    assert_eq!(drained[0], pos);
    assert_eq!(drained[1], Vector3i16 { x: 0, y: 0, z: 0 });
    // The drain leaves an empty list behind.
    assert!(map.take_dirty().is_empty());
}

#[test]
fn map_get_returns_latest_block() {
    let mut map = BlockMap::new();
    let pos = Vector3i16 { x: 7, y: 8, z: 9 };
    let mut first = sample_node_data();
    map.update_or_set(pos, Block { node_data: first.clone() });
    first[0] = 0xEE;
    map.update_or_set(pos, Block { node_data: first.clone() });
    assert_eq!(map.get(pos).unwrap().node_data, first);
    assert!(map.get(Vector3i16 { x: 0, y: 0, z: 1 }).is_none());
}

#[test]
fn block_data_message_updates_map_and_acknowledges() {
    let mut client = Client::new(
        Credentials { name: String::from("a"), password: String::new() },
        vec![5; 64],
    );
    let mut world = WorldState::new();
    let mut game = Game::new();
    let mut media = MediaStorage::new();
    let pos = Vector3i16 { x: 10, y: 0, z: -10 };
    let out = client
        .handle_message(
            ClientBound::BlockData(BlockData {
                position: pos,
                data: RawBytesUnsized(wire_block(&sample_node_data())),
            }),
            &mut world,
            &mut game,
            &mut media,
        )
        .unwrap();
    assert!(world.map.get(pos).is_some());
    assert_eq!(world.map.take_dirty(), vec![pos]);
    assert_eq!(out.len(), 1);
    match &out[0].message {
        mtt::serverbound::ServerBound::GotBlocks(m) => {
            assert_eq!(m.count, 1);
            // The acknowledged coordinate, big-endian.
            assert_eq!(m.blocks.0, vec![0, 10, 0, 0, 0xFF, 0xF6]);
        }
        _ => panic!("expected GotBlocks"),
    }
}

#[test]
fn missing_files_lists_uncached_digests_in_order() {
    let mut media = MediaStorage::new();
    media.set_digests(vec![
        MediaDigest { name: String::from("a.png"), digest: vec![1, 2] },
        MediaDigest { name: String::from("b.png"), digest: vec![3, 4] },
        MediaDigest { name: String::from("c.png"), digest: vec![5, 6] },
    ]);
    media.mark_cached(vec![3, 4]);
    assert_eq!(media.missing_files(), vec!["a.png", "c.png"]);
    assert!(media.contains(&vec![3, 4]));
    assert!(!media.contains(&vec![1, 2]));
}

#[test]
fn unannounced_file_is_rejected() {
    let mut media = MediaStorage::new();
    media.set_digests(vec![MediaDigest { name: String::from("a.png"), digest: vec![1] }]);
    assert!(media.insert(String::from("a.png"), vec![9, 9]));
    assert!(!media.insert(String::from("z.png"), vec![9, 9]));
    assert_eq!(media.files.len(), 1);
}

#[test]
fn schematic_decodes_volume_and_names() {
    let mut node_volume = vec![0u8; 32];
    // Node at (1, 1, 1) of a 2x2x2 volume: linear index 7.
    node_volume[14] = 0x01;
    node_volume[15] = 0x05;
    node_volume[16 + 7] = 0x21;
    node_volume[24 + 7] = 0x42;

    let mut blob = Vec::new();
    blob.extend_from_slice(&[0x4D, 0x54, 0x53, 0x4D]); // magic
    blob.extend_from_slice(&[0, 4]); // version
    blob.extend_from_slice(&[0, 2, 0, 2, 0, 2]); // size
    blob.extend_from_slice(&[127, 127]); // per-level probabilities
    blob.extend_from_slice(&[0, 1]); // one mapping
    blob.extend_from_slice(&[0, 3]);
    blob.extend_from_slice(b"air");
    let mut encoder =
        flate2::write::ZlibEncoder::new(Vec::new(), flate2::Compression::default());
    encoder.write_all(&node_volume).unwrap();
    blob.extend_from_slice(&encoder.finish().unwrap());

    let schematic = Schematic::new(&blob).unwrap();
    assert_eq!(schematic.size, Vector3u16 { x: 2, y: 2, z: 2 });
    let node = schematic.node(Vector3u16 { x: 1, y: 1, z: 1 });
    assert_eq!(node.id, 0x0105);
    assert_eq!(node.param1, 0x21);
    assert_eq!(node.param2, 0x42);
    assert_eq!(schematic.node_name(0).unwrap(), "air");
    assert!(schematic.node_name(1).is_none());
}

#[test]
fn encode_hex_spells_lowercase_pairs() {
    assert_eq!(mtt::media::encode_hex(&vec![]), "");
    assert_eq!(mtt::media::encode_hex(&vec![0x00, 0x0F, 0xA5, 0xFF]), "000fa5ff");
}
