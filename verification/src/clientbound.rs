//! Clientbound messages: each variant is a 16-bit id followed by its fields
//! in declaration order. Variants the reference protocol leaves unparsed
//! carry no fields. Chat text is UTF-16 on the wire; map-block and
//! node-definition payloads stay raw here and are decoded by the world
//! model.

use crate::codec::{
    dec_bytes16, dec_bytes32, dec_str, dec_u16, dec_u32, dec_u64, dec_u8, enc_bytes16, enc_bytes32,
    lemma_concat_parts, lemma_split_at,
    enc_str, enc_u16, enc_u32, enc_u64, enc_u8, lemma_dec_enc_bytes16, lemma_dec_enc_bytes32,
    lemma_dec_enc_str, lemma_dec_enc_u16, lemma_dec_enc_u32, lemma_dec_enc_u64, lemma_dec_enc_u8,
    lemma_nested_subrange, read_bytes16, read_bytes32, read_rest, read_str, read_u16, read_u32,
    dec_wide_str, read_wide_str, read_u64, read_u8, str_fits, write_bytes16, write_bytes32,
    write_raw, write_str, write_u16, write_u32, write_u64, write_u8, CodecError, RawBytes16,
    RawBytes32, RawBytesUnsized,
};
use crate::math::{
    dec_vector3, dec_vector3i16, enc_vector3, enc_vector3i16, lemma_dec_enc_vector3,
    lemma_dec_enc_vector3i16, read_vector3, read_vector3i16, write_vector3, write_vector3i16,
    Vector3, Vector3i16,
};
use vstd::prelude::*;

verus! {

pub const ID_HELLO: u16 = 0x02;

pub const ID_AUTH_ACCEPT: u16 = 0x03;

pub const ID_BLOCK_DATA: u16 = 0x20;

pub const ID_INVENTORY: u16 = 0x27;

pub const ID_TIME_OF_DAY: u16 = 0x29;

pub const ID_CSM_RESTRICTION_FLAGS: u16 = 0x2A;

pub const ID_CHAT_MESSAGE: u16 = 0x2F;

pub const ID_ACTIVE_OBJECT_REMOVE_ADD: u16 = 0x31;

pub const ID_ACTIVE_OBJECT_MESSAGES: u16 = 0x32;

pub const ID_HP: u16 = 0x33;

pub const ID_MOVE_PLAYER: u16 = 0x34;

pub const ID_MEDIA: u16 = 0x38;

pub const ID_NODE_DEF: u16 = 0x3A;

pub const ID_ANNOUNCE_MEDIA: u16 = 0x3C;

pub const ID_ITEM_DEF: u16 = 0x3D;

pub const ID_PRIVILEGES: u16 = 0x41;

pub const ID_INVENTORY_FORMSPEC: u16 = 0x42;

pub const ID_DETACHED_INVENTORY: u16 = 0x43;

pub const ID_MOVEMENT: u16 = 0x45;

pub const ID_HUD_ADD: u16 = 0x49;

pub const ID_HUD_CHANGE: u16 = 0x4B;

pub const ID_HUD_SET_FLAGS: u16 = 0x4C;

pub const ID_BREATH: u16 = 0x4E;

pub const ID_UPDATE_PLAYER_LIST: u16 = 0x56;

pub const ID_SRP_BYTES_S_B: u16 = 0x60;

// ---------------------------------------------------------------------------
// Message structs and views
// ---------------------------------------------------------------------------

/// The server's protocol handshake reply.
#[derive(Debug, Clone)]
pub struct Hello {
    pub serialization_version: u8,
    pub compression_mode: u16,
    pub protocol_version: u16,
    pub supported_auth_modes: u32,
    pub legacy_player_name: String,
}

pub struct HelloV {
    pub serialization_version: u8,
    pub compression_mode: u16,
    pub protocol_version: u16,
    pub supported_auth_modes: u32,
    pub legacy_player_name: Seq<char>,
}

impl View for Hello {
    type V = HelloV;

    open spec fn view(&self) -> HelloV {
        HelloV {
            serialization_version: self.serialization_version,
            compression_mode: self.compression_mode,
            protocol_version: self.protocol_version,
            supported_auth_modes: self.supported_auth_modes,
            legacy_player_name: self.legacy_player_name@,
        }
    }
}

/// Authentication success; float fields are IEEE-754 bit patterns.
#[derive(Debug, Clone, Copy, PartialEq, Eq, Structural)]
pub struct AuthAccept {
    pub player_position: Vector3,
    pub seed: u64,
    pub send_interval: u32,
    pub supported_sudo_auth_methods: u32,
}

/// One 16x16x16 block; the payload stays raw here (see the world model's
/// block decoder).
#[derive(Debug, Clone)]
pub struct BlockData {
    pub position: Vector3i16,
    pub data: RawBytesUnsized,
}

pub struct BlockDataV {
    pub position: Vector3i16,
    pub data: Seq<u8>,
}

impl View for BlockData {
    type V = BlockDataV;

    open spec fn view(&self) -> BlockDataV {
        BlockDataV { position: self.position, data: self.data@ }
    }
}

/// The world clock; `time_speed` is an IEEE-754 bit pattern.
#[derive(Debug, Clone, Copy, PartialEq, Eq, Structural)]
pub struct TimeOfDay {
    pub time: u16,
    pub time_speed: u32,
}

#[derive(Debug, Clone, Copy, PartialEq, Eq, Structural)]
pub struct CsmRestrictionFlags {
    pub flags: u64,
    pub range: u32,
}

/// Chat; sender and text are UTF-16 on the wire.
#[derive(Debug, Clone)]
pub struct ChatMessage {
    pub version: u8,
    pub ty: u8,
    pub sender: String,
    pub message: String,
    pub time: u64,
}

pub struct ChatMessageV {
    pub version: u8,
    pub ty: u8,
    pub sender: Seq<char>,
    pub message: Seq<char>,
    pub time: u64,
}

impl View for ChatMessage {
    type V = ChatMessageV;

    open spec fn view(&self) -> ChatMessageV {
        ChatMessageV {
            version: self.version,
            ty: self.ty,
            sender: self.sender@,
            message: self.message@,
            time: self.time,
        }
    }
}

#[derive(Debug, Clone, Copy, PartialEq, Eq, Structural)]
pub struct Hp {
    pub hp: u16,
}

/// The server moves the player; floats are IEEE-754 bit patterns.
#[derive(Debug, Clone, Copy, PartialEq, Eq, Structural)]
pub struct MovePlayer {
    pub position: Vector3,
    pub pitch: u32,
    pub yaw: u32,
}

/// One file of a media bunch.
#[derive(Debug, Clone)]
pub struct MediaFile {
    pub name: String,
    pub data: Vec<u8>,
}

impl View for MediaFile {
    type V = (Seq<char>, Seq<u8>);

    open spec fn view(&self) -> (Seq<char>, Seq<u8>) {
        (self.name@, self.data@)
    }
}

impl DeepView for MediaFile {
    type V = (Seq<char>, Seq<u8>);

    open spec fn deep_view(&self) -> (Seq<char>, Seq<u8>) {
        self@
    }
}

/// One bunch of media files.
#[derive(Debug, Clone)]
pub struct Media {
    pub bunch_count: u16,
    pub bunch_id: u16,
    pub files: Vec<MediaFile>,
}

pub struct MediaV {
    pub bunch_count: u16,
    pub bunch_id: u16,
    pub files: Seq<(Seq<char>, Seq<u8>)>,
}

impl View for Media {
    type V = MediaV;

    open spec fn view(&self) -> MediaV {
        MediaV {
            bunch_count: self.bunch_count,
            bunch_id: self.bunch_id,
            files: self.files.deep_view(),
        }
    }
}

/// The compressed node-definition blob.
#[derive(Debug, Clone)]
pub struct NodeDef {
    pub data: RawBytes32,
}

pub struct NodeDefV {
    pub data: Seq<u8>,
}

impl View for NodeDef {
    type V = NodeDefV;

    open spec fn view(&self) -> NodeDefV {
        NodeDefV { data: self.data@ }
    }
}

/// One announced media file: its name and the base64 of its digest.
#[derive(Debug, Clone)]
pub struct MediaAnnounce {
    pub name: String,
    pub digest_b64: String,
}

impl View for MediaAnnounce {
    type V = (Seq<char>, Seq<char>);

    open spec fn view(&self) -> (Seq<char>, Seq<char>) {
        (self.name@, self.digest_b64@)
    }
}

impl DeepView for MediaAnnounce {
    type V = (Seq<char>, Seq<char>);

    open spec fn deep_view(&self) -> (Seq<char>, Seq<char>) {
        self@
    }
}

/// The media catalog: all file names with their digests, and the remote
/// media servers as one comma-separated string.
#[derive(Debug, Clone)]
pub struct AnnounceMedia {
    pub digests: Vec<MediaAnnounce>,
    pub content_servers: String,
}

pub struct AnnounceMediaV {
    pub digests: Seq<(Seq<char>, Seq<char>)>,
    pub content_servers: Seq<char>,
}

impl View for AnnounceMedia {
    type V = AnnounceMediaV;

    open spec fn view(&self) -> AnnounceMediaV {
        AnnounceMediaV {
            digests: self.digests.deep_view(),
            content_servers: self.content_servers@,
        }
    }
}

/// The compressed item-definition blob.
#[derive(Debug, Clone)]
pub struct ItemDef {
    pub data: RawBytes32,
}

pub struct ItemDefV {
    pub data: Seq<u8>,
}

impl View for ItemDef {
    type V = ItemDefV;

    open spec fn view(&self) -> ItemDefV {
        ItemDefV { data: self.data@ }
    }
}

/// Only the inventory name is parsed; the body is ignored.
#[derive(Debug, Clone)]
pub struct DetachedInventory {
    pub name: String,
}

pub struct DetachedInventoryV {
    pub name: Seq<char>,
}

impl View for DetachedInventory {
    type V = DetachedInventoryV;

    open spec fn view(&self) -> DetachedInventoryV {
        DetachedInventoryV { name: self.name@ }
    }
}

/// Movement physics constants; every field is an IEEE-754 bit pattern.
#[derive(Debug, Clone, Copy, PartialEq, Eq, Structural)]
pub struct Movement {
    pub acceleration_default: u32,
    pub acceleration_air: u32,
    pub acceleration_fast: u32,
    pub speed_walk: u32,
    pub speed_crouch: u32,
    pub speed_fast: u32,
    pub speed_climb: u32,
    pub speed_jump: u32,
    pub liquid_fluidity: u32,
    pub liquid_fluidity_smooth: u32,
    pub liquid_sink: u32,
    pub gravity: u32,
}

#[derive(Debug, Clone, Copy, PartialEq, Eq, Structural)]
pub struct Breath {
    pub breath: u16,
}

/// The server's SRP reply: the salt and its public ephemeral value.
#[derive(Debug, Clone)]
pub struct SrpBytesSB {
    pub s: RawBytes16,
    pub b: RawBytes16,
}

pub struct SrpBytesSBV {
    pub s: Seq<u8>,
    pub b: Seq<u8>,
}

impl View for SrpBytesSB {
    type V = SrpBytesSBV;

    open spec fn view(&self) -> SrpBytesSBV {
        SrpBytesSBV { s: self.s@, b: self.b@ }
    }
}

/// The closed set of clientbound messages. Variants the reference protocol
/// leaves unparsed carry no fields.
#[derive(Debug, Clone)]
pub enum ClientBound {
    Hello(Hello),
    AuthAccept(AuthAccept),
    BlockData(BlockData),
    Inventory,
    TimeOfDay(TimeOfDay),
    CsmRestrictionFlags(CsmRestrictionFlags),
    ChatMessage(ChatMessage),
    ActiveObjectRemoveAdd,
    ActiveObjectMessages,
    Hp(Hp),
    MovePlayer(MovePlayer),
    Media(Media),
    NodeDef(NodeDef),
    AnnounceMedia(AnnounceMedia),
    ItemDef(ItemDef),
    Privileges,
    InventoryFormspec,
    DetachedInventory(DetachedInventory),
    Movement(Movement),
    HudAdd,
    HudChange,
    HudSetFlags,
    Breath(Breath),
    UpdatePlayerList,
    SrpBytesSB(SrpBytesSB),
}

pub enum ClientBoundV {
    Hello(HelloV),
    AuthAccept(AuthAccept),
    BlockData(BlockDataV),
    Inventory,
    TimeOfDay(TimeOfDay),
    CsmRestrictionFlags(CsmRestrictionFlags),
    ChatMessage(ChatMessageV),
    ActiveObjectRemoveAdd,
    ActiveObjectMessages,
    Hp(Hp),
    MovePlayer(MovePlayer),
    Media(MediaV),
    NodeDef(NodeDefV),
    AnnounceMedia(AnnounceMediaV),
    ItemDef(ItemDefV),
    Privileges,
    InventoryFormspec,
    DetachedInventory(DetachedInventoryV),
    Movement(Movement),
    HudAdd,
    HudChange,
    HudSetFlags,
    Breath(Breath),
    UpdatePlayerList,
    SrpBytesSB(SrpBytesSBV),
}

impl View for ClientBound {
    type V = ClientBoundV;

    open spec fn view(&self) -> ClientBoundV {
        match self {
            ClientBound::Hello(m) => ClientBoundV::Hello(m@),
            ClientBound::AuthAccept(m) => ClientBoundV::AuthAccept(*m),
            ClientBound::BlockData(m) => ClientBoundV::BlockData(m@),
            ClientBound::Inventory => ClientBoundV::Inventory,
            ClientBound::TimeOfDay(m) => ClientBoundV::TimeOfDay(*m),
            ClientBound::CsmRestrictionFlags(m) => ClientBoundV::CsmRestrictionFlags(*m),
            ClientBound::ChatMessage(m) => ClientBoundV::ChatMessage(m@),
            ClientBound::ActiveObjectRemoveAdd => ClientBoundV::ActiveObjectRemoveAdd,
            ClientBound::ActiveObjectMessages => ClientBoundV::ActiveObjectMessages,
            ClientBound::Hp(m) => ClientBoundV::Hp(*m),
            ClientBound::MovePlayer(m) => ClientBoundV::MovePlayer(*m),
            ClientBound::Media(m) => ClientBoundV::Media(m@),
            ClientBound::NodeDef(m) => ClientBoundV::NodeDef(m@),
            ClientBound::AnnounceMedia(m) => ClientBoundV::AnnounceMedia(m@),
            ClientBound::ItemDef(m) => ClientBoundV::ItemDef(m@),
            ClientBound::Privileges => ClientBoundV::Privileges,
            ClientBound::InventoryFormspec => ClientBoundV::InventoryFormspec,
            ClientBound::DetachedInventory(m) => ClientBoundV::DetachedInventory(m@),
            ClientBound::Movement(m) => ClientBoundV::Movement(*m),
            ClientBound::HudAdd => ClientBoundV::HudAdd,
            ClientBound::HudChange => ClientBoundV::HudChange,
            ClientBound::HudSetFlags => ClientBoundV::HudSetFlags,
            ClientBound::Breath(m) => ClientBoundV::Breath(*m),
            ClientBound::UpdatePlayerList => ClientBoundV::UpdatePlayerList,
            ClientBound::SrpBytesSB(m) => ClientBoundV::SrpBytesSB(m@),
        }
    }
}

// ---------------------------------------------------------------------------
// Spec codec
// ---------------------------------------------------------------------------

pub open spec fn enc_hello_v(m: HelloV) -> Seq<u8> {
    enc_u8(m.serialization_version) + enc_u16(m.compression_mode) + enc_u16(m.protocol_version)
        + enc_u32(m.supported_auth_modes) + enc_str(m.legacy_player_name)
}

pub open spec fn enc_auth_accept(m: AuthAccept) -> Seq<u8> {
    enc_vector3(m.player_position) + enc_u64(m.seed) + enc_u32(m.send_interval) + enc_u32(
        m.supported_sudo_auth_methods,
    )
}

pub open spec fn enc_move_player(m: MovePlayer) -> Seq<u8> {
    enc_vector3(m.position) + enc_u32(m.pitch) + enc_u32(m.yaw)
}

pub open spec fn enc_movement(m: Movement) -> Seq<u8> {
    enc_u32(m.acceleration_default) + enc_u32(m.acceleration_air) + enc_u32(m.acceleration_fast)
        + enc_u32(m.speed_walk) + enc_u32(m.speed_crouch) + enc_u32(m.speed_fast) + enc_u32(
        m.speed_climb,
    ) + enc_u32(m.speed_jump) + enc_u32(m.liquid_fluidity) + enc_u32(m.liquid_fluidity_smooth)
        + enc_u32(m.liquid_sink) + enc_u32(m.gravity)
}

pub open spec fn clientbound_id(v: ClientBoundV) -> u16 {
    match v {
        ClientBoundV::Hello(_) => ID_HELLO,
        ClientBoundV::AuthAccept(_) => ID_AUTH_ACCEPT,
        ClientBoundV::BlockData(_) => ID_BLOCK_DATA,
        ClientBoundV::Inventory => ID_INVENTORY,
        ClientBoundV::TimeOfDay(_) => ID_TIME_OF_DAY,
        ClientBoundV::CsmRestrictionFlags(_) => ID_CSM_RESTRICTION_FLAGS,
        ClientBoundV::ChatMessage(_) => ID_CHAT_MESSAGE,
        ClientBoundV::ActiveObjectRemoveAdd => ID_ACTIVE_OBJECT_REMOVE_ADD,
        ClientBoundV::ActiveObjectMessages => ID_ACTIVE_OBJECT_MESSAGES,
        ClientBoundV::Hp(_) => ID_HP,
        ClientBoundV::MovePlayer(_) => ID_MOVE_PLAYER,
        ClientBoundV::Media(_) => ID_MEDIA,
        ClientBoundV::NodeDef(_) => ID_NODE_DEF,
        ClientBoundV::AnnounceMedia(_) => ID_ANNOUNCE_MEDIA,
        ClientBoundV::ItemDef(_) => ID_ITEM_DEF,
        ClientBoundV::Privileges => ID_PRIVILEGES,
        ClientBoundV::InventoryFormspec => ID_INVENTORY_FORMSPEC,
        ClientBoundV::DetachedInventory(_) => ID_DETACHED_INVENTORY,
        ClientBoundV::Movement(_) => ID_MOVEMENT,
        ClientBoundV::HudAdd => ID_HUD_ADD,
        ClientBoundV::HudChange => ID_HUD_CHANGE,
        ClientBoundV::HudSetFlags => ID_HUD_SET_FLAGS,
        ClientBoundV::Breath(_) => ID_BREATH,
        ClientBoundV::UpdatePlayerList => ID_UPDATE_PLAYER_LIST,
        ClientBoundV::SrpBytesSB(_) => ID_SRP_BYTES_S_B,
    }
}

/// The variants the reference protocol can serialise. Chat, media bunches
/// and media announcements are only ever received, so they have no encoder.
pub open spec fn clientbound_has_encoder(v: ClientBoundV) -> bool {
    match v {
        ClientBoundV::ChatMessage(_) => false,
        ClientBoundV::Media(_) => false,
        ClientBoundV::AnnounceMedia(_) => false,
        _ => true,
    }
}

/// Whether every variable-length field fits its length prefix.
pub open spec fn clientbound_fits(v: ClientBoundV) -> bool {
    match v {
        ClientBoundV::Hello(m) => str_fits(m.legacy_player_name),
        ClientBoundV::NodeDef(m) => m.data.len() < 0xFFFF_FFFF,
        ClientBoundV::ItemDef(m) => m.data.len() < 0xFFFF_FFFF,
        ClientBoundV::DetachedInventory(m) => str_fits(m.name),
        ClientBoundV::SrpBytesSB(m) => m.s.len() < 0xFFFF && m.b.len() < 0xFFFF,
        _ => true,
    }
}

/// Payload of each encodable variant (the bytes after the 16-bit id).
pub open spec fn enc_clientbound_payload(v: ClientBoundV) -> Seq<u8> {
    match v {
        ClientBoundV::Hello(m) => enc_hello_v(m),
        ClientBoundV::AuthAccept(m) => enc_auth_accept(m),
        ClientBoundV::BlockData(m) => enc_vector3i16(m.position) + m.data,
        ClientBoundV::TimeOfDay(m) => enc_u16(m.time) + enc_u32(m.time_speed),
        ClientBoundV::CsmRestrictionFlags(m) => enc_u64(m.flags) + enc_u32(m.range),
        ClientBoundV::Hp(m) => enc_u16(m.hp),
        ClientBoundV::MovePlayer(m) => enc_move_player(m),
        ClientBoundV::NodeDef(m) => enc_bytes32(m.data),
        ClientBoundV::ItemDef(m) => enc_bytes32(m.data),
        ClientBoundV::DetachedInventory(m) => enc_str(m.name),
        ClientBoundV::Movement(m) => enc_movement(m),
        ClientBoundV::Breath(m) => enc_u16(m.breath),
        ClientBoundV::SrpBytesSB(m) => enc_bytes16(m.s) + enc_bytes16(m.b),
        _ => Seq::<u8>::empty(),
    }
}

pub open spec fn enc_clientbound_v(v: ClientBoundV) -> Seq<u8> {
    enc_u16(clientbound_id(v)) + enc_clientbound_payload(v)
}

pub open spec fn dec_hello_s(b: Seq<u8>, i: int) -> Result<(HelloV, int), CodecError> {
    match dec_u8(b, i) {
        None => Err(CodecError::Truncated),
        Some((sv, j)) => match dec_u16(b, j) {
            None => Err(CodecError::Truncated),
            Some((cm, j)) => match dec_u16(b, j) {
                None => Err(CodecError::Truncated),
                Some((pv, j)) => match dec_u32(b, j) {
                    None => Err(CodecError::Truncated),
                    Some((am, j)) => match dec_str(b, j) {
                        None => Err(CodecError::Truncated),
                        Some((None, _)) => Err(CodecError::Encoding),
                        Some((Some(name), j)) => Ok(
                            (
                                HelloV {
                                    serialization_version: sv,
                                    compression_mode: cm,
                                    protocol_version: pv,
                                    supported_auth_modes: am,
                                    legacy_player_name: name,
                                },
                                j,
                            ),
                        ),
                    },
                },
            },
        },
    }
}

pub open spec fn dec_auth_accept_s(b: Seq<u8>, i: int) -> Result<(AuthAccept, int), CodecError> {
    match dec_vector3(b, i) {
        None => Err(CodecError::Truncated),
        Some((pos, j)) => match dec_u64(b, j) {
            None => Err(CodecError::Truncated),
            Some((seed, j)) => match dec_u32(b, j) {
                None => Err(CodecError::Truncated),
                Some((si, j)) => match dec_u32(b, j) {
                    None => Err(CodecError::Truncated),
                    Some((sam, j)) => Ok(
                        (
                            AuthAccept {
                                player_position: pos,
                                seed,
                                send_interval: si,
                                supported_sudo_auth_methods: sam,
                            },
                            j,
                        ),
                    ),
                },
            },
        },
    }
}

pub open spec fn dec_chat_message_s(b: Seq<u8>, i: int) -> Result<(ChatMessageV, int), CodecError> {
    match dec_u8(b, i) {
        None => Err(CodecError::Truncated),
        Some((version, j)) => match dec_u8(b, j) {
            None => Err(CodecError::Truncated),
            Some((ty, j)) => match dec_wide_str(b, j) {
                Err(e) => Err(e),
                Ok((sender, j)) => match dec_wide_str(b, j) {
                    Err(e) => Err(e),
                    Ok((message, j)) => match dec_u64(b, j) {
                        None => Err(CodecError::Truncated),
                        Some((time, j)) => Ok(
                            (ChatMessageV { version, ty, sender, message, time }, j),
                        ),
                    },
                },
            },
        },
    }
}

pub open spec fn dec_move_player_s(b: Seq<u8>, i: int) -> Result<(MovePlayer, int), CodecError> {
    match dec_vector3(b, i) {
        None => Err(CodecError::Truncated),
        Some((position, j)) => match dec_u32(b, j) {
            None => Err(CodecError::Truncated),
            Some((pitch, j)) => match dec_u32(b, j) {
                None => Err(CodecError::Truncated),
                Some((yaw, j)) => Ok((MovePlayer { position, pitch, yaw }, j)),
            },
        },
    }
}

/// The files of one media bunch: each is a name and a 32-bit-prefixed blob.
pub open spec fn dec_media_files(b: Seq<u8>, i: int, n: nat) -> Result<
    (Seq<(Seq<char>, Seq<u8>)>, int),
    CodecError,
>
    decreases n,
{
    if n == 0 {
        Ok((Seq::<(Seq<char>, Seq<u8>)>::empty(), i))
    } else {
        match dec_str(b, i) {
            None => Err(CodecError::Truncated),
            Some((None, _)) => Err(CodecError::Encoding),
            Some((Some(name), j)) => match dec_bytes32(b, j) {
                None => Err(CodecError::Truncated),
                Some((data, k)) => match dec_media_files(b, k, (n - 1) as nat) {
                    Err(e) => Err(e),
                    Ok((rest, l)) => Ok((seq![(name, data)] + rest, l)),
                },
            },
        }
    }
}

pub open spec fn dec_media_s(b: Seq<u8>, i: int) -> Result<(MediaV, int), CodecError> {
    match dec_u16(b, i) {
        None => Err(CodecError::Truncated),
        Some((bunch_count, j)) => match dec_u16(b, j) {
            None => Err(CodecError::Truncated),
            Some((bunch_id, j)) => match dec_u32(b, j) {
                None => Err(CodecError::Truncated),
                Some((n, j)) => match dec_media_files(b, j, n as nat) {
                    Err(e) => Err(e),
                    Ok((files, k)) => Ok((MediaV { bunch_count, bunch_id, files }, k)),
                },
            },
        },
    }
}

/// The announced catalog entries: each is a name and a base64 digest.
pub open spec fn dec_announce_list(b: Seq<u8>, i: int, n: nat) -> Result<
    (Seq<(Seq<char>, Seq<char>)>, int),
    CodecError,
>
    decreases n,
{
    if n == 0 {
        Ok((Seq::<(Seq<char>, Seq<char>)>::empty(), i))
    } else {
        match dec_str(b, i) {
            None => Err(CodecError::Truncated),
            Some((None, _)) => Err(CodecError::Encoding),
            Some((Some(name), j)) => match dec_str(b, j) {
                None => Err(CodecError::Truncated),
                Some((None, _)) => Err(CodecError::Encoding),
                Some((Some(digest), k)) => match dec_announce_list(b, k, (n - 1) as nat) {
                    Err(e) => Err(e),
                    Ok((rest, l)) => Ok((seq![(name, digest)] + rest, l)),
                },
            },
        }
    }
}

pub open spec fn dec_announce_media_s(b: Seq<u8>, i: int) -> Result<
    (AnnounceMediaV, int),
    CodecError,
> {
    match dec_u16(b, i) {
        None => Err(CodecError::Truncated),
        Some((n, j)) => match dec_announce_list(b, j, n as nat) {
            Err(e) => Err(e),
            Ok((digests, k)) => match dec_str(b, k) {
                None => Err(CodecError::Truncated),
                Some((None, _)) => Err(CodecError::Encoding),
                Some((Some(servers), l)) => Ok(
                    (AnnounceMediaV { digests, content_servers: servers }, l),
                ),
            },
        },
    }
}

pub open spec fn dec_movement_s(b: Seq<u8>, i: int) -> Result<(Movement, int), CodecError> {
    if i + 48 <= b.len() && 0 <= i {
        Ok(
            (
                Movement {
                    acceleration_default: dec_u32(b, i).unwrap().0,
                    acceleration_air: dec_u32(b, i + 4).unwrap().0,
                    acceleration_fast: dec_u32(b, i + 8).unwrap().0,
                    speed_walk: dec_u32(b, i + 12).unwrap().0,
                    speed_crouch: dec_u32(b, i + 16).unwrap().0,
                    speed_fast: dec_u32(b, i + 20).unwrap().0,
                    speed_climb: dec_u32(b, i + 24).unwrap().0,
                    speed_jump: dec_u32(b, i + 28).unwrap().0,
                    liquid_fluidity: dec_u32(b, i + 32).unwrap().0,
                    liquid_fluidity_smooth: dec_u32(b, i + 36).unwrap().0,
                    liquid_sink: dec_u32(b, i + 40).unwrap().0,
                    gravity: dec_u32(b, i + 44).unwrap().0,
                },
                i + 48,
            ),
        )
    } else {
        Err(CodecError::Truncated)
    }
}

/// Decodes a clientbound message from the start of `b`; trailing bytes are
/// ignored, as the reference protocol does.
#[verifier::opaque]
pub open spec fn dec_clientbound_s(b: Seq<u8>) -> Result<(ClientBoundV, int), CodecError> {
    match dec_u16(b, 0) {
        None => Err(CodecError::Truncated),
        Some((id, i)) => {
            if id == ID_HELLO {
                match dec_hello_s(b, i) {
                    Err(e) => Err(e),
                    Ok((m, j)) => Ok((ClientBoundV::Hello(m), j)),
                }
            } else if id == ID_AUTH_ACCEPT {
                match dec_auth_accept_s(b, i) {
                    Err(e) => Err(e),
                    Ok((m, j)) => Ok((ClientBoundV::AuthAccept(m), j)),
                }
            } else if id == ID_BLOCK_DATA {
                match dec_vector3i16(b, i) {
                    None => Err(CodecError::Truncated),
                    Some((position, j)) => Ok(
                        (
                            ClientBoundV::BlockData(
                                BlockDataV { position, data: b.subrange(j, b.len() as int) },
                            ),
                            b.len() as int,
                        ),
                    ),
                }
            } else if id == ID_INVENTORY {
                Ok((ClientBoundV::Inventory, i))
            } else if id == ID_TIME_OF_DAY {
                match dec_u16(b, i) {
                    None => Err(CodecError::Truncated),
                    Some((time, j)) => match dec_u32(b, j) {
                        None => Err(CodecError::Truncated),
                        Some((speed, k)) => Ok(
                            (ClientBoundV::TimeOfDay(TimeOfDay { time, time_speed: speed }), k),
                        ),
                    },
                }
            } else if id == ID_CSM_RESTRICTION_FLAGS {
                match dec_u64(b, i) {
                    None => Err(CodecError::Truncated),
                    Some((flags, j)) => match dec_u32(b, j) {
                        None => Err(CodecError::Truncated),
                        Some((range, k)) => Ok(
                            (
                                ClientBoundV::CsmRestrictionFlags(
                                    CsmRestrictionFlags { flags, range },
                                ),
                                k,
                            ),
                        ),
                    },
                }
            } else if id == ID_CHAT_MESSAGE {
                match dec_chat_message_s(b, i) {
                    Err(e) => Err(e),
                    Ok((m, j)) => Ok((ClientBoundV::ChatMessage(m), j)),
                }
            } else if id == ID_ACTIVE_OBJECT_REMOVE_ADD {
                Ok((ClientBoundV::ActiveObjectRemoveAdd, i))
            } else if id == ID_ACTIVE_OBJECT_MESSAGES {
                Ok((ClientBoundV::ActiveObjectMessages, i))
            } else if id == ID_HP {
                match dec_u16(b, i) {
                    None => Err(CodecError::Truncated),
                    Some((hp, j)) => Ok((ClientBoundV::Hp(Hp { hp }), j)),
                }
            } else if id == ID_MOVE_PLAYER {
                match dec_move_player_s(b, i) {
                    Err(e) => Err(e),
                    Ok((m, j)) => Ok((ClientBoundV::MovePlayer(m), j)),
                }
            } else if id == ID_MEDIA {
                match dec_media_s(b, i) {
                    Err(e) => Err(e),
                    Ok((m, j)) => Ok((ClientBoundV::Media(m), j)),
                }
            } else if id == ID_NODE_DEF {
                match dec_bytes32(b, i) {
                    None => Err(CodecError::Truncated),
                    Some((data, j)) => Ok((ClientBoundV::NodeDef(NodeDefV { data }), j)),
                }
            } else if id == ID_ANNOUNCE_MEDIA {
                match dec_announce_media_s(b, i) {
                    Err(e) => Err(e),
                    Ok((m, j)) => Ok((ClientBoundV::AnnounceMedia(m), j)),
                }
            } else if id == ID_ITEM_DEF {
                match dec_bytes32(b, i) {
                    None => Err(CodecError::Truncated),
                    Some((data, j)) => Ok((ClientBoundV::ItemDef(ItemDefV { data }), j)),
                }
            } else if id == ID_PRIVILEGES {
                Ok((ClientBoundV::Privileges, i))
            } else if id == ID_INVENTORY_FORMSPEC {
                Ok((ClientBoundV::InventoryFormspec, i))
            } else if id == ID_DETACHED_INVENTORY {
                match dec_str(b, i) {
                    None => Err(CodecError::Truncated),
                    Some((None, _)) => Err(CodecError::Encoding),
                    Some((Some(name), j)) => Ok(
                        (ClientBoundV::DetachedInventory(DetachedInventoryV { name }), j),
                    ),
                }
            } else if id == ID_MOVEMENT {
                match dec_movement_s(b, i) {
                    Err(e) => Err(e),
                    Ok((m, j)) => Ok((ClientBoundV::Movement(m), j)),
                }
            } else if id == ID_HUD_ADD {
                Ok((ClientBoundV::HudAdd, i))
            } else if id == ID_HUD_CHANGE {
                Ok((ClientBoundV::HudChange, i))
            } else if id == ID_HUD_SET_FLAGS {
                Ok((ClientBoundV::HudSetFlags, i))
            } else if id == ID_BREATH {
                match dec_u16(b, i) {
                    None => Err(CodecError::Truncated),
                    Some((breath, j)) => Ok((ClientBoundV::Breath(Breath { breath }), j)),
                }
            } else if id == ID_UPDATE_PLAYER_LIST {
                Ok((ClientBoundV::UpdatePlayerList, i))
            } else if id == ID_SRP_BYTES_S_B {
                match dec_bytes16(b, i) {
                    None => Err(CodecError::Truncated),
                    Some((s, j)) => match dec_bytes16(b, j) {
                        None => Err(CodecError::Truncated),
                        Some((bb, k)) => Ok((ClientBoundV::SrpBytesSB(SrpBytesSBV { s, b: bb }), k)),
                    },
                }
            } else {
                Err(CodecError::UnknownVariant { value: id })
            }
        },
    }
}

// ---------------------------------------------------------------------------
// Executable encoder
// ---------------------------------------------------------------------------

/// Serialises a clientbound message; `Unsupported` for the variants that
/// have no defined encoder, `Overflow` when a variable-length field does
/// not fit its length prefix.
pub fn encode_clientbound(m: &ClientBound) -> (r: Result<Vec<u8>, CodecError>)
    ensures
        match r {
            Ok(out) => clientbound_has_encoder(m@) && clientbound_fits(m@) && out@
                == enc_clientbound_v(m@),
            Err(e) => (e == CodecError::Unsupported && !clientbound_has_encoder(m@)) || (e
                == CodecError::Overflow && !clientbound_fits(m@)),
        },
{
    let mut out: Vec<u8> = Vec::new();
    match m {
        ClientBound::Hello(msg) => {
            write_u16(&mut out, ID_HELLO);
            write_u8(&mut out, msg.serialization_version);
            write_u16(&mut out, msg.compression_mode);
            write_u16(&mut out, msg.protocol_version);
            write_u32(&mut out, msg.supported_auth_modes);
            match write_str(&mut out, &msg.legacy_player_name) {
                Ok(()) => {},
                Err(e) => {
                    return Err(e);
                },
            }
            assert(out@ =~= enc_clientbound_v(m@));
        },
        ClientBound::AuthAccept(msg) => {
            write_u16(&mut out, ID_AUTH_ACCEPT);
            write_vector3(&mut out, &msg.player_position);
            write_u64(&mut out, msg.seed);
            write_u32(&mut out, msg.send_interval);
            write_u32(&mut out, msg.supported_sudo_auth_methods);
            assert(out@ =~= enc_clientbound_v(m@));
        },
        ClientBound::BlockData(msg) => {
            write_u16(&mut out, ID_BLOCK_DATA);
            write_vector3i16(&mut out, &msg.position);
            write_raw(&mut out, &msg.data.0);
            assert(out@ =~= enc_clientbound_v(m@));
        },
        ClientBound::Inventory => {
            write_u16(&mut out, ID_INVENTORY);
            assert(out@ =~= enc_clientbound_v(m@));
        },
        ClientBound::TimeOfDay(msg) => {
            write_u16(&mut out, ID_TIME_OF_DAY);
            write_u16(&mut out, msg.time);
            write_u32(&mut out, msg.time_speed);
            assert(out@ =~= enc_clientbound_v(m@));
        },
        ClientBound::CsmRestrictionFlags(msg) => {
            write_u16(&mut out, ID_CSM_RESTRICTION_FLAGS);
            write_u64(&mut out, msg.flags);
            write_u32(&mut out, msg.range);
            assert(out@ =~= enc_clientbound_v(m@));
        },
        ClientBound::ChatMessage(_) => {
            return Err(CodecError::Unsupported);
        },
        ClientBound::ActiveObjectRemoveAdd => {
            write_u16(&mut out, ID_ACTIVE_OBJECT_REMOVE_ADD);
            assert(out@ =~= enc_clientbound_v(m@));
        },
        ClientBound::ActiveObjectMessages => {
            write_u16(&mut out, ID_ACTIVE_OBJECT_MESSAGES);
            assert(out@ =~= enc_clientbound_v(m@));
        },
        ClientBound::Hp(msg) => {
            write_u16(&mut out, ID_HP);
            write_u16(&mut out, msg.hp);
            assert(out@ =~= enc_clientbound_v(m@));
        },
        ClientBound::MovePlayer(msg) => {
            write_u16(&mut out, ID_MOVE_PLAYER);
            write_vector3(&mut out, &msg.position);
            write_u32(&mut out, msg.pitch);
            write_u32(&mut out, msg.yaw);
            assert(out@ =~= enc_clientbound_v(m@));
        },
        ClientBound::Media(_) => {
            return Err(CodecError::Unsupported);
        },
        ClientBound::NodeDef(msg) => {
            write_u16(&mut out, ID_NODE_DEF);
            match write_bytes32(&mut out, &msg.data.0) {
                Ok(()) => {},
                Err(e) => {
                    return Err(e);
                },
            }
            assert(out@ =~= enc_clientbound_v(m@));
        },
        ClientBound::AnnounceMedia(_) => {
            return Err(CodecError::Unsupported);
        },
        ClientBound::ItemDef(msg) => {
            write_u16(&mut out, ID_ITEM_DEF);
            match write_bytes32(&mut out, &msg.data.0) {
                Ok(()) => {},
                Err(e) => {
                    return Err(e);
                },
            }
            assert(out@ =~= enc_clientbound_v(m@));
        },
        ClientBound::Privileges => {
            write_u16(&mut out, ID_PRIVILEGES);
            assert(out@ =~= enc_clientbound_v(m@));
        },
        ClientBound::InventoryFormspec => {
            write_u16(&mut out, ID_INVENTORY_FORMSPEC);
            assert(out@ =~= enc_clientbound_v(m@));
        },
        ClientBound::DetachedInventory(msg) => {
            write_u16(&mut out, ID_DETACHED_INVENTORY);
            match write_str(&mut out, &msg.name) {
                Ok(()) => {},
                Err(e) => {
                    return Err(e);
                },
            }
            assert(out@ =~= enc_clientbound_v(m@));
        },
        ClientBound::Movement(msg) => {
            write_u16(&mut out, ID_MOVEMENT);
            write_u32(&mut out, msg.acceleration_default);
            write_u32(&mut out, msg.acceleration_air);
            write_u32(&mut out, msg.acceleration_fast);
            write_u32(&mut out, msg.speed_walk);
            write_u32(&mut out, msg.speed_crouch);
            write_u32(&mut out, msg.speed_fast);
            write_u32(&mut out, msg.speed_climb);
            write_u32(&mut out, msg.speed_jump);
            write_u32(&mut out, msg.liquid_fluidity);
            write_u32(&mut out, msg.liquid_fluidity_smooth);
            write_u32(&mut out, msg.liquid_sink);
            write_u32(&mut out, msg.gravity);
            assert(out@ =~= enc_clientbound_v(m@));
        },
        ClientBound::HudAdd => {
            write_u16(&mut out, ID_HUD_ADD);
            assert(out@ =~= enc_clientbound_v(m@));
        },
        ClientBound::HudChange => {
            write_u16(&mut out, ID_HUD_CHANGE);
            assert(out@ =~= enc_clientbound_v(m@));
        },
        ClientBound::HudSetFlags => {
            write_u16(&mut out, ID_HUD_SET_FLAGS);
            assert(out@ =~= enc_clientbound_v(m@));
        },
        ClientBound::Breath(msg) => {
            write_u16(&mut out, ID_BREATH);
            write_u16(&mut out, msg.breath);
            assert(out@ =~= enc_clientbound_v(m@));
        },
        ClientBound::UpdatePlayerList => {
            write_u16(&mut out, ID_UPDATE_PLAYER_LIST);
            assert(out@ =~= enc_clientbound_v(m@));
        },
        ClientBound::SrpBytesSB(msg) => {
            write_u16(&mut out, ID_SRP_BYTES_S_B);
            match write_bytes16(&mut out, &msg.s.0) {
                Ok(()) => {},
                Err(e) => {
                    return Err(e);
                },
            }
            match write_bytes16(&mut out, &msg.b.0) {
                Ok(()) => {},
                Err(e) => {
                    return Err(e);
                },
            }
            assert(out@ =~= enc_clientbound_v(m@));
        },
    }
    Ok(out)
}

// ---------------------------------------------------------------------------
// Executable decoder
// ---------------------------------------------------------------------------

fn read_media_files(b: &Vec<u8>, pos: &mut usize, n: u32) -> (r: Result<Vec<MediaFile>, CodecError>)
    ensures
        match dec_media_files(b@, *old(pos) as int, n as nat) {
            Ok((xs, j)) => r is Ok && r.unwrap().deep_view() == xs && *final(pos) == j,
            Err(e) => r == Err::<Vec<MediaFile>, CodecError>(e),
        },
{
    let ghost j0 = *pos as int;
    let mut items: Vec<MediaFile> = Vec::new();
    let mut k: u32 = 0;
    proof {
        match dec_media_files(b@, j0, n as nat) {
            Ok((rest, _)) => {
                assert(Seq::<(Seq<char>, Seq<u8>)>::empty() + rest =~= rest);
            },
            Err(_) => {},
        }
        assert(items.deep_view() =~= Seq::<(Seq<char>, Seq<u8>)>::empty());
    }
    while k < n
        invariant
            k <= n,
            items.deep_view().len() == k,
            j0 == *old(pos) as int,
            dec_media_files(b@, j0, n as nat) == (match dec_media_files(
                b@,
                *pos as int,
                (n - k) as nat,
            ) {
                Ok((rest, e)) => Ok::<(Seq<(Seq<char>, Seq<u8>)>, int), CodecError>(
                    (items.deep_view() + rest, e),
                ),
                Err(e) => Err::<(Seq<(Seq<char>, Seq<u8>)>, int), CodecError>(e),
            }),
        decreases n - k,
    {
        let ghost pos_before = *pos as int;
        let ghost items_before = items.deep_view();
        let name = match read_str(b, pos) {
            Ok(v) => v,
            Err(e) => {
                proof {
                    assert(dec_media_files(b@, pos_before, (n - k) as nat) == Err::<
                        (Seq<(Seq<char>, Seq<u8>)>, int),
                        CodecError,
                    >(e));
                }
                return Err(e);
            },
        };
        let data = match read_bytes32(b, pos) {
            Ok(v) => v,
            Err(e) => {
                proof {
                    assert(dec_media_files(b@, pos_before, (n - k) as nat) == Err::<
                        (Seq<(Seq<char>, Seq<u8>)>, int),
                        CodecError,
                    >(e));
                }
                return Err(e);
            },
        };
        items.push(MediaFile { name, data });
        k = k + 1;
        proof {
            assert(items.deep_view() =~= items_before.push((name@, data@)));
            assert(items_before.push((name@, data@)) =~= items_before + seq![(name@, data@)]);
            match dec_media_files(b@, *pos as int, (n - k) as nat) {
                Ok((rest, _)) => {
                    assert((items_before + seq![(name@, data@)]) + rest =~= items_before + (
                    seq![(name@, data@)] + rest));
                },
                Err(_) => {},
            }
        }
    }
    proof {
        assert(items.deep_view() + Seq::<(Seq<char>, Seq<u8>)>::empty() =~= items.deep_view());
    }
    Ok(items)
}

fn read_announce_list(b: &Vec<u8>, pos: &mut usize, n: u16) -> (r: Result<
    Vec<MediaAnnounce>,
    CodecError,
>)
    ensures
        match dec_announce_list(b@, *old(pos) as int, n as nat) {
            Ok((xs, j)) => r is Ok && r.unwrap().deep_view() == xs && *final(pos) == j,
            Err(e) => r == Err::<Vec<MediaAnnounce>, CodecError>(e),
        },
{
    let ghost j0 = *pos as int;
    let mut items: Vec<MediaAnnounce> = Vec::new();
    let mut k: u16 = 0;
    proof {
        match dec_announce_list(b@, j0, n as nat) {
            Ok((rest, _)) => {
                assert(Seq::<(Seq<char>, Seq<char>)>::empty() + rest =~= rest);
            },
            Err(_) => {},
        }
        assert(items.deep_view() =~= Seq::<(Seq<char>, Seq<char>)>::empty());
    }
    while k < n
        invariant
            k <= n,
            items.deep_view().len() == k,
            j0 == *old(pos) as int,
            dec_announce_list(b@, j0, n as nat) == (match dec_announce_list(
                b@,
                *pos as int,
                (n - k) as nat,
            ) {
                Ok((rest, e)) => Ok::<(Seq<(Seq<char>, Seq<char>)>, int), CodecError>(
                    (items.deep_view() + rest, e),
                ),
                Err(e) => Err::<(Seq<(Seq<char>, Seq<char>)>, int), CodecError>(e),
            }),
        decreases n - k,
    {
        let ghost pos_before = *pos as int;
        let ghost items_before = items.deep_view();
        let name = match read_str(b, pos) {
            Ok(v) => v,
            Err(e) => {
                proof {
                    assert(dec_announce_list(b@, pos_before, (n - k) as nat) == Err::<
                        (Seq<(Seq<char>, Seq<char>)>, int),
                        CodecError,
                    >(e));
                }
                return Err(e);
            },
        };
        let digest_b64 = match read_str(b, pos) {
            Ok(v) => v,
            Err(e) => {
                proof {
                    assert(dec_announce_list(b@, pos_before, (n - k) as nat) == Err::<
                        (Seq<(Seq<char>, Seq<char>)>, int),
                        CodecError,
                    >(e));
                }
                return Err(e);
            },
        };
        items.push(MediaAnnounce { name, digest_b64 });
        k = k + 1;
        proof {
            assert(items.deep_view() =~= items_before.push((name@, digest_b64@)));
            assert(items_before.push((name@, digest_b64@)) =~= items_before + seq![
                (name@, digest_b64@),
            ]);
            match dec_announce_list(b@, *pos as int, (n - k) as nat) {
                Ok((rest, _)) => {
                    assert((items_before + seq![(name@, digest_b64@)]) + rest =~= items_before + (
                    seq![(name@, digest_b64@)] + rest));
                },
                Err(_) => {},
            }
        }
    }
    proof {
        assert(items.deep_view() + Seq::<(Seq<char>, Seq<char>)>::empty() =~= items.deep_view());
    }
    Ok(items)
}

/// Parses a clientbound message from the start of `b`, ignoring trailing
/// bytes.
#[verifier::rlimit(100)]
pub fn decode_clientbound(b: &Vec<u8>) -> (r: Result<ClientBound, CodecError>)
    ensures
        match dec_clientbound_s(b@) {
            Ok((v, _)) => r is Ok && r.unwrap()@ == v,
            Err(e) => r == Err::<ClientBound, CodecError>(e),
        },
{
    proof {
        reveal(dec_clientbound_s);
    }
    let mut pos: usize = 0;
    let id = match read_u16(b, &mut pos) {
        Ok(v) => v,
        Err(e) => {
            return Err(e);
        },
    };
    if id == ID_HELLO {
        let serialization_version = match read_u8(b, &mut pos) {
            Ok(v) => v,
            Err(e) => {
                return Err(e);
            },
        };
        let compression_mode = match read_u16(b, &mut pos) {
            Ok(v) => v,
            Err(e) => {
                return Err(e);
            },
        };
        let protocol_version = match read_u16(b, &mut pos) {
            Ok(v) => v,
            Err(e) => {
                return Err(e);
            },
        };
        let supported_auth_modes = match read_u32(b, &mut pos) {
            Ok(v) => v,
            Err(e) => {
                return Err(e);
            },
        };
        let legacy_player_name = match read_str(b, &mut pos) {
            Ok(v) => v,
            Err(e) => {
                return Err(e);
            },
        };
        Ok(
            ClientBound::Hello(
                Hello {
                    serialization_version,
                    compression_mode,
                    protocol_version,
                    supported_auth_modes,
                    legacy_player_name,
                },
            ),
        )
    } else if id == ID_AUTH_ACCEPT {
        let player_position = match read_vector3(b, &mut pos) {
            Ok(v) => v,
            Err(e) => {
                return Err(e);
            },
        };
        let seed = match read_u64(b, &mut pos) {
            Ok(v) => v,
            Err(e) => {
                return Err(e);
            },
        };
        let send_interval = match read_u32(b, &mut pos) {
            Ok(v) => v,
            Err(e) => {
                return Err(e);
            },
        };
        let supported_sudo_auth_methods = match read_u32(b, &mut pos) {
            Ok(v) => v,
            Err(e) => {
                return Err(e);
            },
        };
        Ok(
            ClientBound::AuthAccept(
                AuthAccept {
                    player_position,
                    seed,
                    send_interval,
                    supported_sudo_auth_methods,
                },
            ),
        )
    } else if id == ID_BLOCK_DATA {
        let position = match read_vector3i16(b, &mut pos) {
            Ok(v) => v,
            Err(e) => {
                return Err(e);
            },
        };
        let data = match read_rest(b, &mut pos) {
            Ok(v) => v,
            Err(_) => {
                return Err(CodecError::Truncated);
            },
        };
        Ok(ClientBound::BlockData(BlockData { position, data: RawBytesUnsized(data) }))
    } else if id == ID_INVENTORY {
        Ok(ClientBound::Inventory)
    } else if id == ID_TIME_OF_DAY {
        let time = match read_u16(b, &mut pos) {
            Ok(v) => v,
            Err(e) => {
                return Err(e);
            },
        };
        let time_speed = match read_u32(b, &mut pos) {
            Ok(v) => v,
            Err(e) => {
                return Err(e);
            },
        };
        Ok(ClientBound::TimeOfDay(TimeOfDay { time, time_speed }))
    } else if id == ID_CSM_RESTRICTION_FLAGS {
        let flags = match read_u64(b, &mut pos) {
            Ok(v) => v,
            Err(e) => {
                return Err(e);
            },
        };
        let range = match read_u32(b, &mut pos) {
            Ok(v) => v,
            Err(e) => {
                return Err(e);
            },
        };
        Ok(ClientBound::CsmRestrictionFlags(CsmRestrictionFlags { flags, range }))
    } else if id == ID_CHAT_MESSAGE {
        let version = match read_u8(b, &mut pos) {
            Ok(v) => v,
            Err(e) => {
                return Err(e);
            },
        };
        let ty = match read_u8(b, &mut pos) {
            Ok(v) => v,
            Err(e) => {
                return Err(e);
            },
        };
        let sender = match read_wide_str(b, &mut pos) {
            Ok(v) => v,
            Err(e) => {
                return Err(e);
            },
        };
        let message = match read_wide_str(b, &mut pos) {
            Ok(v) => v,
            Err(e) => {
                return Err(e);
            },
        };
        let time = match read_u64(b, &mut pos) {
            Ok(v) => v,
            Err(e) => {
                return Err(e);
            },
        };
        Ok(ClientBound::ChatMessage(ChatMessage { version, ty, sender, message, time }))
    } else if id == ID_ACTIVE_OBJECT_REMOVE_ADD {
        Ok(ClientBound::ActiveObjectRemoveAdd)
    } else if id == ID_ACTIVE_OBJECT_MESSAGES {
        Ok(ClientBound::ActiveObjectMessages)
    } else if id == ID_HP {
        let hp = match read_u16(b, &mut pos) {
            Ok(v) => v,
            Err(e) => {
                return Err(e);
            },
        };
        Ok(ClientBound::Hp(Hp { hp }))
    } else if id == ID_MOVE_PLAYER {
        let position = match read_vector3(b, &mut pos) {
            Ok(v) => v,
            Err(e) => {
                return Err(e);
            },
        };
        let pitch = match read_u32(b, &mut pos) {
            Ok(v) => v,
            Err(e) => {
                return Err(e);
            },
        };
        let yaw = match read_u32(b, &mut pos) {
            Ok(v) => v,
            Err(e) => {
                return Err(e);
            },
        };
        Ok(ClientBound::MovePlayer(MovePlayer { position, pitch, yaw }))
    } else if id == ID_MEDIA {
        let bunch_count = match read_u16(b, &mut pos) {
            Ok(v) => v,
            Err(e) => {
                return Err(e);
            },
        };
        let bunch_id = match read_u16(b, &mut pos) {
            Ok(v) => v,
            Err(e) => {
                return Err(e);
            },
        };
        let file_count = match read_u32(b, &mut pos) {
            Ok(v) => v,
            Err(e) => {
                return Err(e);
            },
        };
        let files = match read_media_files(b, &mut pos, file_count) {
            Ok(v) => v,
            Err(e) => {
                return Err(e);
            },
        };
        Ok(ClientBound::Media(Media { bunch_count, bunch_id, files }))
    } else if id == ID_NODE_DEF {
        let data = match read_bytes32(b, &mut pos) {
            Ok(v) => v,
            Err(e) => {
                return Err(e);
            },
        };
        Ok(ClientBound::NodeDef(NodeDef { data: RawBytes32(data) }))
    } else if id == ID_ANNOUNCE_MEDIA {
        let count = match read_u16(b, &mut pos) {
            Ok(v) => v,
            Err(e) => {
                return Err(e);
            },
        };
        let digests = match read_announce_list(b, &mut pos, count) {
            Ok(v) => v,
            Err(e) => {
                return Err(e);
            },
        };
        let content_servers = match read_str(b, &mut pos) {
            Ok(v) => v,
            Err(e) => {
                return Err(e);
            },
        };
        Ok(ClientBound::AnnounceMedia(AnnounceMedia { digests, content_servers }))
    } else if id == ID_ITEM_DEF {
        let data = match read_bytes32(b, &mut pos) {
            Ok(v) => v,
            Err(e) => {
                return Err(e);
            },
        };
        Ok(ClientBound::ItemDef(ItemDef { data: RawBytes32(data) }))
    } else if id == ID_PRIVILEGES {
        Ok(ClientBound::Privileges)
    } else if id == ID_INVENTORY_FORMSPEC {
        Ok(ClientBound::InventoryFormspec)
    } else if id == ID_DETACHED_INVENTORY {
        let name = match read_str(b, &mut pos) {
            Ok(v) => v,
            Err(e) => {
                return Err(e);
            },
        };
        Ok(ClientBound::DetachedInventory(DetachedInventory { name }))
    } else if id == ID_MOVEMENT {
        let blen = b.len();
        if pos > blen || blen - pos < 48 {
            return Err(CodecError::Truncated);
        }
        let acceleration_default = read_u32(b, &mut pos).unwrap();
        let acceleration_air = read_u32(b, &mut pos).unwrap();
        let acceleration_fast = read_u32(b, &mut pos).unwrap();
        let speed_walk = read_u32(b, &mut pos).unwrap();
        let speed_crouch = read_u32(b, &mut pos).unwrap();
        let speed_fast = read_u32(b, &mut pos).unwrap();
        let speed_climb = read_u32(b, &mut pos).unwrap();
        let speed_jump = read_u32(b, &mut pos).unwrap();
        let liquid_fluidity = read_u32(b, &mut pos).unwrap();
        let liquid_fluidity_smooth = read_u32(b, &mut pos).unwrap();
        let liquid_sink = read_u32(b, &mut pos).unwrap();
        let gravity = read_u32(b, &mut pos).unwrap();
        Ok(
            ClientBound::Movement(
                Movement {
                    acceleration_default,
                    acceleration_air,
                    acceleration_fast,
                    speed_walk,
                    speed_crouch,
                    speed_fast,
                    speed_climb,
                    speed_jump,
                    liquid_fluidity,
                    liquid_fluidity_smooth,
                    liquid_sink,
                    gravity,
                },
            ),
        )
    } else if id == ID_HUD_ADD {
        Ok(ClientBound::HudAdd)
    } else if id == ID_HUD_CHANGE {
        Ok(ClientBound::HudChange)
    } else if id == ID_HUD_SET_FLAGS {
        Ok(ClientBound::HudSetFlags)
    } else if id == ID_BREATH {
        let breath = match read_u16(b, &mut pos) {
            Ok(v) => v,
            Err(e) => {
                return Err(e);
            },
        };
        Ok(ClientBound::Breath(Breath { breath }))
    } else if id == ID_UPDATE_PLAYER_LIST {
        Ok(ClientBound::UpdatePlayerList)
    } else if id == ID_SRP_BYTES_S_B {
        let s = match read_bytes16(b, &mut pos) {
            Ok(v) => v,
            Err(e) => {
                return Err(e);
            },
        };
        let bb = match read_bytes16(b, &mut pos) {
            Ok(v) => v,
            Err(e) => {
                return Err(e);
            },
        };
        Ok(ClientBound::SrpBytesSB(SrpBytesSB { s: RawBytes16(s), b: RawBytes16(bb) }))
    } else {
        Err(CodecError::UnknownVariant { value: id })
    }
}

// ---------------------------------------------------------------------------
// Round trip
// ---------------------------------------------------------------------------

proof fn lemma_dec_enc_hello(b: Seq<u8>, i: int, m: HelloV)
    requires
        0 <= i,
        str_fits(m.legacy_player_name),
        i + enc_hello_v(m).len() <= b.len(),
        b.subrange(i, i + enc_hello_v(m).len()) == enc_hello_v(m),
    ensures
        dec_hello_s(b, i) == Ok::<(HelloV, int), CodecError>((m, i + enc_hello_v(m).len())),
{
    let f1 = enc_u8(m.serialization_version);
    let f2 = enc_u16(m.compression_mode);
    let f3 = enc_u16(m.protocol_version);
    let f4 = enc_u32(m.supported_auth_modes);
    let f5 = enc_str(m.legacy_player_name);
    lemma_split_at(b, i, f1 + f2 + f3 + f4, f5);
    lemma_split_at(b, i, f1 + f2 + f3, f4);
    lemma_split_at(b, i, f1 + f2, f3);
    lemma_split_at(b, i, f1, f2);
    lemma_dec_enc_u8(b, i, m.serialization_version);
    lemma_dec_enc_u16(b, i + 1, m.compression_mode);
    lemma_dec_enc_u16(b, i + 3, m.protocol_version);
    lemma_dec_enc_u32(b, i + 5, m.supported_auth_modes);
    lemma_dec_enc_str(b, i + 9, m.legacy_player_name);
}

proof fn lemma_dec_enc_auth_accept(b: Seq<u8>, i: int, m: AuthAccept)
    requires
        0 <= i,
        i + 28 <= b.len(),
        b.subrange(i, i + 28) == enc_auth_accept(m),
    ensures
        dec_auth_accept_s(b, i) == Ok::<(AuthAccept, int), CodecError>((m, i + 28)),
{
    let f1 = enc_vector3(m.player_position);
    let f2 = enc_u64(m.seed);
    let f3 = enc_u32(m.send_interval);
    let f4 = enc_u32(m.supported_sudo_auth_methods);
    lemma_split_at(b, i, f1 + f2 + f3, f4);
    lemma_split_at(b, i, f1 + f2, f3);
    lemma_split_at(b, i, f1, f2);
    lemma_dec_enc_vector3(b, i, m.player_position);
    lemma_dec_enc_u64(b, i + 12, m.seed);
    lemma_dec_enc_u32(b, i + 20, m.send_interval);
    lemma_dec_enc_u32(b, i + 24, m.supported_sudo_auth_methods);
}


#[verifier::rlimit(100)]
#[verifier::spinoff_prover]
proof fn lemma_dec_enc_movement(b: Seq<u8>, i: int, m: Movement)
    requires
        0 <= i,
        i + 48 <= b.len(),
        b.subrange(i, i + 48) == enc_movement(m),
    ensures
        dec_movement_s(b, i) == Ok::<(Movement, int), CodecError>((m, i + 48)),
{
    let f1 = enc_u32(m.acceleration_default);
    let f2 = enc_u32(m.acceleration_air);
    let f3 = enc_u32(m.acceleration_fast);
    let f4 = enc_u32(m.speed_walk);
    let f5 = enc_u32(m.speed_crouch);
    let f6 = enc_u32(m.speed_fast);
    let f7 = enc_u32(m.speed_climb);
    let f8 = enc_u32(m.speed_jump);
    let f9 = enc_u32(m.liquid_fluidity);
    let f10 = enc_u32(m.liquid_fluidity_smooth);
    let f11 = enc_u32(m.liquid_sink);
    let f12 = enc_u32(m.gravity);
    lemma_split_at(b, i, f1 + f2 + f3 + f4 + f5 + f6 + f7 + f8 + f9 + f10 + f11, f12);
    lemma_split_at(b, i, f1 + f2 + f3 + f4 + f5 + f6 + f7 + f8 + f9 + f10, f11);
    lemma_split_at(b, i, f1 + f2 + f3 + f4 + f5 + f6 + f7 + f8 + f9, f10);
    lemma_split_at(b, i, f1 + f2 + f3 + f4 + f5 + f6 + f7 + f8, f9);
    lemma_split_at(b, i, f1 + f2 + f3 + f4 + f5 + f6 + f7, f8);
    lemma_split_at(b, i, f1 + f2 + f3 + f4 + f5 + f6, f7);
    lemma_split_at(b, i, f1 + f2 + f3 + f4 + f5, f6);
    lemma_split_at(b, i, f1 + f2 + f3 + f4, f5);
    lemma_split_at(b, i, f1 + f2 + f3, f4);
    lemma_split_at(b, i, f1 + f2, f3);
    lemma_split_at(b, i, f1, f2);
    lemma_dec_enc_u32(b, i, m.acceleration_default);
    lemma_dec_enc_u32(b, i + 4, m.acceleration_air);
    lemma_dec_enc_u32(b, i + 8, m.acceleration_fast);
    lemma_dec_enc_u32(b, i + 12, m.speed_walk);
    lemma_dec_enc_u32(b, i + 16, m.speed_crouch);
    lemma_dec_enc_u32(b, i + 20, m.speed_fast);
    lemma_dec_enc_u32(b, i + 24, m.speed_climb);
    lemma_dec_enc_u32(b, i + 28, m.speed_jump);
    lemma_dec_enc_u32(b, i + 32, m.liquid_fluidity);
    lemma_dec_enc_u32(b, i + 36, m.liquid_fluidity_smooth);
    lemma_dec_enc_u32(b, i + 40, m.liquid_sink);
    lemma_dec_enc_u32(b, i + 44, m.gravity);
}

#[verifier::rlimit(100)]
#[verifier::spinoff_prover]
proof fn lemma_cb_rt_hello(m: HelloV)
    requires
        str_fits(m.legacy_player_name),
    ensures
        ({
            let v = ClientBoundV::Hello(m);
            dec_clientbound_s(enc_clientbound_v(v)) == Ok::<(ClientBoundV, int), CodecError>(
                (v, enc_clientbound_v(v).len() as int),
            )
        }),
{
    reveal(dec_clientbound_s);
    let v = ClientBoundV::Hello(m);
    let b = enc_clientbound_v(v);
    let p = enc_clientbound_payload(v);
    let n = b.len() as int;
    lemma_concat_parts(enc_u16(clientbound_id(v)), p);
    lemma_dec_enc_u16(b, 0, clientbound_id(v));
    lemma_dec_enc_hello(b, 2, m);
}

#[verifier::rlimit(100)]
#[verifier::spinoff_prover]
proof fn lemma_cb_rt_auth_accept(m: AuthAccept)
    requires
        true,
    ensures
        ({
            let v = ClientBoundV::AuthAccept(m);
            dec_clientbound_s(enc_clientbound_v(v)) == Ok::<(ClientBoundV, int), CodecError>(
                (v, enc_clientbound_v(v).len() as int),
            )
        }),
{
    reveal(dec_clientbound_s);
    let v = ClientBoundV::AuthAccept(m);
    let b = enc_clientbound_v(v);
    let p = enc_clientbound_payload(v);
    let n = b.len() as int;
    lemma_concat_parts(enc_u16(clientbound_id(v)), p);
    lemma_dec_enc_u16(b, 0, clientbound_id(v));
    lemma_dec_enc_auth_accept(b, 2, m);
}

#[verifier::rlimit(100)]
#[verifier::spinoff_prover]
proof fn lemma_cb_rt_block_data(m: BlockDataV)
    requires
        true,
    ensures
        ({
            let v = ClientBoundV::BlockData(m);
            dec_clientbound_s(enc_clientbound_v(v)) == Ok::<(ClientBoundV, int), CodecError>(
                (v, enc_clientbound_v(v).len() as int),
            )
        }),
{
    reveal(dec_clientbound_s);
    let v = ClientBoundV::BlockData(m);
    let b = enc_clientbound_v(v);
    let p = enc_clientbound_payload(v);
    let n = b.len() as int;
    lemma_concat_parts(enc_u16(clientbound_id(v)), p);
    lemma_dec_enc_u16(b, 0, clientbound_id(v));
    lemma_split_at(b, 2, enc_vector3i16(m.position), m.data);
    lemma_dec_enc_vector3i16(b, 2, m.position);
    assert(b.subrange(8, n) == m.data);
}

#[verifier::rlimit(100)]
#[verifier::spinoff_prover]
proof fn lemma_cb_rt_time_of_day(m: TimeOfDay)
    requires
        true,
    ensures
        ({
            let v = ClientBoundV::TimeOfDay(m);
            dec_clientbound_s(enc_clientbound_v(v)) == Ok::<(ClientBoundV, int), CodecError>(
                (v, enc_clientbound_v(v).len() as int),
            )
        }),
{
    reveal(dec_clientbound_s);
    let v = ClientBoundV::TimeOfDay(m);
    let b = enc_clientbound_v(v);
    let p = enc_clientbound_payload(v);
    let n = b.len() as int;
    lemma_concat_parts(enc_u16(clientbound_id(v)), p);
    lemma_dec_enc_u16(b, 0, clientbound_id(v));
    lemma_split_at(b, 2, enc_u16(m.time), enc_u32(m.time_speed));
    lemma_dec_enc_u16(b, 2, m.time);
    lemma_dec_enc_u32(b, 4, m.time_speed);
}

#[verifier::rlimit(100)]
#[verifier::spinoff_prover]
proof fn lemma_cb_rt_csm(m: CsmRestrictionFlags)
    requires
        true,
    ensures
        ({
            let v = ClientBoundV::CsmRestrictionFlags(m);
            dec_clientbound_s(enc_clientbound_v(v)) == Ok::<(ClientBoundV, int), CodecError>(
                (v, enc_clientbound_v(v).len() as int),
            )
        }),
{
    reveal(dec_clientbound_s);
    let v = ClientBoundV::CsmRestrictionFlags(m);
    let b = enc_clientbound_v(v);
    let p = enc_clientbound_payload(v);
    let n = b.len() as int;
    lemma_concat_parts(enc_u16(clientbound_id(v)), p);
    lemma_dec_enc_u16(b, 0, clientbound_id(v));
    lemma_split_at(b, 2, enc_u64(m.flags), enc_u32(m.range));
    lemma_dec_enc_u64(b, 2, m.flags);
    lemma_dec_enc_u32(b, 10, m.range);
}

#[verifier::rlimit(100)]
#[verifier::spinoff_prover]
proof fn lemma_cb_rt_hp(m: Hp)
    requires
        true,
    ensures
        ({
            let v = ClientBoundV::Hp(m);
            dec_clientbound_s(enc_clientbound_v(v)) == Ok::<(ClientBoundV, int), CodecError>(
                (v, enc_clientbound_v(v).len() as int),
            )
        }),
{
    reveal(dec_clientbound_s);
    let v = ClientBoundV::Hp(m);
    let b = enc_clientbound_v(v);
    let p = enc_clientbound_payload(v);
    let n = b.len() as int;
    lemma_concat_parts(enc_u16(clientbound_id(v)), p);
    lemma_dec_enc_u16(b, 0, clientbound_id(v));
    assert(b.subrange(2, n) =~= enc_u16(m.hp));
    lemma_dec_enc_u16(b, 2, m.hp);
}

#[verifier::rlimit(100)]
#[verifier::spinoff_prover]
proof fn lemma_cb_rt_move_player(m: MovePlayer)
    requires
        true,
    ensures
        ({
            let v = ClientBoundV::MovePlayer(m);
            let b = enc_clientbound_v(v);
            let n = b.len() as int;
            dec_clientbound_s(b) == Ok::<(ClientBoundV, int), CodecError>((v, n))
        }),
{
    let v = ClientBoundV::MovePlayer(m);
    let b = enc_clientbound_v(v);
    let n = b.len() as int;
    assert(n == 22);
    assert(dec_clientbound_s(b) == Ok::<(ClientBoundV, int), CodecError>((v, n))) by {
        reveal(dec_clientbound_s);
        let p = enc_clientbound_payload(v);
        lemma_concat_parts(enc_u16(clientbound_id(v)), p);
        lemma_dec_enc_u16(b, 0, clientbound_id(v));
        let f1 = enc_vector3(m.position);
        let f2 = enc_u32(m.pitch);
        let f3 = enc_u32(m.yaw);
        lemma_split_at(b, 2, f1 + f2, f3);
        lemma_split_at(b, 2, f1, f2);
        lemma_dec_enc_vector3(b, 2, m.position);
        lemma_dec_enc_u32(b, 14, m.pitch);
        lemma_dec_enc_u32(b, 18, m.yaw);
        assert(dec_move_player_s(b, 2) == Ok::<(MovePlayer, int), CodecError>((m, 22)));
    }
}

#[verifier::rlimit(100)]
#[verifier::spinoff_prover]
proof fn lemma_cb_rt_node_def(m: NodeDefV)
    requires
        m.data.len() < 0xFFFF_FFFF,
    ensures
        ({
            let v = ClientBoundV::NodeDef(m);
            dec_clientbound_s(enc_clientbound_v(v)) == Ok::<(ClientBoundV, int), CodecError>(
                (v, enc_clientbound_v(v).len() as int),
            )
        }),
{
    reveal(dec_clientbound_s);
    let v = ClientBoundV::NodeDef(m);
    let b = enc_clientbound_v(v);
    let p = enc_clientbound_payload(v);
    let n = b.len() as int;
    lemma_concat_parts(enc_u16(clientbound_id(v)), p);
    lemma_dec_enc_u16(b, 0, clientbound_id(v));
    assert(b.subrange(2, n) =~= enc_bytes32(m.data));
    lemma_dec_enc_bytes32(b, 2, m.data);
}

#[verifier::rlimit(100)]
#[verifier::spinoff_prover]
proof fn lemma_cb_rt_item_def(m: ItemDefV)
    requires
        m.data.len() < 0xFFFF_FFFF,
    ensures
        ({
            let v = ClientBoundV::ItemDef(m);
            dec_clientbound_s(enc_clientbound_v(v)) == Ok::<(ClientBoundV, int), CodecError>(
                (v, enc_clientbound_v(v).len() as int),
            )
        }),
{
    reveal(dec_clientbound_s);
    let v = ClientBoundV::ItemDef(m);
    let b = enc_clientbound_v(v);
    let p = enc_clientbound_payload(v);
    let n = b.len() as int;
    lemma_concat_parts(enc_u16(clientbound_id(v)), p);
    lemma_dec_enc_u16(b, 0, clientbound_id(v));
    assert(b.subrange(2, n) =~= enc_bytes32(m.data));
    lemma_dec_enc_bytes32(b, 2, m.data);
}

#[verifier::rlimit(100)]
#[verifier::spinoff_prover]
proof fn lemma_cb_rt_detached_inventory(m: DetachedInventoryV)
    requires
        str_fits(m.name),
    ensures
        ({
            let v = ClientBoundV::DetachedInventory(m);
            dec_clientbound_s(enc_clientbound_v(v)) == Ok::<(ClientBoundV, int), CodecError>(
                (v, enc_clientbound_v(v).len() as int),
            )
        }),
{
    reveal(dec_clientbound_s);
    let v = ClientBoundV::DetachedInventory(m);
    let b = enc_clientbound_v(v);
    let p = enc_clientbound_payload(v);
    let n = b.len() as int;
    lemma_concat_parts(enc_u16(clientbound_id(v)), p);
    lemma_dec_enc_u16(b, 0, clientbound_id(v));
    assert(b.subrange(2, n) =~= enc_str(m.name));
    lemma_dec_enc_str(b, 2, m.name);
}

#[verifier::rlimit(100)]
#[verifier::spinoff_prover]
proof fn lemma_cb_rt_movement(m: Movement)
    requires
        true,
    ensures
        ({
            let v = ClientBoundV::Movement(m);
            dec_clientbound_s(enc_clientbound_v(v)) == Ok::<(ClientBoundV, int), CodecError>(
                (v, enc_clientbound_v(v).len() as int),
            )
        }),
{
    reveal(dec_clientbound_s);
    let v = ClientBoundV::Movement(m);
    let b = enc_clientbound_v(v);
    let p = enc_clientbound_payload(v);
    let n = b.len() as int;
    lemma_concat_parts(enc_u16(clientbound_id(v)), p);
    lemma_dec_enc_u16(b, 0, clientbound_id(v));
    lemma_dec_enc_movement(b, 2, m);
}

#[verifier::rlimit(100)]
#[verifier::spinoff_prover]
proof fn lemma_cb_rt_breath(m: Breath)
    requires
        true,
    ensures
        ({
            let v = ClientBoundV::Breath(m);
            dec_clientbound_s(enc_clientbound_v(v)) == Ok::<(ClientBoundV, int), CodecError>(
                (v, enc_clientbound_v(v).len() as int),
            )
        }),
{
    reveal(dec_clientbound_s);
    let v = ClientBoundV::Breath(m);
    let b = enc_clientbound_v(v);
    let p = enc_clientbound_payload(v);
    let n = b.len() as int;
    lemma_concat_parts(enc_u16(clientbound_id(v)), p);
    lemma_dec_enc_u16(b, 0, clientbound_id(v));
    assert(b.subrange(2, n) =~= enc_u16(m.breath));
    lemma_dec_enc_u16(b, 2, m.breath);
}

#[verifier::rlimit(100)]
#[verifier::spinoff_prover]
proof fn lemma_cb_rt_srp_bytes_sb(m: SrpBytesSBV)
    requires
        m.s.len() < 0xFFFF,
        m.b.len() < 0xFFFF,
    ensures
        ({
            let v = ClientBoundV::SrpBytesSB(m);
            dec_clientbound_s(enc_clientbound_v(v)) == Ok::<(ClientBoundV, int), CodecError>(
                (v, enc_clientbound_v(v).len() as int),
            )
        }),
{
    reveal(dec_clientbound_s);
    let v = ClientBoundV::SrpBytesSB(m);
    let b = enc_clientbound_v(v);
    let p = enc_clientbound_payload(v);
    let n = b.len() as int;
    lemma_concat_parts(enc_u16(clientbound_id(v)), p);
    lemma_dec_enc_u16(b, 0, clientbound_id(v));
    lemma_split_at(b, 2, enc_bytes16(m.s), enc_bytes16(m.b));
    lemma_dec_enc_bytes16(b, 2, m.s);
    lemma_dec_enc_bytes16(b, 4 + m.s.len() as int, m.b);
}

/// Round trip of the clientbound codec: decoding an encoded message yields
/// the original value (and consumes exactly the encoding). Holds for every
/// variant with a defined encoder.
pub proof fn lemma_clientbound_round_trip(v: ClientBoundV)
    requires
        clientbound_has_encoder(v),
        clientbound_fits(v),
    ensures
        dec_clientbound_s(enc_clientbound_v(v)) == Ok::<(ClientBoundV, int), CodecError>(
            (v, enc_clientbound_v(v).len() as int),
        ),
{
    match v {
        ClientBoundV::Hello(m) => lemma_cb_rt_hello(m),
        ClientBoundV::AuthAccept(m) => lemma_cb_rt_auth_accept(m),
        ClientBoundV::BlockData(m) => lemma_cb_rt_block_data(m),
        ClientBoundV::TimeOfDay(m) => lemma_cb_rt_time_of_day(m),
        ClientBoundV::CsmRestrictionFlags(m) => lemma_cb_rt_csm(m),
        ClientBoundV::Hp(m) => lemma_cb_rt_hp(m),
        ClientBoundV::MovePlayer(m) => lemma_cb_rt_move_player(m),
        ClientBoundV::NodeDef(m) => lemma_cb_rt_node_def(m),
        ClientBoundV::ItemDef(m) => lemma_cb_rt_item_def(m),
        ClientBoundV::DetachedInventory(m) => lemma_cb_rt_detached_inventory(m),
        ClientBoundV::Movement(m) => lemma_cb_rt_movement(m),
        ClientBoundV::Breath(m) => lemma_cb_rt_breath(m),
        ClientBoundV::SrpBytesSB(m) => lemma_cb_rt_srp_bytes_sb(m),
        _ => lemma_cb_round_trip_empty(v),
    }
}

/// Round trip for the variants without fields.
#[verifier::rlimit(100)]
proof fn lemma_cb_round_trip_empty(v: ClientBoundV)
    requires
        clientbound_has_encoder(v),
        !(v is Hello || v is AuthAccept || v is BlockData || v is TimeOfDay
            || v is CsmRestrictionFlags || v is Hp || v is MovePlayer || v is NodeDef
            || v is ItemDef || v is DetachedInventory || v is Movement || v is Breath
            || v is SrpBytesSB),
    ensures
        dec_clientbound_s(enc_clientbound_v(v)) == Ok::<(ClientBoundV, int), CodecError>(
            (v, enc_clientbound_v(v).len() as int),
        ),
{
    reveal(dec_clientbound_s);
    let b = enc_clientbound_v(v);
    let n = b.len() as int;
    assert(b.subrange(0, 2) =~= enc_u16(clientbound_id(v)));
    lemma_dec_enc_u16(b, 0, clientbound_id(v));
    assert(n == 2);
}

} // verus!
