//! The session state machine: handshake, SRP authentication, media and
//! node-definition synchronisation gates, and steady-state message
//! handling. The functions here decide; the host performs the I/O and
//! hands events back.

use crate::auth::{
    ascii_lower, srp_a_pub, srp_a_pub_of, srp_client_proof, srp_m1_of, srp_private_key_sha256,
    srp_x_of, to_ascii_lowercase_bytes,
};
use crate::block::Block;
use crate::clientbound::ClientBound;
use crate::codec::{CodecError, RawBytes16, RawBytesUnsized};
use crate::compress::base64_decode;
use crate::game::Game;
use crate::math::write_vector3i16;
use crate::media::{clone_string, MediaDigest, MediaStorage};
use crate::serverbound::{
    ClientReady, GotBlocks, Handshake, Init, Init2, RequestMedia, ServerBound, SrpBytesA,
    SrpBytesM,
};
use crate::worldstate::WorldState;
use vstd::prelude::*;

verus! {

/// Where the session stands.
#[derive(Debug, Clone, Copy, PartialEq, Eq, Structural)]
pub enum ConnectionState {
    Start,
    Handshake,
    Auth,
    InGame,
}

/// What the player logs in with.
#[derive(Debug, Clone)]
pub struct Credentials {
    pub name: String,
    pub password: String,
}

/// One message the session wants transmitted, with its reliability and
/// channel.
#[derive(Debug, Clone)]
pub struct OutMessage {
    pub message: ServerBound,
    pub reliable: bool,
    pub channel: u8,
}

/// Fatal session failures.
#[derive(Debug, Clone, Copy, PartialEq, Eq, Structural)]
pub enum SessionError {
    /// A message or blob failed to decode.
    Decode(CodecError),
    /// SRP rejected the server's public value.
    Crypto,
    /// An announced digest was not valid base64.
    BadDigest,
    /// The server sent a file it never announced.
    UnannouncedFile,
    /// A map block failed to decode.
    Block(crate::block::BlockError),
    /// The node registry failed to decode.
    NodeDef(crate::game::NodeDefError),
}

/// How many ClientReady messages a batch holds.
pub open spec fn count_client_ready(s: Seq<OutMessage>) -> nat
    decreases s.len(),
{
    if s.len() == 0 {
        0
    } else {
        (if s[0].message is ClientReady {
            1nat
        } else {
            0nat
        }) + count_client_ready(s.drop_first())
    }
}

/// How many SrpBytesM messages a batch holds.
pub open spec fn count_srp_m(s: Seq<OutMessage>) -> nat
    decreases s.len(),
{
    if s.len() == 0 {
        0
    } else {
        (if s[0].message is SrpBytesM {
            1nat
        } else {
            0nat
        }) + count_srp_m(s.drop_first())
    }
}

proof fn lemma_count_push(s: Seq<OutMessage>, m: OutMessage)
    ensures
        count_client_ready(s.push(m)) == count_client_ready(s) + (if m.message is ClientReady {
            1nat
        } else {
            0nat
        }),
        count_srp_m(s.push(m)) == count_srp_m(s) + (if m.message is SrpBytesM {
            1nat
        } else {
            0nat
        }),
    decreases s.len(),
{
    if s.len() == 0 {
        assert(s.push(m)[0] == m);
        assert(s.push(m).drop_first() =~= Seq::<OutMessage>::empty());
        assert(count_client_ready(s) == 0);
        assert(count_srp_m(s) == 0);
        assert(count_client_ready(s.push(m).drop_first()) == 0);
        assert(count_srp_m(s.push(m).drop_first()) == 0);
    } else {
        assert(s.push(m)[0] == s[0]);
        assert(s.push(m).drop_first() =~= s.drop_first().push(m));
        lemma_count_push(s.drop_first(), m);
        assert(count_client_ready(s.push(m)) == (if s[0].message is ClientReady {
            1nat
        } else {
            0nat
        }) + count_client_ready(s.drop_first().push(m)));
        assert(count_srp_m(s.push(m)) == (if s[0].message is SrpBytesM {
            1nat
        } else {
            0nat
        }) + count_srp_m(s.drop_first().push(m)));
    }
}

/// The client session: credentials, the SRP ephemeral secret, the
/// readiness gates and the chat queue.
pub struct Client {
    pub state: ConnectionState,
    pub name: String,
    pub password: String,
    pub srp_a: Vec<u8>,
    pub media_ready: bool,
    pub nodes_ready: bool,
    pub client_ready_sent: bool,
    pub srp_m_sent: bool,
    pub chat: Vec<crate::clientbound::ChatMessage>,
}

impl Client {
    /// A fresh session. `srp_a` is the SRP ephemeral secret; the host
    /// draws it at random.
    pub fn new(credentials: Credentials, srp_a: Vec<u8>) -> (r: Client)
        ensures
            r.state == ConnectionState::Start,
            !r.media_ready,
            !r.nodes_ready,
            !r.client_ready_sent,
            !r.srp_m_sent,
            r.name@ == credentials.name@,
            r.password@ == credentials.password@,
            r.srp_a@ == srp_a@,
    {
        Client {
            state: ConnectionState::Start,
            name: credentials.name,
            password: credentials.password,
            srp_a,
            media_ready: false,
            nodes_ready: false,
            client_ready_sent: false,
            srp_m_sent: false,
            chat: Vec::new(),
        }
    }

    /// Opens the session: the empty Handshake goes out reliably on channel
    /// 0, to be repeated by the host until the peer id arrives.
    pub fn start(&mut self) -> (r: Vec<OutMessage>)
        requires
            old(self).state == ConnectionState::Start,
        ensures
            final(self).state == ConnectionState::Handshake,
            r@.len() == 1,
            r@[0].message is Handshake,
            r@[0].reliable,
            r@[0].channel == 0,
            final(self).media_ready == old(self).media_ready,
            final(self).nodes_ready == old(self).nodes_ready,
            final(self).client_ready_sent == old(self).client_ready_sent,
            final(self).srp_m_sent == old(self).srp_m_sent,
    {
        self.state = ConnectionState::Handshake;
        let mut out: Vec<OutMessage> = Vec::new();
        out.push(
            OutMessage {
                message: ServerBound::Handshake(Handshake {}),
                reliable: true,
                channel: 0,
            },
        );
        out
    }

    /// The protocol-negotiation message, sent unreliably on channel 1
    /// until the server's Hello arrives: serialization version 29, no
    /// compression, protocol 40 exactly, and the session's player name.
    pub fn init_message(&self) -> (r: OutMessage)
        ensures
            r.message matches ServerBound::Init(m) && m@.max_serialization_version == 29
                && m@.supported_compression_modes == 0 && m@.min_protocol_version == 40
                && m@.max_protocol_version == 40 && m@.player_name == self.name@,
            !r.reliable,
            r.channel == 1,
    {
        OutMessage {
            message: ServerBound::Init(
                Init {
                    max_serialization_version: 29,
                    supported_compression_modes: 0,
                    min_protocol_version: 40,
                    max_protocol_version: 40,
                    player_name: clone_string(&self.name),
                },
            ),
            reliable: false,
            channel: 1,
        }
    }

    /// Both synchronisation gates are open.
    pub fn is_ready(&self) -> (r: bool)
        ensures
            r == (self.media_ready && self.nodes_ready),
    {
        self.media_ready && self.nodes_ready
    }

    /// Emits ClientReady exactly at the moment both gates are open and it
    /// has not been sent yet.
    fn check_ready(&mut self, out: &mut Vec<OutMessage>)
        ensures
            final(self).state == old(self).state,
            final(self).media_ready == old(self).media_ready,
            final(self).nodes_ready == old(self).nodes_ready,
            final(self).srp_m_sent == old(self).srp_m_sent,
            final(self).client_ready_sent == (old(self).client_ready_sent || (old(self).media_ready && old(self).nodes_ready)),
            final(self).client_ready_sent && !old(self).client_ready_sent ==> {
                &&& final(out)@.len() == old(out)@.len() + 1
                &&& final(out)@.subrange(0, old(out)@.len() as int) == old(out)@
                &&& is_client_ready_message(final(out)@[old(out)@.len() as int])
            },
            final(self).client_ready_sent == old(self).client_ready_sent ==> final(out)@ == old(out)@,
    {
        if self.media_ready && self.nodes_ready && !self.client_ready_sent {
            self.client_ready_sent = true;
            out.push(
                OutMessage {
                    message: ServerBound::ClientReady(
                        ClientReady {
                            version_major: 5,
                            version_minor: 5,
                            version_patch: 0,
                            reserved: 0x77,
                            full_version: make_version_string(),
                            formspec_version: 4,
                        },
                    ),
                    reliable: true,
                    channel: 0,
                },
            );
        }
    }
}

/// The exact readiness announcement of this client: protocol version 5.5.0
/// with the later revision's reserved byte, formspec version 4, sent
/// reliably on channel 0.
pub open spec fn is_client_ready_message(m: OutMessage) -> bool {
    &&& m.message matches ServerBound::ClientReady(cr) && cr@.version_major == 5
        && cr@.version_minor == 5 && cr@.version_patch == 0 && cr@.reserved == 0x77
        && cr@.formspec_version == 4 && cr@.full_version == "mtt 0.1.0"@
    &&& m.reliable
    &&& m.channel == 0
}

/// Builds the version string carried in ClientReady.
fn make_version_string() -> (r: String)
    ensures
        r@ == "mtt 0.1.0"@,
{
    "mtt 0.1.0".to_owned()
}

/// The UTF-8 bytes of a string.
pub fn string_bytes(s: &String) -> (r: Vec<u8>)
    ensures
        r@ == vstd::utf8::encode_utf8(s@),
{
    vstd::slice::slice_to_vec(s.as_str().as_bytes())
}

/// The client proof that answers the server's SRP reply, as a function of
/// the credentials, the salt and public value, and the ephemeral secret.
/// The private key hashes the ASCII-lowercased player name; the proof's
/// own identity hash uses the name in its original case. The protocol
/// description lowercases the SRP username throughout; the deployed
/// protocol hashes the original case into the proof, and servers verify
/// against that, so this contract follows the wire behaviour and records
/// the divergence here.
pub open spec fn expected_m1(
    name: Seq<char>,
    password: Seq<char>,
    salt: Seq<u8>,
    b_pub: Seq<u8>,
    a: Seq<u8>,
) -> Option<Seq<u8>> {
    srp_m1_of(
        vstd::utf8::encode_utf8(name),
        salt,
        srp_x_of(
            ascii_lower(vstd::utf8::encode_utf8(name)),
            vstd::utf8::encode_utf8(password),
            salt,
        ),
        b_pub,
        a,
    )
}

/// Every announced digest is valid base64.
pub open spec fn digests_ok(ds: Seq<(Seq<char>, Seq<char>)>) -> bool {
    forall|k: int|
        0 <= k < ds.len() ==> crate::compress::base64_decode_of(
            vstd::utf8::encode_utf8((#[trigger] ds[k]).1),
        ) is Some
}

/// The announced catalog with each base64 digest decoded.
pub open spec fn decode_catalog(ds: Seq<(Seq<char>, Seq<char>)>) -> Seq<(Seq<char>, Seq<u8>)> {
    Seq::new(
        ds.len(),
        |k: int|
            (
                ds[k].0,
                crate::compress::base64_decode_of(
                    vstd::utf8::encode_utf8(ds[k].1),
                ).unwrap(),
            ),
    )
}

impl Client {
    /// Handles one delivered clientbound message: drives the state
    /// machine, mutates the world model and returns the messages to send.
    /// The readiness flags only ever rise, `ClientReady` is emitted exactly
    /// when its flag rises (so once per session, and only with both gates
    /// open), and the SRP proof is emitted exactly when its flag rises.
    pub fn handle_message(
        &mut self,
        msg: ClientBound,
        world: &mut WorldState,
        game: &mut Game,
        media: &mut MediaStorage,
    ) -> (r: Result<Vec<OutMessage>, SessionError>)
        requires
            old(world).map.wf(),
        ensures
            final(world).map.wf(),
            old(self).client_ready_sent ==> final(self).client_ready_sent,
            old(self).media_ready ==> final(self).media_ready,
            old(self).nodes_ready ==> final(self).nodes_ready,
            old(self).srp_m_sent ==> final(self).srp_m_sent,
            final(self).client_ready_sent && !old(self).client_ready_sent ==> final(self).media_ready && final(self).nodes_ready,
            match r {
                Ok(out) => {
                    &&& count_client_ready(out@) == (if final(self).client_ready_sent && !old(self).client_ready_sent {
                        1nat
                    } else {
                        0nat
                    })
                    &&& count_srp_m(out@) == (if final(self).srp_m_sent && !old(self).srp_m_sent {
                        1nat
                    } else {
                        0nat
                    })
                    &&& (final(self).client_ready_sent && !old(self).client_ready_sent ==> out@.len()
                        >= 1 && is_client_ready_message(out@[out@.len() - 1]))
                },
                Err(_) => final(self).client_ready_sent == old(self).client_ready_sent,
            },
            (match msg {
                ClientBound::TimeOfDay(m) => final(world).time == m.time && final(world).time_speed == m.time_speed,
                _ => true,
            }),
            (match msg {
                ClientBound::MovePlayer(m) => final(world).player.position == m.position && final(world).player.pitch == m.pitch && final(world).player.yaw == m.yaw,
                _ => true,
            }),
            (match msg {
                ClientBound::BlockData(m) => {
                    &&& (r is Ok <==> (m@.data.len() > 0 && (match crate::compress::zstd_inflate_of(
                        m@.data.subrange(0, m@.data.len() - 1),
                    ) {
                        Some(d) => crate::block::dec_block_inner(d) is Ok,
                        None => false,
                    })))
                    &&& (match r {
                        Ok(out) => {
                            &&& crate::worldmap::has_pos(final(world).map.blocks@, m.position)
                            &&& crate::worldmap::dirty_has(final(world).map.dirty@, m.position)
                            &&& exists|i: int|
                                0 <= i < final(world).map.blocks@.len() && (#[trigger] final(world).map.blocks@[i]).pos == m.position && final(world).map.blocks@[i].block.node_data@ == crate::block::dec_block_inner(
                                    crate::compress::zstd_inflate_of(
                                        m@.data.subrange(0, m@.data.len() - 1),
                                    ).unwrap(),
                                ).unwrap()
                            &&& out@.len() == 1
                            &&& (out@[0].message matches ServerBound::GotBlocks(g) && g@.count == 1
                                && g@.blocks == crate::math::enc_vector3i16(m.position))
                            &&& out@[0].reliable
                            &&& out@[0].channel == 0
                        },
                        Err(e) => e matches SessionError::Block(_),
                    })
                },
                _ => true,
            }),
            (match msg {
                ClientBound::AnnounceMedia(m) => {
                    &&& (r is Err <==> !digests_ok(m.digests.deep_view()))
                    &&& (match r {
                        Ok(out) => {
                            &&& final(media).digests.deep_view() == decode_catalog(
                                m.digests.deep_view(),
                            )
                            &&& out@.len() == 1
                            &&& (out@[0].message matches ServerBound::RequestMedia(rm)
                                && rm@.media == crate::media::missing_names(
                                decode_catalog(m.digests.deep_view()),
                                crate::transport::views_of(old(media).cached@),
                            ))
                            &&& out@[0].reliable
                            &&& out@[0].channel == 0
                        },
                        Err(e) => e == SessionError::BadDigest,
                    })
                },
                _ => true,
            }),
            (match msg {
                ClientBound::Media(m) => match r {
                    Ok(_) => final(self).media_ready == (old(self).media_ready || (m.bunch_count
                        > 0 && m.bunch_id == m.bunch_count - 1)),
                    Err(e) => e == SessionError::UnannouncedFile && exists|k: int|
                        0 <= k < m.files.deep_view().len() && !crate::media::name_announced(
                            old(media).digests.deep_view(),
                            (#[trigger] m.files.deep_view()[k]).0,
                        ),
                },
                _ => true,
            }),
            (match msg {
                ClientBound::NodeDef(m) => match r {
                    Ok(_) => final(self).nodes_ready && (match crate::compress::zlib_inflate_of(
                        m@.data,
                    ) {
                        Some(d) => crate::game::dec_registry_s(d) is Ok && final(game).nodes.deep_view() == crate::game::apply_entries(
                            Seq::<crate::game::NodeV>::empty(),
                            crate::game::dec_registry_s(d).unwrap(),
                        ),
                        None => false,
                    }),
                    Err(e) => (match e {
                        SessionError::NodeDef(ne) => (match crate::compress::zlib_inflate_of(
                            m@.data,
                        ) {
                            None => ne == crate::game::NodeDefError::Decompress,
                            Some(d) => crate::game::dec_registry_s(d) == Err::<
                                Seq<(u16, crate::game::NodeV)>,
                                crate::game::NodeDefError,
                            >(ne),
                        }),
                        _ => false,
                    }),
                },
                _ => true,
            }),
            (match msg {
                ClientBound::Hello(_) => old(self).state == ConnectionState::Handshake ==> r is Ok
                    && final(self).state == ConnectionState::Auth && (match r {
                    Ok(out) => out@.len() == 1 && (out@[0].message matches ServerBound::SrpBytesA(
                        sa,
                    ) && sa@.data == srp_a_pub_of(old(self).srp_a@) && sa@.based_on == 1)
                        && out@[0].reliable && out@[0].channel == 1,
                    Err(_) => false,
                }),
                _ => true,
            }),
            (match msg {
                ClientBound::SrpBytesSB(m) => !old(self).srp_m_sent ==> {
                    &&& (r is Err <==> expected_m1(
                        old(self).name@,
                        old(self).password@,
                        m@.s,
                        m@.b,
                        old(self).srp_a@,
                    ) is None)
                    &&& (match r {
                        Ok(out) => {
                            &&& final(self).srp_m_sent
                            &&& out@.len() == 1
                            &&& (out@[0].message matches ServerBound::SrpBytesM(sm) && Some(
                                sm@.data,
                            ) == expected_m1(
                                old(self).name@,
                                old(self).password@,
                                m@.s,
                                m@.b,
                                old(self).srp_a@,
                            ))
                            &&& out@[0].reliable
                            &&& out@[0].channel == 1
                        },
                        Err(e) => e == SessionError::Crypto,
                    })
                },
                _ => true,
            }),
            (match msg {
                ClientBound::AuthAccept(_) => r is Ok && final(self).state
                    == ConnectionState::InGame && (match r {
                    Ok(out) => out@.len() == 1 && out@[0].message is Init2 && out@[0].reliable
                        && out@[0].channel == 0,
                    Err(_) => false,
                }),
                _ => true,
            }),
    {
        let mut out: Vec<OutMessage> = Vec::new();
        proof {
            assert(count_client_ready(out@) == 0);
            assert(count_srp_m(out@) == 0);
        }
        match msg {
            ClientBound::Hello(_) => {
                match self.state {
                    ConnectionState::Handshake => {
                        let a_pub = srp_a_pub(&self.srp_a);
                        let m = OutMessage {
                            message: ServerBound::SrpBytesA(
                                SrpBytesA { data: RawBytes16(a_pub), based_on: 1 },
                            ),
                            reliable: true,
                            channel: 1,
                        };
                        proof {
                            lemma_count_push(out@, m);
                        }
                        out.push(m);
                        self.state = ConnectionState::Auth;
                    },
                    _ => {
                        // A stray Hello outside the handshake is ignored.
                    },
                }
                Ok(out)
            },
            ClientBound::SrpBytesSB(m) => {
                if self.srp_m_sent {
                    // The proof already went out once this session.
                    return Ok(out);
                }
                let name_bytes = string_bytes(&self.name);
                let password_bytes = string_bytes(&self.password);
                let lower = to_ascii_lowercase_bytes(&name_bytes);
                let x = srp_private_key_sha256(&lower, &password_bytes, &m.s.0);
                let m1 = match srp_client_proof(&name_bytes, &m.s.0, &x, &m.b.0, &self.srp_a) {
                    Some(v) => v,
                    None => {
                        return Err(SessionError::Crypto);
                    },
                };
                let om = OutMessage {
                    message: ServerBound::SrpBytesM(SrpBytesM { data: RawBytes16(m1) }),
                    reliable: true,
                    channel: 1,
                };
                proof {
                    lemma_count_push(out@, om);
                }
                out.push(om);
                self.srp_m_sent = true;
                Ok(out)
            },
            ClientBound::AuthAccept(_) => {
                let om = OutMessage {
                    message: ServerBound::Init2(Init2 { language_code: "".to_owned() }),
                    reliable: true,
                    channel: 0,
                };
                proof {
                    lemma_count_push(out@, om);
                }
                out.push(om);
                self.state = ConnectionState::InGame;
                Ok(out)
            },
            ClientBound::TimeOfDay(m) => {
                world.time = m.time;
                world.time_speed = m.time_speed;
                Ok(out)
            },
            ClientBound::MovePlayer(m) => {
                world.player.position = m.position;
                world.player.pitch = m.pitch;
                world.player.yaw = m.yaw;
                Ok(out)
            },
            ClientBound::BlockData(m) => {
                let block = match Block::decode(&m.data.0) {
                    Ok(b) => b,
                    Err(e) => {
                        return Err(SessionError::Block(e));
                    },
                };
                let ghost block_v = block.node_data@;
                world.map.update_or_set(m.position, block);
                proof {
                    let i = choose|i: int|
                        0 <= i < world.map.blocks@.len() && world.map.blocks@[i].pos == m.position
                            && world.map.blocks@[i].block == block;
                    assert(world.map.blocks@[i].block.node_data@ == block_v);
                }
                let mut pos_bytes: Vec<u8> = Vec::new();
                write_vector3i16(&mut pos_bytes, &m.position);
                proof {
                    assert(pos_bytes@ =~= crate::math::enc_vector3i16(m.position));
                }
                let om = OutMessage {
                    message: ServerBound::GotBlocks(
                        GotBlocks { count: 1, blocks: RawBytesUnsized(pos_bytes) },
                    ),
                    reliable: true,
                    channel: 0,
                };
                proof {
                    lemma_count_push(out@, om);
                }
                out.push(om);
                Ok(out)
            },
            ClientBound::AnnounceMedia(m) => {
                let mut digests: Vec<MediaDigest> = Vec::new();
                let n = m.digests.len();
                let mut k: usize = 0;
                while k < n
                    invariant
                        n == m.digests@.len(),
                        k <= n,
                        digests.deep_view().len() == k,
                        forall|t: int|
                            0 <= t < k ==> crate::compress::base64_decode_of(
                                vstd::utf8::encode_utf8(
                                    (#[trigger] m.digests.deep_view()[t]).1,
                                ),
                            ) is Some,
                        forall|t: int|
                            0 <= t < k ==> #[trigger] digests.deep_view()[t] == decode_catalog(
                                m.digests.deep_view(),
                            )[t],
                        *self == *old(self),
                        *world == *old(world),
                        *media == *old(media),
                        world.map.wf(),
                        msg == ClientBound::AnnounceMedia(m),
                    decreases n - k,
                {
                    let ghost items_before = digests.deep_view();
                    let b64 = string_bytes(&m.digests[k].digest_b64);
                    let digest = match base64_decode(&b64) {
                        Some(d) => d,
                        None => {
                            proof {
                                assert(crate::compress::base64_decode_of(
                                    vstd::utf8::encode_utf8(
                                        m.digests.deep_view()[k as int].1,
                                    ),
                                ) is None);
                                assert(!digests_ok(m.digests.deep_view()));
                            }
                            return Err(SessionError::BadDigest);
                        },
                    };
                    digests.push(
                        MediaDigest { name: clone_string(&m.digests[k].name), digest },
                    );
                    k = k + 1;
                    proof {
                        assert(digests.deep_view() =~= items_before.push(
                            digests@[digests@.len() - 1]@,
                        ));
                        assert(digests.deep_view()[k - 1] == decode_catalog(
                            m.digests.deep_view(),
                        )[k - 1]);
                    }
                }
                proof {
                    assert(digests.deep_view() =~= decode_catalog(m.digests.deep_view()));
                }
                media.set_digests(digests);
                let missing = media.missing_files();
                let om = OutMessage {
                    message: ServerBound::RequestMedia(RequestMedia { media: missing }),
                    reliable: true,
                    channel: 0,
                };
                proof {
                    lemma_count_push(out@, om);
                }
                out.push(om);
                Ok(out)
            },
            ClientBound::Media(m) => {
                let nfiles = m.files.len();
                let mut k: usize = 0;
                let ghost m_files = m.files.deep_view();
                let mut files = m.files;
                while k < nfiles
                    invariant
                        nfiles == files@.len(),
                        k <= nfiles,
                        files.deep_view() == m_files,
                        media.digests@ == old(media).digests@,
                        *self == *old(self),
                        *world == *old(world),
                        world.map.wf(),
                        msg matches ClientBound::Media(mm) && mm.files.deep_view() == m_files
                            && mm.bunch_count == m.bunch_count && mm.bunch_id == m.bunch_id,
                    decreases nfiles - k,
                {
                    let f = &files[k];
                    let ghost fname = f.name@;
                    let stored = media.insert(
                        clone_string(&f.name),
                        crate::transport::copy_bytes(&f.data),
                    );
                    if !stored {
                        proof {
                            assert(m_files[k as int].0 == fname);
                            assert(!crate::media::name_announced(
                                old(media).digests.deep_view(),
                                m_files[k as int].0,
                            ));
                        }
                        return Err(SessionError::UnannouncedFile);
                    }
                    k = k + 1;
                }
                if m.bunch_count > 0 && m.bunch_id == m.bunch_count - 1 {
                    self.media_ready = true;
                }
                self.check_ready(&mut out);
                proof {
                    if self.client_ready_sent && !old(self).client_ready_sent {
                        lemma_count_subrange_push(out@);
                    }
                }
                Ok(out)
            },
            ClientBound::NodeDef(m) => {
                let g = match Game::deserialize_nodes(&m.data.0) {
                    Ok(g) => g,
                    Err(e) => {
                        return Err(SessionError::NodeDef(e));
                    },
                };
                *game = g;
                self.nodes_ready = true;
                self.check_ready(&mut out);
                proof {
                    if self.client_ready_sent && !old(self).client_ready_sent {
                        lemma_count_subrange_push(out@);
                    }
                }
                Ok(out)
            },
            ClientBound::ChatMessage(m) => {
                self.chat.push(m);
                Ok(out)
            },
            _ => {
                // Everything else is ignored for forward compatibility.
                Ok(out)
            },
        }
    }
}

/// A batch whose last element is the only ClientReady holds exactly one.
proof fn lemma_count_subrange_push(s: Seq<OutMessage>)
    requires
        s.len() >= 1,
        count_client_ready(s.subrange(0, s.len() - 1)) == 0,
        count_srp_m(s.subrange(0, s.len() - 1)) == 0,
        s[s.len() - 1].message is ClientReady,
    ensures
        count_client_ready(s) == 1,
        count_srp_m(s) == 0,
{
    let pre = s.subrange(0, s.len() - 1);
    assert(pre.push(s[s.len() - 1]) =~= s);
    lemma_count_push(pre, s[s.len() - 1]);
}

} // verus!
