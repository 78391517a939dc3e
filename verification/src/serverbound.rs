//! Serverbound messages: each variant is a 16-bit id followed by its fields
//! in declaration order. The spec codec works on view values (`*V` types,
//! strings as `Seq<char>`, blobs as `Seq<u8>`); the executable pair is
//! proved against it, and `lemma_serverbound_round_trip` states that
//! decoding an encoded message yields the original.

use crate::codec::{
    dec_bytes16, dec_str, dec_u16, dec_u8, enc_bytes16, enc_str, enc_u16, enc_u8,
    lemma_dec_enc_bytes16, lemma_dec_enc_str, lemma_dec_enc_u16, lemma_dec_enc_u8,
    lemma_nested_subrange, read_bytes16, read_rest, read_str, read_u16, read_u8, str_fits,
    write_bytes16, write_raw, write_str, write_u16, write_u8, CodecError, RawBytes16,
    RawBytesUnsized,
};
use vstd::prelude::*;

verus! {

pub const ID_HANDSHAKE: u16 = 0x00;

pub const ID_INIT: u16 = 0x02;

pub const ID_INIT2: u16 = 0x11;

pub const ID_GOT_BLOCKS: u16 = 0x24;

pub const ID_REQUEST_MEDIA: u16 = 0x40;

pub const ID_CLIENT_READY: u16 = 0x43;

pub const ID_SRP_BYTES_A: u16 = 0x51;

pub const ID_SRP_BYTES_M: u16 = 0x52;

// ---------------------------------------------------------------------------
// Message structs and their views
// ---------------------------------------------------------------------------

/// The empty first message of the peer-id handshake.
#[derive(Debug, Clone)]
pub struct Handshake {}

/// Protocol negotiation, sent after the peer id is assigned.
#[derive(Debug, Clone)]
pub struct Init {
    pub max_serialization_version: u8,
    pub supported_compression_modes: u16,
    pub min_protocol_version: u16,
    pub max_protocol_version: u16,
    pub player_name: String,
}

pub struct InitV {
    pub max_serialization_version: u8,
    pub supported_compression_modes: u16,
    pub min_protocol_version: u16,
    pub max_protocol_version: u16,
    pub player_name: Seq<char>,
}

impl View for Init {
    type V = InitV;

    open spec fn view(&self) -> InitV {
        InitV {
            max_serialization_version: self.max_serialization_version,
            supported_compression_modes: self.supported_compression_modes,
            min_protocol_version: self.min_protocol_version,
            max_protocol_version: self.max_protocol_version,
            player_name: self.player_name@,
        }
    }
}

/// Language negotiation, sent after authentication succeeds.
#[derive(Debug, Clone)]
pub struct Init2 {
    pub language_code: String,
}

pub struct Init2V {
    pub language_code: Seq<char>,
}

impl View for Init2 {
    type V = Init2V;

    open spec fn view(&self) -> Init2V {
        Init2V { language_code: self.language_code@ }
    }
}

/// Acknowledges received map blocks.
#[derive(Debug, Clone)]
pub struct GotBlocks {
    pub count: u8,
    pub blocks: RawBytesUnsized,
}

pub struct GotBlocksV {
    pub count: u8,
    pub blocks: Seq<u8>,
}

impl View for GotBlocks {
    type V = GotBlocksV;

    open spec fn view(&self) -> GotBlocksV {
        GotBlocksV { count: self.count, blocks: self.blocks@ }
    }
}

/// Requests the media files missing from the cache.
#[derive(Debug, Clone)]
pub struct RequestMedia {
    pub media: Vec<String>,
}

pub struct RequestMediaV {
    pub media: Seq<Seq<char>>,
}

impl View for RequestMedia {
    type V = RequestMediaV;

    open spec fn view(&self) -> RequestMediaV {
        RequestMediaV { media: self.media.deep_view() }
    }
}

/// Tells the server the client is ready to play.
#[derive(Debug, Clone)]
pub struct ClientReady {
    pub version_major: u8,
    pub version_minor: u8,
    pub version_patch: u8,
    pub reserved: u8,
    pub full_version: String,
    pub formspec_version: u16,
}

pub struct ClientReadyV {
    pub version_major: u8,
    pub version_minor: u8,
    pub version_patch: u8,
    pub reserved: u8,
    pub full_version: Seq<char>,
    pub formspec_version: u16,
}

impl View for ClientReady {
    type V = ClientReadyV;

    open spec fn view(&self) -> ClientReadyV {
        ClientReadyV {
            version_major: self.version_major,
            version_minor: self.version_minor,
            version_patch: self.version_patch,
            reserved: self.reserved,
            full_version: self.full_version@,
            formspec_version: self.formspec_version,
        }
    }
}

/// The client's public SRP ephemeral value.
#[derive(Debug, Clone)]
pub struct SrpBytesA {
    pub data: RawBytes16,
    pub based_on: u8,
}

pub struct SrpBytesAV {
    pub data: Seq<u8>,
    pub based_on: u8,
}

impl View for SrpBytesA {
    type V = SrpBytesAV;

    open spec fn view(&self) -> SrpBytesAV {
        SrpBytesAV { data: self.data@, based_on: self.based_on }
    }
}

/// The client's SRP proof.
#[derive(Debug, Clone)]
pub struct SrpBytesM {
    pub data: RawBytes16,
}

pub struct SrpBytesMV {
    pub data: Seq<u8>,
}

impl View for SrpBytesM {
    type V = SrpBytesMV;

    open spec fn view(&self) -> SrpBytesMV {
        SrpBytesMV { data: self.data@ }
    }
}

/// The closed set of serverbound messages.
#[derive(Debug, Clone)]
pub enum ServerBound {
    Handshake(Handshake),
    Init(Init),
    Init2(Init2),
    GotBlocks(GotBlocks),
    RequestMedia(RequestMedia),
    ClientReady(ClientReady),
    SrpBytesA(SrpBytesA),
    SrpBytesM(SrpBytesM),
}

pub enum ServerBoundV {
    Handshake,
    Init(InitV),
    Init2(Init2V),
    GotBlocks(GotBlocksV),
    RequestMedia(RequestMediaV),
    ClientReady(ClientReadyV),
    SrpBytesA(SrpBytesAV),
    SrpBytesM(SrpBytesMV),
}

impl View for ServerBound {
    type V = ServerBoundV;

    open spec fn view(&self) -> ServerBoundV {
        match self {
            ServerBound::Handshake(_) => ServerBoundV::Handshake,
            ServerBound::Init(m) => ServerBoundV::Init(m@),
            ServerBound::Init2(m) => ServerBoundV::Init2(m@),
            ServerBound::GotBlocks(m) => ServerBoundV::GotBlocks(m@),
            ServerBound::RequestMedia(m) => ServerBoundV::RequestMedia(m@),
            ServerBound::ClientReady(m) => ServerBoundV::ClientReady(m@),
            ServerBound::SrpBytesA(m) => ServerBoundV::SrpBytesA(m@),
            ServerBound::SrpBytesM(m) => ServerBoundV::SrpBytesM(m@),
        }
    }
}

// ---------------------------------------------------------------------------
// String lists (u16 count, then length-prefixed strings)
// ---------------------------------------------------------------------------

pub open spec fn enc_str_list(xs: Seq<Seq<char>>) -> Seq<u8>
    decreases xs.len(),
{
    if xs.len() == 0 {
        Seq::<u8>::empty()
    } else {
        enc_str(xs[0]) + enc_str_list(xs.drop_first())
    }
}

pub open spec fn str_list_fits(xs: Seq<Seq<char>>) -> bool {
    &&& xs.len() < 0xFFFF
    &&& forall|k: int| 0 <= k < xs.len() ==> str_fits(#[trigger] xs[k])
}

pub open spec fn dec_str_list(b: Seq<u8>, i: int, n: nat) -> Result<
    (Seq<Seq<char>>, int),
    CodecError,
>
    decreases n,
{
    if n == 0 {
        Ok((Seq::<Seq<char>>::empty(), i))
    } else {
        match dec_str(b, i) {
            None => Err(CodecError::Truncated),
            Some((None, _)) => Err(CodecError::Encoding),
            Some((Some(s), j)) => match dec_str_list(b, j, (n - 1) as nat) {
                Err(e) => Err(e),
                Ok((rest, k)) => Ok((seq![s] + rest, k)),
            },
        }
    }
}

pub proof fn lemma_dec_enc_str_list(b: Seq<u8>, i: int, xs: Seq<Seq<char>>)
    requires
        0 <= i,
        forall|k: int| 0 <= k < xs.len() ==> str_fits(#[trigger] xs[k]),
        i + enc_str_list(xs).len() <= b.len(),
        b.subrange(i, i + enc_str_list(xs).len()) == enc_str_list(xs),
    ensures
        dec_str_list(b, i, xs.len()) == Ok::<(Seq<Seq<char>>, int), CodecError>(
            (xs, i + enc_str_list(xs).len()),
        ),
    decreases xs.len(),
{
    if xs.len() == 0 {
        assert(xs =~= Seq::<Seq<char>>::empty());
    } else {
        let e0 = enc_str(xs[0]);
        let n = enc_str_list(xs).len() as int;
        let l0 = e0.len() as int;
        lemma_nested_subrange(b, i, i + n, 0, l0);
        assert(enc_str_list(xs).subrange(0, l0) =~= e0);
        lemma_dec_enc_str(b, i, xs[0]);
        lemma_nested_subrange(b, i, i + n, l0, n);
        assert(enc_str_list(xs).subrange(l0, n) =~= enc_str_list(xs.drop_first()));
        lemma_dec_enc_str_list(b, i + l0, xs.drop_first());
        assert(seq![xs[0]] + xs.drop_first() =~= xs);
    }
}

/// Appends the count and the strings; `Overflow` when the list or one of
/// its strings does not fit (leaving `out` in an unspecified state, so
/// callers discard it on failure).
fn write_str_list(out: &mut Vec<u8>, xs: &Vec<String>) -> (r: Result<(), CodecError>)
    ensures
        match r {
            Ok(()) => str_list_fits(xs.deep_view()) && final(out)@ == old(out)@ + enc_u16(
                xs@.len() as u16,
            ) + enc_str_list(xs.deep_view()),
            Err(e) => e == CodecError::Overflow && !str_list_fits(xs.deep_view()),
        },
{
    if xs.len() >= 0xFFFF {
        return Err(CodecError::Overflow);
    }
    write_u16(out, xs.len() as u16);
    let ghost base = out@;
    let n = xs.len();
    let mut k: usize = 0;
    assert(out@ =~= base + enc_str_list(xs.deep_view().subrange(0, 0)));
    while k < n
        invariant
            n == xs@.len(),
            k <= n,
            xs.deep_view().len() == n,
            out@ == base + enc_str_list(xs.deep_view().subrange(0, k as int)),
            forall|t: int| 0 <= t < k ==> str_fits(#[trigger] xs.deep_view()[t]),
        decreases n - k,
    {
        proof {
            assert(xs.deep_view()[k as int] == xs@[k as int]@);
        }
        match write_str(out, &xs[k]) {
            Ok(()) => {},
            Err(_) => {
                proof {
                    assert(!str_fits(xs.deep_view()[k as int]));
                }
                return Err(CodecError::Overflow);
            },
        }
        proof {
            let dv = xs.deep_view();
            lemma_enc_str_list_snoc(dv.subrange(0, k as int), dv[k as int]);
            assert(dv.subrange(0, k as int).push(dv[k as int]) =~= dv.subrange(0, k as int + 1));
        }
        k = k + 1;
    }
    assert(xs.deep_view().subrange(0, n as int) =~= xs.deep_view());
    Ok(())
}

proof fn lemma_enc_str_list_snoc(xs: Seq<Seq<char>>, x: Seq<char>)
    ensures
        enc_str_list(xs.push(x)) == enc_str_list(xs) + enc_str(x),
    decreases xs.len(),
{
    if xs.len() == 0 {
        assert(xs.push(x)[0] == x);
        assert(xs.push(x).drop_first() =~= Seq::<Seq<char>>::empty());
        assert(enc_str_list(xs.push(x)) == enc_str(x) + enc_str_list(
            Seq::<Seq<char>>::empty(),
        ));
        assert(enc_str(x) + Seq::<u8>::empty() =~= Seq::<u8>::empty() + enc_str(x));
    } else {
        assert(xs.push(x)[0] == xs[0]);
        assert(xs.push(x).drop_first() =~= xs.drop_first().push(x));
        lemma_enc_str_list_snoc(xs.drop_first(), x);
        assert(enc_str_list(xs.push(x)) == enc_str(xs[0]) + (enc_str_list(xs.drop_first())
            + enc_str(x)));
        assert(enc_str(xs[0]) + (enc_str_list(xs.drop_first()) + enc_str(x)) =~= (enc_str(xs[0])
            + enc_str_list(xs.drop_first())) + enc_str(x));
    }
}

/// Reads a u16 count and that many strings.
fn read_str_list(b: &Vec<u8>, pos: &mut usize) -> (r: Result<Vec<String>, CodecError>)
    ensures
        match dec_u16(b@, *old(pos) as int) {
            None => r == Err::<Vec<String>, CodecError>(CodecError::Truncated),
            Some((n, j)) => match dec_str_list(b@, j, n as nat) {
                Ok((xs, k)) => r is Ok && r.unwrap().deep_view() == xs && *final(pos) == k,
                Err(e) => r == Err::<Vec<String>, CodecError>(e),
            },
        },
{
    let n = match read_u16(b, pos) {
        Ok(v) => v,
        Err(e) => {
            return Err(e);
        },
    };
    let ghost j0 = *pos as int;
    let mut items: Vec<String> = Vec::new();
    let mut k: u16 = 0;
    proof {
        match dec_str_list(b@, j0, n as nat) {
            Ok((rest, _)) => {
                assert(Seq::<Seq<char>>::empty() + rest =~= rest);
            },
            Err(_) => {},
        }
        assert(items.deep_view() =~= Seq::<Seq<char>>::empty());
    }
    while k < n
        invariant
            k <= n,
            items.deep_view().len() == k,
            dec_u16(b@, *old(pos) as int) == Some::<(u16, int)>((n, j0)),
            dec_str_list(b@, j0, n as nat) == (match dec_str_list(
                b@,
                *pos as int,
                (n - k) as nat,
            ) {
                Ok((rest, e)) => Ok::<(Seq<Seq<char>>, int), CodecError>(
                    (items.deep_view() + rest, e),
                ),
                Err(e) => Err::<(Seq<Seq<char>>, int), CodecError>(e),
            }),
        decreases n - k,
    {
        let ghost pos_before = *pos as int;
        let ghost items_before = items.deep_view();
        let s = match read_str(b, pos) {
            Ok(v) => v,
            Err(e) => {
                proof {
                    let rem = (n - k) as nat;
                    assert(rem >= 1);
                    match dec_str(b@, pos_before) {
                        None => {
                            assert(dec_str_list(b@, pos_before, rem) == Err::<
                                (Seq<Seq<char>>, int),
                                CodecError,
                            >(CodecError::Truncated));
                        },
                        Some((None, _)) => {
                            assert(dec_str_list(b@, pos_before, rem) == Err::<
                                (Seq<Seq<char>>, int),
                                CodecError,
                            >(CodecError::Encoding));
                        },
                        Some((Some(_), _)) => {
                            assert(false);
                        },
                    }
                    assert(dec_str_list(b@, j0, n as nat) == Err::<
                        (Seq<Seq<char>>, int),
                        CodecError,
                    >(e));
                }
                return Err(e);
            },
        };
        items.push(s);
        k = k + 1;
        proof {
            assert(items.deep_view() =~= items_before + seq![s@]);
            match dec_str_list(b@, *pos as int, (n - k) as nat) {
                Ok((rest, e)) => {
                    assert((items_before + seq![s@]) + rest =~= items_before + (seq![s@] + rest));
                },
                Err(_) => {},
            }
        }
    }
    proof {
        assert(items.deep_view() + Seq::<Seq<char>>::empty() =~= items.deep_view());
    }
    Ok(items)
}

// ---------------------------------------------------------------------------
// Spec codec
// ---------------------------------------------------------------------------

pub open spec fn enc_init_v(v: InitV) -> Seq<u8> {
    enc_u8(v.max_serialization_version) + enc_u16(v.supported_compression_modes) + enc_u16(
        v.min_protocol_version,
    ) + enc_u16(v.max_protocol_version) + enc_str(v.player_name)
}

pub open spec fn enc_client_ready_v(v: ClientReadyV) -> Seq<u8> {
    enc_u8(v.version_major) + enc_u8(v.version_minor) + enc_u8(v.version_patch) + enc_u8(
        v.reserved,
    ) + enc_str(v.full_version) + enc_u16(v.formspec_version)
}

/// Payload of each variant (the bytes after the 16-bit id).
pub open spec fn enc_serverbound_payload(v: ServerBoundV) -> Seq<u8> {
    match v {
        ServerBoundV::Handshake => Seq::<u8>::empty(),
        ServerBoundV::Init(m) => enc_init_v(m),
        ServerBoundV::Init2(m) => enc_str(m.language_code),
        ServerBoundV::GotBlocks(m) => enc_u8(m.count) + m.blocks,
        ServerBoundV::RequestMedia(m) => enc_u16(m.media.len() as u16) + enc_str_list(m.media),
        ServerBoundV::ClientReady(m) => enc_client_ready_v(m),
        ServerBoundV::SrpBytesA(m) => enc_bytes16(m.data) + enc_u8(m.based_on),
        ServerBoundV::SrpBytesM(m) => enc_bytes16(m.data),
    }
}

pub open spec fn serverbound_id(v: ServerBoundV) -> u16 {
    match v {
        ServerBoundV::Handshake => ID_HANDSHAKE,
        ServerBoundV::Init(_) => ID_INIT,
        ServerBoundV::Init2(_) => ID_INIT2,
        ServerBoundV::GotBlocks(_) => ID_GOT_BLOCKS,
        ServerBoundV::RequestMedia(_) => ID_REQUEST_MEDIA,
        ServerBoundV::ClientReady(_) => ID_CLIENT_READY,
        ServerBoundV::SrpBytesA(_) => ID_SRP_BYTES_A,
        ServerBoundV::SrpBytesM(_) => ID_SRP_BYTES_M,
    }
}

/// Whether every variable-length field fits its length prefix.
pub open spec fn serverbound_fits(v: ServerBoundV) -> bool {
    match v {
        ServerBoundV::Handshake => true,
        ServerBoundV::Init(m) => str_fits(m.player_name),
        ServerBoundV::Init2(m) => str_fits(m.language_code),
        ServerBoundV::GotBlocks(_) => true,
        ServerBoundV::RequestMedia(m) => str_list_fits(m.media),
        ServerBoundV::ClientReady(m) => str_fits(m.full_version),
        ServerBoundV::SrpBytesA(m) => m.data.len() < 0xFFFF,
        ServerBoundV::SrpBytesM(m) => m.data.len() < 0xFFFF,
    }
}

pub open spec fn enc_serverbound_v(v: ServerBoundV) -> Seq<u8> {
    enc_u16(serverbound_id(v)) + enc_serverbound_payload(v)
}

pub open spec fn dec_init_s(b: Seq<u8>, i: int) -> Result<(InitV, int), CodecError> {
    match dec_u8(b, i) {
        None => Err(CodecError::Truncated),
        Some((msv, j)) => match dec_u16(b, j) {
            None => Err(CodecError::Truncated),
            Some((scm, j)) => match dec_u16(b, j) {
                None => Err(CodecError::Truncated),
                Some((minp, j)) => match dec_u16(b, j) {
                    None => Err(CodecError::Truncated),
                    Some((maxp, j)) => match dec_str(b, j) {
                        None => Err(CodecError::Truncated),
                        Some((None, _)) => Err(CodecError::Encoding),
                        Some((Some(name), j)) => Ok(
                            (
                                InitV {
                                    max_serialization_version: msv,
                                    supported_compression_modes: scm,
                                    min_protocol_version: minp,
                                    max_protocol_version: maxp,
                                    player_name: name,
                                },
                                j,
                            ),
                        ),
                    },
                },
            },
        },
    }
}

pub open spec fn dec_client_ready_s(b: Seq<u8>, i: int) -> Result<(ClientReadyV, int), CodecError> {
    match dec_u8(b, i) {
        None => Err(CodecError::Truncated),
        Some((major, j)) => match dec_u8(b, j) {
            None => Err(CodecError::Truncated),
            Some((minor, j)) => match dec_u8(b, j) {
                None => Err(CodecError::Truncated),
                Some((patch, j)) => match dec_u8(b, j) {
                    None => Err(CodecError::Truncated),
                    Some((reserved, j)) => match dec_str(b, j) {
                        None => Err(CodecError::Truncated),
                        Some((None, _)) => Err(CodecError::Encoding),
                        Some((Some(fv), j)) => match dec_u16(b, j) {
                            None => Err(CodecError::Truncated),
                            Some((fsv, j)) => Ok(
                                (
                                    ClientReadyV {
                                        version_major: major,
                                        version_minor: minor,
                                        version_patch: patch,
                                        reserved,
                                        full_version: fv,
                                        formspec_version: fsv,
                                    },
                                    j,
                                ),
                            ),
                        },
                    },
                },
            },
        },
    }
}

/// Decodes a serverbound message from the start of `b`; trailing bytes are
/// ignored, as the reference protocol does.
pub open spec fn dec_serverbound_s(b: Seq<u8>) -> Result<(ServerBoundV, int), CodecError> {
    match dec_u16(b, 0) {
        None => Err(CodecError::Truncated),
        Some((id, i)) => {
            if id == ID_HANDSHAKE {
                Ok((ServerBoundV::Handshake, i))
            } else if id == ID_INIT {
                match dec_init_s(b, i) {
                    Err(e) => Err(e),
                    Ok((m, j)) => Ok((ServerBoundV::Init(m), j)),
                }
            } else if id == ID_INIT2 {
                match dec_str(b, i) {
                    None => Err(CodecError::Truncated),
                    Some((None, _)) => Err(CodecError::Encoding),
                    Some((Some(lc), j)) => Ok(
                        (ServerBoundV::Init2(Init2V { language_code: lc }), j),
                    ),
                }
            } else if id == ID_GOT_BLOCKS {
                match dec_u8(b, i) {
                    None => Err(CodecError::Truncated),
                    Some((count, j)) => Ok(
                        (
                            ServerBoundV::GotBlocks(
                                GotBlocksV { count, blocks: b.subrange(j, b.len() as int) },
                            ),
                            b.len() as int,
                        ),
                    ),
                }
            } else if id == ID_REQUEST_MEDIA {
                match dec_u16(b, i) {
                    None => Err(CodecError::Truncated),
                    Some((n, j)) => match dec_str_list(b, j, n as nat) {
                        Err(e) => Err(e),
                        Ok((xs, k)) => Ok((ServerBoundV::RequestMedia(RequestMediaV { media: xs }), k)),
                    },
                }
            } else if id == ID_CLIENT_READY {
                match dec_client_ready_s(b, i) {
                    Err(e) => Err(e),
                    Ok((m, j)) => Ok((ServerBoundV::ClientReady(m), j)),
                }
            } else if id == ID_SRP_BYTES_A {
                match dec_bytes16(b, i) {
                    None => Err(CodecError::Truncated),
                    Some((data, j)) => match dec_u8(b, j) {
                        None => Err(CodecError::Truncated),
                        Some((based_on, k)) => Ok(
                            (ServerBoundV::SrpBytesA(SrpBytesAV { data, based_on }), k),
                        ),
                    },
                }
            } else if id == ID_SRP_BYTES_M {
                match dec_bytes16(b, i) {
                    None => Err(CodecError::Truncated),
                    Some((data, j)) => Ok((ServerBoundV::SrpBytesM(SrpBytesMV { data }), j)),
                }
            } else {
                Err(CodecError::UnknownVariant { value: id })
            }
        },
    }
}

// ---------------------------------------------------------------------------
// Executable codec
// ---------------------------------------------------------------------------

/// Serialises a serverbound message; `Overflow` when a variable-length
/// field does not fit its length prefix.
pub fn encode_serverbound(m: &ServerBound) -> (r: Result<Vec<u8>, CodecError>)
    ensures
        match r {
            Ok(out) => serverbound_fits(m@) && out@ == enc_serverbound_v(m@),
            Err(e) => e == CodecError::Overflow && !serverbound_fits(m@),
        },
{
    let mut out: Vec<u8> = Vec::new();
    match m {
        ServerBound::Handshake(_) => {
            write_u16(&mut out, ID_HANDSHAKE);
            assert(out@ =~= enc_serverbound_v(m@));
        },
        ServerBound::Init(msg) => {
            write_u16(&mut out, ID_INIT);
            write_u8(&mut out, msg.max_serialization_version);
            write_u16(&mut out, msg.supported_compression_modes);
            write_u16(&mut out, msg.min_protocol_version);
            write_u16(&mut out, msg.max_protocol_version);
            match write_str(&mut out, &msg.player_name) {
                Ok(()) => {},
                Err(e) => {
                    return Err(e);
                },
            }
            assert(out@ =~= enc_serverbound_v(m@));
        },
        ServerBound::Init2(msg) => {
            write_u16(&mut out, ID_INIT2);
            match write_str(&mut out, &msg.language_code) {
                Ok(()) => {},
                Err(e) => {
                    return Err(e);
                },
            }
            assert(out@ =~= enc_serverbound_v(m@));
        },
        ServerBound::GotBlocks(msg) => {
            write_u16(&mut out, ID_GOT_BLOCKS);
            write_u8(&mut out, msg.count);
            write_raw(&mut out, &msg.blocks.0);
            assert(out@ =~= enc_serverbound_v(m@));
        },
        ServerBound::RequestMedia(msg) => {
            write_u16(&mut out, ID_REQUEST_MEDIA);
            match write_str_list(&mut out, &msg.media) {
                Ok(()) => {},
                Err(e) => {
                    return Err(e);
                },
            }
            assert(out@ =~= enc_serverbound_v(m@));
        },
        ServerBound::ClientReady(msg) => {
            write_u16(&mut out, ID_CLIENT_READY);
            write_u8(&mut out, msg.version_major);
            write_u8(&mut out, msg.version_minor);
            write_u8(&mut out, msg.version_patch);
            write_u8(&mut out, msg.reserved);
            match write_str(&mut out, &msg.full_version) {
                Ok(()) => {},
                Err(e) => {
                    return Err(e);
                },
            }
            write_u16(&mut out, msg.formspec_version);
            assert(out@ =~= enc_serverbound_v(m@));
        },
        ServerBound::SrpBytesA(msg) => {
            write_u16(&mut out, ID_SRP_BYTES_A);
            match write_bytes16(&mut out, &msg.data.0) {
                Ok(()) => {},
                Err(e) => {
                    return Err(e);
                },
            }
            write_u8(&mut out, msg.based_on);
            assert(out@ =~= enc_serverbound_v(m@));
        },
        ServerBound::SrpBytesM(msg) => {
            write_u16(&mut out, ID_SRP_BYTES_M);
            match write_bytes16(&mut out, &msg.data.0) {
                Ok(()) => {},
                Err(e) => {
                    return Err(e);
                },
            }
            assert(out@ =~= enc_serverbound_v(m@));
        },
    }
    Ok(out)
}

/// Parses a serverbound message from the start of `b`, ignoring trailing
/// bytes.
pub fn decode_serverbound(b: &Vec<u8>) -> (r: Result<ServerBound, CodecError>)
    ensures
        match dec_serverbound_s(b@) {
            Ok((v, _)) => r is Ok && r.unwrap()@ == v,
            Err(e) => r == Err::<ServerBound, CodecError>(e),
        },
{
    let mut pos: usize = 0;
    let id = match read_u16(b, &mut pos) {
        Ok(v) => v,
        Err(e) => {
            return Err(e);
        },
    };
    if id == ID_HANDSHAKE {
        Ok(ServerBound::Handshake(Handshake {}))
    } else if id == ID_INIT {
        let max_serialization_version = match read_u8(b, &mut pos) {
            Ok(v) => v,
            Err(e) => {
                return Err(e);
            },
        };
        let supported_compression_modes = match read_u16(b, &mut pos) {
            Ok(v) => v,
            Err(e) => {
                return Err(e);
            },
        };
        let min_protocol_version = match read_u16(b, &mut pos) {
            Ok(v) => v,
            Err(e) => {
                return Err(e);
            },
        };
        let max_protocol_version = match read_u16(b, &mut pos) {
            Ok(v) => v,
            Err(e) => {
                return Err(e);
            },
        };
        let player_name = match read_str(b, &mut pos) {
            Ok(v) => v,
            Err(e) => {
                return Err(e);
            },
        };
        Ok(
            ServerBound::Init(
                Init {
                    max_serialization_version,
                    supported_compression_modes,
                    min_protocol_version,
                    max_protocol_version,
                    player_name,
                },
            ),
        )
    } else if id == ID_INIT2 {
        let language_code = match read_str(b, &mut pos) {
            Ok(v) => v,
            Err(e) => {
                return Err(e);
            },
        };
        Ok(ServerBound::Init2(Init2 { language_code }))
    } else if id == ID_GOT_BLOCKS {
        let count = match read_u8(b, &mut pos) {
            Ok(v) => v,
            Err(e) => {
                return Err(e);
            },
        };
        let blocks = match read_rest(b, &mut pos) {
            Ok(v) => v,
            Err(_) => {
                return Err(CodecError::Truncated);
            },
        };
        Ok(ServerBound::GotBlocks(GotBlocks { count, blocks: RawBytesUnsized(blocks) }))
    } else if id == ID_REQUEST_MEDIA {
        let media = match read_str_list(b, &mut pos) {
            Ok(v) => v,
            Err(e) => {
                return Err(e);
            },
        };
        Ok(ServerBound::RequestMedia(RequestMedia { media }))
    } else if id == ID_CLIENT_READY {
        let version_major = match read_u8(b, &mut pos) {
            Ok(v) => v,
            Err(e) => {
                return Err(e);
            },
        };
        let version_minor = match read_u8(b, &mut pos) {
            Ok(v) => v,
            Err(e) => {
                return Err(e);
            },
        };
        let version_patch = match read_u8(b, &mut pos) {
            Ok(v) => v,
            Err(e) => {
                return Err(e);
            },
        };
        let reserved = match read_u8(b, &mut pos) {
            Ok(v) => v,
            Err(e) => {
                return Err(e);
            },
        };
        let full_version = match read_str(b, &mut pos) {
            Ok(v) => v,
            Err(e) => {
                return Err(e);
            },
        };
        let formspec_version = match read_u16(b, &mut pos) {
            Ok(v) => v,
            Err(e) => {
                return Err(e);
            },
        };
        Ok(
            ServerBound::ClientReady(
                ClientReady {
                    version_major,
                    version_minor,
                    version_patch,
                    reserved,
                    full_version,
                    formspec_version,
                },
            ),
        )
    } else if id == ID_SRP_BYTES_A {
        let data = match read_bytes16(b, &mut pos) {
            Ok(v) => v,
            Err(e) => {
                return Err(e);
            },
        };
        let based_on = match read_u8(b, &mut pos) {
            Ok(v) => v,
            Err(e) => {
                return Err(e);
            },
        };
        Ok(ServerBound::SrpBytesA(SrpBytesA { data: RawBytes16(data), based_on }))
    } else if id == ID_SRP_BYTES_M {
        let data = match read_bytes16(b, &mut pos) {
            Ok(v) => v,
            Err(e) => {
                return Err(e);
            },
        };
        Ok(ServerBound::SrpBytesM(SrpBytesM { data: RawBytes16(data) }))
    } else {
        Err(CodecError::UnknownVariant { value: id })
    }
}

// ---------------------------------------------------------------------------
// Round trip
// ---------------------------------------------------------------------------

proof fn lemma_dec_enc_init(b: Seq<u8>, i: int, m: InitV)
    requires
        0 <= i,
        str_fits(m.player_name),
        i + enc_init_v(m).len() <= b.len(),
        b.subrange(i, i + enc_init_v(m).len()) == enc_init_v(m),
    ensures
        dec_init_s(b, i) == Ok::<(InitV, int), CodecError>((m, i + enc_init_v(m).len())),
{
    let e = enc_init_v(m);
    let n = e.len() as int;
    lemma_nested_subrange(b, i, i + n, 0, 1);
    assert(e.subrange(0, 1) =~= enc_u8(m.max_serialization_version));
    lemma_dec_enc_u8(b, i, m.max_serialization_version);
    lemma_nested_subrange(b, i, i + n, 1, 3);
    assert(e.subrange(1, 3) =~= enc_u16(m.supported_compression_modes));
    lemma_dec_enc_u16(b, i + 1, m.supported_compression_modes);
    lemma_nested_subrange(b, i, i + n, 3, 5);
    assert(e.subrange(3, 5) =~= enc_u16(m.min_protocol_version));
    lemma_dec_enc_u16(b, i + 3, m.min_protocol_version);
    lemma_nested_subrange(b, i, i + n, 5, 7);
    assert(e.subrange(5, 7) =~= enc_u16(m.max_protocol_version));
    lemma_dec_enc_u16(b, i + 5, m.max_protocol_version);
    lemma_nested_subrange(b, i, i + n, 7, n);
    assert(e.subrange(7, n) =~= enc_str(m.player_name));
    lemma_dec_enc_str(b, i + 7, m.player_name);
}

proof fn lemma_dec_enc_client_ready(b: Seq<u8>, i: int, m: ClientReadyV)
    requires
        0 <= i,
        str_fits(m.full_version),
        i + enc_client_ready_v(m).len() <= b.len(),
        b.subrange(i, i + enc_client_ready_v(m).len()) == enc_client_ready_v(m),
    ensures
        dec_client_ready_s(b, i) == Ok::<(ClientReadyV, int), CodecError>(
            (m, i + enc_client_ready_v(m).len()),
        ),
{
    let e = enc_client_ready_v(m);
    let n = e.len() as int;
    let fl = enc_str(m.full_version).len() as int;
    lemma_nested_subrange(b, i, i + n, 0, 1);
    assert(e.subrange(0, 1) =~= enc_u8(m.version_major));
    lemma_dec_enc_u8(b, i, m.version_major);
    lemma_nested_subrange(b, i, i + n, 1, 2);
    assert(e.subrange(1, 2) =~= enc_u8(m.version_minor));
    lemma_dec_enc_u8(b, i + 1, m.version_minor);
    lemma_nested_subrange(b, i, i + n, 2, 3);
    assert(e.subrange(2, 3) =~= enc_u8(m.version_patch));
    lemma_dec_enc_u8(b, i + 2, m.version_patch);
    lemma_nested_subrange(b, i, i + n, 3, 4);
    assert(e.subrange(3, 4) =~= enc_u8(m.reserved));
    lemma_dec_enc_u8(b, i + 3, m.reserved);
    lemma_nested_subrange(b, i, i + n, 4, 4 + fl);
    assert(e.subrange(4, 4 + fl) =~= enc_str(m.full_version));
    lemma_dec_enc_str(b, i + 4, m.full_version);
    lemma_nested_subrange(b, i, i + n, 4 + fl, 6 + fl);
    assert(e.subrange(4 + fl, 6 + fl) =~= enc_u16(m.formspec_version));
    lemma_dec_enc_u16(b, i + 4 + fl, m.formspec_version);
}

/// Round trip of the serverbound codec: decoding an encoded message yields
/// the original value (and consumes exactly the encoding).
#[verifier::rlimit(50)]
pub proof fn lemma_serverbound_round_trip(v: ServerBoundV)
    requires
        serverbound_fits(v),
    ensures
        dec_serverbound_s(enc_serverbound_v(v)) == Ok::<(ServerBoundV, int), CodecError>(
            (v, enc_serverbound_v(v).len() as int),
        ),
{
    let b = enc_serverbound_v(v);
    let p = enc_serverbound_payload(v);
    let n = b.len() as int;
    assert(b.subrange(0, 2) =~= enc_u16(serverbound_id(v)));
    lemma_dec_enc_u16(b, 0, serverbound_id(v));
    assert(b.subrange(2, n) =~= p);
    match v {
        ServerBoundV::Handshake => {},
        ServerBoundV::Init(m) => {
            lemma_dec_enc_init(b, 2, m);
        },
        ServerBoundV::Init2(m) => {
            assert(b.subrange(2, n) =~= enc_str(m.language_code));
            lemma_dec_enc_str(b, 2, m.language_code);
        },
        ServerBoundV::GotBlocks(m) => {
            lemma_nested_subrange(b, 2, n, 0, 1);
            assert(p.subrange(0, 1) =~= enc_u8(m.count));
            lemma_dec_enc_u8(b, 2, m.count);
            assert(b.subrange(3, n) =~= m.blocks);
        },
        ServerBoundV::RequestMedia(m) => {
            lemma_nested_subrange(b, 2, n, 0, 2);
            assert(p.subrange(0, 2) =~= enc_u16(m.media.len() as u16));
            lemma_dec_enc_u16(b, 2, m.media.len() as u16);
            lemma_nested_subrange(b, 2, n, 2, p.len() as int);
            assert(p.subrange(2, p.len() as int) =~= enc_str_list(m.media));
            lemma_dec_enc_str_list(b, 4, m.media);
        },
        ServerBoundV::ClientReady(m) => {
            lemma_dec_enc_client_ready(b, 2, m);
        },
        ServerBoundV::SrpBytesA(m) => {
            let dl = 2 + m.data.len() as int;
            lemma_nested_subrange(b, 2, n, 0, dl);
            assert(p.subrange(0, dl) =~= enc_bytes16(m.data));
            lemma_dec_enc_bytes16(b, 2, m.data);
            lemma_nested_subrange(b, 2, n, dl, dl + 1);
            assert(p.subrange(dl, dl + 1) =~= enc_u8(m.based_on));
            lemma_dec_enc_u8(b, 2 + dl, m.based_on);
        },
        ServerBoundV::SrpBytesM(m) => {
            assert(b.subrange(2, n) =~= enc_bytes16(m.data));
            lemma_dec_enc_bytes16(b, 2, m.data);
        },
    }
}

} // verus!
