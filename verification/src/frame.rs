//! Frame layer: the 4-byte magic, peer id, channel, optional reliable
//! marker and the type-tagged frame body (control / original / split).
//!
//! `enc_header` / `dec_header_s` are the spec-level codec; `encode_frame`
//! and `decode_frame` are the executable pair proved against them, and
//! `lemma_frame_round_trip` states that decoding an encoded frame returns
//! the original header and body.

use crate::codec::{
    dec_u16, dec_u32, dec_u8, enc_u16, enc_u32, enc_u8, lemma_dec_enc_u16, lemma_dec_enc_u32,
    lemma_dec_enc_u8, lemma_nested_subrange, read_rest, read_u16, read_u32, read_u8, write_raw,
    write_u16, write_u32, write_u8,
};
use vstd::prelude::*;

verus! {

/// Magic number at the head of every frame.
pub const PROTOCOL_ID: u32 = 0x4F457403;

/// Wire tag of the reliable marker.
pub const RELIABLE_TAG: u8 = 3;

/// Control frame bodies.
#[derive(Debug, Clone, Copy, PartialEq, Eq, Structural)]
pub enum Control {
    Ack { seqnum: u16 },
    SetPeerId { peer_id: u16 },
    Ping,
    Disco,
}

/// Header of one chunk of a fragmented message.
#[derive(Debug, Clone, Copy, PartialEq, Eq, Structural)]
pub struct Split {
    pub seqnum: u16,
    pub chunk_count: u16,
    pub chunk_number: u16,
}

/// The three frame kinds.
#[derive(Debug, Clone, Copy, PartialEq, Eq, Structural)]
pub enum PacketType {
    Control(Control),
    Original,
    Split(Split),
}

/// Whether a frame carries a sequence number and demands an Ack.
#[derive(Debug, Clone, Copy, PartialEq, Eq, Structural)]
pub enum Reliability {
    Reliable { seqnum: u16 },
    Unreliable,
}

/// Everything in a frame before the body.
#[derive(Debug, Clone, Copy, PartialEq, Eq, Structural)]
pub struct PacketHeader {
    pub peer_id: u16,
    pub channel: u8,
    pub reliability: Reliability,
    pub ty: PacketType,
}

/// Failure modes of frame parsing.
#[derive(Debug, Clone, Copy, PartialEq, Eq, Structural)]
pub enum ProtocolError {
    /// The first four bytes were not the protocol magic.
    IdMismatch { id: u32 },
    /// The kind tag byte had no matching frame kind.
    UnknownPacketType { value: u8 },
    /// The control tag byte had no matching control kind.
    UnknownControlType { value: u8 },
    /// The datagram ended before the header was complete.
    Truncated,
}

// ---------------------------------------------------------------------------
// Spec encoders
// ---------------------------------------------------------------------------

pub open spec fn enc_control(c: Control) -> Seq<u8> {
    match c {
        Control::Ack { seqnum } => enc_u8(0) + enc_u16(seqnum),
        Control::SetPeerId { peer_id } => enc_u8(1) + enc_u16(peer_id),
        Control::Ping => enc_u8(2),
        Control::Disco => enc_u8(3),
    }
}

pub open spec fn enc_split(s: Split) -> Seq<u8> {
    enc_u16(s.seqnum) + enc_u16(s.chunk_count) + enc_u16(s.chunk_number)
}

pub open spec fn enc_packet_type(t: PacketType) -> Seq<u8> {
    match t {
        PacketType::Control(c) => enc_u8(0) + enc_control(c),
        PacketType::Original => enc_u8(1),
        PacketType::Split(s) => enc_u8(2) + enc_split(s),
    }
}

pub open spec fn enc_reliability(r: Reliability) -> Seq<u8> {
    match r {
        Reliability::Reliable { seqnum } => enc_u8(RELIABLE_TAG) + enc_u16(seqnum),
        Reliability::Unreliable => Seq::<u8>::empty(),
    }
}

pub open spec fn enc_header(h: PacketHeader) -> Seq<u8> {
    enc_u32(PROTOCOL_ID) + enc_u16(h.peer_id) + enc_u8(h.channel) + enc_reliability(h.reliability)
        + enc_packet_type(h.ty)
}

/// A whole datagram: header followed by the body bytes.
pub open spec fn enc_frame(h: PacketHeader, body: Seq<u8>) -> Seq<u8> {
    enc_header(h) + body
}

// ---------------------------------------------------------------------------
// Spec decoders
// ---------------------------------------------------------------------------

pub open spec fn dec_control_s(b: Seq<u8>, i: int) -> Result<(Control, int), ProtocolError> {
    match dec_u8(b, i) {
        None => Err(ProtocolError::Truncated),
        Some((t, j)) => {
            if t == 0 {
                match dec_u16(b, j) {
                    None => Err(ProtocolError::Truncated),
                    Some((s, k)) => Ok((Control::Ack { seqnum: s }, k)),
                }
            } else if t == 1 {
                match dec_u16(b, j) {
                    None => Err(ProtocolError::Truncated),
                    Some((p, k)) => Ok((Control::SetPeerId { peer_id: p }, k)),
                }
            } else if t == 2 {
                Ok((Control::Ping, j))
            } else if t == 3 {
                Ok((Control::Disco, j))
            } else {
                Err(ProtocolError::UnknownControlType { value: t })
            }
        },
    }
}

pub open spec fn dec_split_s(b: Seq<u8>, i: int) -> Result<(Split, int), ProtocolError> {
    match dec_u16(b, i) {
        None => Err(ProtocolError::Truncated),
        Some((seqnum, j)) => match dec_u16(b, j) {
            None => Err(ProtocolError::Truncated),
            Some((chunk_count, k)) => match dec_u16(b, k) {
                None => Err(ProtocolError::Truncated),
                Some((chunk_number, l)) => Ok(
                    (Split { seqnum, chunk_count, chunk_number }, l),
                ),
            },
        },
    }
}

pub open spec fn dec_packet_type_s(b: Seq<u8>, i: int, tag: u8) -> Result<
    (PacketType, int),
    ProtocolError,
> {
    if tag == 0 {
        match dec_control_s(b, i) {
            Err(e) => Err(e),
            Ok((c, j)) => Ok((PacketType::Control(c), j)),
        }
    } else if tag == 1 {
        Ok((PacketType::Original, i))
    } else if tag == 2 {
        match dec_split_s(b, i) {
            Err(e) => Err(e),
            Ok((s, j)) => Ok((PacketType::Split(s), j)),
        }
    } else {
        Err(ProtocolError::UnknownPacketType { value: tag })
    }
}

/// Parses everything before the body; returns the header and the cursor at
/// which the body starts.
pub open spec fn dec_header_s(b: Seq<u8>) -> Result<(PacketHeader, int), ProtocolError> {
    match dec_u32(b, 0) {
        None => Err(ProtocolError::Truncated),
        Some((id, i)) => {
            if id != PROTOCOL_ID {
                Err(ProtocolError::IdMismatch { id })
            } else {
                match dec_u16(b, i) {
                    None => Err(ProtocolError::Truncated),
                    Some((peer_id, j)) => match dec_u8(b, j) {
                        None => Err(ProtocolError::Truncated),
                        Some((channel, k)) => match dec_u8(b, k) {
                            None => Err(ProtocolError::Truncated),
                            Some((tag0, l)) => {
                                if tag0 == RELIABLE_TAG {
                                    match dec_u16(b, l) {
                                        None => Err(ProtocolError::Truncated),
                                        Some((seqnum, m)) => match dec_u8(b, m) {
                                            None => Err(ProtocolError::Truncated),
                                            Some((tag1, n)) => match dec_packet_type_s(
                                                b,
                                                n,
                                                tag1,
                                            ) {
                                                Err(e) => Err(e),
                                                Ok((ty, o)) => Ok(
                                                    (
                                                        PacketHeader {
                                                            peer_id,
                                                            channel,
                                                            reliability: Reliability::Reliable {
                                                                seqnum,
                                                            },
                                                            ty,
                                                        },
                                                        o,
                                                    ),
                                                ),
                                            },
                                        },
                                    }
                                } else {
                                    match dec_packet_type_s(b, l, tag0) {
                                        Err(e) => Err(e),
                                        Ok((ty, o)) => Ok(
                                            (
                                                PacketHeader {
                                                    peer_id,
                                                    channel,
                                                    reliability: Reliability::Unreliable,
                                                    ty,
                                                },
                                                o,
                                            ),
                                        ),
                                    }
                                }
                            },
                        },
                    },
                }
            }
        },
    }
}

// ---------------------------------------------------------------------------
// Executable encoder
// ---------------------------------------------------------------------------

pub fn write_control(out: &mut Vec<u8>, c: &Control)
    ensures
        final(out)@ == old(out)@ + enc_control(*c),
{
    match c {
        Control::Ack { seqnum } => {
            write_u8(out, 0);
            write_u16(out, *seqnum);
        },
        Control::SetPeerId { peer_id } => {
            write_u8(out, 1);
            write_u16(out, *peer_id);
        },
        Control::Ping => write_u8(out, 2),
        Control::Disco => write_u8(out, 3),
    }
    assert(out@ =~= old(out)@ + enc_control(*c));
}

pub fn write_split(out: &mut Vec<u8>, s: &Split)
    ensures
        final(out)@ == old(out)@ + enc_split(*s),
{
    write_u16(out, s.seqnum);
    write_u16(out, s.chunk_count);
    write_u16(out, s.chunk_number);
    assert(out@ =~= old(out)@ + enc_split(*s));
}

pub fn write_packet_type(out: &mut Vec<u8>, t: &PacketType)
    ensures
        final(out)@ == old(out)@ + enc_packet_type(*t),
{
    match t {
        PacketType::Control(c) => {
            write_u8(out, 0);
            write_control(out, c);
        },
        PacketType::Original => write_u8(out, 1),
        PacketType::Split(s) => {
            write_u8(out, 2);
            write_split(out, s);
        },
    }
    assert(out@ =~= old(out)@ + enc_packet_type(*t));
}

pub fn write_header(out: &mut Vec<u8>, h: &PacketHeader)
    ensures
        final(out)@ == old(out)@ + enc_header(*h),
{
    write_u32(out, PROTOCOL_ID);
    write_u16(out, h.peer_id);
    write_u8(out, h.channel);
    match &h.reliability {
        Reliability::Reliable { seqnum } => {
            write_u8(out, RELIABLE_TAG);
            write_u16(out, *seqnum);
        },
        Reliability::Unreliable => {},
    }
    write_packet_type(out, &h.ty);
    assert(out@ =~= old(out)@ + enc_header(*h));
}

/// Serialises a whole datagram: the header followed by the body bytes.
pub fn encode_frame(h: &PacketHeader, body: &Vec<u8>) -> (r: Vec<u8>)
    ensures
        r@ == enc_frame(*h, body@),
{
    let mut out: Vec<u8> = Vec::new();
    write_header(&mut out, h);
    write_raw(&mut out, body);
    assert(out@ =~= enc_frame(*h, body@));
    out
}

// ---------------------------------------------------------------------------
// Executable decoder
// ---------------------------------------------------------------------------

fn read_control(b: &Vec<u8>, pos: &mut usize) -> (r: Result<Control, ProtocolError>)
    ensures
        match dec_control_s(b@, *old(pos) as int) {
            Ok((c, j)) => r == Ok::<Control, ProtocolError>(c) && *final(pos) == j,
            Err(e) => r == Err::<Control, ProtocolError>(e),
        },
{
    let tag = match read_u8(b, pos) {
        Ok(t) => t,
        Err(_) => {
            return Err(ProtocolError::Truncated);
        },
    };
    match tag {
        0 => {
            match read_u16(b, pos) {
                Ok(seqnum) => Ok(Control::Ack { seqnum }),
                Err(_) => Err(ProtocolError::Truncated),
            }
        },
        1 => {
            match read_u16(b, pos) {
                Ok(peer_id) => Ok(Control::SetPeerId { peer_id }),
                Err(_) => Err(ProtocolError::Truncated),
            }
        },
        2 => Ok(Control::Ping),
        3 => Ok(Control::Disco),
        _ => Err(ProtocolError::UnknownControlType { value: tag }),
    }
}

fn read_split(b: &Vec<u8>, pos: &mut usize) -> (r: Result<Split, ProtocolError>)
    ensures
        match dec_split_s(b@, *old(pos) as int) {
            Ok((s, j)) => r == Ok::<Split, ProtocolError>(s) && *final(pos) == j,
            Err(e) => r == Err::<Split, ProtocolError>(e),
        },
{
    let seqnum = match read_u16(b, pos) {
        Ok(v) => v,
        Err(_) => {
            return Err(ProtocolError::Truncated);
        },
    };
    let chunk_count = match read_u16(b, pos) {
        Ok(v) => v,
        Err(_) => {
            return Err(ProtocolError::Truncated);
        },
    };
    let chunk_number = match read_u16(b, pos) {
        Ok(v) => v,
        Err(_) => {
            return Err(ProtocolError::Truncated);
        },
    };
    Ok(Split { seqnum, chunk_count, chunk_number })
}

fn read_packet_type(b: &Vec<u8>, pos: &mut usize, tag: u8) -> (r: Result<
    PacketType,
    ProtocolError,
>)
    ensures
        match dec_packet_type_s(b@, *old(pos) as int, tag) {
            Ok((t, j)) => r == Ok::<PacketType, ProtocolError>(t) && *final(pos) == j,
            Err(e) => r == Err::<PacketType, ProtocolError>(e),
        },
{
    match tag {
        0 => {
            match read_control(b, pos) {
                Ok(c) => Ok(PacketType::Control(c)),
                Err(e) => Err(e),
            }
        },
        1 => Ok(PacketType::Original),
        2 => {
            match read_split(b, pos) {
                Ok(s) => Ok(PacketType::Split(s)),
                Err(e) => Err(e),
            }
        },
        _ => Err(ProtocolError::UnknownPacketType { value: tag }),
    }
}

/// Parses the header of a datagram; on success the body is the copy of the
/// remaining bytes.
pub fn decode_frame(b: &Vec<u8>) -> (r: Result<(PacketHeader, Vec<u8>), ProtocolError>)
    ensures
        match dec_header_s(b@) {
            Ok((h, j)) => r is Ok && r.unwrap().0 == h && r.unwrap().1@ == b@.subrange(
                j,
                b@.len() as int,
            ),
            Err(e) => r == Err::<(PacketHeader, Vec<u8>), ProtocolError>(e),
        },
{
    let mut pos: usize = 0;
    let id = match read_u32(b, &mut pos) {
        Ok(v) => v,
        Err(_) => {
            return Err(ProtocolError::Truncated);
        },
    };
    if id != PROTOCOL_ID {
        return Err(ProtocolError::IdMismatch { id });
    }
    let peer_id = match read_u16(b, &mut pos) {
        Ok(v) => v,
        Err(_) => {
            return Err(ProtocolError::Truncated);
        },
    };
    let channel = match read_u8(b, &mut pos) {
        Ok(v) => v,
        Err(_) => {
            return Err(ProtocolError::Truncated);
        },
    };
    let tag0 = match read_u8(b, &mut pos) {
        Ok(v) => v,
        Err(_) => {
            return Err(ProtocolError::Truncated);
        },
    };
    let (reliability, tag) = if tag0 == RELIABLE_TAG {
        let seqnum = match read_u16(b, &mut pos) {
            Ok(v) => v,
            Err(_) => {
                return Err(ProtocolError::Truncated);
            },
        };
        let tag1 = match read_u8(b, &mut pos) {
            Ok(v) => v,
            Err(_) => {
                return Err(ProtocolError::Truncated);
            },
        };
        (Reliability::Reliable { seqnum }, tag1)
    } else {
        (Reliability::Unreliable, tag0)
    };
    let ty = match read_packet_type(b, &mut pos, tag) {
        Ok(t) => t,
        Err(e) => {
            return Err(e);
        },
    };
    let body = match read_rest(b, &mut pos) {
        Ok(d) => d,
        Err(_) => {
            return Err(ProtocolError::Truncated);
        },
    };
    Ok((PacketHeader { peer_id, channel, reliability, ty }, body))
}

// ---------------------------------------------------------------------------
// Round trip
// ---------------------------------------------------------------------------

proof fn lemma_dec_enc_control(b: Seq<u8>, i: int, c: Control)
    requires
        0 <= i,
        i + enc_control(c).len() <= b.len(),
        b.subrange(i, i + enc_control(c).len()) == enc_control(c),
    ensures
        dec_control_s(b, i) == Ok::<(Control, int), ProtocolError>((c, i + enc_control(c).len())),
{
    let e = enc_control(c);
    let n = e.len() as int;
    match c {
        Control::Ack { seqnum } => {
            lemma_nested_subrange(b, i, i + n, 0, 1);
            lemma_nested_subrange(b, i, i + n, 1, 3);
            assert(e.subrange(0, 1) =~= enc_u8(0));
            assert(e.subrange(1, 3) =~= enc_u16(seqnum));
            lemma_dec_enc_u8(b, i, 0);
            lemma_dec_enc_u16(b, i + 1, seqnum);
        },
        Control::SetPeerId { peer_id } => {
            lemma_nested_subrange(b, i, i + n, 0, 1);
            lemma_nested_subrange(b, i, i + n, 1, 3);
            assert(e.subrange(0, 1) =~= enc_u8(1));
            assert(e.subrange(1, 3) =~= enc_u16(peer_id));
            lemma_dec_enc_u8(b, i, 1);
            lemma_dec_enc_u16(b, i + 1, peer_id);
        },
        Control::Ping => {
            assert(b.subrange(i, i + 1) =~= enc_u8(2));
            lemma_dec_enc_u8(b, i, 2);
        },
        Control::Disco => {
            assert(b.subrange(i, i + 1) =~= enc_u8(3));
            lemma_dec_enc_u8(b, i, 3);
        },
    }
}

proof fn lemma_dec_enc_split(b: Seq<u8>, i: int, s: Split)
    requires
        0 <= i,
        i + 6 <= b.len(),
        b.subrange(i, i + 6) == enc_split(s),
    ensures
        dec_split_s(b, i) == Ok::<(Split, int), ProtocolError>((s, i + 6)),
{
    lemma_nested_subrange(b, i, i + 6, 0, 2);
    lemma_nested_subrange(b, i, i + 6, 2, 4);
    lemma_nested_subrange(b, i, i + 6, 4, 6);
    assert(enc_split(s).subrange(0, 2) =~= enc_u16(s.seqnum));
    assert(enc_split(s).subrange(2, 4) =~= enc_u16(s.chunk_count));
    assert(enc_split(s).subrange(4, 6) =~= enc_u16(s.chunk_number));
    lemma_dec_enc_u16(b, i, s.seqnum);
    lemma_dec_enc_u16(b, i + 2, s.chunk_count);
    lemma_dec_enc_u16(b, i + 4, s.chunk_number);
}

proof fn lemma_dec_enc_packet_type(b: Seq<u8>, i: int, t: PacketType)
    requires
        0 <= i,
        i + enc_packet_type(t).len() <= b.len(),
        b.subrange(i, i + enc_packet_type(t).len()) == enc_packet_type(t),
    ensures
        dec_u8(b, i) is Some,
        dec_u8(b, i).unwrap().0 <= 2,
        dec_packet_type_s(b, i + 1, dec_u8(b, i).unwrap().0) == Ok::<
            (PacketType, int),
            ProtocolError,
        >((t, i + enc_packet_type(t).len())),
{
    let e = enc_packet_type(t);
    let n = e.len() as int;
    lemma_nested_subrange(b, i, i + n, 0, 1);
    match t {
        PacketType::Control(c) => {
            assert(e.subrange(0, 1) =~= enc_u8(0));
            lemma_dec_enc_u8(b, i, 0);
            lemma_nested_subrange(b, i, i + n, 1, n);
            assert(e.subrange(1, n) =~= enc_control(c));
            lemma_dec_enc_control(b, i + 1, c);
        },
        PacketType::Original => {
            assert(e.subrange(0, 1) =~= enc_u8(1));
            lemma_dec_enc_u8(b, i, 1);
        },
        PacketType::Split(s) => {
            assert(e.subrange(0, 1) =~= enc_u8(2));
            lemma_dec_enc_u8(b, i, 2);
            lemma_nested_subrange(b, i, i + n, 1, n);
            assert(e.subrange(1, n) =~= enc_split(s));
            lemma_dec_enc_split(b, i + 1, s);
        },
    }
}

/// Round trip of the frame layer: decoding an encoded frame yields the
/// original header and body.
pub proof fn lemma_frame_round_trip(h: PacketHeader, body: Seq<u8>)
    ensures
        dec_header_s(enc_frame(h, body)) == Ok::<(PacketHeader, int), ProtocolError>(
            (h, enc_header(h).len() as int),
        ),
        enc_frame(h, body).subrange(
            enc_header(h).len() as int,
            enc_frame(h, body).len() as int,
        ) == body,
{
    let e = enc_header(h);
    let b = enc_frame(h, body);
    let n = e.len() as int;
    assert(b.subrange(0, n) =~= e);
    let rel_len = enc_reliability(h.reliability).len() as int;
    let ty_len = enc_packet_type(h.ty).len() as int;
    assert(n == 7 + rel_len + ty_len);
    lemma_nested_subrange(b, 0, n, 0, 4);
    assert(e.subrange(0, 4) =~= enc_u32(PROTOCOL_ID));
    lemma_dec_enc_u32(b, 0, PROTOCOL_ID);
    lemma_nested_subrange(b, 0, n, 4, 6);
    assert(e.subrange(4, 6) =~= enc_u16(h.peer_id));
    lemma_dec_enc_u16(b, 4, h.peer_id);
    lemma_nested_subrange(b, 0, n, 6, 7);
    assert(e.subrange(6, 7) =~= enc_u8(h.channel));
    lemma_dec_enc_u8(b, 6, h.channel);
    match h.reliability {
        Reliability::Reliable { seqnum } => {
            lemma_nested_subrange(b, 0, n, 7, 8);
            assert(e.subrange(7, 8) =~= enc_u8(RELIABLE_TAG));
            lemma_dec_enc_u8(b, 7, RELIABLE_TAG);
            lemma_nested_subrange(b, 0, n, 8, 10);
            assert(e.subrange(8, 10) =~= enc_u16(seqnum));
            lemma_dec_enc_u16(b, 8, seqnum);
            lemma_nested_subrange(b, 0, n, 10, n);
            assert(e.subrange(10, n) =~= enc_packet_type(h.ty));
            lemma_dec_enc_packet_type(b, 10, h.ty);
        },
        Reliability::Unreliable => {
            lemma_nested_subrange(b, 0, n, 7, n);
            assert(e.subrange(7, n) =~= enc_packet_type(h.ty));
            lemma_dec_enc_packet_type(b, 7, h.ty);
        },
    }
    assert(b.subrange(n, b.len() as int) =~= body);
}

} // verus!
