//! Wire-level vector types. Server positions are IEEE-754 single-precision
//! floats on the wire; this core never computes with them, so each float is
//! carried as its 32-bit big-endian bit pattern.

use crate::codec::{
    dec_i16, dec_u32, enc_i16, enc_u32, lemma_dec_enc_i16, lemma_dec_enc_u32,
    lemma_nested_subrange, read_i16, read_u32, write_i16, write_u32, CodecError,
};
use vstd::prelude::*;

verus! {

/// Three single-precision floats, each held as its raw bit pattern.
#[derive(Debug, Clone, Copy, PartialEq, Eq, Structural)]
pub struct Vector3 {
    pub x: u32,
    pub y: u32,
    pub z: u32,
}

impl Vector3 {
    pub fn new(x: u32, y: u32, z: u32) -> (r: Vector3)
        ensures
            r == (Vector3 { x, y, z }),
    {
        Vector3 { x, y, z }
    }
}

/// A signed 16-bit 3D vector (block coordinates).
#[derive(Debug, Clone, Copy, PartialEq, Eq, Structural, Hash)]
pub struct Vector3i16 {
    pub x: i16,
    pub y: i16,
    pub z: i16,
}

impl Vector3i16 {
    pub fn new(x: i16, y: i16, z: i16) -> (r: Vector3i16)
        ensures
            r == (Vector3i16 { x, y, z }),
    {
        Vector3i16 { x, y, z }
    }
}

/// An unsigned 16-bit 3D vector (schematic sizes).
#[derive(Debug, Clone, Copy, PartialEq, Eq, Structural, Hash)]
pub struct Vector3u16 {
    pub x: u16,
    pub y: u16,
    pub z: u16,
}

impl Vector3u16 {
    pub fn new(x: u16, y: u16, z: u16) -> (r: Vector3u16)
        ensures
            r == (Vector3u16 { x, y, z }),
    {
        Vector3u16 { x, y, z }
    }
}

/// An axis-aligned box of two float vectors, held as bit patterns.
#[derive(Debug, Clone, Copy, PartialEq, Eq, Structural)]
pub struct Aabb {
    pub min: Vector3,
    pub max: Vector3,
}

pub open spec fn enc_vector3(v: Vector3) -> Seq<u8> {
    enc_u32(v.x) + enc_u32(v.y) + enc_u32(v.z)
}

pub open spec fn dec_vector3(b: Seq<u8>, i: int) -> Option<(Vector3, int)> {
    match dec_u32(b, i) {
        None => None,
        Some((x, j)) => match dec_u32(b, j) {
            None => None,
            Some((y, k)) => match dec_u32(b, k) {
                None => None,
                Some((z, l)) => Some((Vector3 { x, y, z }, l)),
            },
        },
    }
}

pub open spec fn enc_vector3i16(v: Vector3i16) -> Seq<u8> {
    enc_i16(v.x) + enc_i16(v.y) + enc_i16(v.z)
}

pub open spec fn dec_vector3i16(b: Seq<u8>, i: int) -> Option<(Vector3i16, int)> {
    match dec_i16(b, i) {
        None => None,
        Some((x, j)) => match dec_i16(b, j) {
            None => None,
            Some((y, k)) => match dec_i16(b, k) {
                None => None,
                Some((z, l)) => Some((Vector3i16 { x, y, z }, l)),
            },
        },
    }
}

pub open spec fn enc_aabb(v: Aabb) -> Seq<u8> {
    enc_vector3(v.min) + enc_vector3(v.max)
}

pub proof fn lemma_dec_enc_vector3(b: Seq<u8>, i: int, v: Vector3)
    requires
        0 <= i,
        i + 12 <= b.len(),
        b.subrange(i, i + 12) == enc_vector3(v),
    ensures
        dec_vector3(b, i) == Some((v, i + 12)),
{
    lemma_nested_subrange(b, i, i + 12, 0, 4);
    lemma_nested_subrange(b, i, i + 12, 4, 8);
    lemma_nested_subrange(b, i, i + 12, 8, 12);
    assert(enc_vector3(v).subrange(0, 4) =~= enc_u32(v.x));
    assert(enc_vector3(v).subrange(4, 8) =~= enc_u32(v.y));
    assert(enc_vector3(v).subrange(8, 12) =~= enc_u32(v.z));
    lemma_dec_enc_u32(b, i, v.x);
    lemma_dec_enc_u32(b, i + 4, v.y);
    lemma_dec_enc_u32(b, i + 8, v.z);
}

pub proof fn lemma_dec_enc_vector3i16(b: Seq<u8>, i: int, v: Vector3i16)
    requires
        0 <= i,
        i + 6 <= b.len(),
        b.subrange(i, i + 6) == enc_vector3i16(v),
    ensures
        dec_vector3i16(b, i) == Some((v, i + 6)),
{
    lemma_nested_subrange(b, i, i + 6, 0, 2);
    lemma_nested_subrange(b, i, i + 6, 2, 4);
    lemma_nested_subrange(b, i, i + 6, 4, 6);
    assert(enc_vector3i16(v).subrange(0, 2) =~= enc_i16(v.x));
    assert(enc_vector3i16(v).subrange(2, 4) =~= enc_i16(v.y));
    assert(enc_vector3i16(v).subrange(4, 6) =~= enc_i16(v.z));
    lemma_dec_enc_i16(b, i, v.x);
    lemma_dec_enc_i16(b, i + 2, v.y);
    lemma_dec_enc_i16(b, i + 4, v.z);
}

pub fn write_vector3(out: &mut Vec<u8>, v: &Vector3)
    ensures
        final(out)@ == old(out)@ + enc_vector3(*v),
{
    write_u32(out, v.x);
    write_u32(out, v.y);
    write_u32(out, v.z);
    assert(out@ =~= old(out)@ + enc_vector3(*v));
}

pub fn read_vector3(b: &Vec<u8>, pos: &mut usize) -> (r: Result<Vector3, CodecError>)
    ensures
        match dec_vector3(b@, *old(pos) as int) {
            Some((v, j)) => r == Ok::<Vector3, CodecError>(v) && *final(pos) == j,
            None => r == Err::<Vector3, CodecError>(CodecError::Truncated),
        },
{
    let x = match read_u32(b, pos) {
        Ok(v) => v,
        Err(e) => {
            return Err(e);
        },
    };
    let y = match read_u32(b, pos) {
        Ok(v) => v,
        Err(e) => {
            return Err(e);
        },
    };
    let z = match read_u32(b, pos) {
        Ok(v) => v,
        Err(e) => {
            return Err(e);
        },
    };
    Ok(Vector3 { x, y, z })
}

pub fn write_vector3i16(out: &mut Vec<u8>, v: &Vector3i16)
    ensures
        final(out)@ == old(out)@ + enc_vector3i16(*v),
{
    write_i16(out, v.x);
    write_i16(out, v.y);
    write_i16(out, v.z);
    assert(out@ =~= old(out)@ + enc_vector3i16(*v));
}

pub fn read_vector3i16(b: &Vec<u8>, pos: &mut usize) -> (r: Result<Vector3i16, CodecError>)
    ensures
        match dec_vector3i16(b@, *old(pos) as int) {
            Some((v, j)) => r == Ok::<Vector3i16, CodecError>(v) && *final(pos) == j,
            None => r == Err::<Vector3i16, CodecError>(CodecError::Truncated),
        },
{
    let x = match read_i16(b, pos) {
        Ok(v) => v,
        Err(e) => {
            return Err(e);
        },
    };
    let y = match read_i16(b, pos) {
        Ok(v) => v,
        Err(e) => {
            return Err(e);
        },
    };
    let z = match read_i16(b, pos) {
        Ok(v) => v,
        Err(e) => {
            return Err(e);
        },
    };
    Ok(Vector3i16 { x, y, z })
}

} // verus!
