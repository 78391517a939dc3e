//! Primitive wire codec: fixed-width big-endian integers, booleans,
//! length-prefixed byte blobs and UTF-8 strings.
//!
//! Every primitive has a spec-level encoder (`enc_*`), a spec-level decoder
//! (`dec_*`) working on a byte sequence and a cursor, and executable
//! `write_*` / `read_*` functions proved against them. Decoders consume from
//! the cursor and fail with `CodecError::Truncated` when the input is too
//! short.

use vstd::prelude::*;

verus! {

/// Failure modes of the primitive codec.
#[derive(Debug, Clone, Copy, PartialEq, Eq, Structural)]
pub enum CodecError {
    /// The input ended before the value was complete.
    Truncated,
    /// A length did not fit the width of its prefix.
    Overflow,
    /// A string field held bytes that are not valid UTF-8 (or UTF-16).
    Encoding,
    /// A one-byte or two-byte discriminant had no matching variant.
    UnknownVariant { value: u16 },
    /// The value has no defined encoder (the reference protocol only ever
    /// decodes it).
    Unsupported,
}

// ---------------------------------------------------------------------------
// Spec encoders
// ---------------------------------------------------------------------------

pub open spec fn enc_u8(v: u8) -> Seq<u8> {
    seq![v]
}

pub open spec fn enc_u16(v: u16) -> Seq<u8> {
    seq![(v / 256) as u8, (v % 256) as u8]
}

pub open spec fn enc_u32(v: u32) -> Seq<u8> {
    seq![
        (v / 0x1000000) as u8,
        ((v / 0x10000) % 256) as u8,
        ((v / 256) % 256) as u8,
        (v % 256) as u8,
    ]
}

pub open spec fn enc_u64(v: u64) -> Seq<u8> {
    enc_u32((v / 0x100000000) as u32) + enc_u32((v % 0x100000000) as u32)
}

/// Two's-complement image of an `i16` in a `u16`.
pub open spec fn i16_as_u16(v: i16) -> u16 {
    if v >= 0 {
        v as u16
    } else {
        (v + 0x10000) as u16
    }
}

/// Inverse of `i16_as_u16`.
pub open spec fn u16_as_i16(v: u16) -> i16 {
    if v < 0x8000 {
        v as i16
    } else {
        (v - 0x10000) as i16
    }
}

pub open spec fn enc_i16(v: i16) -> Seq<u8> {
    enc_u16(i16_as_u16(v))
}

pub open spec fn enc_bool(v: bool) -> Seq<u8> {
    enc_u8(if v { 1u8 } else { 0u8 })
}

/// A blob with a 16-bit length prefix. Fits the wire only when
/// `data.len() < 0xFFFF`.
pub open spec fn enc_bytes16(data: Seq<u8>) -> Seq<u8> {
    enc_u16(data.len() as u16) + data
}

/// A blob with a 32-bit length prefix. Fits the wire only when
/// `data.len() < 0xFFFF_FFFF`.
pub open spec fn enc_bytes32(data: Seq<u8>) -> Seq<u8> {
    enc_u32(data.len() as u32) + data
}

/// A UTF-8 string with a 16-bit byte-length prefix.
pub open spec fn enc_str(s: Seq<char>) -> Seq<u8> {
    enc_bytes16(vstd::utf8::encode_utf8(s))
}

/// Whether a string fits the 16-bit length prefix.
pub open spec fn str_fits(s: Seq<char>) -> bool {
    vstd::utf8::encode_utf8(s).len() < 0xFFFF
}

// ---------------------------------------------------------------------------
// Spec decoders: `(bytes, cursor) -> Some((value, new cursor))` or `None`
// on truncation.
// ---------------------------------------------------------------------------

pub open spec fn dec_u8(b: Seq<u8>, i: int) -> Option<(u8, int)> {
    if 0 <= i && i + 1 <= b.len() {
        Some((b[i], i + 1))
    } else {
        None
    }
}

pub open spec fn dec_u16(b: Seq<u8>, i: int) -> Option<(u16, int)> {
    if 0 <= i && i + 2 <= b.len() {
        Some((((b[i] as u16) * 256 + (b[i + 1] as u16)) as u16, i + 2))
    } else {
        None
    }
}

pub open spec fn dec_u32(b: Seq<u8>, i: int) -> Option<(u32, int)> {
    if 0 <= i && i + 4 <= b.len() {
        Some(
            (
                ((b[i] as u32) * 0x1000000 + (b[i + 1] as u32) * 0x10000 + (b[i + 2] as u32) * 256
                    + (b[i + 3] as u32)) as u32,
                i + 4,
            ),
        )
    } else {
        None
    }
}

pub open spec fn dec_u64(b: Seq<u8>, i: int) -> Option<(u64, int)> {
    if 0 <= i && i + 8 <= b.len() {
        Some(
            (
                match (dec_u32(b, i), dec_u32(b, i + 4)) {
                    (Some((hi, _)), Some((lo, _))) => ((hi as u64) * 0x100000000 + (lo as u64)) as u64,
                    _ => 0u64,
                },
                i + 8,
            ),
        )
    } else {
        None
    }
}

pub open spec fn dec_i16(b: Seq<u8>, i: int) -> Option<(i16, int)> {
    match dec_u16(b, i) {
        Some((v, j)) => Some((u16_as_i16(v), j)),
        None => None,
    }
}

/// Booleans are one byte; any nonzero value reads as `true`.
pub open spec fn dec_bool(b: Seq<u8>, i: int) -> Option<(bool, int)> {
    match dec_u8(b, i) {
        Some((v, j)) => Some((v != 0, j)),
        None => None,
    }
}

pub open spec fn dec_bytes16(b: Seq<u8>, i: int) -> Option<(Seq<u8>, int)> {
    match dec_u16(b, i) {
        Some((len, j)) => {
            if j + len <= b.len() {
                Some((b.subrange(j, j + len), j + len))
            } else {
                None
            }
        },
        None => None,
    }
}

pub open spec fn dec_bytes32(b: Seq<u8>, i: int) -> Option<(Seq<u8>, int)> {
    match dec_u32(b, i) {
        Some((len, j)) => {
            if j + len <= b.len() {
                Some((b.subrange(j, j + len), j + len))
            } else {
                None
            }
        },
        None => None,
    }
}

/// A decoded string: `None` on truncation, `Some((None, j))` when the bytes
/// are not valid UTF-8.
pub open spec fn dec_str(b: Seq<u8>, i: int) -> Option<(Option<Seq<char>>, int)> {
    match dec_bytes16(b, i) {
        Some((raw, j)) => {
            if vstd::utf8::valid_utf8(raw) {
                Some((Some(vstd::utf8::decode_utf8(raw)), j))
            } else {
                Some((None, j))
            }
        },
        None => None,
    }
}

// ---------------------------------------------------------------------------
// Round-trip lemmas: decoding an encoding embedded at cursor `i` yields the
// encoded value.
// ---------------------------------------------------------------------------

/// A window into a window of a byte sequence is a window of the original.
pub proof fn lemma_nested_subrange(b: Seq<u8>, i: int, j: int, lo: int, hi: int)
    requires
        0 <= i <= j <= b.len(),
        0 <= lo <= hi <= j - i,
    ensures
        b.subrange(i, j).subrange(lo, hi) == b.subrange(i + lo, i + hi),
{
    assert(b.subrange(i, j).subrange(lo, hi) =~= b.subrange(i + lo, i + hi));
}

/// The two halves of a concatenation, recovered by `subrange`.
pub proof fn lemma_concat_parts(x: Seq<u8>, y: Seq<u8>)
    ensures
        (x + y).subrange(0, x.len() as int) == x,
        (x + y).subrange(x.len() as int, (x + y).len() as int) == y,
{
    assert((x + y).subrange(0, x.len() as int) =~= x);
    assert((x + y).subrange(x.len() as int, (x + y).len() as int) =~= y);
}

/// Splits a window known to hold `x + y` into the window of `x` and the
/// window of `y`.
pub proof fn lemma_split_at(b: Seq<u8>, i: int, x: Seq<u8>, y: Seq<u8>)
    requires
        0 <= i,
        i + x.len() + y.len() <= b.len(),
        b.subrange(i, i + x.len() + y.len()) == x + y,
    ensures
        b.subrange(i, i + x.len() as int) == x,
        b.subrange(i + x.len(), i + x.len() + y.len()) == y,
{
    lemma_concat_parts(x, y);
    lemma_nested_subrange(b, i, i + x.len() + y.len(), 0, x.len() as int);
    lemma_nested_subrange(b, i, i + x.len() + y.len(), x.len() as int, (x.len() + y.len()) as int);
}

pub proof fn lemma_dec_enc_u8(b: Seq<u8>, i: int, v: u8)
    requires
        0 <= i,
        i + 1 <= b.len(),
        b.subrange(i, i + 1) == enc_u8(v),
    ensures
        dec_u8(b, i) == Some((v, i + 1)),
{
    assert(b[i] == enc_u8(v)[0]);
}

pub proof fn lemma_dec_enc_u16(b: Seq<u8>, i: int, v: u16)
    requires
        0 <= i,
        i + 2 <= b.len(),
        b.subrange(i, i + 2) == enc_u16(v),
    ensures
        dec_u16(b, i) == Some((v, i + 2)),
{
    assert(b[i] == enc_u16(v)[0]);
    assert(b[i + 1] == enc_u16(v)[1]);
}

pub proof fn lemma_dec_enc_u32(b: Seq<u8>, i: int, v: u32)
    requires
        0 <= i,
        i + 4 <= b.len(),
        b.subrange(i, i + 4) == enc_u32(v),
    ensures
        dec_u32(b, i) == Some((v, i + 4)),
{
    assert(b[i] == enc_u32(v)[0]);
    assert(b[i + 1] == enc_u32(v)[1]);
    assert(b[i + 2] == enc_u32(v)[2]);
    assert(b[i + 3] == enc_u32(v)[3]);
}

pub proof fn lemma_dec_enc_u64(b: Seq<u8>, i: int, v: u64)
    requires
        0 <= i,
        i + 8 <= b.len(),
        b.subrange(i, i + 8) == enc_u64(v),
    ensures
        dec_u64(b, i) == Some((v, i + 8)),
{
    let hi = (v / 0x100000000) as u32;
    let lo = (v % 0x100000000) as u32;
    lemma_nested_subrange(b, i, i + 8, 0, 4);
    lemma_nested_subrange(b, i, i + 8, 4, 8);
    assert(enc_u64(v).subrange(0, 4) =~= enc_u32(hi));
    assert(enc_u64(v).subrange(4, 8) =~= enc_u32(lo));
    lemma_dec_enc_u32(b, i, hi);
    lemma_dec_enc_u32(b, i + 4, lo);
    assert((hi as u64) * 0x100000000 + (lo as u64) == v);
}

pub proof fn lemma_dec_enc_i16(b: Seq<u8>, i: int, v: i16)
    requires
        0 <= i,
        i + 2 <= b.len(),
        b.subrange(i, i + 2) == enc_i16(v),
    ensures
        dec_i16(b, i) == Some((v, i + 2)),
{
    lemma_dec_enc_u16(b, i, i16_as_u16(v));
    assert(u16_as_i16(i16_as_u16(v)) == v);
}

pub proof fn lemma_dec_enc_bool(b: Seq<u8>, i: int, v: bool)
    requires
        0 <= i,
        i + 1 <= b.len(),
        b.subrange(i, i + 1) == enc_bool(v),
    ensures
        dec_bool(b, i) == Some((v, i + 1)),
{
    lemma_dec_enc_u8(b, i, if v { 1u8 } else { 0u8 });
}

pub proof fn lemma_dec_enc_bytes16(b: Seq<u8>, i: int, data: Seq<u8>)
    requires
        0 <= i,
        data.len() < 0xFFFF,
        i + 2 + data.len() <= b.len(),
        b.subrange(i, i + 2 + data.len()) == enc_bytes16(data),
    ensures
        dec_bytes16(b, i) == Some((data, i + 2 + data.len())),
{
    let n = data.len() as int;
    lemma_nested_subrange(b, i, i + 2 + n, 0, 2);
    lemma_nested_subrange(b, i, i + 2 + n, 2, 2 + n);
    assert(enc_bytes16(data).subrange(0, 2) =~= enc_u16(data.len() as u16));
    assert(enc_bytes16(data).subrange(2, 2 + n) =~= data);
    lemma_dec_enc_u16(b, i, data.len() as u16);
}

pub proof fn lemma_dec_enc_bytes32(b: Seq<u8>, i: int, data: Seq<u8>)
    requires
        0 <= i,
        data.len() < 0xFFFF_FFFF,
        i + 4 + data.len() <= b.len(),
        b.subrange(i, i + 4 + data.len()) == enc_bytes32(data),
    ensures
        dec_bytes32(b, i) == Some((data, i + 4 + data.len())),
{
    let n = data.len() as int;
    lemma_nested_subrange(b, i, i + 4 + n, 0, 4);
    lemma_nested_subrange(b, i, i + 4 + n, 4, 4 + n);
    assert(enc_bytes32(data).subrange(0, 4) =~= enc_u32(data.len() as u32));
    assert(enc_bytes32(data).subrange(4, 4 + n) =~= data);
    lemma_dec_enc_u32(b, i, data.len() as u32);
}

pub proof fn lemma_dec_enc_str(b: Seq<u8>, i: int, s: Seq<char>)
    requires
        0 <= i,
        str_fits(s),
        i + enc_str(s).len() <= b.len(),
        b.subrange(i, i + enc_str(s).len()) == enc_str(s),
    ensures
        dec_str(b, i) == Some((Some(s), i + enc_str(s).len())),
{
    let raw = vstd::utf8::encode_utf8(s);
    lemma_dec_enc_bytes16(b, i, raw);
    vstd::utf8::encode_utf8_valid_utf8(s);
    vstd::utf8::encode_utf8_decode_utf8(s);
}

// ---------------------------------------------------------------------------
// Executable writers
// ---------------------------------------------------------------------------

pub fn write_u8(out: &mut Vec<u8>, v: u8)
    ensures
        final(out)@ == old(out)@ + enc_u8(v),
{
    out.push(v);
    assert(out@ =~= old(out)@ + enc_u8(v));
}

pub fn write_u16(out: &mut Vec<u8>, v: u16)
    ensures
        final(out)@ == old(out)@ + enc_u16(v),
{
    out.push((v / 256) as u8);
    out.push((v % 256) as u8);
    assert(out@ =~= old(out)@ + enc_u16(v));
}

pub fn write_u32(out: &mut Vec<u8>, v: u32)
    ensures
        final(out)@ == old(out)@ + enc_u32(v),
{
    out.push((v / 0x1000000) as u8);
    out.push(((v / 0x10000) % 256) as u8);
    out.push(((v / 256) % 256) as u8);
    out.push((v % 256) as u8);
    assert(out@ =~= old(out)@ + enc_u32(v));
}

pub fn write_u64(out: &mut Vec<u8>, v: u64)
    ensures
        final(out)@ == old(out)@ + enc_u64(v),
{
    write_u32(out, (v / 0x100000000) as u32);
    write_u32(out, (v % 0x100000000) as u32);
    assert(out@ =~= old(out)@ + enc_u64(v));
}

pub fn write_i16(out: &mut Vec<u8>, v: i16)
    ensures
        final(out)@ == old(out)@ + enc_i16(v),
{
    let u: u16 = if v >= 0 {
        v as u16
    } else {
        ((v as i32) + 0x10000) as u16
    };
    assert(u == i16_as_u16(v));
    write_u16(out, u);
}

pub fn write_bool(out: &mut Vec<u8>, v: bool)
    ensures
        final(out)@ == old(out)@ + enc_bool(v),
{
    write_u8(out, if v { 1 } else { 0 });
}

/// Appends a copy of `data` to `out`.
pub fn write_raw(out: &mut Vec<u8>, data: &Vec<u8>)
    ensures
        final(out)@ == old(out)@ + data@,
{
    let n = data.len();
    let mut k: usize = 0;
    assert(out@ =~= old(out)@ + data@.subrange(0, 0));
    while k < n
        invariant
            n == data@.len(),
            k <= n,
            out@ == old(out)@ + data@.subrange(0, k as int),
        decreases n - k,
    {
        out.push(data[k]);
        assert(out@ =~= old(out)@ + data@.subrange(0, k as int + 1));
        k = k + 1;
    }
    assert(data@.subrange(0, n as int) =~= data@);
}

/// Writes a 16-bit length prefix and the blob; fails with `Overflow` when
/// the blob is too long, leaving `out` unchanged.
pub fn write_bytes16(out: &mut Vec<u8>, data: &Vec<u8>) -> (r: Result<(), CodecError>)
    ensures
        match r {
            Ok(()) => data@.len() < 0xFFFF && final(out)@ == old(out)@ + enc_bytes16(data@),
            Err(e) => e == CodecError::Overflow && data@.len() >= 0xFFFF && final(out)@ == old(out)@,
        },
{
    if data.len() >= 0xFFFF {
        return Err(CodecError::Overflow);
    }
    write_u16(out, data.len() as u16);
    write_raw(out, data);
    assert(out@ =~= old(out)@ + enc_bytes16(data@));
    Ok(())
}

/// Writes a 32-bit length prefix and the blob; fails with `Overflow` when
/// the blob is too long, leaving `out` unchanged.
pub fn write_bytes32(out: &mut Vec<u8>, data: &Vec<u8>) -> (r: Result<(), CodecError>)
    ensures
        match r {
            Ok(()) => data@.len() < 0xFFFF_FFFF && final(out)@ == old(out)@ + enc_bytes32(data@),
            Err(e) => e == CodecError::Overflow && data@.len() >= 0xFFFF_FFFF && final(out)@ == old(out)@,
        },
{
    if data.len() >= 0xFFFF_FFFF {
        return Err(CodecError::Overflow);
    }
    write_u32(out, data.len() as u32);
    write_raw(out, data);
    assert(out@ =~= old(out)@ + enc_bytes32(data@));
    Ok(())
}

/// Writes a UTF-8 string with a 16-bit byte-length prefix; fails with
/// `Overflow` when the encoding is too long, leaving `out` unchanged.
pub fn write_str(out: &mut Vec<u8>, s: &String) -> (r: Result<(), CodecError>)
    ensures
        match r {
            Ok(()) => str_fits(s@) && final(out)@ == old(out)@ + enc_str(s@),
            Err(e) => e == CodecError::Overflow && !str_fits(s@) && final(out)@ == old(out)@,
        },
{
    let bytes = vstd::slice::slice_to_vec(s.as_str().as_bytes());
    assert(bytes@ == vstd::utf8::encode_utf8(s@));
    match write_bytes16(out, &bytes) {
        Ok(()) => Ok(()),
        Err(_) => Err(CodecError::Overflow),
    }
}

// ---------------------------------------------------------------------------
// Executable readers
// ---------------------------------------------------------------------------

pub fn read_u8(b: &Vec<u8>, pos: &mut usize) -> (r: Result<u8, CodecError>)
    ensures
        match dec_u8(b@, *old(pos) as int) {
            Some((v, j)) => r == Ok::<u8, CodecError>(v) && *final(pos) == j,
            None => r == Err::<u8, CodecError>(CodecError::Truncated) && *final(pos) == *old(pos),
        },
{
    if *pos < b.len() {
        let v = b[*pos];
        *pos = *pos + 1;
        Ok(v)
    } else {
        Err(CodecError::Truncated)
    }
}

pub fn read_u16(b: &Vec<u8>, pos: &mut usize) -> (r: Result<u16, CodecError>)
    ensures
        match dec_u16(b@, *old(pos) as int) {
            Some((v, j)) => r == Ok::<u16, CodecError>(v) && *final(pos) == j,
            None => r == Err::<u16, CodecError>(CodecError::Truncated) && *final(pos) == *old(pos),
        },
{
    if *pos < b.len() && b.len() - *pos >= 2 {
        let hi = b[*pos];
        let lo = b[*pos + 1];
        *pos = *pos + 2;
        Ok((hi as u16) * 256 + (lo as u16))
    } else {
        Err(CodecError::Truncated)
    }
}

pub fn read_u32(b: &Vec<u8>, pos: &mut usize) -> (r: Result<u32, CodecError>)
    ensures
        match dec_u32(b@, *old(pos) as int) {
            Some((v, j)) => r == Ok::<u32, CodecError>(v) && *final(pos) == j,
            None => r == Err::<u32, CodecError>(CodecError::Truncated) && *final(pos) == *old(pos),
        },
{
    if *pos < b.len() && b.len() - *pos >= 4 {
        let b0 = b[*pos];
        let b1 = b[*pos + 1];
        let b2 = b[*pos + 2];
        let b3 = b[*pos + 3];
        *pos = *pos + 4;
        Ok((b0 as u32) * 0x1000000 + (b1 as u32) * 0x10000 + (b2 as u32) * 256 + (b3 as u32))
    } else {
        Err(CodecError::Truncated)
    }
}

pub fn read_u64(b: &Vec<u8>, pos: &mut usize) -> (r: Result<u64, CodecError>)
    ensures
        match dec_u64(b@, *old(pos) as int) {
            Some((v, j)) => r == Ok::<u64, CodecError>(v) && *final(pos) == j,
            None => r == Err::<u64, CodecError>(CodecError::Truncated) && *final(pos) == *old(pos),
        },
{
    if *pos < b.len() && b.len() - *pos >= 8 {
        let hi = read_u32(b, pos).unwrap();
        let lo = read_u32(b, pos).unwrap();
        Ok((hi as u64) * 0x100000000 + (lo as u64))
    } else {
        Err(CodecError::Truncated)
    }
}

pub fn read_i16(b: &Vec<u8>, pos: &mut usize) -> (r: Result<i16, CodecError>)
    ensures
        match dec_i16(b@, *old(pos) as int) {
            Some((v, j)) => r == Ok::<i16, CodecError>(v) && *final(pos) == j,
            None => r == Err::<i16, CodecError>(CodecError::Truncated) && *final(pos) == *old(pos),
        },
{
    match read_u16(b, pos) {
        Ok(u) => {
            if u < 0x8000 {
                Ok(u as i16)
            } else {
                Ok(((u as i32) - 0x10000) as i16)
            }
        },
        Err(e) => Err(e),
    }
}

pub fn read_bool(b: &Vec<u8>, pos: &mut usize) -> (r: Result<bool, CodecError>)
    ensures
        match dec_bool(b@, *old(pos) as int) {
            Some((v, j)) => r == Ok::<bool, CodecError>(v) && *final(pos) == j,
            None => r == Err::<bool, CodecError>(CodecError::Truncated) && *final(pos) == *old(
                pos,
            ),
        },
{
    match read_u8(b, pos) {
        Ok(v) => Ok(v != 0),
        Err(e) => Err(e),
    }
}

/// Copies `n` bytes from the cursor, advancing it; fails with `Truncated`
/// when fewer remain.
pub fn read_raw(b: &Vec<u8>, pos: &mut usize, n: usize) -> (r: Result<Vec<u8>, CodecError>)
    ensures
        match r {
            Ok(data) => *old(pos) + n <= b@.len() && data@ == b@.subrange(
                *old(pos) as int,
                *old(pos) + n,
            ) && *final(pos) == *old(pos) + n,
            Err(e) => e == CodecError::Truncated && *old(pos) + n > b@.len() && *final(pos) == *old(
                pos,
            ),
        },
{
    let blen = b.len();
    if *pos > blen || blen - *pos < n {
        return Err(CodecError::Truncated);
    }
    let start = *pos;
    let mut data: Vec<u8> = Vec::new();
    let mut k: usize = 0;
    assert(data@ =~= b@.subrange(start as int, start as int));
    while k < n
        invariant
            blen == b@.len(),
            start + n <= blen,
            k <= n,
            data@ == b@.subrange(start as int, start as int + k as int),
        decreases n - k,
    {
        data.push(b[start + k]);
        assert(data@ =~= b@.subrange(start as int, start as int + k as int + 1));
        k = k + 1;
    }
    *pos = start + n;
    Ok(data)
}

pub fn read_bytes16(b: &Vec<u8>, pos: &mut usize) -> (r: Result<Vec<u8>, CodecError>)
    ensures
        match dec_bytes16(b@, *old(pos) as int) {
            Some((data, j)) => r is Ok && r.unwrap()@ == data && *final(pos) == j,
            None => r == Err::<Vec<u8>, CodecError>(CodecError::Truncated) && *final(pos) == *old(
                pos,
            ),
        },
{
    let saved = *pos;
    match read_u16(b, pos) {
        Ok(len) => {
            match read_raw(b, pos, len as usize) {
                Ok(data) => Ok(data),
                Err(e) => {
                    *pos = saved;
                    Err(e)
                },
            }
        },
        Err(e) => Err(e),
    }
}

pub fn read_bytes32(b: &Vec<u8>, pos: &mut usize) -> (r: Result<Vec<u8>, CodecError>)
    ensures
        match dec_bytes32(b@, *old(pos) as int) {
            Some((data, j)) => r is Ok && r.unwrap()@ == data && *final(pos) == j,
            None => r == Err::<Vec<u8>, CodecError>(CodecError::Truncated) && *final(pos) == *old(
                pos,
            ),
        },
{
    let saved = *pos;
    match read_u32(b, pos) {
        Ok(len) => {
            if len as usize > b.len() {
                *pos = saved;
                return Err(CodecError::Truncated);
            }
            match read_raw(b, pos, len as usize) {
                Ok(data) => Ok(data),
                Err(e) => {
                    *pos = saved;
                    Err(e)
                },
            }
        },
        Err(e) => Err(e),
    }
}

/// Copies the rest of the input from the cursor (a `BytesUnsized` blob).
pub fn read_rest(b: &Vec<u8>, pos: &mut usize) -> (r: Result<Vec<u8>, CodecError>)
    ensures
        match r {
            Ok(data) => *old(pos) <= b@.len() && data@ == b@.subrange(
                *old(pos) as int,
                b@.len() as int,
            ) && *final(pos) == b@.len(),
            Err(e) => e == CodecError::Truncated && *old(pos) > b@.len() && *final(pos) == *old(
                pos,
            ),
        },
{
    if *pos > b.len() {
        return Err(CodecError::Truncated);
    }
    read_raw(b, pos, b.len() - *pos)
}

/// A byte blob serialised with a 16-bit length prefix.
#[derive(Debug, Clone)]
pub struct RawBytes16(pub Vec<u8>);

impl View for RawBytes16 {
    type V = Seq<u8>;

    open spec fn view(&self) -> Seq<u8> {
        self.0@
    }
}

/// A byte blob serialised with a 32-bit length prefix.
#[derive(Debug, Clone)]
pub struct RawBytes32(pub Vec<u8>);

impl View for RawBytes32 {
    type V = Seq<u8>;

    open spec fn view(&self) -> Seq<u8> {
        self.0@
    }
}

/// A byte blob serialised bare; reading consumes the rest of the input.
#[derive(Debug, Clone)]
pub struct RawBytesUnsized(pub Vec<u8>);

impl View for RawBytesUnsized {
    type V = Seq<u8>;

    open spec fn view(&self) -> Seq<u8> {
        self.0@
    }
}

/// Relies on `String::from_utf8`: it succeeds exactly on valid UTF-8 input
/// and decodes it (its documentation names it the inverse of `into_bytes`).
#[verifier::external_body]
pub(crate) fn string_from_utf8(v: Vec<u8>) -> (r: Option<String>)
    ensures
        match r {
            Some(s) => vstd::utf8::valid_utf8(v@) && s@ == vstd::utf8::decode_utf8(v@),
            None => !vstd::utf8::valid_utf8(v@),
        },
{
    String::from_utf8(v).ok()
}

/// The characters that a sequence of UTF-16 code units decodes to, or
/// `None` when the units are not valid UTF-16. Names the result of
/// `String::from_utf16`, which depends on the code units alone.
pub uninterp spec fn utf16_of(units: Seq<u16>) -> Option<Seq<char>>;

/// Relies on `String::from_utf16`: it succeeds exactly on valid UTF-16.
#[verifier::external_body]
pub(crate) fn string_from_utf16(units: &Vec<u16>) -> (r: Option<String>)
    ensures
        match r {
            Some(s) => utf16_of(units@) == Some(s@),
            None => utf16_of(units@) is None,
        },
{
    String::from_utf16(units.as_slice()).ok()
}

/// A run of `n` big-endian 16-bit values.
pub open spec fn dec_u16_seq(b: Seq<u8>, i: int, n: nat) -> Option<(Seq<u16>, int)>
    decreases n,
{
    if n == 0 {
        Some((Seq::<u16>::empty(), i))
    } else {
        match dec_u16(b, i) {
            None => None,
            Some((v, j)) => match dec_u16_seq(b, j, (n - 1) as nat) {
                None => None,
                Some((rest, k)) => Some((seq![v] + rest, k)),
            },
        }
    }
}

/// A UTF-16 string: a u16 count of code units, then the units, big-endian.
pub open spec fn dec_wide_str(b: Seq<u8>, i: int) -> Result<(Seq<char>, int), CodecError> {
    match dec_u16(b, i) {
        None => Err(CodecError::Truncated),
        Some((n, j)) => match dec_u16_seq(b, j, n as nat) {
            None => Err(CodecError::Truncated),
            Some((units, k)) => match utf16_of(units) {
                None => Err(CodecError::Encoding),
                Some(s) => Ok((s, k)),
            },
        },
    }
}

pub(crate) fn read_u16_run(b: &Vec<u8>, pos: &mut usize, n: u16) -> (r: Result<Vec<u16>, CodecError>)
    ensures
        match dec_u16_seq(b@, *old(pos) as int, n as nat) {
            Some((xs, j)) => r is Ok && r.unwrap()@ == xs && *final(pos) == j,
            None => r == Err::<Vec<u16>, CodecError>(CodecError::Truncated),
        },
{
    let ghost j0 = *pos as int;
    let mut items: Vec<u16> = Vec::new();
    let mut k: u16 = 0;
    proof {
        match dec_u16_seq(b@, j0, n as nat) {
            Some((rest, _)) => {
                assert(Seq::<u16>::empty() + rest =~= rest);
            },
            None => {},
        }
        assert(items@ =~= Seq::<u16>::empty());
    }
    while k < n
        invariant
            k <= n,
            items@.len() == k,
            j0 == *old(pos) as int,
            dec_u16_seq(b@, j0, n as nat) == (match dec_u16_seq(b@, *pos as int, (n - k) as nat) {
                Some((rest, e)) => Some::<(Seq<u16>, int)>((items@ + rest, e)),
                None => None::<(Seq<u16>, int)>,
            }),
        decreases n - k,
    {
        let ghost items_before = items@;
        let v = match read_u16(b, pos) {
            Ok(v) => v,
            Err(e) => {
                return Err(e);
            },
        };
        items.push(v);
        k = k + 1;
        proof {
            assert(items@ =~= items_before + seq![v]);
            match dec_u16_seq(b@, *pos as int, (n - k) as nat) {
                Some((rest, _)) => {
                    assert((items_before + seq![v]) + rest =~= items_before + (seq![v] + rest));
                },
                None => {},
            }
        }
    }
    proof {
        assert(items@ + Seq::<u16>::empty() =~= items@);
    }
    Ok(items)
}

/// Reads a UTF-16 string with a u16 count of code units.
pub fn read_wide_str(b: &Vec<u8>, pos: &mut usize) -> (r: Result<String, CodecError>)
    ensures
        match dec_wide_str(b@, *old(pos) as int) {
            Ok((s, j)) => r is Ok && r.unwrap()@ == s && *final(pos) == j,
            Err(e) => r == Err::<String, CodecError>(e),
        },
{
    let n = match read_u16(b, pos) {
        Ok(v) => v,
        Err(e) => {
            return Err(e);
        },
    };
    let units = match read_u16_run(b, pos, n) {
        Ok(v) => v,
        Err(e) => {
            return Err(e);
        },
    };
    match string_from_utf16(&units) {
        Some(s) => Ok(s),
        None => Err(CodecError::Encoding),
    }
}

pub fn read_str(b: &Vec<u8>, pos: &mut usize) -> (r: Result<String, CodecError>)
    ensures
        match dec_str(b@, *old(pos) as int) {
            Some((Some(s), j)) => r is Ok && r.unwrap()@ == s && *final(pos) == j,
            Some((None, j)) => r == Err::<String, CodecError>(CodecError::Encoding) && *final(pos)
                == j,
            None => r == Err::<String, CodecError>(CodecError::Truncated) && *final(pos) == *old(
                pos,
            ),
        },
{
    match read_bytes16(b, pos) {
        Ok(raw) => {
            match string_from_utf8(raw) {
                Some(s) => Ok(s),
                None => Err(CodecError::Encoding),
            }
        },
        Err(e) => Err(e),
    }
}

} // verus!
