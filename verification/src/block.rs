//! Map blocks: the 16x16x16 unit of map streaming. The wire form is a
//! zstd stream followed by one legacy uncompressed byte; the decompressed
//! payload is a small header and four 4096-byte node-data planes.

use crate::codec::{
    dec_u16, dec_u8, enc_u16, enc_u8, lemma_dec_enc_u16, lemma_dec_enc_u8, lemma_split_at,
    read_raw, read_u16, read_u8, write_raw, write_u16, write_u8,
};
use crate::compress::{zstd_decompress, zstd_inflate_of};
use vstd::prelude::*;

verus! {

/// Edge length of a block, in nodes.
pub const BLOCK_SIZE: usize = 16;

/// Nodes in a block.
pub const BLOCK_VOLUME: usize = 4096;

/// Bytes of node data in a block: two id planes, param1, param2.
pub const NODE_DATA_LEN: usize = 16384;

/// One voxel: an id into the game definitions and two parameter bytes.
#[derive(Debug, Clone, Copy, PartialEq, Eq, Structural)]
pub struct Node {
    pub id: u16,
    pub param1: u8,
    pub param2: u8,
}

/// Failure modes of block decoding.
#[derive(Debug, Clone, Copy, PartialEq, Eq, Structural)]
pub enum BlockError {
    /// The wire payload was empty or the header incomplete.
    Truncated,
    /// The zstd stream did not decompress.
    Decompress,
    /// The content or parameter width was not 2.
    InvalidBlock,
}

/// A decoded block: 16384 bytes of packed node data.
#[derive(Debug, Clone)]
pub struct Block {
    pub node_data: Vec<u8>,
}

/// The decompressed serialisation of a block: flags, lighting-complete,
/// both widths fixed at 2, then the node data.
pub open spec fn enc_block_inner(flags: u8, lighting: u16, data: Seq<u8>) -> Seq<u8> {
    enc_u8(flags) + enc_u16(lighting) + enc_u8(2) + enc_u8(2) + data
}

/// Decodes the decompressed serialisation: `None` stands for a short
/// input, `Some(Err(...))` for a bad width.
pub open spec fn dec_block_inner(d: Seq<u8>) -> Result<Seq<u8>, BlockError> {
    match dec_u8(d, 0) {
        None => Err(BlockError::Truncated),
        Some((_flags, i)) => match dec_u16(d, i) {
            None => Err(BlockError::Truncated),
            Some((_lighting, i)) => match dec_u8(d, i) {
                None => Err(BlockError::Truncated),
                Some((content_width, i)) => match dec_u8(d, i) {
                    None => Err(BlockError::Truncated),
                    Some((params_width, i)) => {
                        if content_width != 2 || params_width != 2 {
                            Err(BlockError::InvalidBlock)
                        } else if i + NODE_DATA_LEN <= d.len() {
                            Ok(d.subrange(i, i + NODE_DATA_LEN))
                        } else {
                            Err(BlockError::Truncated)
                        }
                    },
                },
            },
        },
    }
}

/// The node at `index` of packed node data.
pub open spec fn node_at(data: Seq<u8>, index: int) -> Node {
    Node {
        id: ((data[2 * index] as u16) * 256 + (data[2 * index + 1] as u16)) as u16,
        param1: data[2 * 4096 + index],
        param2: data[3 * 4096 + index],
    }
}

impl Block {
    /// A block is 16384 bytes of node data.
    pub open spec fn wf(&self) -> bool {
        self.node_data@.len() == NODE_DATA_LEN
    }

    /// Decodes the wire payload of a BlockData message: strips the final
    /// legacy uncompressed byte, decompresses the rest and parses the
    /// fixed-width header and node data.
    pub fn decode(payload: &Vec<u8>) -> (r: Result<Block, BlockError>)
        ensures
            payload@.len() == 0 ==> r == Err::<Block, BlockError>(BlockError::Truncated),
            payload@.len() > 0 ==> match zstd_inflate_of(
                payload@.subrange(0, payload@.len() - 1),
            ) {
                None => r == Err::<Block, BlockError>(BlockError::Decompress),
                Some(d) => match dec_block_inner(d) {
                    Ok(data) => r is Ok && r.unwrap().node_data@ == data && r.unwrap().wf(),
                    Err(e) => r == Err::<Block, BlockError>(e),
                },
            },
    {
        if payload.len() == 0 {
            return Err(BlockError::Truncated);
        }
        let stripped = crate::transport::copy_range(payload, 0, payload.len() - 1);
        let d = match zstd_decompress(&stripped) {
            Some(d) => d,
            None => {
                return Err(BlockError::Decompress);
            },
        };
        let mut pos: usize = 0;
        let _flags = match read_u8(&d, &mut pos) {
            Ok(v) => v,
            Err(_) => {
                return Err(BlockError::Truncated);
            },
        };
        let _lighting = match read_u16(&d, &mut pos) {
            Ok(v) => v,
            Err(_) => {
                return Err(BlockError::Truncated);
            },
        };
        let content_width = match read_u8(&d, &mut pos) {
            Ok(v) => v,
            Err(_) => {
                return Err(BlockError::Truncated);
            },
        };
        let params_width = match read_u8(&d, &mut pos) {
            Ok(v) => v,
            Err(_) => {
                return Err(BlockError::Truncated);
            },
        };
        if content_width != 2 || params_width != 2 {
            return Err(BlockError::InvalidBlock);
        }
        let node_data = match read_raw(&d, &mut pos, NODE_DATA_LEN) {
            Ok(v) => v,
            Err(_) => {
                return Err(BlockError::Truncated);
            },
        };
        Ok(Block { node_data })
    }

    /// Serialises the decompressed form with zero flags and a fully-lit
    /// lighting marker; the inverse of `dec_block_inner`.
    pub fn encode_inner(&self) -> (r: Vec<u8>)
        requires
            self.wf(),
        ensures
            r@ == enc_block_inner(0, 0xFFFF, self.node_data@),
    {
        let mut out: Vec<u8> = Vec::new();
        write_u8(&mut out, 0);
        write_u16(&mut out, 0xFFFF);
        write_u8(&mut out, 2);
        write_u8(&mut out, 2);
        write_raw(&mut out, &self.node_data);
        proof {
            assert(out@ =~= enc_block_inner(0, 0xFFFF, self.node_data@));
        }
        out
    }

    /// The node at `(x, y, z)`: id from the two id planes, parameters from
    /// the two parameter planes.
    pub fn node(&self, x: usize, y: usize, z: usize) -> (r: Node)
        requires
            self.wf(),
            x < BLOCK_SIZE,
            y < BLOCK_SIZE,
            z < BLOCK_SIZE,
        ensures
            r == node_at(self.node_data@, z * 256 + y * 16 + x),
    {
        let index = z * BLOCK_SIZE * BLOCK_SIZE + y * BLOCK_SIZE + x;
        let id_hi = self.node_data[2 * index];
        let id_lo = self.node_data[2 * index + 1];
        let param1 = self.node_data[2 * BLOCK_VOLUME + index];
        let param2 = self.node_data[3 * BLOCK_VOLUME + index];
        Node { id: (id_hi as u16) * 256 + (id_lo as u16), param1, param2 }
    }
}

/// Round trip of the decompressed block serialisation: decoding an encoded
/// block yields its node data.
pub proof fn lemma_block_inner_round_trip(flags: u8, lighting: u16, data: Seq<u8>)
    requires
        data.len() == NODE_DATA_LEN,
    ensures
        dec_block_inner(enc_block_inner(flags, lighting, data)) == Ok::<Seq<u8>, BlockError>(data),
{
    let b = enc_block_inner(flags, lighting, data);
    let f1 = enc_u8(flags);
    let f2 = enc_u16(lighting);
    let f3 = enc_u8(2);
    let f4 = enc_u8(2);
    assert(b.subrange(0, b.len() as int) =~= b);
    lemma_split_at(b, 0, f1 + f2 + f3 + f4, data);
    lemma_split_at(b, 0, f1 + f2 + f3, f4);
    lemma_split_at(b, 0, f1 + f2, f3);
    lemma_split_at(b, 0, f1, f2);
    lemma_dec_enc_u8(b, 0, flags);
    lemma_dec_enc_u16(b, 1, lighting);
    lemma_dec_enc_u8(b, 3, 2);
    lemma_dec_enc_u8(b, 4, 2);
}

} // verus!
