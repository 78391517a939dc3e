//! Schematic files: a magic header, the three-axis size, a name mapping
//! and a zlib-compressed node volume. Reading the file from disk is the
//! host's business; this decoder works on the bytes.

use crate::codec::{dec_u16, dec_u32, read_str, read_u16, read_u32, CodecError};
use crate::compress::zlib_decompress;
use crate::block::Node;
use crate::math::Vector3u16;
use vstd::prelude::*;

verus! {

/// Magic number at the head of a schematic.
pub const SCHEMATIC_MAGIC: u32 = 0x4D54534D;

/// The only supported schematic version.
pub const SCHEMATIC_VERSION: u16 = 4;

/// Bytes per node in the packed volume.
pub const BYTES_PER_NODE: usize = 4;

/// Failure modes of schematic decoding.
#[derive(Debug, Clone, Copy, PartialEq, Eq, Structural)]
pub enum SchematicError {
    /// The magic number did not match.
    BadMagic,
    /// The version is unsupported.
    BadVersion,
    /// A field failed to decode.
    Codec(CodecError),
    /// The node volume did not decompress or was short.
    BadVolume,
}

/// A decoded schematic: the packed node volume and the id-to-name mapping.
pub struct Schematic {
    pub node_data: Vec<u8>,
    pub mappings: Vec<String>,
    pub size: Vector3u16,
}

impl Schematic {
    /// Nodes in the volume.
    pub open spec fn spec_volume(&self) -> int {
        self.size.x * self.size.y * self.size.z
    }

    /// The node data covers the whole volume, four planes deep.
    pub open spec fn wf(&self) -> bool {
        self.node_data@.len() == BYTES_PER_NODE * self.spec_volume()
    }

    /// Decodes a schematic blob: magic, version 4, size, the per-level
    /// placement probabilities (skipped), the name mapping, then the
    /// zlib-compressed node volume.
    pub fn new(data: &Vec<u8>) -> (r: Result<Schematic, SchematicError>)
        ensures
            r == Err::<Schematic, SchematicError>(SchematicError::BadMagic) <==> (dec_u32(
                data@,
                0,
            ) matches Some((m, _)) && m != SCHEMATIC_MAGIC),
            r == Err::<Schematic, SchematicError>(SchematicError::BadVersion) <==> (dec_u32(
                data@,
                0,
            ) == Some::<(u32, int)>((SCHEMATIC_MAGIC, 4)) && (dec_u16(data@, 4) matches Some(
                (v, _),
            ) && v != SCHEMATIC_VERSION)),
            r is Ok ==> {
                let s = r.unwrap();
                &&& s.wf()
                &&& dec_u32(data@, 0) == Some::<(u32, int)>((SCHEMATIC_MAGIC, 4))
                &&& dec_u16(data@, 4) == Some::<(u16, int)>((SCHEMATIC_VERSION, 6))
                &&& dec_u16(data@, 6) matches Some((sx, _)) && sx == s.size.x
                &&& dec_u16(data@, 8) matches Some((sy, _)) && sy == s.size.y
                &&& dec_u16(data@, 10) matches Some((sz, _)) && sz == s.size.z
                &&& dec_u16(data@, 12 + s.size.y) matches Some((mc, _)) && mc
                    == s.mappings@.len()
            },
    {
        let mut pos: usize = 0;
        let magic = match read_u32(data, &mut pos) {
            Ok(v) => v,
            Err(e) => {
                return Err(SchematicError::Codec(e));
            },
        };
        if magic != SCHEMATIC_MAGIC {
            return Err(SchematicError::BadMagic);
        }
        let version = match read_u16(data, &mut pos) {
            Ok(v) => v,
            Err(e) => {
                return Err(SchematicError::Codec(e));
            },
        };
        if version != SCHEMATIC_VERSION {
            return Err(SchematicError::BadVersion);
        }
        let sx = match read_u16(data, &mut pos) {
            Ok(v) => v,
            Err(e) => {
                return Err(SchematicError::Codec(e));
            },
        };
        let sy = match read_u16(data, &mut pos) {
            Ok(v) => v,
            Err(e) => {
                return Err(SchematicError::Codec(e));
            },
        };
        let sz = match read_u16(data, &mut pos) {
            Ok(v) => v,
            Err(e) => {
                return Err(SchematicError::Codec(e));
            },
        };
        let size = Vector3u16 { x: sx, y: sy, z: sz };
        // One placement probability byte per Y level, not used here.
        if data.len() < pos || data.len() - pos < sy as usize {
            return Err(SchematicError::Codec(CodecError::Truncated));
        }
        pos = pos + sy as usize;
        let mapping_count = match read_u16(data, &mut pos) {
            Ok(v) => v,
            Err(e) => {
                return Err(SchematicError::Codec(e));
            },
        };
        let mut mappings: Vec<String> = Vec::new();
        let mut k: u16 = 0;
        while k < mapping_count
            invariant
                pos <= data@.len(),
                mappings@.len() == k,
                k <= mapping_count,
                dec_u32(data@, 0) == Some::<(u32, int)>((SCHEMATIC_MAGIC, 4)),
                dec_u16(data@, 4) == Some::<(u16, int)>((SCHEMATIC_VERSION, 6)),
                dec_u16(data@, 6) matches Some((x, _)) && x == sx,
                dec_u16(data@, 8) matches Some((y, _)) && y == sy,
                dec_u16(data@, 10) matches Some((z, _)) && z == sz,
                dec_u16(data@, 12 + sy) matches Some((mc, _)) && mc == mapping_count,
            decreases mapping_count - k,
        {
            let name = match read_str(data, &mut pos) {
                Ok(v) => v,
                Err(e) => {
                    return Err(SchematicError::Codec(e));
                },
            };
            mappings.push(name);
            k = k + 1;
        }
        let compressed = crate::transport::copy_range(data, pos, data.len());
        let volume_bytes = match zlib_decompress(&compressed) {
            Some(v) => v,
            None => {
                return Err(SchematicError::BadVolume);
            },
        };
        proof {
            lemma_volume_fits(sx as int, sy as int, sz as int);
        }
        let volume64 = (sx as u64) * (sy as u64) * (sz as u64);
        proof {
            assert(4 * volume64 <= 4 * 0xFFFF * 0xFFFF * 0xFFFF) by (nonlinear_arith)
                requires
                    0 <= volume64 <= 0xFFFF * 0xFFFF * 0xFFFF,
            ;
        }
        let needed64 = (BYTES_PER_NODE as u64) * volume64;
        if (volume_bytes.len() as u64) < needed64 {
            return Err(SchematicError::BadVolume);
        }
        let needed = needed64 as usize;
        let node_data = crate::transport::copy_range(&volume_bytes, 0, needed);
        Ok(Schematic { node_data, mappings, size })
    }

    /// The node at a coordinate of the volume: id from the two id planes,
    /// parameters from the parameter planes.
    pub fn node(&self, position: Vector3u16) -> (r: Node)
        requires
            self.wf(),
            position.x < self.size.x,
            position.y < self.size.y,
            position.z < self.size.z,
    {
        let len = self.node_data.len();
        proof {
            lemma_volume_fits(self.size.x as int, self.size.y as int, self.size.z as int);
            lemma_schematic_index_in_volume(
                self.size.x as int,
                self.size.y as int,
                self.size.z as int,
                position.x as int,
                position.y as int,
                position.z as int,
            );
        }
        let volume64 = (self.size.x as u64) * (self.size.y as u64) * (self.size.z as u64);
        let index64 = (position.z as u64) * ((self.size.y as u64) * (self.size.x as u64)) + (
        position.y as u64) * (self.size.x as u64) + (position.x as u64);
        let volume = volume64 as usize;
        let index = index64 as usize;
        let id_hi = self.node_data[2 * index];
        let id_lo = self.node_data[2 * index + 1];
        let param1 = self.node_data[2 * volume + index];
        let param2 = self.node_data[3 * volume + index];
        Node { id: (id_hi as u16) * 256 + (id_lo as u16), param1, param2 }
    }

    /// The canonical name mapped to a node id, when the mapping holds one.
    pub fn node_name(&self, id: u16) -> (r: Option<&String>)
        ensures
            r is Some <==> (id as int) < self.mappings@.len(),
            match r {
                Some(name) => name@ == self.mappings@[id as int]@,
                None => true,
            },
    {
        if (id as usize) < self.mappings.len() {
            Some(&self.mappings[id as usize])
        } else {
            None
        }
    }
}

/// Three 16-bit extents multiply without overflowing 64 bits.
proof fn lemma_volume_fits(sx: int, sy: int, sz: int)
    by (nonlinear_arith)
    requires
        0 <= sx <= 0xFFFF,
        0 <= sy <= 0xFFFF,
        0 <= sz <= 0xFFFF,
    ensures
        0 <= sx * sy * sz <= 0xFFFF * 0xFFFF * 0xFFFF,
        sy * sx <= 0xFFFF * 0xFFFF,
{
}

/// A coordinate inside the volume indexes inside every plane.
proof fn lemma_schematic_index_in_volume(sx: int, sy: int, sz: int, x: int, y: int, z: int)
    by (nonlinear_arith)
    requires
        0 <= x < sx <= 0xFFFF,
        0 <= y < sy <= 0xFFFF,
        0 <= z < sz <= 0xFFFF,
    ensures
        0 <= z * (sy * sx) + y * sx + x,
        z * (sy * sx) + y * sx + x < sx * sy * sz,
        sx * sy * sz <= 0xFFFF * 0xFFFF * 0xFFFF,
{
}

} // verus!
