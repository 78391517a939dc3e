//! Game definitions: the node registry decoded from the zlib-compressed
//! blob the server sends once per session. Every reader is bounded and
//! total: a malformed blob yields an error, never a panic, and the
//! per-record length prefix bounds each record's inner cursor, so trailing
//! bytes after a record (or after the declared count) are ignored.

use crate::codec::{
    dec_bool, dec_i16, dec_str, dec_u16, dec_u32, dec_u8, read_bool, read_i16, read_str, read_u16,
    read_u32, read_u8, CodecError,
};
use crate::math::dec_vector3;
use crate::compress::{zlib_decompress, zlib_inflate_of};
use crate::math::Aabb;
use vstd::prelude::*;

verus! {

/// Bit set when a tile carries a colour.
pub const TILE_FLAG_HAS_COLOR: u16 = 8;

/// Bit set when a tile carries a scale byte.
pub const TILE_FLAG_HAS_SCALE: u16 = 16;

/// Bit set when a tile carries an alignment byte.
pub const TILE_FLAG_HAS_ALIGNMENT: u16 = 32;

/// Failure modes of node-definition decoding.
#[derive(Debug, Clone, Copy, PartialEq, Eq, Structural)]
pub enum NodeDefError {
    /// The blob did not decompress.
    Decompress,
    /// The registry blob version is unsupported.
    BadVersion,
    /// A node record's version is below 13.
    BadRecordVersion,
    /// A tile's version is below 6.
    BadTileVersion,
    /// A tile count other than 6.
    BadTileCount,
    /// A field failed to decode.
    Codec(CodecError),
}

#[derive(Debug, Clone, Copy, PartialEq, Eq, Structural)]
pub struct Rgb {
    pub r: u8,
    pub g: u8,
    pub b: u8,
}

#[derive(Debug, Clone, Copy, PartialEq, Eq, Structural)]
pub struct Argb {
    pub a: u8,
    pub r: u8,
    pub g: u8,
    pub b: u8,
}

#[derive(Debug, Clone, Copy, PartialEq, Eq, Structural)]
pub enum TileAnimation {
    Still,
    VerticalFrames { aspect_w: u16, aspect_h: u16, length: u32 },
    Sheet { frames_w: u8, frames_h: u8, length: u32 },
}

#[derive(Debug, Clone, Copy, PartialEq, Eq, Structural)]
pub enum Alignment {
    Unaligned,
    World,
    UserDefined,
}

#[derive(Debug, Clone)]
pub struct Tile {
    pub name: String,
    pub animation: TileAnimation,
    pub flags: u16,
    pub color: Option<Rgb>,
    pub scale: u8,
    pub alignment: Alignment,
}

pub struct TileV {
    pub name: Seq<char>,
    pub animation: TileAnimation,
    pub flags: u16,
    pub color: Option<Rgb>,
    pub scale: u8,
    pub alignment: Alignment,
}

impl View for Tile {
    type V = TileV;

    open spec fn view(&self) -> TileV {
        TileV {
            name: self.name@,
            animation: self.animation,
            flags: self.flags,
            color: self.color,
            scale: self.scale,
            alignment: self.alignment,
        }
    }
}

impl DeepView for Tile {
    type V = TileV;

    open spec fn deep_view(&self) -> TileV {
        self@
    }
}

#[derive(Debug, Clone, Copy, PartialEq, Eq, Structural)]
pub struct Lighting {
    pub light_propagates: bool,
    pub sunlight_propagates: bool,
    pub light_source: u8,
}

#[derive(Debug, Clone, Copy, PartialEq, Eq, Structural)]
pub struct Interaction {
    pub walkable: bool,
    pub pointable: bool,
    pub diggable: bool,
    pub climbable: bool,
    pub buildable_to: bool,
    pub rightclickable: bool,
    pub damage_per_second: u32,
}

#[derive(Debug, Clone)]
pub struct Liquid {
    pub ty: u8,
    pub alternative_flowing: String,
    pub alternative_source: String,
    pub viscosity: u8,
    pub renewable: bool,
    pub range: u8,
    pub drowning: u8,
    pub floodable: bool,
}

#[derive(Debug, Clone)]
pub struct Boxes {
    pub boxes: Vec<Aabb>,
}

#[derive(Debug, Clone)]
pub struct NodeBoxConnectors {
    pub top: Boxes,
    pub bottom: Boxes,
    pub front: Boxes,
    pub left: Boxes,
    pub back: Boxes,
    pub right: Boxes,
}

#[derive(Debug, Clone)]
pub enum NodeBox {
    Regular,
    Leveled(Boxes),
    Fixed(Boxes),
    WallMounted { top: Aabb, bottom: Aabb, side: Aabb },
    Connected {
        connected: Boxes,
        connectors: NodeBoxConnectors,
        disconnected_connectors: NodeBoxConnectors,
        disconnected: Boxes,
        disconnected_sides: Boxes,
    },
}

/// A sound reference; gain, pitch and fade are float bit patterns.
#[derive(Debug, Clone)]
pub struct Sound {
    pub name: String,
    pub gain: u32,
    pub pitch: u32,
    pub fade: u32,
}

#[derive(Debug, Clone)]
pub struct Sounds {
    pub footstep: Sound,
    pub dig: Sound,
    pub dug: Sound,
}

/// The 18 ways a node can render.
#[derive(Debug, Clone, Copy, PartialEq, Eq, Structural)]
pub enum DrawType {
    Normal,
    AirLike,
    Liquid,
    FlowingLiquid,
    GlassLike,
    AllFaces,
    AllFacesOptional,
    TorchLike,
    SignLike,
    PlantLike,
    FenceLike,
    RailLike,
    NodeBox,
    GlassLikeFramed,
    FireLike,
    GlassLikeFramedOptional,
    Mesh,
    PlantLikeRooted,
}

/// The draw type of a one-byte code below 18.
pub open spec fn draw_type_of(t: u8) -> DrawType {
    if t == 0 {
        DrawType::Normal
    } else if t == 1 {
        DrawType::AirLike
    } else if t == 2 {
        DrawType::Liquid
    } else if t == 3 {
        DrawType::FlowingLiquid
    } else if t == 4 {
        DrawType::GlassLike
    } else if t == 5 {
        DrawType::AllFaces
    } else if t == 6 {
        DrawType::AllFacesOptional
    } else if t == 7 {
        DrawType::TorchLike
    } else if t == 8 {
        DrawType::SignLike
    } else if t == 9 {
        DrawType::PlantLike
    } else if t == 10 {
        DrawType::FenceLike
    } else if t == 11 {
        DrawType::RailLike
    } else if t == 12 {
        DrawType::NodeBox
    } else if t == 13 {
        DrawType::GlassLikeFramed
    } else if t == 14 {
        DrawType::FireLike
    } else if t == 15 {
        DrawType::GlassLikeFramedOptional
    } else if t == 16 {
        DrawType::Mesh
    } else {
        DrawType::PlantLikeRooted
    }
}

pub open spec fn dec_draw_type_s(b: Seq<u8>, i: int) -> Result<(DrawType, int), NodeDefError> {
    match dec_u8(b, i) {
        None => Err(NodeDefError::Codec(CodecError::Truncated)),
        Some((t, j)) => {
            if t <= 17 {
                Ok((draw_type_of(t), j))
            } else {
                Err(NodeDefError::Codec(CodecError::UnknownVariant { value: t as u16 }))
            }
        },
    }
}

pub open spec fn dec_alignment_s(b: Seq<u8>, i: int) -> Result<(Alignment, int), NodeDefError> {
    match dec_u8(b, i) {
        None => Err(NodeDefError::Codec(CodecError::Truncated)),
        Some((t, j)) => {
            if t == 0 {
                Ok((Alignment::Unaligned, j))
            } else if t == 1 {
                Ok((Alignment::World, j))
            } else if t == 2 {
                Ok((Alignment::UserDefined, j))
            } else {
                Err(NodeDefError::Codec(CodecError::UnknownVariant { value: t as u16 }))
            }
        },
    }
}

pub open spec fn dec_tile_animation_s(b: Seq<u8>, i: int) -> Result<
    (TileAnimation, int),
    NodeDefError,
> {
    match dec_u8(b, i) {
        None => Err(NodeDefError::Codec(CodecError::Truncated)),
        Some((t, j)) => {
            if t == 0 {
                Ok((TileAnimation::Still, j))
            } else if t == 1 {
                match dec_u16(b, j) {
                    None => Err(NodeDefError::Codec(CodecError::Truncated)),
                    Some((aspect_w, j)) => match dec_u16(b, j) {
                        None => Err(NodeDefError::Codec(CodecError::Truncated)),
                        Some((aspect_h, j)) => match dec_u32(b, j) {
                            None => Err(NodeDefError::Codec(CodecError::Truncated)),
                            Some((length, j)) => Ok(
                                (TileAnimation::VerticalFrames { aspect_w, aspect_h, length }, j),
                            ),
                        },
                    },
                }
            } else if t == 2 {
                match dec_u8(b, j) {
                    None => Err(NodeDefError::Codec(CodecError::Truncated)),
                    Some((frames_w, j)) => match dec_u8(b, j) {
                        None => Err(NodeDefError::Codec(CodecError::Truncated)),
                        Some((frames_h, j)) => match dec_u32(b, j) {
                            None => Err(NodeDefError::Codec(CodecError::Truncated)),
                            Some((length, j)) => Ok(
                                (TileAnimation::Sheet { frames_w, frames_h, length }, j),
                            ),
                        },
                    },
                }
            } else {
                Err(NodeDefError::Codec(CodecError::UnknownVariant { value: t as u16 }))
            }
        },
    }
}

/// One tile descriptor: version, name, animation, flags, then the fields
/// the flags announce.
pub open spec fn dec_tile_s(b: Seq<u8>, i: int) -> Result<(TileV, int), NodeDefError> {
    match dec_u8(b, i) {
        None => Err(NodeDefError::Codec(CodecError::Truncated)),
        Some((version, j)) => {
            if version < 6 {
                Err(NodeDefError::BadTileVersion)
            } else {
                match dec_str(b, j) {
                    None => Err(NodeDefError::Codec(CodecError::Truncated)),
                    Some((None, _)) => Err(NodeDefError::Codec(CodecError::Encoding)),
                    Some((Some(name), j)) => match dec_tile_animation_s(b, j) {
                        Err(e) => Err(e),
                        Ok((animation, j)) => match dec_u16(b, j) {
                            None => Err(NodeDefError::Codec(CodecError::Truncated)),
                            Some((flags, j)) => match dec_tile_color(b, j, flags) {
                                Err(e) => Err(e),
                                Ok((color, j)) => match dec_tile_scale(b, j, flags) {
                                    Err(e) => Err(e),
                                    Ok((scale, j)) => match dec_tile_alignment(b, j, flags) {
                                        Err(e) => Err(e),
                                        Ok((alignment, j)) => Ok(
                                            (
                                                TileV {
                                                    name,
                                                    animation,
                                                    flags,
                                                    color,
                                                    scale,
                                                    alignment,
                                                },
                                                j,
                                            ),
                                        ),
                                    },
                                },
                            },
                        },
                    },
                }
            }
        },
    }
}

pub open spec fn dec_tile_color(b: Seq<u8>, i: int, flags: u16) -> Result<
    (Option<Rgb>, int),
    NodeDefError,
> {
    if flags & TILE_FLAG_HAS_COLOR != 0 {
        if i + 3 <= b.len() && 0 <= i {
            Ok((Some(Rgb { r: b[i], g: b[i + 1], b: b[i + 2] }), i + 3))
        } else {
            Err(NodeDefError::Codec(CodecError::Truncated))
        }
    } else {
        Ok((None::<Rgb>, i))
    }
}

pub open spec fn dec_tile_scale(b: Seq<u8>, i: int, flags: u16) -> Result<
    (u8, int),
    NodeDefError,
> {
    if flags & TILE_FLAG_HAS_SCALE != 0 {
        match dec_u8(b, i) {
            None => Err(NodeDefError::Codec(CodecError::Truncated)),
            Some((v, j)) => Ok((v, j)),
        }
    } else {
        Ok((0u8, i))
    }
}

pub open spec fn dec_tile_alignment(b: Seq<u8>, i: int, flags: u16) -> Result<
    (Alignment, int),
    NodeDefError,
> {
    if flags & TILE_FLAG_HAS_ALIGNMENT != 0 {
        dec_alignment_s(b, i)
    } else {
        Ok((Alignment::Unaligned, i))
    }
}

impl DrawType {
    /// Decodes the one-byte draw-type code; exactly the codes 0 through 17
    /// are accepted.
    pub fn deserialize(b: &Vec<u8>, pos: &mut usize) -> (r: Result<DrawType, NodeDefError>)
        ensures
            match dec_draw_type_s(b@, *old(pos) as int) {
                Ok((v, j)) => r == Ok::<DrawType, NodeDefError>(v) && *final(pos) == j,
                Err(e) => r == Err::<DrawType, NodeDefError>(e),
            },
    {
        let t = match read_u8(b, pos) {
            Ok(v) => v,
            Err(_) => {
                return Err(NodeDefError::Codec(CodecError::Truncated));
            },
        };
        match t {
            0 => Ok(DrawType::Normal),
            1 => Ok(DrawType::AirLike),
            2 => Ok(DrawType::Liquid),
            3 => Ok(DrawType::FlowingLiquid),
            4 => Ok(DrawType::GlassLike),
            5 => Ok(DrawType::AllFaces),
            6 => Ok(DrawType::AllFacesOptional),
            7 => Ok(DrawType::TorchLike),
            8 => Ok(DrawType::SignLike),
            9 => Ok(DrawType::PlantLike),
            10 => Ok(DrawType::FenceLike),
            11 => Ok(DrawType::RailLike),
            12 => Ok(DrawType::NodeBox),
            13 => Ok(DrawType::GlassLikeFramed),
            14 => Ok(DrawType::FireLike),
            15 => Ok(DrawType::GlassLikeFramedOptional),
            16 => Ok(DrawType::Mesh),
            17 => Ok(DrawType::PlantLikeRooted),
            _ => Err(NodeDefError::Codec(CodecError::UnknownVariant { value: t as u16 })),
        }
    }
}

impl Alignment {
    /// Decodes the one-byte alignment code; exactly 0 through 2 are
    /// accepted.
    pub fn deserialize(b: &Vec<u8>, pos: &mut usize) -> (r: Result<Alignment, NodeDefError>)
        ensures
            match dec_alignment_s(b@, *old(pos) as int) {
                Ok((v, j)) => r == Ok::<Alignment, NodeDefError>(v) && *final(pos) == j,
                Err(e) => r == Err::<Alignment, NodeDefError>(e),
            },
    {
        let t = match read_u8(b, pos) {
            Ok(v) => v,
            Err(_) => {
                return Err(NodeDefError::Codec(CodecError::Truncated));
            },
        };
        match t {
            0 => Ok(Alignment::Unaligned),
            1 => Ok(Alignment::World),
            2 => Ok(Alignment::UserDefined),
            _ => Err(NodeDefError::Codec(CodecError::UnknownVariant { value: t as u16 })),
        }
    }
}

impl TileAnimation {
    /// Decodes a tile animation: a one-byte kind (0 still, 1 vertical
    /// frames, 2 sheet) and its fields.
    pub fn deserialize(b: &Vec<u8>, pos: &mut usize) -> (r: Result<TileAnimation, NodeDefError>)
        ensures
            match dec_tile_animation_s(b@, *old(pos) as int) {
                Ok((v, j)) => r == Ok::<TileAnimation, NodeDefError>(v) && *final(pos) == j,
                Err(e) => r == Err::<TileAnimation, NodeDefError>(e),
            },
    {
        let t = match read_u8(b, pos) {
            Ok(v) => v,
            Err(_) => {
                return Err(NodeDefError::Codec(CodecError::Truncated));
            },
        };
        match t {
            0 => Ok(TileAnimation::Still),
            1 => {
                let aspect_w = match read_u16(b, pos) {
                    Ok(v) => v,
                    Err(e) => {
                        return Err(NodeDefError::Codec(e));
                    },
                };
                let aspect_h = match read_u16(b, pos) {
                    Ok(v) => v,
                    Err(e) => {
                        return Err(NodeDefError::Codec(e));
                    },
                };
                let length = match read_u32(b, pos) {
                    Ok(v) => v,
                    Err(e) => {
                        return Err(NodeDefError::Codec(e));
                    },
                };
                Ok(TileAnimation::VerticalFrames { aspect_w, aspect_h, length })
            },
            2 => {
                let frames_w = match read_u8(b, pos) {
                    Ok(v) => v,
                    Err(e) => {
                        return Err(NodeDefError::Codec(e));
                    },
                };
                let frames_h = match read_u8(b, pos) {
                    Ok(v) => v,
                    Err(e) => {
                        return Err(NodeDefError::Codec(e));
                    },
                };
                let length = match read_u32(b, pos) {
                    Ok(v) => v,
                    Err(e) => {
                        return Err(NodeDefError::Codec(e));
                    },
                };
                Ok(TileAnimation::Sheet { frames_w, frames_h, length })
            },
            _ => Err(NodeDefError::Codec(CodecError::UnknownVariant { value: t as u16 })),
        }
    }
}

impl Tile {
    /// Decodes one tile descriptor (version at least 6): name, animation,
    /// flags, and the colour, scale and alignment fields the flags
    /// announce.
    pub fn deserialize(b: &Vec<u8>, pos: &mut usize) -> (r: Result<Tile, NodeDefError>)
        ensures
            match dec_tile_s(b@, *old(pos) as int) {
                Ok((v, j)) => r is Ok && r.unwrap()@ == v && *final(pos) == j,
                Err(e) => r == Err::<Tile, NodeDefError>(e),
            },
    {
        let version = match read_u8(b, pos) {
            Ok(v) => v,
            Err(e) => {
                return Err(NodeDefError::Codec(e));
            },
        };
        if version < 6 {
            return Err(NodeDefError::BadTileVersion);
        }
        let name = match read_str(b, pos) {
            Ok(v) => v,
            Err(e) => {
                return Err(NodeDefError::Codec(e));
            },
        };
        let animation = match TileAnimation::deserialize(b, pos) {
            Ok(v) => v,
            Err(e) => {
                return Err(e);
            },
        };
        let flags = match read_u16(b, pos) {
            Ok(v) => v,
            Err(e) => {
                return Err(NodeDefError::Codec(e));
            },
        };
        let color = if flags & TILE_FLAG_HAS_COLOR != 0 {
            let r = match read_u8(b, pos) {
                Ok(v) => v,
                Err(e) => {
                    return Err(NodeDefError::Codec(e));
                },
            };
            let g = match read_u8(b, pos) {
                Ok(v) => v,
                Err(e) => {
                    return Err(NodeDefError::Codec(e));
                },
            };
            let bl = match read_u8(b, pos) {
                Ok(v) => v,
                Err(e) => {
                    return Err(NodeDefError::Codec(e));
                },
            };
            Some(Rgb { r, g, b: bl })
        } else {
            None
        };
        let scale = if flags & TILE_FLAG_HAS_SCALE != 0 {
            match read_u8(b, pos) {
                Ok(v) => v,
                Err(e) => {
                    return Err(NodeDefError::Codec(e));
                },
            }
        } else {
            0
        };
        let alignment = if flags & TILE_FLAG_HAS_ALIGNMENT != 0 {
            match Alignment::deserialize(b, pos) {
                Ok(v) => v,
                Err(e) => {
                    return Err(e);
                },
            }
        } else {
            Alignment::Unaligned
        };
        Ok(Tile { name, animation, flags, color, scale, alignment })
    }
}

pub open spec fn dec_aabb_s(b: Seq<u8>, i: int) -> Result<(Aabb, int), NodeDefError> {
    match dec_vector3(b, i) {
        None => Err(NodeDefError::Codec(CodecError::Truncated)),
        Some((min, j)) => match dec_vector3(b, j) {
            None => Err(NodeDefError::Codec(CodecError::Truncated)),
            Some((max, k)) => Ok((Aabb { min, max }, k)),
        },
    }
}

pub open spec fn dec_aabb_run(b: Seq<u8>, i: int, n: nat) -> Result<
    (Seq<Aabb>, int),
    NodeDefError,
>
    decreases n,
{
    if n == 0 {
        Ok((Seq::<Aabb>::empty(), i))
    } else {
        match dec_aabb_s(b, i) {
            Err(e) => Err(e),
            Ok((a, j)) => match dec_aabb_run(b, j, (n - 1) as nat) {
                Err(e) => Err(e),
                Ok((rest, k)) => Ok((seq![a] + rest, k)),
            },
        }
    }
}

/// A u16 count of axis-aligned boxes.
pub open spec fn dec_boxes_s(b: Seq<u8>, i: int) -> Result<(Seq<Aabb>, int), NodeDefError> {
    match dec_u16(b, i) {
        None => Err(NodeDefError::Codec(CodecError::Truncated)),
        Some((n, j)) => dec_aabb_run(b, j, n as nat),
    }
}

/// The cursor past six box lists (a connector set); the node record
/// discards their values, so only the cursor is modelled.
pub open spec fn dec_connectors_skip(b: Seq<u8>, i: int) -> Result<int, NodeDefError> {
    match dec_boxes_s(b, i) {
        Err(e) => Err(e),
        Ok((_, j)) => match dec_boxes_s(b, j) {
            Err(e) => Err(e),
            Ok((_, j)) => match dec_boxes_s(b, j) {
                Err(e) => Err(e),
                Ok((_, j)) => match dec_boxes_s(b, j) {
                    Err(e) => Err(e),
                    Ok((_, j)) => match dec_boxes_s(b, j) {
                        Err(e) => Err(e),
                        Ok((_, j)) => match dec_boxes_s(b, j) {
                            Err(e) => Err(e),
                            Ok((_, j)) => Ok(j),
                        },
                    },
                },
            },
        },
    }
}

/// The cursor past one node box (version at least 6, five geometries); the
/// node record discards the value.
pub open spec fn dec_node_box_skip(b: Seq<u8>, i: int) -> Result<int, NodeDefError> {
    match dec_u8(b, i) {
        None => Err(NodeDefError::Codec(CodecError::Truncated)),
        Some((version, j)) => {
            if version < 6 {
                Err(NodeDefError::BadTileVersion)
            } else {
                match dec_u8(b, j) {
                    None => Err(NodeDefError::Codec(CodecError::Truncated)),
                    Some((t, j)) => {
                        if t == 0 {
                            Ok(j)
                        } else if (t == 1 || t == 3) {
                            match dec_boxes_s(b, j) {
                                Err(e) => Err(e),
                                Ok((_, k)) => Ok(k),
                            }
                        } else if t == 2 {
                            match dec_aabb_s(b, j) {
                                Err(e) => Err(e),
                                Ok((_, k)) => match dec_aabb_s(b, k) {
                                    Err(e) => Err(e),
                                    Ok((_, k)) => match dec_aabb_s(b, k) {
                                        Err(e) => Err(e),
                                        Ok((_, k)) => Ok(k),
                                    },
                                },
                            }
                        } else if t == 4 {
                            match dec_boxes_s(b, j) {
                                Err(e) => Err(e),
                                Ok((_, k)) => match dec_connectors_skip(b, k) {
                                    Err(e) => Err(e),
                                    Ok(k) => match dec_connectors_skip(b, k) {
                                        Err(e) => Err(e),
                                        Ok(k) => match dec_boxes_s(b, k) {
                                            Err(e) => Err(e),
                                            Ok((_, k)) => match dec_boxes_s(b, k) {
                                                Err(e) => Err(e),
                                                Ok((_, k)) => Ok(k),
                                            },
                                        },
                                    },
                                },
                            }
                        } else {
                            Err(NodeDefError::Codec(CodecError::UnknownVariant { value: t as u16 }))
                        }
                    },
                }
            }
        },
    }
}

/// The cursor past one sound reference (name, three float fields); the
/// node record discards the value.
pub open spec fn dec_sound_skip(b: Seq<u8>, i: int) -> Result<int, NodeDefError> {
    match dec_str(b, i) {
        None => Err(NodeDefError::Codec(CodecError::Truncated)),
        Some((None, _)) => Err(NodeDefError::Codec(CodecError::Encoding)),
        Some((Some(_), j)) => {
            if j + 12 <= b.len() {
                Ok(j + 12)
            } else {
                Err(NodeDefError::Codec(CodecError::Truncated))
            }
        },
    }
}

/// The cursor past the interaction flags (six booleans and a u32); the
/// node record discards the value.
pub open spec fn dec_interaction_skip(b: Seq<u8>, i: int) -> Result<int, NodeDefError> {
    if 0 <= i && i + 10 <= b.len() {
        Ok(i + 10)
    } else {
        Err(NodeDefError::Codec(CodecError::Truncated))
    }
}

/// The cursor past the liquid descriptor; the node record discards the
/// value.
pub open spec fn dec_liquid_skip(b: Seq<u8>, i: int) -> Result<int, NodeDefError> {
    match dec_u8(b, i) {
        None => Err(NodeDefError::Codec(CodecError::Truncated)),
        Some((_, j)) => match dec_str(b, j) {
            None => Err(NodeDefError::Codec(CodecError::Truncated)),
            Some((None, _)) => Err(NodeDefError::Codec(CodecError::Encoding)),
            Some((Some(_), j)) => match dec_str(b, j) {
                None => Err(NodeDefError::Codec(CodecError::Truncated)),
                Some((None, _)) => Err(NodeDefError::Codec(CodecError::Encoding)),
                Some((Some(_), j)) => {
                    if j + 5 <= b.len() {
                        Ok(j + 5)
                    } else {
                        Err(NodeDefError::Codec(CodecError::Truncated))
                    }
                },
            },
        },
    }
}

/// Reads an axis-aligned box: six float bit patterns.
fn read_aabb(b: &Vec<u8>, pos: &mut usize) -> (r: Result<Aabb, NodeDefError>)
    ensures
        match dec_aabb_s(b@, *old(pos) as int) {
            Ok((v, j)) => r == Ok::<Aabb, NodeDefError>(v) && *final(pos) == j,
            Err(e) => r == Err::<Aabb, NodeDefError>(e),
        },
{
    let min = match crate::math::read_vector3(b, pos) {
        Ok(v) => v,
        Err(e) => {
            return Err(NodeDefError::Codec(e));
        },
    };
    let max = match crate::math::read_vector3(b, pos) {
        Ok(v) => v,
        Err(e) => {
            return Err(NodeDefError::Codec(e));
        },
    };
    Ok(Aabb { min, max })
}

impl Boxes {
    /// Reads a u16 count of axis-aligned boxes.
    pub fn deserialize(b: &Vec<u8>, pos: &mut usize) -> (r: Result<Boxes, NodeDefError>)
        ensures
            match dec_boxes_s(b@, *old(pos) as int) {
                Ok((bs, j)) => r is Ok && r.unwrap().boxes@ == bs && *final(pos) == j,
                Err(e) => r == Err::<Boxes, NodeDefError>(e),
            },
    {
        let n = match read_u16(b, pos) {
            Ok(v) => v,
            Err(_) => {
                return Err(NodeDefError::Codec(CodecError::Truncated));
            },
        };
        let ghost j0 = *pos as int;
        let mut boxes: Vec<Aabb> = Vec::new();
        let mut k: u16 = 0;
        proof {
            match dec_aabb_run(b@, j0, n as nat) {
                Ok((rest, _)) => {
                    assert(Seq::<Aabb>::empty() + rest =~= rest);
                },
                Err(_) => {},
            }
            assert(boxes@ =~= Seq::<Aabb>::empty());
        }
        while k < n
            invariant
                k <= n,
                boxes@.len() == k,
                j0 == dec_u16(b@, *old(pos) as int).unwrap().1,
                dec_u16(b@, *old(pos) as int) == Some::<(u16, int)>((n, j0)),
                match dec_aabb_run(b@, *pos as int, (n - k) as nat) {
                    Ok((rest, e)) => dec_aabb_run(b@, j0, n as nat) == Ok::<
                        (Seq<Aabb>, int),
                        NodeDefError,
                    >((boxes@ + rest, e)),
                    Err(e) => dec_aabb_run(b@, j0, n as nat) == Err::<
                        (Seq<Aabb>, int),
                        NodeDefError,
                    >(e),
                },
            decreases n - k,
        {
            let ghost pos_before = *pos as int;
            let ghost boxes_before = boxes@;
            let bx = match read_aabb(b, pos) {
                Ok(v) => v,
                Err(e) => {
                    proof {
                        assert(dec_aabb_run(b@, pos_before, (n - k) as nat) == Err::<
                            (Seq<Aabb>, int),
                            NodeDefError,
                        >(e));
                    }
                    return Err(e);
                },
            };
            boxes.push(bx);
            k = k + 1;
            proof {
                assert(boxes@ =~= boxes_before + seq![bx]);
                match dec_aabb_run(b@, *pos as int, (n - k) as nat) {
                    Ok((rest, _)) => {
                        assert((boxes_before + seq![bx]) + rest =~= boxes_before + (seq![bx]
                            + rest));
                    },
                    Err(_) => {},
                }
            }
        }
        proof {
            assert(boxes@ + Seq::<Aabb>::empty() =~= boxes@);
        }
        Ok(Boxes { boxes })
    }
}

impl NodeBoxConnectors {
    fn deserialize(b: &Vec<u8>, pos: &mut usize) -> (r: Result<NodeBoxConnectors, NodeDefError>)
        ensures
            match dec_connectors_skip(b@, *old(pos) as int) {
                Ok(j) => r is Ok && *final(pos) == j,
                Err(e) => r == Err::<NodeBoxConnectors, NodeDefError>(e),
            },
    {
        let top = match Boxes::deserialize(b, pos) {
            Ok(v) => v,
            Err(e) => {
                return Err(e);
            },
        };
        let bottom = match Boxes::deserialize(b, pos) {
            Ok(v) => v,
            Err(e) => {
                return Err(e);
            },
        };
        let front = match Boxes::deserialize(b, pos) {
            Ok(v) => v,
            Err(e) => {
                return Err(e);
            },
        };
        let left = match Boxes::deserialize(b, pos) {
            Ok(v) => v,
            Err(e) => {
                return Err(e);
            },
        };
        let back = match Boxes::deserialize(b, pos) {
            Ok(v) => v,
            Err(e) => {
                return Err(e);
            },
        };
        let right = match Boxes::deserialize(b, pos) {
            Ok(v) => v,
            Err(e) => {
                return Err(e);
            },
        };
        Ok(NodeBoxConnectors { top, bottom, front, left, back, right })
    }
}

impl NodeBox {
    /// Reads a node box (version at least 6): regular, fixed,
    /// wall-mounted, leveled or connected geometry. The node record
    /// discards the value, so the contract fixes the cursor and errors.
    pub fn deserialize(b: &Vec<u8>, pos: &mut usize) -> (r: Result<NodeBox, NodeDefError>)
        ensures
            match dec_node_box_skip(b@, *old(pos) as int) {
                Ok(j) => r is Ok && *final(pos) == j,
                Err(e) => r == Err::<NodeBox, NodeDefError>(e),
            },
    {
        let version = match read_u8(b, pos) {
            Ok(v) => v,
            Err(e) => {
                return Err(NodeDefError::Codec(e));
            },
        };
        if version < 6 {
            return Err(NodeDefError::BadTileVersion);
        }
        let t = match read_u8(b, pos) {
            Ok(v) => v,
            Err(e) => {
                return Err(NodeDefError::Codec(e));
            },
        };
        match t {
            0 => Ok(NodeBox::Regular),
            1 => {
                match Boxes::deserialize(b, pos) {
                    Ok(v) => Ok(NodeBox::Fixed(v)),
                    Err(e) => Err(e),
                }
            },
            2 => {
                let top = match read_aabb(b, pos) {
                    Ok(v) => v,
                    Err(e) => {
                        return Err(e);
                    },
                };
                let bottom = match read_aabb(b, pos) {
                    Ok(v) => v,
                    Err(e) => {
                        return Err(e);
                    },
                };
                let side = match read_aabb(b, pos) {
                    Ok(v) => v,
                    Err(e) => {
                        return Err(e);
                    },
                };
                Ok(NodeBox::WallMounted { top, bottom, side })
            },
            3 => {
                match Boxes::deserialize(b, pos) {
                    Ok(v) => Ok(NodeBox::Leveled(v)),
                    Err(e) => Err(e),
                }
            },
            4 => {
                let connected = match Boxes::deserialize(b, pos) {
                    Ok(v) => v,
                    Err(e) => {
                        return Err(e);
                    },
                };
                let connectors = match NodeBoxConnectors::deserialize(b, pos) {
                    Ok(v) => v,
                    Err(e) => {
                        return Err(e);
                    },
                };
                let disconnected_connectors = match NodeBoxConnectors::deserialize(b, pos) {
                    Ok(v) => v,
                    Err(e) => {
                        return Err(e);
                    },
                };
                let disconnected = match Boxes::deserialize(b, pos) {
                    Ok(v) => v,
                    Err(e) => {
                        return Err(e);
                    },
                };
                let disconnected_sides = match Boxes::deserialize(b, pos) {
                    Ok(v) => v,
                    Err(e) => {
                        return Err(e);
                    },
                };
                Ok(
                    NodeBox::Connected {
                        connected,
                        connectors,
                        disconnected_connectors,
                        disconnected,
                        disconnected_sides,
                    },
                )
            },
            _ => Err(NodeDefError::Codec(CodecError::UnknownVariant { value: t as u16 })),
        }
    }
}

fn read_sound(b: &Vec<u8>, pos: &mut usize) -> (r: Result<Sound, NodeDefError>)
    ensures
        match dec_sound_skip(b@, *old(pos) as int) {
            Ok(j) => r is Ok && *final(pos) == j,
            Err(e) => r == Err::<Sound, NodeDefError>(e),
        },
{
    let name = match read_str(b, pos) {
        Ok(v) => v,
        Err(e) => {
            return Err(NodeDefError::Codec(e));
        },
    };
    let gain = match read_u32(b, pos) {
        Ok(v) => v,
        Err(e) => {
            return Err(NodeDefError::Codec(e));
        },
    };
    let pitch = match read_u32(b, pos) {
        Ok(v) => v,
        Err(e) => {
            return Err(NodeDefError::Codec(e));
        },
    };
    let fade = match read_u32(b, pos) {
        Ok(v) => v,
        Err(e) => {
            return Err(NodeDefError::Codec(e));
        },
    };
    Ok(Sound { name, gain, pitch, fade })
}

fn read_interaction(b: &Vec<u8>, pos: &mut usize) -> (r: Result<Interaction, NodeDefError>)
    ensures
        match dec_interaction_skip(b@, *old(pos) as int) {
            Ok(j) => r is Ok && *final(pos) == j,
            Err(e) => r == Err::<Interaction, NodeDefError>(e),
        },
{
    let walkable = match read_bool(b, pos) {
        Ok(v) => v,
        Err(e) => {
            return Err(NodeDefError::Codec(e));
        },
    };
    let pointable = match read_bool(b, pos) {
        Ok(v) => v,
        Err(e) => {
            return Err(NodeDefError::Codec(e));
        },
    };
    let diggable = match read_bool(b, pos) {
        Ok(v) => v,
        Err(e) => {
            return Err(NodeDefError::Codec(e));
        },
    };
    let climbable = match read_bool(b, pos) {
        Ok(v) => v,
        Err(e) => {
            return Err(NodeDefError::Codec(e));
        },
    };
    let buildable_to = match read_bool(b, pos) {
        Ok(v) => v,
        Err(e) => {
            return Err(NodeDefError::Codec(e));
        },
    };
    let rightclickable = match read_bool(b, pos) {
        Ok(v) => v,
        Err(e) => {
            return Err(NodeDefError::Codec(e));
        },
    };
    let damage_per_second = match read_u32(b, pos) {
        Ok(v) => v,
        Err(e) => {
            return Err(NodeDefError::Codec(e));
        },
    };
    Ok(
        Interaction {
            walkable,
            pointable,
            diggable,
            climbable,
            buildable_to,
            rightclickable,
            damage_per_second,
        },
    )
}

fn read_liquid(b: &Vec<u8>, pos: &mut usize) -> (r: Result<Liquid, NodeDefError>)
    ensures
        match dec_liquid_skip(b@, *old(pos) as int) {
            Ok(j) => r is Ok && *final(pos) == j,
            Err(e) => r == Err::<Liquid, NodeDefError>(e),
        },
{
    let ty = match read_u8(b, pos) {
        Ok(v) => v,
        Err(e) => {
            return Err(NodeDefError::Codec(e));
        },
    };
    let alternative_flowing = match read_str(b, pos) {
        Ok(v) => v,
        Err(e) => {
            return Err(NodeDefError::Codec(e));
        },
    };
    let alternative_source = match read_str(b, pos) {
        Ok(v) => v,
        Err(e) => {
            return Err(NodeDefError::Codec(e));
        },
    };
    let viscosity = match read_u8(b, pos) {
        Ok(v) => v,
        Err(e) => {
            return Err(NodeDefError::Codec(e));
        },
    };
    let renewable = match read_bool(b, pos) {
        Ok(v) => v,
        Err(e) => {
            return Err(NodeDefError::Codec(e));
        },
    };
    let range = match read_u8(b, pos) {
        Ok(v) => v,
        Err(e) => {
            return Err(NodeDefError::Codec(e));
        },
    };
    let drowning = match read_u8(b, pos) {
        Ok(v) => v,
        Err(e) => {
            return Err(NodeDefError::Codec(e));
        },
    };
    let floodable = match read_bool(b, pos) {
        Ok(v) => v,
        Err(e) => {
            return Err(NodeDefError::Codec(e));
        },
    };
    Ok(
        Liquid {
            ty,
            alternative_flowing,
            alternative_source,
            viscosity,
            renewable,
            range,
            drowning,
            floodable,
        },
    )
}

/// One group membership: a group name and the node's rating in it.
#[derive(Debug, Clone)]
pub struct Group {
    pub name: String,
    pub rating: i16,
}

impl View for Group {
    type V = (Seq<char>, i16);

    open spec fn view(&self) -> (Seq<char>, i16) {
        (self.name@, self.rating)
    }
}

impl DeepView for Group {
    type V = (Seq<char>, i16);

    open spec fn deep_view(&self) -> (Seq<char>, i16) {
        self@
    }
}

/// A run of `n` group memberships: name, then rating.
pub open spec fn dec_group_run(b: Seq<u8>, i: int, n: nat) -> Result<
    (Seq<(Seq<char>, i16)>, int),
    NodeDefError,
>
    decreases n,
{
    if n == 0 {
        Ok((Seq::<(Seq<char>, i16)>::empty(), i))
    } else {
        match dec_str(b, i) {
            None => Err(NodeDefError::Codec(CodecError::Truncated)),
            Some((None, _)) => Err(NodeDefError::Codec(CodecError::Encoding)),
            Some((Some(name), j)) => match dec_i16(b, j) {
                None => Err(NodeDefError::Codec(CodecError::Truncated)),
                Some((rating, k)) => match dec_group_run(b, k, (n - 1) as nat) {
                    Err(e) => Err(e),
                    Ok((rest, l)) => Ok((seq![(name, rating)] + rest, l)),
                },
            },
        }
    }
}

/// A run of `n` tile descriptors.
pub open spec fn dec_tile_run(b: Seq<u8>, i: int, n: nat) -> Result<
    (Seq<TileV>, int),
    NodeDefError,
>
    decreases n,
{
    if n == 0 {
        Ok((Seq::<TileV>::empty(), i))
    } else {
        match dec_tile_s(b, i) {
            Err(e) => Err(e),
            Ok((t, j)) => match dec_tile_run(b, j, (n - 1) as nat) {
                Err(e) => Err(e),
                Ok((rest, k)) => Ok((seq![t] + rest, k)),
            },
        }
    }
}

/// One node definition; float fields are bit patterns, and the fields the
/// renderer never reads are decoded and checked but not retained, as in
/// the reference protocol.
#[derive(Debug, Clone)]
pub struct Node {
    pub name: String,
    pub groups: Vec<Group>,
    pub param_type1: u8,
    pub param_type2: u8,
    pub draw_type: DrawType,
    pub mesh: Option<String>,
    pub visual_scale: u32,
    pub tiles: Vec<Tile>,
    pub tiles_overlay: Vec<Tile>,
    pub tiles_special: Vec<Tile>,
    pub color: Rgb,
    pub palette_name: String,
    pub waving: u8,
    pub connect_sides: u8,
    pub connects_to: Vec<u16>,
    pub post_effect_color: Argb,
    pub leveled: u8,
    pub lighting: Lighting,
    pub is_ground_content: bool,
}

pub struct NodeV {
    pub name: Seq<char>,
    pub groups: Seq<(Seq<char>, i16)>,
    pub param_type1: u8,
    pub param_type2: u8,
    pub draw_type: DrawType,
    pub mesh: Option<Seq<char>>,
    pub visual_scale: u32,
    pub tiles: Seq<TileV>,
    pub tiles_overlay: Seq<TileV>,
    pub tiles_special: Seq<TileV>,
    pub color: Rgb,
    pub palette_name: Seq<char>,
    pub waving: u8,
    pub connect_sides: u8,
    pub connects_to: Seq<u16>,
    pub post_effect_color: Argb,
    pub leveled: u8,
    pub lighting: Lighting,
    pub is_ground_content: bool,
}

impl View for Node {
    type V = NodeV;

    open spec fn view(&self) -> NodeV {
        NodeV {
            name: self.name@,
            groups: self.groups.deep_view(),
            param_type1: self.param_type1,
            param_type2: self.param_type2,
            draw_type: self.draw_type,
            mesh: (match self.mesh {
                Some(m) => Some(m@),
                None => None,
            }),
            visual_scale: self.visual_scale,
            tiles: self.tiles.deep_view(),
            tiles_overlay: self.tiles_overlay.deep_view(),
            tiles_special: self.tiles_special.deep_view(),
            color: self.color,
            palette_name: self.palette_name@,
            waving: self.waving,
            connect_sides: self.connect_sides,
            connects_to: self.connects_to@,
            post_effect_color: self.post_effect_color,
            leveled: self.leveled,
            lighting: self.lighting,
            is_ground_content: self.is_ground_content,
        }
    }
}

impl DeepView for Node {
    type V = NodeV;

    open spec fn deep_view(&self) -> NodeV {
        self@
    }
}

/// Decodes one node record from its sliced record bytes (everything after
/// the length prefix): version at least 13, the retained fields in order,
/// then the discarded components, whose cursors are still checked.
/// Trailing record bytes (newer optional attributes) are ignored.
#[verifier::opaque]
pub open spec fn dec_node_record_s(rec: Seq<u8>) -> Result<NodeV, NodeDefError> {
    match dec_u8(rec, 0) {
        None => Err(NodeDefError::Codec(CodecError::Truncated)),
        Some((version, i)) => {
            if version < 13 {
                Err(NodeDefError::BadRecordVersion)
            } else {
                match dec_str(rec, i) {
                    None => Err(NodeDefError::Codec(CodecError::Truncated)),
                    Some((None, _)) => Err(NodeDefError::Codec(CodecError::Encoding)),
                    Some((Some(name), i)) => match dec_u16(rec, i) {
                        None => Err(NodeDefError::Codec(CodecError::Truncated)),
                        Some((gcount, i)) => match dec_group_run(rec, i, gcount as nat) {
                            Err(e) => Err(e),
                            Ok((groups, i)) => match dec_u8(rec, i) {
                                None => Err(NodeDefError::Codec(CodecError::Truncated)),
                                Some((param_type1, i)) => match dec_u8(rec, i) {
                                    None => Err(NodeDefError::Codec(CodecError::Truncated)),
                                    Some((param_type2, i)) => match dec_draw_type_s(rec, i) {
                                        Err(e) => Err(e),
                                        Ok((draw_type, i)) => dec_node_record_mid(
                                            rec,
                                            i,
                                            name,
                                            groups,
                                            param_type1,
                                            param_type2,
                                            draw_type,
                                        ),
                                    },
                                },
                            },
                        },
                    },
                }
            }
        },
    }
}

/// The middle of a node record: mesh, visual scale and the three tile
/// sets.
pub open spec fn dec_node_record_mid(
    rec: Seq<u8>,
    i: int,
    name: Seq<char>,
    groups: Seq<(Seq<char>, i16)>,
    param_type1: u8,
    param_type2: u8,
    draw_type: DrawType,
) -> Result<NodeV, NodeDefError> {
    match dec_str(rec, i) {
        None => Err(NodeDefError::Codec(CodecError::Truncated)),
        Some((None, _)) => Err(NodeDefError::Codec(CodecError::Encoding)),
        Some((Some(mesh_name), i)) => match dec_u32(rec, i) {
            None => Err(NodeDefError::Codec(CodecError::Truncated)),
            Some((visual_scale, i)) => match dec_u8(rec, i) {
                None => Err(NodeDefError::Codec(CodecError::Truncated)),
                Some((tile_count, i)) => {
                    if tile_count != 6 {
                        Err(NodeDefError::BadTileCount)
                    } else {
                        match dec_tile_run(rec, i, 6) {
                            Err(e) => Err(e),
                            Ok((tiles, i)) => match dec_tile_run(rec, i, 6) {
                                Err(e) => Err(e),
                                Ok((tiles_overlay, i)) => match dec_u8(rec, i) {
                                    None => Err(NodeDefError::Codec(CodecError::Truncated)),
                                    Some((special_count, i)) => {
                                        if special_count != 6 {
                                            Err(NodeDefError::BadTileCount)
                                        } else {
                                            match dec_tile_run(rec, i, 6) {
                                                Err(e) => Err(e),
                                                Ok((tiles_special, i)) => dec_node_record_tail(
                                                    rec,
                                                    i,
                                                    NodeV {
                                                        name,
                                                        groups,
                                                        param_type1,
                                                        param_type2,
                                                        draw_type,
                                                        mesh: (if mesh_name.len() == 0 {
                                                            None
                                                        } else {
                                                            Some(mesh_name)
                                                        }),
                                                        visual_scale,
                                                        tiles,
                                                        tiles_overlay,
                                                        tiles_special,
                                                        color: Rgb { r: 0, g: 0, b: 0 },
                                                        palette_name: Seq::<char>::empty(),
                                                        waving: 0,
                                                        connect_sides: 0,
                                                        connects_to: Seq::<u16>::empty(),
                                                        post_effect_color: Argb {
                                                            a: 0,
                                                            r: 0,
                                                            g: 0,
                                                            b: 0,
                                                        },
                                                        leveled: 0,
                                                        lighting: Lighting {
                                                            light_propagates: false,
                                                            sunlight_propagates: false,
                                                            light_source: 0,
                                                        },
                                                        is_ground_content: false,
                                                    },
                                                ),
                                            }
                                        }
                                    },
                                },
                            },
                        }
                    }
                },
            },
        },
    }
}

/// The tail of a node record: colours, palette, connections, lighting,
/// ground flag, then the discarded components and two required trailing
/// bytes.
pub open spec fn dec_node_record_tail(rec: Seq<u8>, i: int, partial: NodeV) -> Result<
    NodeV,
    NodeDefError,
> {
    match dec_u8(rec, i) {
        None => Err(NodeDefError::Codec(CodecError::Truncated)),
        Some((_alpha, i)) => match dec_u8(rec, i) {
            None => Err(NodeDefError::Codec(CodecError::Truncated)),
            Some((cr, i)) => match dec_u8(rec, i) {
                None => Err(NodeDefError::Codec(CodecError::Truncated)),
                Some((cg, i)) => match dec_u8(rec, i) {
                    None => Err(NodeDefError::Codec(CodecError::Truncated)),
                    Some((cb, i)) => match dec_str(rec, i) {
                        None => Err(NodeDefError::Codec(CodecError::Truncated)),
                        Some((None, _)) => Err(NodeDefError::Codec(CodecError::Encoding)),
                        Some((Some(palette_name), i)) => match dec_u8(rec, i) {
                            None => Err(NodeDefError::Codec(CodecError::Truncated)),
                            Some((waving, i)) => match dec_u8(rec, i) {
                                None => Err(NodeDefError::Codec(CodecError::Truncated)),
                                Some((connect_sides, i)) => match dec_u16(rec, i) {
                                    None => Err(NodeDefError::Codec(CodecError::Truncated)),
                                    Some((ccount, i)) => match crate::codec::dec_u16_seq(
                                        rec,
                                        i,
                                        ccount as nat,
                                    ) {
                                        None => Err(NodeDefError::Codec(CodecError::Truncated)),
                                        Some((connects_to, i)) => dec_node_record_end(
                                            rec,
                                            i,
                                            NodeV {
                                                color: Rgb { r: cr, g: cg, b: cb },
                                                palette_name,
                                                waving,
                                                connect_sides,
                                                connects_to,
                                                ..partial
                                            },
                                        ),
                                    },
                                },
                            },
                        },
                    },
                },
            },
        },
    }
}

/// The end of a node record: post-effect colour, leveled, lighting, the
/// ground flag and the discarded components.
pub open spec fn dec_node_record_end(rec: Seq<u8>, i: int, partial: NodeV) -> Result<
    NodeV,
    NodeDefError,
> {
    if !(0 <= i && i + 9 <= rec.len()) {
        Err(NodeDefError::Codec(CodecError::Truncated))
    } else {
        match dec_interaction_skip(rec, i + 9) {
            Err(e) => Err(e),
            Ok(j) => match dec_liquid_skip(rec, j) {
                Err(e) => Err(e),
                Ok(j) => match dec_node_box_skip(rec, j) {
                    Err(e) => Err(e),
                    Ok(j) => match dec_node_box_skip(rec, j) {
                        Err(e) => Err(e),
                        Ok(j) => match dec_node_box_skip(rec, j) {
                            Err(e) => Err(e),
                            Ok(j) => match dec_sound_skip(rec, j) {
                                Err(e) => Err(e),
                                Ok(j) => match dec_sound_skip(rec, j) {
                                    Err(e) => Err(e),
                                    Ok(j) => match dec_sound_skip(rec, j) {
                                        Err(e) => Err(e),
                                        Ok(j) => {
                                            if j + 2 <= rec.len() {
                                                Ok(
                                                    NodeV {
                                                        post_effect_color: Argb {
                                                            a: rec[i],
                                                            r: rec[i + 1],
                                                            g: rec[i + 2],
                                                            b: rec[i + 3],
                                                        },
                                                        leveled: rec[i + 4],
                                                        lighting: Lighting {
                                                            light_propagates: rec[i + 5] != 0,
                                                            sunlight_propagates: rec[i + 6] != 0,
                                                            light_source: rec[i + 7],
                                                        },
                                                        is_ground_content: rec[i + 8] != 0,
                                                        ..partial
                                                    },
                                                )
                                            } else {
                                                Err(NodeDefError::Codec(CodecError::Truncated))
                                            }
                                        },
                                    },
                                },
                            },
                        },
                    },
                },
            },
        }
    }
}

/// Reads a u16-counted run of group memberships.
fn read_groups(b: &Vec<u8>, pos: &mut usize, n: u16) -> (r: Result<Vec<Group>, NodeDefError>)
    ensures
        match dec_group_run(b@, *old(pos) as int, n as nat) {
            Ok((gs, j)) => r is Ok && r.unwrap().deep_view() == gs && *final(pos) == j,
            Err(e) => r == Err::<Vec<Group>, NodeDefError>(e),
        },
{
    let ghost j0 = *pos as int;
    let mut items: Vec<Group> = Vec::new();
    let mut k: u16 = 0;
    proof {
        match dec_group_run(b@, j0, n as nat) {
            Ok((rest, _)) => {
                assert(Seq::<(Seq<char>, i16)>::empty() + rest =~= rest);
            },
            Err(_) => {},
        }
        assert(items.deep_view() =~= Seq::<(Seq<char>, i16)>::empty());
    }
    while k < n
        invariant
            k <= n,
            items.deep_view().len() == k,
            j0 == *old(pos) as int,
            match dec_group_run(b@, *pos as int, (n - k) as nat) {
                Ok((rest, e)) => dec_group_run(b@, j0, n as nat) == Ok::<
                    (Seq<(Seq<char>, i16)>, int),
                    NodeDefError,
                >((items.deep_view() + rest, e)),
                Err(e) => dec_group_run(b@, j0, n as nat) == Err::<
                    (Seq<(Seq<char>, i16)>, int),
                    NodeDefError,
                >(e),
            },
        decreases n - k,
    {
        let ghost pos_before = *pos as int;
        let ghost items_before = items.deep_view();
        let name = match read_str(b, pos) {
            Ok(v) => v,
            Err(e) => {
                proof {
                    assert(dec_group_run(b@, pos_before, (n - k) as nat) == Err::<
                        (Seq<(Seq<char>, i16)>, int),
                        NodeDefError,
                    >(NodeDefError::Codec(e)));
                }
                return Err(NodeDefError::Codec(e));
            },
        };
        let rating = match read_i16(b, pos) {
            Ok(v) => v,
            Err(e) => {
                proof {
                    assert(dec_group_run(b@, pos_before, (n - k) as nat) == Err::<
                        (Seq<(Seq<char>, i16)>, int),
                        NodeDefError,
                    >(NodeDefError::Codec(e)));
                }
                return Err(NodeDefError::Codec(e));
            },
        };
        items.push(Group { name, rating });
        k = k + 1;
        proof {
            assert(items.deep_view() =~= items_before.push(items@[items@.len() - 1]@));
            assert(items_before.push(items@[items@.len() - 1]@) =~= items_before + seq![
                items@[items@.len() - 1]@,
            ]);
            match dec_group_run(b@, *pos as int, (n - k) as nat) {
                Ok((rest, _)) => {
                    assert((items_before + seq![items@[items@.len() - 1]@]) + rest
                        =~= items_before + (seq![items@[items@.len() - 1]@] + rest));
                },
                Err(_) => {},
            }
        }
    }
    proof {
        assert(items.deep_view() + Seq::<(Seq<char>, i16)>::empty() =~= items.deep_view());
    }
    Ok(items)
}

/// Reads exactly six tile descriptors.
fn read_tiles6(b: &Vec<u8>, pos: &mut usize) -> (r: Result<Vec<Tile>, NodeDefError>)
    ensures
        match dec_tile_run(b@, *old(pos) as int, 6) {
            Ok((ts, j)) => r is Ok && r.unwrap().deep_view() == ts && *final(pos) == j,
            Err(e) => r == Err::<Vec<Tile>, NodeDefError>(e),
        },
{
    let ghost j0 = *pos as int;
    let mut items: Vec<Tile> = Vec::new();
    let mut k: u8 = 0;
    proof {
        match dec_tile_run(b@, j0, 6) {
            Ok((rest, _)) => {
                assert(Seq::<TileV>::empty() + rest =~= rest);
            },
            Err(_) => {},
        }
        assert(items.deep_view() =~= Seq::<TileV>::empty());
    }
    while k < 6
        invariant
            k <= 6,
            items.deep_view().len() == k,
            j0 == *old(pos) as int,
            match dec_tile_run(b@, *pos as int, (6 - k) as nat) {
                Ok((rest, e)) => dec_tile_run(b@, j0, 6) == Ok::<
                    (Seq<TileV>, int),
                    NodeDefError,
                >((items.deep_view() + rest, e)),
                Err(e) => dec_tile_run(b@, j0, 6) == Err::<(Seq<TileV>, int), NodeDefError>(e),
            },
        decreases 6 - k,
    {
        let ghost pos_before = *pos as int;
        let ghost items_before = items.deep_view();
        let t = match Tile::deserialize(b, pos) {
            Ok(v) => v,
            Err(e) => {
                proof {
                    assert(dec_tile_run(b@, pos_before, (6 - k) as nat) == Err::<
                        (Seq<TileV>, int),
                        NodeDefError,
                    >(e));
                }
                return Err(e);
            },
        };
        items.push(t);
        k = k + 1;
        proof {
            assert(items.deep_view() =~= items_before.push(items@[items@.len() - 1]@));
            assert(items_before.push(items@[items@.len() - 1]@) =~= items_before + seq![
                items@[items@.len() - 1]@,
            ]);
            match dec_tile_run(b@, *pos as int, (6 - k) as nat) {
                Ok((rest, _)) => {
                    assert((items_before + seq![items@[items@.len() - 1]@]) + rest
                        =~= items_before + (seq![items@[items@.len() - 1]@] + rest));
                },
                Err(_) => {},
            }
        }
    }
    proof {
        assert(items.deep_view() + Seq::<TileV>::empty() =~= items.deep_view());
    }
    Ok(items)
}

impl Node {
    /// Decodes one node record. The record is prefixed by its byte length,
    /// which bounds the inner cursor: whatever the record's own fields
    /// consume, the outer cursor advances exactly past the record, so
    /// trailing record bytes (newer optional attributes) are tolerated.
    /// The result and every error cause are fixed by `dec_node_record_s`.
    #[verifier::rlimit(100)]
    #[verifier::spinoff_prover]
    pub fn deserialize(b: &Vec<u8>, pos: &mut usize) -> (r: Result<Node, NodeDefError>)
        ensures
            match dec_u16(b@, *old(pos) as int) {
                None => r == Err::<Node, NodeDefError>(NodeDefError::Codec(CodecError::Truncated)),
                Some((len, j)) => {
                    if j + len > b@.len() {
                        r == Err::<Node, NodeDefError>(NodeDefError::Codec(CodecError::Truncated))
                    } else {
                        match dec_node_record_s(b@.subrange(j, j + len)) {
                            Ok(v) => r is Ok && r.unwrap()@ == v && *final(pos) == j + len,
                            Err(e) => r == Err::<Node, NodeDefError>(e),
                        }
                    }
                },
            },
    {
        proof {
            reveal(dec_node_record_s);
        }
        let len = match read_u16(b, pos) {
            Ok(v) => v,
            Err(_) => {
                return Err(NodeDefError::Codec(CodecError::Truncated));
            },
        };
        let blen = b.len();
        if *pos > blen || blen - *pos < len as usize {
            return Err(NodeDefError::Codec(CodecError::Truncated));
        }
        let record = crate::transport::copy_range(b, *pos, *pos + len as usize);
        let after = *pos + len as usize;
        let d = &record;
        let mut p: usize = 0;
        let version = match read_u8(d, &mut p) {
            Ok(v) => v,
            Err(e) => {
                return Err(NodeDefError::Codec(e));
            },
        };
        if version < 13 {
            return Err(NodeDefError::BadRecordVersion);
        }
        let name = match read_str(d, &mut p) {
            Ok(v) => v,
            Err(e) => {
                return Err(NodeDefError::Codec(e));
            },
        };
        let groups_count = match read_u16(d, &mut p) {
            Ok(v) => v,
            Err(e) => {
                return Err(NodeDefError::Codec(e));
            },
        };
        let groups = match read_groups(d, &mut p, groups_count) {
            Ok(v) => v,
            Err(e) => {
                return Err(e);
            },
        };
        let param_type1 = match read_u8(d, &mut p) {
            Ok(v) => v,
            Err(e) => {
                return Err(NodeDefError::Codec(e));
            },
        };
        let param_type2 = match read_u8(d, &mut p) {
            Ok(v) => v,
            Err(e) => {
                return Err(NodeDefError::Codec(e));
            },
        };
        let draw_type = match DrawType::deserialize(d, &mut p) {
            Ok(v) => v,
            Err(e) => {
                return Err(e);
            },
        };
        let mesh_name = match read_str(d, &mut p) {
            Ok(v) => v,
            Err(e) => {
                return Err(NodeDefError::Codec(e));
            },
        };
        let mesh = if mesh_name.as_str().is_empty() {
            None
        } else {
            Some(mesh_name)
        };
        let visual_scale = match read_u32(d, &mut p) {
            Ok(v) => v,
            Err(e) => {
                return Err(NodeDefError::Codec(e));
            },
        };
        let tile_count = match read_u8(d, &mut p) {
            Ok(v) => v,
            Err(e) => {
                return Err(NodeDefError::Codec(e));
            },
        };
        if tile_count != 6 {
            return Err(NodeDefError::BadTileCount);
        }
        let tiles = match read_tiles6(d, &mut p) {
            Ok(v) => v,
            Err(e) => {
                return Err(e);
            },
        };
        let tiles_overlay = match read_tiles6(d, &mut p) {
            Ok(v) => v,
            Err(e) => {
                return Err(e);
            },
        };
        let special_tile_count = match read_u8(d, &mut p) {
            Ok(v) => v,
            Err(e) => {
                return Err(NodeDefError::Codec(e));
            },
        };
        if special_tile_count != 6 {
            return Err(NodeDefError::BadTileCount);
        }
        let tiles_special = match read_tiles6(d, &mut p) {
            Ok(v) => v,
            Err(e) => {
                return Err(e);
            },
        };
        let _alpha = match read_u8(d, &mut p) {
            Ok(v) => v,
            Err(e) => {
                return Err(NodeDefError::Codec(e));
            },
        };
        let cr = match read_u8(d, &mut p) {
            Ok(v) => v,
            Err(e) => {
                return Err(NodeDefError::Codec(e));
            },
        };
        let cg = match read_u8(d, &mut p) {
            Ok(v) => v,
            Err(e) => {
                return Err(NodeDefError::Codec(e));
            },
        };
        let cb = match read_u8(d, &mut p) {
            Ok(v) => v,
            Err(e) => {
                return Err(NodeDefError::Codec(e));
            },
        };
        let color = Rgb { r: cr, g: cg, b: cb };
        let palette_name = match read_str(d, &mut p) {
            Ok(v) => v,
            Err(e) => {
                return Err(NodeDefError::Codec(e));
            },
        };
        let waving = match read_u8(d, &mut p) {
            Ok(v) => v,
            Err(e) => {
                return Err(NodeDefError::Codec(e));
            },
        };
        let connect_sides = match read_u8(d, &mut p) {
            Ok(v) => v,
            Err(e) => {
                return Err(NodeDefError::Codec(e));
            },
        };
        let connects_to_count = match read_u16(d, &mut p) {
            Ok(v) => v,
            Err(e) => {
                return Err(NodeDefError::Codec(e));
            },
        };
        let connects_to = match crate::codec::read_u16_run(d, &mut p, connects_to_count) {
            Ok(v) => v,
            Err(_) => {
                return Err(NodeDefError::Codec(CodecError::Truncated));
            },
        };
        let pa = match read_u8(d, &mut p) {
            Ok(v) => v,
            Err(e) => {
                return Err(NodeDefError::Codec(e));
            },
        };
        let pr = match read_u8(d, &mut p) {
            Ok(v) => v,
            Err(e) => {
                return Err(NodeDefError::Codec(e));
            },
        };
        let pg = match read_u8(d, &mut p) {
            Ok(v) => v,
            Err(e) => {
                return Err(NodeDefError::Codec(e));
            },
        };
        let pb = match read_u8(d, &mut p) {
            Ok(v) => v,
            Err(e) => {
                return Err(NodeDefError::Codec(e));
            },
        };
        let post_effect_color = Argb { a: pa, r: pr, g: pg, b: pb };
        let leveled = match read_u8(d, &mut p) {
            Ok(v) => v,
            Err(e) => {
                return Err(NodeDefError::Codec(e));
            },
        };
        let light_propagates = match read_bool(d, &mut p) {
            Ok(v) => v,
            Err(e) => {
                return Err(NodeDefError::Codec(e));
            },
        };
        let sunlight_propagates = match read_bool(d, &mut p) {
            Ok(v) => v,
            Err(e) => {
                return Err(NodeDefError::Codec(e));
            },
        };
        let light_source = match read_u8(d, &mut p) {
            Ok(v) => v,
            Err(e) => {
                return Err(NodeDefError::Codec(e));
            },
        };
        let lighting = Lighting { light_propagates, sunlight_propagates, light_source };
        let is_ground_content = match read_bool(d, &mut p) {
            Ok(v) => v,
            Err(e) => {
                return Err(NodeDefError::Codec(e));
            },
        };
        let _interaction = match read_interaction(d, &mut p) {
            Ok(v) => v,
            Err(e) => {
                return Err(e);
            },
        };
        let _liquid = match read_liquid(d, &mut p) {
            Ok(v) => v,
            Err(e) => {
                return Err(e);
            },
        };
        let _node_box = match NodeBox::deserialize(d, &mut p) {
            Ok(v) => v,
            Err(e) => {
                return Err(e);
            },
        };
        let _selection_box = match NodeBox::deserialize(d, &mut p) {
            Ok(v) => v,
            Err(e) => {
                return Err(e);
            },
        };
        let _collision_box = match NodeBox::deserialize(d, &mut p) {
            Ok(v) => v,
            Err(e) => {
                return Err(e);
            },
        };
        let _footstep = match read_sound(d, &mut p) {
            Ok(v) => v,
            Err(e) => {
                return Err(e);
            },
        };
        let _dig = match read_sound(d, &mut p) {
            Ok(v) => v,
            Err(e) => {
                return Err(e);
            },
        };
        let _dug = match read_sound(d, &mut p) {
            Ok(v) => v,
            Err(e) => {
                return Err(e);
            },
        };
        let _t1 = match read_u8(d, &mut p) {
            Ok(v) => v,
            Err(e) => {
                return Err(NodeDefError::Codec(e));
            },
        };
        let _t2 = match read_u8(d, &mut p) {
            Ok(v) => v,
            Err(e) => {
                return Err(NodeDefError::Codec(e));
            },
        };
        // Newer optional attributes may follow inside the record; they are
        // ignored.
        let _ = read_str(d, &mut p);
        let _ = read_u8(d, &mut p);
        let _ = read_u8(d, &mut p);
        let _ = read_u8(d, &mut p);
        let _ = read_u8(d, &mut p);
        *pos = after;
        Ok(
            Node {
                name,
                groups,
                param_type1,
                param_type2,
                draw_type,
                mesh,
                visual_scale,
                tiles,
                tiles_overlay,
                tiles_special,
                color,
                palette_name,
                waving,
                connect_sides,
                connects_to,
                post_effect_color,
                leveled,
                lighting,
                is_ground_content,
            },
        )
    }
}

/// A run of `n` registry entries: an id, then a length-prefixed record.
pub open spec fn dec_registry_entries(d: Seq<u8>, i: int, n: nat) -> Result<
    (Seq<(u16, NodeV)>, int),
    NodeDefError,
>
    decreases n,
{
    if n == 0 {
        Ok((Seq::<(u16, NodeV)>::empty(), i))
    } else {
        match dec_u16(d, i) {
            None => Err(NodeDefError::Codec(CodecError::Truncated)),
            Some((id, j)) => match dec_u16(d, j) {
                None => Err(NodeDefError::Codec(CodecError::Truncated)),
                Some((len, k)) => {
                    if k + len > d.len() {
                        Err(NodeDefError::Codec(CodecError::Truncated))
                    } else {
                        match dec_node_record_s(d.subrange(k, k + len)) {
                            Err(e) => Err(e),
                            Ok(v) => match dec_registry_entries(d, k + len, (n - 1) as nat) {
                                Err(e) => Err(e),
                                Ok((rest, l)) => Ok((seq![(id, v)] + rest, l)),
                            },
                        }
                    }
                },
            },
        }
    }
}

/// Decodes the decompressed registry blob: a version byte that must be 1,
/// a record count, a reserved length, then the entries. Bytes after the
/// declared count are ignored.
pub open spec fn dec_registry_s(d: Seq<u8>) -> Result<Seq<(u16, NodeV)>, NodeDefError> {
    match dec_u8(d, 0) {
        None => Err(NodeDefError::Codec(CodecError::Truncated)),
        Some((version, i)) => {
            if version != 1 {
                Err(NodeDefError::BadVersion)
            } else {
                match dec_u16(d, i) {
                    None => Err(NodeDefError::Codec(CodecError::Truncated)),
                    Some((count, j)) => match dec_u32(d, j) {
                        None => Err(NodeDefError::Codec(CodecError::Truncated)),
                        Some((_, k)) => match dec_registry_entries(d, k, count as nat) {
                            Err(e) => Err(e),
                            Ok((es, _)) => Ok(es),
                        },
                    },
                }
            }
        },
    }
}

/// The view of the synthetic air node.
pub open spec fn air_v() -> NodeV {
    NodeV {
        name: "air"@,
        groups: Seq::<(Seq<char>, i16)>::empty(),
        param_type1: 0,
        param_type2: 0,
        draw_type: DrawType::AirLike,
        mesh: None,
        visual_scale: 0x3F800000,
        tiles: Seq::<TileV>::empty(),
        tiles_overlay: Seq::<TileV>::empty(),
        tiles_special: Seq::<TileV>::empty(),
        color: Rgb { r: 0, g: 0, b: 0 },
        palette_name: ""@,
        waving: 0,
        connect_sides: 0,
        connects_to: Seq::<u16>::empty(),
        post_effect_color: Argb { a: 0, r: 0, g: 0, b: 0 },
        leveled: 0,
        lighting: Lighting { light_propagates: true, sunlight_propagates: true, light_source: 0 },
        is_ground_content: true,
    }
}

/// The table padded with air up to `len` slots.
pub open spec fn grow_to(table: Seq<NodeV>, len: int) -> Seq<NodeV> {
    if table.len() >= len {
        table
    } else {
        table + Seq::new((len - table.len()) as nat, |x: int| air_v())
    }
}

/// One registry entry placed in the table: intermediate slots filled with
/// air, then the id's slot set.
pub open spec fn apply_entry(table: Seq<NodeV>, id: u16, v: NodeV) -> Seq<NodeV> {
    grow_to(table, id + 1).update(id as int, v)
}

/// The entries placed left to right, so a later duplicate id wins.
pub open spec fn apply_entries(table: Seq<NodeV>, es: Seq<(u16, NodeV)>) -> Seq<NodeV>
    decreases es.len(),
{
    if es.len() == 0 {
        table
    } else {
        apply_entries(apply_entry(table, es[0].0, es[0].1), es.drop_first())
    }
}

proof fn lemma_apply_entries_snoc(table: Seq<NodeV>, es: Seq<(u16, NodeV)>, id: u16, v: NodeV)
    ensures
        apply_entries(table, es.push((id, v))) == apply_entry(apply_entries(table, es), id, v),
    decreases es.len(),
{
    if es.len() == 0 {
        assert(es.push((id, v))[0] == (id, v));
        assert(es.push((id, v)).drop_first() =~= Seq::<(u16, NodeV)>::empty());
        assert(apply_entries(table, es.push((id, v))) == apply_entries(
            apply_entry(table, id, v),
            Seq::<(u16, NodeV)>::empty(),
        ));
        assert(apply_entries(apply_entry(table, id, v), Seq::<(u16, NodeV)>::empty())
            == apply_entry(table, id, v));
        assert(apply_entries(table, es) == table);
    } else {
        assert(es.push((id, v))[0] == es[0]);
        assert(es.push((id, v)).drop_first() =~= es.drop_first().push((id, v)));
        lemma_apply_entries_snoc(apply_entry(table, es[0].0, es[0].1), es.drop_first(), id, v);
        assert(apply_entries(table, es.push((id, v))) == apply_entries(
            apply_entry(table, es[0].0, es[0].1),
            es.drop_first().push((id, v)),
        ));
        assert(apply_entries(table, es) == apply_entries(
            apply_entry(table, es[0].0, es[0].1),
            es.drop_first(),
        ));
    }
}

/// The synthetic definition used to fill unannounced id slots: an
/// invisible, transparent air node.
pub fn air() -> (r: Node)
    ensures
        r@ == air_v(),
        r.draw_type == DrawType::AirLike,
        r.lighting.light_propagates,
        r.lighting.sunlight_propagates,
{
    let node = Node {
        name: "air".to_owned(),
        groups: Vec::new(),
        param_type1: 0,
        param_type2: 0,
        draw_type: DrawType::AirLike,
        mesh: None,
        visual_scale: 0x3F800000,
        tiles: Vec::new(),
        tiles_overlay: Vec::new(),
        tiles_special: Vec::new(),
        color: Rgb { r: 0, g: 0, b: 0 },
        palette_name: "".to_owned(),
        waving: 0,
        connect_sides: 0,
        connects_to: Vec::new(),
        post_effect_color: Argb { a: 0, r: 0, g: 0, b: 0 },
        leveled: 0,
        lighting: Lighting { light_propagates: true, sunlight_propagates: true, light_source: 0 },
        is_ground_content: true,
    };
    proof {
        assert(node.groups.deep_view() =~= Seq::<(Seq<char>, i16)>::empty());
        assert(node.tiles.deep_view() =~= Seq::<TileV>::empty());
        assert(node.tiles_overlay.deep_view() =~= Seq::<TileV>::empty());
        assert(node.tiles_special.deep_view() =~= Seq::<TileV>::empty());
        assert(node.connects_to@ =~= Seq::<u16>::empty());
    }
    node
}

/// A placeholder item definition; item handling is not part of this core.
#[derive(Debug, Clone)]
pub struct Item {}

/// The game definitions: the node registry indexed by node id.
pub struct Game {
    pub items: Vec<Item>,
    pub nodes: Vec<Node>,
}

impl Game {
    pub fn new() -> (r: Game)
        ensures
            r.nodes@.len() == 0,
            r.items@.len() == 0,
    {
        Game { items: Vec::new(), nodes: Vec::new() }
    }

    /// Decodes the node registry from the zlib-compressed blob: a version
    /// byte (must be 1), a record count, a reserved length, then that many
    /// `id, record` pairs. Unannounced id slots are filled with `air`, a
    /// later duplicate id wins, and bytes after the declared count are
    /// ignored; the resulting table and every error cause are fixed by
    /// `dec_registry_s`.
    pub fn deserialize_nodes(data: &Vec<u8>) -> (r: Result<Game, NodeDefError>)
        ensures
            match zlib_inflate_of(data@) {
                None => r == Err::<Game, NodeDefError>(NodeDefError::Decompress),
                Some(d) => match dec_registry_s(d) {
                    Err(e) => r == Err::<Game, NodeDefError>(e),
                    Ok(es) => r is Ok && r.unwrap().nodes.deep_view() == apply_entries(
                        Seq::<NodeV>::empty(),
                        es,
                    ),
                },
            },
    {
        let d = match zlib_decompress(data) {
            Some(v) => v,
            None => {
                return Err(NodeDefError::Decompress);
            },
        };
        let mut p: usize = 0;
        let version = match read_u8(&d, &mut p) {
            Ok(v) => v,
            Err(e) => {
                return Err(NodeDefError::Codec(e));
            },
        };
        if version != 1 {
            return Err(NodeDefError::BadVersion);
        }
        let count = match read_u16(&d, &mut p) {
            Ok(v) => v,
            Err(e) => {
                return Err(NodeDefError::Codec(e));
            },
        };
        let _total_len = match read_u32(&d, &mut p) {
            Ok(v) => v,
            Err(e) => {
                return Err(NodeDefError::Codec(e));
            },
        };
        let ghost k0 = p as int;
        let mut game = Game::new();
        let ghost mut done: Seq<(u16, NodeV)> = Seq::empty();
        let mut k: u16 = 0;
        proof {
            match dec_registry_entries(d@, k0, count as nat) {
                Ok((rest, _)) => {
                    assert(Seq::<(u16, NodeV)>::empty() + rest =~= rest);
                },
                Err(_) => {},
            }
            assert(game.nodes.deep_view() =~= Seq::<NodeV>::empty());
        }
        while k < count
            invariant
                k <= count,
                game.nodes@.len() <= 0x10000,
                zlib_inflate_of(data@) == Some(d@),
                game.nodes.deep_view() == apply_entries(Seq::<NodeV>::empty(), done),
                dec_registry_s(d@) == (match dec_registry_entries(d@, k0, count as nat) {
                    Ok((es, _)) => Ok::<Seq<(u16, NodeV)>, NodeDefError>(es),
                    Err(e) => Err::<Seq<(u16, NodeV)>, NodeDefError>(e),
                }),
                match dec_registry_entries(d@, p as int, (count - k) as nat) {
                    Ok((rest, e)) => dec_registry_entries(d@, k0, count as nat) == Ok::<
                        (Seq<(u16, NodeV)>, int),
                        NodeDefError,
                    >((done + rest, e)),
                    Err(e) => dec_registry_entries(d@, k0, count as nat) == Err::<
                        (Seq<(u16, NodeV)>, int),
                        NodeDefError,
                    >(e),
                },
            decreases count - k,
        {
            let ghost p_before = p as int;
            let ghost done_before = done;
            let id = match read_u16(&d, &mut p) {
                Ok(v) => v,
                Err(e) => {
                    proof {
                        assert(dec_registry_entries(d@, p_before, (count - k) as nat) == Err::<
                            (Seq<(u16, NodeV)>, int),
                            NodeDefError,
                        >(NodeDefError::Codec(CodecError::Truncated)));
                    }
                    return Err(NodeDefError::Codec(e));
                },
            };
            let node = match Node::deserialize(&d, &mut p) {
                Ok(v) => v,
                Err(e) => {
                    proof {
                        assert(dec_registry_entries(d@, p_before, (count - k) as nat) == Err::<
                            (Seq<(u16, NodeV)>, int),
                            NodeDefError,
                        >(e));
                    }
                    return Err(e);
                },
            };
            let ghost node_v = node@;
            let ghost table_before = game.nodes.deep_view();
            let id = id as usize;
            while game.nodes.len() <= id
                invariant
                    game.nodes@.len() <= 0x10000,
                    id < 0x10000,
                    game.nodes@.len() >= table_before.len(),
                    game.nodes@.len() <= table_before.len() || game.nodes@.len() <= id + 1,
                    game.nodes.deep_view() == grow_to(
                        table_before,
                        game.nodes.deep_view().len() as int,
                    ),
                decreases 0x10000 - game.nodes@.len(),
            {
                let ghost dv = game.nodes.deep_view();
                game.nodes.push(air());
                proof {
                    assert(game.nodes.deep_view() =~= dv.push(air_v()));
                    assert(grow_to(table_before, dv.len() as int + 1) =~= grow_to(
                        table_before,
                        dv.len() as int,
                    ).push(air_v()));
                }
            }
            proof {
                let dv = game.nodes.deep_view();
                if table_before.len() > id {
                    assert(grow_to(table_before, dv.len() as int) == table_before);
                    assert(grow_to(table_before, id + 1) == table_before);
                } else {
                    assert(dv.len() == id + 1);
                }
                assert(dv == grow_to(table_before, id + 1));
            }
            let ghost dv_pre_set = game.nodes.deep_view();
            game.nodes.set(id, node);
            k = k + 1;
            proof {
                assert(game.nodes.deep_view() =~= dv_pre_set.update(id as int, node_v));
                lemma_apply_entries_snoc(
                    Seq::<NodeV>::empty(),
                    done_before,
                    (id as u16),
                    node_v,
                );
                done = done_before.push(((id as u16), node_v));
                match dec_registry_entries(d@, p as int, (count - k) as nat) {
                    Ok((rest, _)) => {
                        assert((done_before + seq![((id as u16), node_v)]) + rest =~= done_before
                            + (seq![((id as u16), node_v)] + rest));
                        assert(done_before.push(((id as u16), node_v)) =~= done_before + seq![
                            ((id as u16), node_v),
                        ]);
                    },
                    Err(_) => {},
                }
            }
        }
        proof {
            assert(done + Seq::<(u16, NodeV)>::empty() =~= done);
        }
        Ok(game)
    }

    /// The definition of a node id, when the registry holds one: exactly
    /// the table's slot at that id.
    pub fn node_def(&self, id: u16) -> (r: Option<&Node>)
        ensures
            r is Some <==> (id as int) < self.nodes@.len(),
            match r {
                Some(n) => *n == self.nodes@[id as int],
                None => true,
            },
    {
        if (id as usize) < self.nodes.len() {
            Some(&self.nodes[id as usize])
        } else {
            None
        }
    }
}

} // verus!
