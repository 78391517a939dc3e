//! Client-side transport and session core for a Minetest-compatible
//! multiplayer protocol: a big-endian wire codec, the frame layer over UDP
//! datagrams, a reliable multi-channel transport, the message codec, the
//! session state machine, and the in-memory world model.

pub mod auth;
pub mod block;
pub mod clientbound;
pub mod codec;
pub mod compress;
pub mod frame;
pub mod game;
pub mod math;
pub mod media;
pub mod schematic;
pub mod serverbound;
pub mod session;
pub mod transport;
pub mod worldmap;
pub mod worldstate;
