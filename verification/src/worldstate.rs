//! The in-memory world: player, world clock and the block map. Positions
//! and angles arrive as IEEE-754 floats and are carried as bit patterns;
//! the renderer converts them when drawing.

use crate::math::Vector3;
use crate::worldmap::BlockMap;
use vstd::prelude::*;

verus! {

/// The player: position and view angles as raw float bit patterns.
pub struct Player {
    pub position: Vector3,
    pub pitch: u32,
    pub yaw: u32,
}

impl Player {
    pub fn new() -> (r: Player)
        ensures
            r.position == (Vector3 { x: 0, y: 0, z: 0 }),
            r.pitch == 0,
            r.yaw == 0,
    {
        Player { position: Vector3 { x: 0, y: 0, z: 0 }, pitch: 0, yaw: 0 }
    }
}

/// Everything the session mutates and the renderer observes.
pub struct WorldState {
    pub player: Player,
    pub time: u16,
    pub time_speed: u32,
    pub map: BlockMap,
}

impl WorldState {
    pub fn new() -> (r: WorldState)
        ensures
            r.map.wf(),
            r.map.blocks@.len() == 0,
            r.map.dirty@.len() == 0,
            r.time == 0,
            r.time_speed == 0,
    {
        WorldState { player: Player::new(), time: 0, time_speed: 0, map: BlockMap::new() }
    }
}

} // verus!
