//! Renderer state that is not GPU work: per-frame draw statistics and the
//! fog the camera's surroundings call for.

use vstd::prelude::*;
use crate::block::BlockId;
use crate::world::ChunkPos;

verus! {

/// Counts of chunk meshes drawn and culled in one frame.
#[derive(Clone, Copy, Debug)]
pub struct RenderStats {
    pub visible_meshes: usize,
    pub culled_meshes: usize,
}

impl RenderStats {
    /// Counts one mesh: drawn when it intersects the view, culled otherwise.
    pub fn record(&mut self, visible: bool)
        requires
            visible ==> old(self).visible_meshes < usize::MAX,
            !visible ==> old(self).culled_meshes < usize::MAX,
        ensures
            final(self).visible_meshes == old(self).visible_meshes + if visible { 1int } else { 0int },
            final(self).culled_meshes == old(self).culled_meshes + if visible { 0int } else { 1int },
    {
        if visible {
            self.visible_meshes = self.visible_meshes + 1;
        } else {
            self.culled_meshes = self.culled_meshes + 1;
        }
    }
}

impl Default for RenderStats {
    fn default() -> (r: RenderStats)
        ensures
            r.visible_meshes == 0,
            r.culled_meshes == 0,
    {
        RenderStats { visible_meshes: 0, culled_meshes: 0 }
    }
}

/// The fog drawn around the camera.
#[derive(Clone, Copy, Debug, Eq, PartialEq, Structural)]
pub enum FogEnvironment {
    Air,
    Water,
    Lava,
}

impl Default for FogEnvironment {
    fn default() -> (r: FogEnvironment)
        ensures
            r == FogEnvironment::Air,
    {
        FogEnvironment::Air
    }
}

/// The fog for a camera inside `block`: water and lava have their own,
/// everything else is air.
pub open spec fn spec_fog_for(block: Seq<char>) -> FogEnvironment {
    if block == "water"@ {
        FogEnvironment::Water
    } else if block == "lava"@ {
        FogEnvironment::Lava
    } else {
        FogEnvironment::Air
    }
}

/// The fog for a camera inside `block`.
pub fn fog_environment_for(block: &BlockId) -> (r: FogEnvironment)
    ensures
        r == spec_fog_for(block@),
{
    if block.is_named("water") {
        FogEnvironment::Water
    } else if block.is_named("lava") {
        FogEnvironment::Lava
    } else {
        FogEnvironment::Air
    }
}


/// The distance between two chunks along their farther axis.
pub open spec fn chunk_distance(a: ChunkPos, b: ChunkPos) -> int {
    let dx = if a.0 >= b.0 { a.0 - b.0 } else { b.0 - a.0 };
    let dz = if a.1 >= b.1 { a.1 - b.1 } else { b.1 - a.1 };
    if dx >= dz { dx } else { dz }
}

/// Whether a chunk lies within `distance` chunks of `center`, along both
/// axes: the chunks whose meshes are built and drawn.
pub fn in_render_distance(pos: ChunkPos, center: ChunkPos, distance: i32) -> (r: bool)
    ensures
        r == (chunk_distance(pos, center) <= distance),
{
    let dx: i64 = if pos.0 >= center.0 { pos.0 as i64 - center.0 as i64 } else { center.0 as i64 - pos.0 as i64 };
    let dz: i64 = if pos.1 >= center.1 { pos.1 as i64 - center.1 as i64 } else { center.1 as i64 - pos.1 as i64 };
    let d = if dx >= dz { dx } else { dz };
    d <= distance as i64
}

} // verus!
