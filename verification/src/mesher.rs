//! Decisions of the chunk mesher: which faces of a block are drawn, which
//! neighbours darken a vertex (ambient occlusion), how high water stands,
//! how the biome tints grass, leaves and water, and the pieces a chunk's
//! mesh is made of, in the order they are drawn.
//!
//! The vertex geometry itself is floating point and is built outside this
//! library from these decisions.

use vstd::prelude::*;
use crate::block::BlockId;
use crate::world::{BlockPos, Chunk, ChunkPos, World, spec_chunk_pos};

verus! {

/// Blocks that let the faces behind them show.
pub open spec fn spec_is_transparent(b: Seq<char>) -> bool {
    b == "water"@ || b == "glass"@ || b == "oak_leaves"@ || b == "oak_sapling"@
}

/// Whether a block lets the faces behind it show.
pub fn is_transparent(b: &BlockId) -> (r: bool)
    ensures
        r == spec_is_transparent(b@),
{
    b.is_named("water") || b.is_named("glass") || b.is_named("oak_leaves") || b.is_named("oak_sapling")
}

/// A face is drawn toward a missing neighbour, toward air, and toward a
/// transparent block of another kind.
pub open spec fn spec_face_visible(current: Seq<char>, neighbor: Option<Seq<char>>) -> bool {
    match neighbor {
        None => true,
        Some(n) => n.len() == 0 || (spec_is_transparent(n) && n != current),
    }
}

/// Water, glass, oak leaves and oak saplings let the faces of other blocks
/// behind them show: a face toward one of them is drawn unless the face's own
/// block is of the same kind. A face toward air or toward no loaded neighbour
/// is drawn too.
pub proof fn law_faces_show_through_transparent_blocks(current: Seq<char>, neighbor: Seq<char>)
    requires
        neighbor == "water"@ || neighbor == "glass"@ || neighbor == "oak_leaves"@ || neighbor == "oak_sapling"@,
    ensures
        spec_face_visible(current, Some(neighbor)) <==> current != neighbor,
        spec_face_visible(current, Some(Seq::<char>::empty())),
        spec_face_visible(current, None),
{
    reveal_strlit("water");
    reveal_strlit("glass");
    reveal_strlit("oak_leaves");
    reveal_strlit("oak_sapling");
}

/// Whether the face of `current` toward `neighbor` is drawn.
pub fn face_visible(current: &BlockId, neighbor: Option<&BlockId>) -> (r: bool)
    ensures
        r == spec_face_visible(current@, match neighbor {
            Some(n) => Some(n@),
            None => None,
        }),
{
    match neighbor {
        None => true,
        Some(n) => n.is_air() || (is_transparent(n) && !n.same(current)),
    }
}

/// The block at a world position as the mesher sees it: nothing above or
/// below the world or in a chunk that is not loaded.
pub open spec fn spec_block_at(world: World, x: i32, y: i32, z: i32) -> Option<Seq<char>> {
    if 0 <= y < 64 && world.is_loaded(spec_chunk_pos(BlockPos(x, y, z))) {
        Some(world.spec_block(BlockPos(x, y, z)))
    } else {
        None
    }
}

/// The block at a world position, if it lies in a loaded chunk.
pub fn block_at_world(world: &World, x: i32, y: i32, z: i32) -> (r: Option<BlockId>)
    requires
        world.wf(),
    ensures
        match r {
            Some(b) => spec_block_at(*world, x, y, z) == Some(b@),
            None => spec_block_at(*world, x, y, z) is None,
        },
{
    if y < 0 || y >= 64 {
        return None;
    }
    let pos = BlockPos(x, y, z);
    if !world.is_chunk_loaded(pos.chunk_pos()) {
        return None;
    }
    Some(world.get_block(pos))
}

/// Whether the neighbour at offset (`dx`, `dy`, `dz`) darkens a vertex: a
/// loaded, non-air, opaque block inside the world's height.
pub open spec fn spec_occludes(world: World, x: i32, y: i32, z: i32, dx: i32, dy: i32, dz: i32) -> bool {
    let ny = y + dy;
    0 <= ny < 64 && match spec_block_at(world, (x + dx) as i32, ny as i32, (z + dz) as i32) {
        Some(b) => b.len() != 0 && !spec_is_transparent(b),
        None => false,
    }
}

/// Whether the neighbour at offset (`dx`, `dy`, `dz`) darkens a vertex.
pub fn occludes(world: &World, x: i32, y: i32, z: i32, dx: i32, dy: i32, dz: i32) -> (r: bool)
    requires
        world.wf(),
        i32::MIN <= y + dy <= i32::MAX,
        i32::MIN <= x + dx <= i32::MAX,
        i32::MIN <= z + dz <= i32::MAX,
    ensures
        r == spec_occludes(*world, x, y, z, dx, dy, dz),
{
    let ny = y + dy;
    if ny < 0 || ny >= 64 {
        return false;
    }
    match block_at_world(world, x + dx, ny, z + dz) {
        Some(b) => !b.is_air() && !is_transparent(&b),
        None => false,
    }
}

/// Ambient-occlusion level of a vertex, 0 (darkest) to 3 (unshaded): two
/// occluding sides shut the corner off entirely.
pub open spec fn spec_ao_level(side_1: bool, side_2: bool, corner: bool) -> int {
    if side_1 && side_2 {
        0
    } else {
        3 - (if side_1 { 1int } else { 0 }) - (if side_2 { 1int } else { 0 }) - (if corner { 1int } else { 0 })
    }
}

/// Ambient-occlusion level of a vertex from its two side neighbours and its
/// corner neighbour.
pub fn ao_level(side_1: bool, side_2: bool, corner: bool) -> (r: u8)
    ensures
        r == spec_ao_level(side_1, side_2, corner),
        r <= 3,
{
    if side_1 && side_2 {
        0
    } else {
        3 - (side_1 as u8) - (side_2 as u8) - (corner as u8)
    }
}

/// Ambient-occlusion level of the vertex of the face with normal `normal`
/// that lies toward `side_a` and `side_b`.
pub fn vertex_ao_level(world: &World, x: i32, y: i32, z: i32, normal: [i32; 3], side_a: [i32; 3], side_b: [i32; 3]) -> (r: u8)
    requires
        world.wf(),
        -1 <= normal[0] <= 1 && -1 <= normal[1] <= 1 && -1 <= normal[2] <= 1,
        -1 <= side_a[0] <= 1 && -1 <= side_a[1] <= 1 && -1 <= side_a[2] <= 1,
        -1 <= side_b[0] <= 1 && -1 <= side_b[1] <= 1 && -1 <= side_b[2] <= 1,
        i32::MIN + 3 <= x <= i32::MAX - 3,
        i32::MIN + 3 <= y <= i32::MAX - 3,
        i32::MIN + 3 <= z <= i32::MAX - 3,
    ensures
        r == spec_ao_level(
            spec_occludes(*world, x, y, z, (normal[0] + side_a[0]) as i32, (normal[1] + side_a[1]) as i32, (normal[2] + side_a[2]) as i32),
            spec_occludes(*world, x, y, z, (normal[0] + side_b[0]) as i32, (normal[1] + side_b[1]) as i32, (normal[2] + side_b[2]) as i32),
            spec_occludes(*world, x, y, z, (normal[0] + side_a[0] + side_b[0]) as i32, (normal[1] + side_a[1] + side_b[1]) as i32, (normal[2] + side_a[2] + side_b[2]) as i32),
        ),
{
    let side_1 = occludes(world, x, y, z, normal[0] + side_a[0], normal[1] + side_a[1], normal[2] + side_a[2]);
    let side_2 = occludes(world, x, y, z, normal[0] + side_b[0], normal[1] + side_b[1], normal[2] + side_b[2]);
    let corner = occludes(
        world,
        x,
        y,
        z,
        normal[0] + side_a[0] + side_b[0],
        normal[1] + side_a[1] + side_b[1],
        normal[2] + side_a[2] + side_b[2],
    );
    ao_level(side_1, side_2, corner)
}

/// The water level the mesher reads at a position: the level property
/// (index 0, capped at 15) of a water block, nothing elsewhere.
pub open spec fn spec_water_level(world: World, pos: BlockPos) -> Option<u8> {
    if world.spec_block(pos) == "water"@ {
        let v = world.spec_property(pos, 0);
        Some(if v > 15 { 15u8 } else { v })
    } else {
        None
    }
}

/// The water level at a position, if it holds water.
pub fn water_level(world: &World, pos: BlockPos) -> (r: Option<u8>)
    requires
        world.wf(),
    ensures
        r == spec_water_level(*world, pos),
{
    if world.get_block(pos).is_named("water") {
        let v = world.get_block_property(pos, 0);
        Some(if v > 15 { 15 } else { v })
    } else {
        None
    }
}

/// The texture paths that take a biome tint.
pub open spec fn is_water_texture(path: Seq<char>) -> bool {
    path == "block/water_still"@ || path == "block/water_flow"@
}

pub open spec fn is_grass_texture(path: Seq<char>) -> bool {
    path == "block/grass_block_top"@ || path == "block/grass_block_side_overlay"@
}

/// The biome tint of a texture as 8-bit RGB, or `None` for untinted textures.
pub open spec fn spec_biome_tint(path: Seq<char>, biome: Seq<char>) -> Option<(u8, u8, u8)> {
    if is_water_texture(path) {
        if biome == "desert"@ { Some((0x44u8, 0xafu8, 0xd8u8)) } else { Some((0x3fu8, 0x76u8, 0xe4u8)) }
    } else if is_grass_texture(path) {
        if biome == "desert"@ {
            Some((0xb7u8, 0xb7u8, 0x63u8))
        } else if biome == "forest"@ {
            Some((0x79u8, 0xc0u8, 0x5au8))
        } else if biome == "hills"@ {
            Some((0x8au8, 0xb6u8, 0x89u8))
        } else {
            Some((0x91u8, 0xbdu8, 0x59u8))
        }
    } else if path == "block/oak_leaves"@ {
        if biome == "desert"@ {
            Some((0xa0u8, 0xa7u8, 0x55u8))
        } else if biome == "forest"@ {
            Some((0x59u8, 0xaeu8, 0x30u8))
        } else if biome == "hills"@ {
            Some((0x71u8, 0x91u8, 0x5fu8))
        } else {
            Some((0x77u8, 0xabu8, 0x2fu8))
        }
    } else {
        None
    }
}

/// The biome tint of a texture as 8-bit RGB, or `None` for untinted textures.
pub fn biome_tint_rgb(path: &str, biome: &str) -> (r: Option<(u8, u8, u8)>)
    ensures
        r == spec_biome_tint(path@, biome@),
{
    let eq = |a: &str, b: &str| -> (r: bool)
        ensures
            r == (a@ == b@),
        { crate::text::str_eq(a, b) };
    if eq(path, "block/water_still") || eq(path, "block/water_flow") {
        if eq(biome, "desert") { Some((0x44, 0xaf, 0xd8)) } else { Some((0x3f, 0x76, 0xe4)) }
    } else if eq(path, "block/grass_block_top") || eq(path, "block/grass_block_side_overlay") {
        if eq(biome, "desert") {
            Some((0xb7, 0xb7, 0x63))
        } else if eq(biome, "forest") {
            Some((0x79, 0xc0, 0x5a))
        } else if eq(biome, "hills") {
            Some((0x8a, 0xb6, 0x89))
        } else {
            Some((0x91, 0xbd, 0x59))
        }
    } else if eq(path, "block/oak_leaves") {
        if eq(biome, "desert") {
            Some((0xa0, 0xa7, 0x55))
        } else if eq(biome, "forest") {
            Some((0x59, 0xae, 0x30))
        } else if eq(biome, "hills") {
            Some((0x71, 0x91, 0x5f))
        } else {
            Some((0x77, 0xab, 0x2f))
        }
    } else {
        None
    }
}

/// The offset of the neighbour a face looks at, by direction: +x, -x, +y,
/// -y, +z, -z.
pub open spec fn face_normal(dir: int) -> (int, int, int) {
    if dir == 0 {
        (1, 0, 0)
    } else if dir == 1 {
        (-1, 0, 0)
    } else if dir == 2 {
        (0, 1, 0)
    } else if dir == 3 {
        (0, -1, 0)
    } else if dir == 4 {
        (0, 0, 1)
    } else {
        (0, 0, -1)
    }
}

/// The first side toward which corner `k` of the face toward `dir` lies.
pub open spec fn corner_side_a(dir: int, k: int) -> (int, int, int) {
    if dir <= 1 {
        if k == 0 || k == 3 { (0, -1, 0) } else { (0, 1, 0) }
    } else if dir <= 3 {
        if k <= 1 { (-1, 0, 0) } else { (1, 0, 0) }
    } else if dir == 4 {
        if k == 0 || k == 3 { (-1, 0, 0) } else { (1, 0, 0) }
    } else {
        if k == 0 || k == 3 { (1, 0, 0) } else { (-1, 0, 0) }
    }
}

/// The second side toward which corner `k` of the face toward `dir` lies.
pub open spec fn corner_side_b(dir: int, k: int) -> (int, int, int) {
    if dir <= 1 {
        if k <= 1 { (0, 0, -1) } else { (0, 0, 1) }
    } else if dir <= 3 {
        if k == 0 || k == 3 { (0, 0, -1) } else { (0, 0, 1) }
    } else {
        if k <= 1 { (0, -1, 0) } else { (0, 1, 0) }
    }
}

/// The ambient-occlusion level of corner `k` of the face toward `dir` of
/// the block at (`x`, `y`, `z`).
pub open spec fn spec_corner_ao(world: World, x: i32, y: i32, z: i32, dir: int, k: int) -> u8 {
    let n = face_normal(dir);
    let a = corner_side_a(dir, k);
    let b = corner_side_b(dir, k);
    spec_ao_level(
        spec_occludes(world, x, y, z, (n.0 + a.0) as i32, (n.1 + a.1) as i32, (n.2 + a.2) as i32),
        spec_occludes(world, x, y, z, (n.0 + b.0) as i32, (n.1 + b.1) as i32, (n.2 + b.2) as i32),
        spec_occludes(world, x, y, z, (n.0 + a.0 + b.0) as i32, (n.1 + a.1 + b.1) as i32, (n.2 + a.2 + b.2) as i32),
    ) as u8
}

/// The ambient-occlusion levels of the four corners of a face.
pub open spec fn spec_face_ao(world: World, x: i32, y: i32, z: i32, dir: int) -> (u8, u8, u8, u8) {
    (
        spec_corner_ao(world, x, y, z, dir, 0),
        spec_corner_ao(world, x, y, z, dir, 1),
        spec_corner_ao(world, x, y, z, dir, 2),
        spec_corner_ao(world, x, y, z, dir, 3),
    )
}

fn corner_offsets(dir: u8, k: u8) -> (r: ([i32; 3], [i32; 3], [i32; 3]))
    requires
        dir < 6,
        k < 4,
    ensures
        r.0[0] == face_normal(dir as int).0 && r.0[1] == face_normal(dir as int).1 && r.0[2] == face_normal(dir as int).2,
        r.1[0] == corner_side_a(dir as int, k as int).0 && r.1[1] == corner_side_a(dir as int, k as int).1
            && r.1[2] == corner_side_a(dir as int, k as int).2,
        r.2[0] == corner_side_b(dir as int, k as int).0 && r.2[1] == corner_side_b(dir as int, k as int).1
            && r.2[2] == corner_side_b(dir as int, k as int).2,
{
    let normal: [i32; 3] = if dir == 0 {
        [1, 0, 0]
    } else if dir == 1 {
        [-1, 0, 0]
    } else if dir == 2 {
        [0, 1, 0]
    } else if dir == 3 {
        [0, -1, 0]
    } else if dir == 4 {
        [0, 0, 1]
    } else {
        [0, 0, -1]
    };
    let side_a: [i32; 3] = if dir <= 1 {
        if k == 0 || k == 3 { [0, -1, 0] } else { [0, 1, 0] }
    } else if dir <= 3 {
        if k <= 1 { [-1, 0, 0] } else { [1, 0, 0] }
    } else if dir == 4 {
        if k == 0 || k == 3 { [-1, 0, 0] } else { [1, 0, 0] }
    } else {
        if k == 0 || k == 3 { [1, 0, 0] } else { [-1, 0, 0] }
    };
    let side_b: [i32; 3] = if dir <= 1 {
        if k <= 1 { [0, 0, -1] } else { [0, 0, 1] }
    } else if dir <= 3 {
        if k == 0 || k == 3 { [0, 0, -1] } else { [0, 0, 1] }
    } else {
        if k <= 1 { [0, -1, 0] } else { [0, 1, 0] }
    };
    (normal, side_a, side_b)
}

/// Whether coordinates leave room for the offsets the mesher looks at.
pub open spec fn mesh_coords(x: int, y: int, z: int) -> bool {
    &&& i32::MIN + 3 <= x <= i32::MAX - 3
    &&& i32::MIN + 3 <= y <= i32::MAX - 3
    &&& i32::MIN + 3 <= z <= i32::MAX - 3
}

/// The ambient-occlusion levels of the four corners of the face toward
/// `dir` of the block at (`x`, `y`, `z`).
pub fn face_ao_levels(world: &World, x: i32, y: i32, z: i32, dir: u8) -> (r: (u8, u8, u8, u8))
    requires
        world.wf(),
        dir < 6,
        mesh_coords(x as int, y as int, z as int),
    ensures
        r == spec_face_ao(*world, x, y, z, dir as int),
{
    let (n, a, b) = corner_offsets(dir, 0);
    let c0 = vertex_ao_level(world, x, y, z, n, a, b);
    let (n, a, b) = corner_offsets(dir, 1);
    let c1 = vertex_ao_level(world, x, y, z, n, a, b);
    let (n, a, b) = corner_offsets(dir, 2);
    let c2 = vertex_ao_level(world, x, y, z, n, a, b);
    let (n, a, b) = corner_offsets(dir, 3);
    let c3 = vertex_ao_level(world, x, y, z, n, a, b);
    (c0, c1, c2, c3)
}

/// What a piece of a chunk's mesh is.
#[derive(Clone, Copy, Debug, PartialEq, Eq)]
pub enum PieceKind {
    /// The two crossed quads of a sapling.
    Sapling,
    /// The face toward direction `.0` (+x, -x, +y, -y, +z, -z), with the
    /// ambient-occlusion levels of its four corners.
    Face(u8, (u8, u8, u8, u8)),
}

/// A piece of a chunk's mesh: what it is, the cell it belongs to (by flat
/// index), whether it goes to the transparent layer, and whether its top
/// follows the surrounding water (the top of a water column).
#[derive(Clone, Copy, Debug, PartialEq, Eq)]
pub struct MeshPiece {
    pub index: usize,
    pub transparent: bool,
    pub water_top: bool,
    pub kind: PieceKind,
}

/// World coordinates of cell `idx` of the chunk at `cp`.
pub open spec fn cell_coords(cp: ChunkPos, idx: int) -> (int, int, int) {
    (cp.0 * 16 + idx % 16, idx / 256, cp.1 * 16 + (idx / 16) % 16)
}

/// Whether cell `idx` holds the top of a water column: water, with no water
/// above it in the chunk.
pub open spec fn spec_water_top(blocks: Seq<Seq<char>>, idx: int) -> bool {
    blocks[idx] == "water"@ && (idx / 256 + 1 >= 64 || blocks[idx + 256] != "water"@)
}

/// The face toward `dir` of cell `idx`, when it is drawn.
pub open spec fn spec_face_piece(world: World, blocks: Seq<Seq<char>>, cp: ChunkPos, idx: int, dir: int) -> Seq<MeshPiece> {
    let b = blocks[idx];
    let c = cell_coords(cp, idx);
    let n = face_normal(dir);
    if spec_face_visible(b, spec_block_at(world, (c.0 + n.0) as i32, (c.1 + n.1) as i32, (c.2 + n.2) as i32)) {
        seq![MeshPiece {
            index: idx as usize,
            transparent: spec_is_transparent(b),
            water_top: spec_water_top(blocks, idx),
            kind: PieceKind::Face(dir as u8, spec_face_ao(world, c.0 as i32, c.1 as i32, c.2 as i32, dir)),
        }]
    } else {
        Seq::empty()
    }
}

/// The drawn faces of cell `idx` toward the first `d` directions.
pub open spec fn spec_faces_upto(world: World, blocks: Seq<Seq<char>>, cp: ChunkPos, idx: int, d: int) -> Seq<MeshPiece>
    decreases d,
{
    if d <= 0 {
        Seq::empty()
    } else {
        spec_faces_upto(world, blocks, cp, idx, d - 1) + spec_face_piece(world, blocks, cp, idx, d - 1)
    }
}

/// The pieces of cell `idx`: none for air, the crossed quads of a sapling,
/// the drawn faces of any other block.
pub open spec fn spec_cell_pieces(world: World, blocks: Seq<Seq<char>>, cp: ChunkPos, idx: int) -> Seq<MeshPiece> {
    if blocks[idx].len() == 0 {
        Seq::empty()
    } else if blocks[idx] == "oak_sapling"@ {
        seq![MeshPiece { index: idx as usize, transparent: true, water_top: false, kind: PieceKind::Sapling }]
    } else {
        spec_faces_upto(world, blocks, cp, idx, 6)
    }
}

/// The pieces of the first `n` cells of a chunk, cell by cell.
pub open spec fn spec_pieces_upto(world: World, blocks: Seq<Seq<char>>, cp: ChunkPos, n: int) -> Seq<MeshPiece>
    decreases n,
{
    if n <= 0 {
        Seq::empty()
    } else {
        spec_pieces_upto(world, blocks, cp, n - 1) + spec_cell_pieces(world, blocks, cp, n - 1)
    }
}

/// Whether a chunk lies where its cells and their neighbours have
/// coordinates.
pub open spec fn meshable_chunk(cp: ChunkPos) -> bool {
    &&& i32::MIN + 3 <= cp.0 * 16
    &&& cp.0 * 16 + 18 <= i32::MAX
    &&& i32::MIN + 3 <= cp.1 * 16
    &&& cp.1 * 16 + 18 <= i32::MAX
}

/// A sequence of the piece, if any.
pub open spec fn piece_seq(p: Option<MeshPiece>) -> Seq<MeshPiece> {
    match p {
        Some(p) => seq![p],
        None => Seq::empty(),
    }
}

fn face_piece(
    world: &World,
    b: &BlockId,
    idx: usize,
    x: i32,
    y: i32,
    z: i32,
    dir: u8,
    transparent: bool,
    water_top: bool,
    Ghost(bv): Ghost<Seq<Seq<char>>>,
    Ghost(cp): Ghost<ChunkPos>,
) -> (r: Option<MeshPiece>)
    requires
        world.wf(),
        dir < 6,
        0 <= idx < bv.len(),
        bv[idx as int] == b@,
        cell_coords(cp, idx as int) == (x as int, y as int, z as int),
        mesh_coords(x as int, y as int, z as int),
        transparent == spec_is_transparent(b@),
        water_top == spec_water_top(bv, idx as int),
    ensures
        piece_seq(r) == spec_face_piece(*world, bv, cp, idx as int, dir as int),
{
    let (dx, dy, dz): (i32, i32, i32) = if dir == 0 {
        (1, 0, 0)
    } else if dir == 1 {
        (-1, 0, 0)
    } else if dir == 2 {
        (0, 1, 0)
    } else if dir == 3 {
        (0, -1, 0)
    } else if dir == 4 {
        (0, 0, 1)
    } else {
        (0, 0, -1)
    };
    let neighbor = block_at_world(world, x + dx, y + dy, z + dz);
    let visible = match &neighbor {
        Some(n) => face_visible(b, Some(n)),
        None => face_visible(b, None),
    };
    if visible {
        let ao = face_ao_levels(world, x, y, z, dir);
        let p = MeshPiece { index: idx, transparent, water_top, kind: PieceKind::Face(dir, ao) };
        assert(piece_seq(Some(p)) =~= spec_face_piece(*world, bv, cp, idx as int, dir as int));
        Some(p)
    } else {
        assert(piece_seq(None) =~= spec_face_piece(*world, bv, cp, idx as int, dir as int));
        None
    }
}

/// The pieces of a chunk's mesh in the order they are drawn: cell by cell
/// (x fastest, then z, then y), and within a cell the faces toward +x, -x,
/// +y, -y, +z, -z. Neighbours are read from `world`.
pub fn mesh_pieces(chunk: &Chunk, world: &World) -> (r: Vec<MeshPiece>)
    requires
        chunk.wf(),
        world.wf(),
        meshable_chunk(chunk.spec_pos()),
    ensures
        r@ == spec_pieces_upto(*world, chunk.blocks_view(), chunk.spec_pos(), 16384),
{
    let blocks = chunk.blocks();
    let cp = chunk.pos();
    let ghost bv = chunk.blocks_view();
    proof {
        chunk.lemma_wf_len();
        assert(blocks@.len() == 16384);
    }
    let mut pieces: Vec<MeshPiece> = Vec::new();
    let mut idx: usize = 0;
    while idx < 16384
        invariant
            world.wf(),
            idx <= 16384,
            blocks@.len() == 16384,
            bv == blocks@.map_values(|b: BlockId| b@),
            bv == chunk.blocks_view(),
            cp == chunk.spec_pos(),
            meshable_chunk(cp),
            pieces@ == spec_pieces_upto(*world, bv, cp, idx as int),
        decreases 16384 - idx,
    {
        let b = &blocks[idx];
        assert(bv[idx as int] == b@);
        if b.is_air() {
        } else if b.is_named("oak_sapling") {
            pieces.push(MeshPiece { index: idx, transparent: true, water_top: false, kind: PieceKind::Sapling });
        } else {
            let lx = idx % 16;
            let ly = idx / 256;
            let lz = (idx / 16) % 16;
            let x = cp.0 * 16 + lx as i32;
            let y = ly as i32;
            let z = cp.1 * 16 + lz as i32;
            proof {
                assert(cell_coords(cp, idx as int) == (x as int, y as int, z as int));
            }
            let transparent = is_transparent(b);
            let water_top = b.is_named("water") && (ly + 1 >= 64 || !blocks[idx + 256].is_named("water"));
            proof {
                if ly + 1 < 64 {
                    assert(bv[idx + 256] == blocks@[idx + 256]@);
                }
                assert(water_top == spec_water_top(bv, idx as int));
            }
            let ghost before = pieces@;
            let mut dir: u8 = 0;
            while dir < 6
                invariant
                    world.wf(),
                    dir <= 6,
                    idx < 16384,
                    bv.len() == 16384,
                    bv[idx as int] == b@,
                    b@.len() != 0,
                    b@ != "oak_sapling"@,
                    cell_coords(cp, idx as int) == (x as int, y as int, z as int),
                    mesh_coords(x as int, y as int, z as int),
                    transparent == spec_is_transparent(b@),
                    water_top == spec_water_top(bv, idx as int),
                    pieces@ == before + spec_faces_upto(*world, bv, cp, idx as int, dir as int),
                decreases 6 - dir,
            {
                let ghost prev = pieces@;
                let piece = face_piece(world, b, idx, x, y, z, dir, transparent, water_top, Ghost(bv), Ghost(cp));
                match piece {
                    Some(p) => {
                        pieces.push(p);
                    },
                    None => {},
                }
                assert(pieces@ == prev + spec_face_piece(*world, bv, cp, idx as int, dir as int));
                dir = dir + 1;
            }
        }
        idx = idx + 1;
    }
    pieces
}

} // verus!
