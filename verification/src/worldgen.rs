//! World generation feature types, configured and placed features, structure
//! sets, spawn-area selection and biome surface blocks.
//!
//! As in Minecraft, feature *types* are reusable algorithms (`tree`,
//! `block_column`, ...) kept in a registry, while a configured feature picks
//! blocks and sizes for one of them.

use vstd::prelude::*;
use crate::block::BlockId;
use crate::id::NamespacedId;
use crate::registry::{Registry, IdView, has_id};
use crate::world::{BlockPos, ChunkPos, World, same_cell, spec_seeded_range};
use crate::text::str_eq;

verus! {

/// The algorithm a feature type runs.
#[derive(Clone, Copy, Debug, PartialEq, Eq, Structural)]
pub enum FeatureKind {
    BlockColumn,
    Tree,
    Disk,
    Lake,
    Ore,
}

/// A registered worldgen feature algorithm with its display name.
#[derive(Clone, Copy, Debug)]
pub struct WorldgenFeatureType {
    name: &'static str,
    kind: FeatureKind,
}

impl WorldgenFeatureType {
    pub fn new(name: &'static str, kind: FeatureKind) -> (r: WorldgenFeatureType)
        ensures
            r.spec_name() == name,
            r.spec_kind() == kind,
    {
        WorldgenFeatureType { name, kind }
    }

    pub closed spec fn spec_name(&self) -> &'static str {
        self.name
    }

    pub closed spec fn spec_kind(&self) -> FeatureKind {
        self.kind
    }

    /// The display name.
    pub fn name(&self) -> (r: &'static str)
        ensures
            r == self.spec_name(),
    {
        self.name
    }

    /// The algorithm.
    pub fn kind(&self) -> (r: FeatureKind)
        ensures
            r == self.spec_kind(),
    {
        self.kind
    }

    /// Runs this feature type's algorithm with `config` at `origin`.
    fn place(&self, world: &mut World, origin: BlockPos, config: &FeatureConfig)
        requires
            old(world).wf(),
            feature_fits_for(old(world).spec_seed(), origin, self.spec_kind(), *config),
        ensures
            final(world).wf(),
            feature_effect(*old(world), *final(world), self.spec_kind(), origin, *config),
    {
        match self.kind {
            FeatureKind::BlockColumn => place_block_column(world, origin, config),
            FeatureKind::Tree => place_tree(world, origin, config),
            FeatureKind::Disk => place_disk(world, origin, config),
            FeatureKind::Lake => place_lake(world, origin, config),
            FeatureKind::Ore => place_ore(world, origin, config),
        }
    }
}

/// Built-in feature configuration variants.
#[derive(Clone, Debug)]
pub enum FeatureConfig {
    BlockColumn { block: BlockId, min_height: i32, max_height: i32, height_salt: u64 },
    SimpleTree { log: BlockId, leaves: BlockId, trunk_height: i32 },
    Disk { block: BlockId, radius: i32, depth: i32 },
    Lake { fluid: BlockId, radius: i32, depth: i32 },
    Ore { ore: BlockId, replaceable: Vec<BlockId>, size: u32 },
}

/// A concrete feature instance: feature type ID plus configuration.
#[derive(Clone, Debug)]
pub struct ConfiguredFeature {
    pub feature_type: NamespacedId,
    pub config: FeatureConfig,
}

/// Height provider used by placed features.
#[derive(Clone, Copy, Debug)]
pub enum PlacementHeight {
    Surface,
    Range { min: i32, max: i32 },
}

/// Basic placement rules for chunk-local worldgen features.
#[derive(Clone, Debug)]
pub struct PlacementConfig {
    pub attempts_per_chunk: u32,
    pub chance: u32,
    pub salt: u64,
    pub height: PlacementHeight,
    pub biome_filter: Vec<NamespacedId>,
}

/// A configured feature plus deterministic placement rules.
#[derive(Clone, Debug)]
pub struct PlacedFeature {
    pub configured: ConfiguredFeature,
    pub placement: PlacementConfig,
}

/// The structure a structure set places.
#[derive(Clone, Copy, Debug, PartialEq, Eq, Structural)]
pub enum StructureKind {
    StonePile,
}

/// A simple structure set with deterministic chunk-level spacing.
#[derive(Clone, Copy, Debug)]
pub struct StructureSet {
    name: &'static str,
    spacing: i32,
    salt: u64,
    kind: StructureKind,
}

impl StructureSet {
    pub fn new(name: &'static str, spacing: i32, salt: u64, kind: StructureKind) -> (r: StructureSet)
        ensures
            r.spec_name() == name,
            r.spec_spacing() == spacing,
            r.spec_salt() == salt,
            r.spec_kind() == kind,
    {
        StructureSet { name, spacing, salt, kind }
    }

    pub closed spec fn spec_name(&self) -> &'static str {
        self.name
    }

    pub closed spec fn spec_spacing(&self) -> i32 {
        self.spacing
    }

    pub closed spec fn spec_salt(&self) -> u64 {
        self.salt
    }

    pub closed spec fn spec_kind(&self) -> StructureKind {
        self.kind
    }

    /// The display name.
    pub fn name(&self) -> (r: &'static str)
        ensures
            r == self.spec_name(),
    {
        self.name
    }

    /// Chunk spacing of the set.
    pub fn spacing(&self) -> (r: i32)
        ensures
            r == self.spec_spacing(),
    {
        self.spacing
    }

    /// Salt of the set's seeded placement.
    pub fn salt(&self) -> (r: u64)
        ensures
            r == self.spec_salt(),
    {
        self.salt
    }

    /// The structure placed.
    pub fn kind(&self) -> (r: StructureKind)
        ensures
            r == self.spec_kind(),
    {
        self.kind
    }

    /// Places this set's structure at `origin`.
    pub fn place(&self, world: &mut World, origin: BlockPos)
        requires
            old(world).wf(),
            stone_pile_fits(origin),
        ensures
            final(world).wf(),
            stone_pile_effect(*old(world), *final(world), origin),
    {
        match self.kind {
            StructureKind::StonePile => place_stone_pile(world, origin),
        }
    }
}

/// The feature types of the game, in registration order.
pub open spec fn core_feature_paths() -> Seq<Seq<char>> {
    seq!["block_column"@, "tree"@, "disk"@, "lake"@, "ore"@]
}

/// Registers built-in feature types. Configured features select from this set.
pub fn register_core_feature_types() -> (r: Registry<WorldgenFeatureType>)
    ensures
        r@.len() == 5,
        forall|i: int| 0 <= i < 5 ==> #[trigger] r@[i].0 == (crate::id::default_namespace(), core_feature_paths()[i]),
        r@[0].1.spec_kind() == FeatureKind::BlockColumn,
        r@[1].1.spec_kind() == FeatureKind::Tree,
        r@[2].1.spec_kind() == FeatureKind::Disk,
        r@[3].1.spec_kind() == FeatureKind::Lake,
        r@[4].1.spec_kind() == FeatureKind::Ore,
        r@[0].1.spec_name() == "Block column",
        r@[1].1.spec_name() == "Tree",
        r@[2].1.spec_name() == "Disk",
        r@[3].1.spec_name() == "Lake",
        r@[4].1.spec_name() == "Ore",
{
    let mut reg: Registry<WorldgenFeatureType> = Registry::new();
    let paths = ["block_column", "tree", "disk", "lake", "ore"];
    let names = ["Block column", "Tree", "Disk", "Lake", "Ore"];
    let kinds = [FeatureKind::BlockColumn, FeatureKind::Tree, FeatureKind::Disk, FeatureKind::Lake, FeatureKind::Ore];
    proof {
        reveal_strlit("block_column");
        reveal_strlit("tree");
        reveal_strlit("disk");
        reveal_strlit("lake");
        reveal_strlit("ore");
        assert(paths@[0]@ == core_feature_paths()[0]);
        assert(paths@[1]@ == core_feature_paths()[1]);
        assert(paths@[2]@ == core_feature_paths()[2]);
        assert(paths@[3]@ == core_feature_paths()[3]);
        assert(paths@[4]@ == core_feature_paths()[4]);
        assert forall|j: int, k: int| 0 <= j < 5 && 0 <= k < 5 && j != k implies
            #[trigger] core_feature_paths()[j] != #[trigger] core_feature_paths()[k] by {
            assert(core_feature_paths()[j][0] != core_feature_paths()[k][0]);
        }
        assert forall|j: int| 0 <= j < 5 implies crate::id::spec_validate_part(#[trigger] core_feature_paths()[j], true) is Ok by {
            let p = core_feature_paths()[j];
            assert forall|k: int| 0 <= k < p.len() implies crate::id::is_part_char(#[trigger] p[k], true) by {}
            crate::id::lemma_all_allowed(p, true, 0);
        }
    }
    let mut i: usize = 0;
    while i < 5
        invariant
            i <= 5,
            reg@.len() == i,
            forall|j: int| 0 <= j < 5 ==> (#[trigger] paths@[j])@ == core_feature_paths()[j],
            kinds@ == seq![FeatureKind::BlockColumn, FeatureKind::Tree, FeatureKind::Disk, FeatureKind::Lake, FeatureKind::Ore],
            names@ == seq!["Block column", "Tree", "Disk", "Lake", "Ore"],
            forall|j: int| 0 <= j < i ==> #[trigger] reg@[j].1.spec_name() == names@[j],
            forall|j: int| 0 <= j < i ==> #[trigger] reg@[j].0 == (crate::id::default_namespace(), core_feature_paths()[j]),
            forall|j: int| 0 <= j < i ==> #[trigger] reg@[j].1.spec_kind() == kinds@[j],
            forall|j: int| 0 <= j < 5 ==> crate::id::spec_validate_part(#[trigger] core_feature_paths()[j], true) is Ok,
            forall|j: int, k: int| 0 <= j < 5 && 0 <= k < 5 && j != k ==>
                #[trigger] core_feature_paths()[j] != #[trigger] core_feature_paths()[k],
        decreases 5 - i,
    {
        assert(paths@[i as int]@ == core_feature_paths()[i as int]);
        let id = NamespacedId::builtin(paths[i]);
        proof {
            if has_id(reg@, id@) {
                let j = choose|j: int| 0 <= j < reg@.len() && #[trigger] reg@[j].0 == id@;
                assert(core_feature_paths()[j] == core_feature_paths()[i as int]);
            }
        }
        reg.register(id, WorldgenFeatureType::new(names[i], kinds[i]));
        i = i + 1;
    }
    reg
}

/// What a placement leaves as it was: well-formedness, the seed and the block
/// properties.
pub open spec fn keeps_rest(w0: World, w1: World) -> bool {
    &&& w1.wf()
    &&& w1.spec_seed() == w0.spec_seed()
    &&& forall|q: BlockPos, prop: u8| #[trigger] w1.spec_property(q, prop) == w0.spec_property(q, prop)
}

/// Writes `block` at `pos`.
fn put(world: &mut World, pos: BlockPos, block: &BlockId)
    requires
        old(world).wf(),
    ensures
        keeps_rest(*old(world), *final(world)),
        forall|q: BlockPos| #[trigger] final(world).spec_block(q) == if same_cell(q, pos) {
            block@
        } else {
            old(world).spec_block(q)
        },
{
    let ghost w0 = *world;
    world.set_block(pos, block.copy());
    proof {
        assert forall|q: BlockPos| #[trigger] world.spec_block(q) == if same_cell(q, pos) {
            block@
        } else {
            w0.spec_block(q)
        } by {
            if same_cell(q, pos) {
                world.lemma_same_cell(q, pos);
            }
        }
    }
}

/// Whether `q` is one of the `height` cells from `base` upward.
pub open spec fn column_cell(base: BlockPos, height: int, q: BlockPos) -> bool {
    exists|k: int| 0 <= k < height && #[trigger] same_cell(q, BlockPos(base.0, (base.1 + k) as i32, base.2))
}

/// `w1` is `w0` with `block` written over the `height` cells from `base` upward.
pub open spec fn column_effect(w0: World, w1: World, base: BlockPos, height: int, block: Seq<char>) -> bool {
    &&& keeps_rest(w0, w1)
    &&& forall|q: BlockPos| #[trigger] w1.spec_block(q) == if column_cell(base, height, q) {
        block
    } else {
        w0.spec_block(q)
    }
}

/// Writes `block` into the `height` cells from `base` upward, bottom first.
fn fill_column_up(world: &mut World, base: BlockPos, height: i32, block: &BlockId)
    requires
        old(world).wf(),
        height <= 0 || base.1 + height - 1 <= i32::MAX,
    ensures
        column_effect(*old(world), *final(world), base, height as int, block@),
{
    let ghost w0 = *world;
    let mut y: i32 = 0;
    while y < height
        invariant
            0 <= y,
            height > 0 ==> y <= height,
            height <= 0 ==> y == 0,
            height <= 0 || base.1 + height - 1 <= i32::MAX,
            w0.wf(),
            column_effect(w0, *world, base, y as int, block@),
        decreases height - y,
    {
        let pos = BlockPos(base.0, base.1 + y, base.2);
        let ghost w1 = *world;
        put(world, pos, block);
        proof {
            assert(pos == BlockPos(base.0, (base.1 + y) as i32, base.2));
            assert forall|q: BlockPos| #[trigger] world.spec_block(q) == if column_cell(base, y + 1, q) {
                block@
            } else {
                w0.spec_block(q)
            } by {
                if same_cell(q, pos) {
                    assert(column_cell(base, y + 1, q));
                } else if column_cell(base, y + 1, q) {
                    let k = choose|k: int| 0 <= k < y + 1 && #[trigger] same_cell(q, BlockPos(base.0, (base.1 + k) as i32, base.2));
                    assert(k != y);
                    assert(column_cell(base, y as int, q));
                } else {
                    if column_cell(base, y as int, q) {
                        let k = choose|k: int| 0 <= k < y && #[trigger] same_cell(q, BlockPos(base.0, (base.1 + k) as i32, base.2));
                        assert(same_cell(q, BlockPos(base.0, (base.1 + k) as i32, base.2)));
                    }
                }
            }
        }
        y = y + 1;
    }
    proof {
        assert forall|q: BlockPos| column_cell(base, height as int, q) == column_cell(base, y as int, q) by {
            if column_cell(base, height as int, q) {
                let k = choose|k: int| 0 <= k < height && #[trigger] same_cell(q, BlockPos(base.0, (base.1 + k) as i32, base.2));
                assert(same_cell(q, BlockPos(base.0, (base.1 + k) as i32, base.2)));
            }
            if column_cell(base, y as int, q) {
                let k = choose|k: int| 0 <= k < y && #[trigger] same_cell(q, BlockPos(base.0, (base.1 + k) as i32, base.2));
                assert(same_cell(q, BlockPos(base.0, (base.1 + k) as i32, base.2)));
            }
        }
    }
}

/// Whether `q` is one of the `depth` cells from `top` downward.
pub open spec fn down_cell(top: BlockPos, depth: int, q: BlockPos) -> bool {
    exists|k: int| 0 <= k < depth && #[trigger] same_cell(q, BlockPos(top.0, (top.1 - k) as i32, top.2))
}

/// Writes `block` into the `depth` cells from `top` downward, top first.
fn fill_column_down(world: &mut World, top: BlockPos, depth: i32, block: &BlockId)
    requires
        old(world).wf(),
        depth <= 0 || top.1 - (depth - 1) >= i32::MIN,
    ensures
        keeps_rest(*old(world), *final(world)),
        forall|q: BlockPos| #[trigger] final(world).spec_block(q) == if down_cell(top, depth as int, q) {
            block@
        } else {
            old(world).spec_block(q)
        },
{
    let ghost w0 = *world;
    let mut dy: i32 = 0;
    while dy < depth
        invariant
            0 <= dy,
            depth > 0 ==> dy <= depth,
            depth <= 0 ==> dy == 0,
            depth <= 0 || top.1 - (depth - 1) >= i32::MIN,
            w0.wf(),
            keeps_rest(w0, *world),
            forall|q: BlockPos| #[trigger] world.spec_block(q) == if down_cell(top, dy as int, q) {
                block@
            } else {
                w0.spec_block(q)
            },
        decreases depth - dy,
    {
        let pos = BlockPos(top.0, top.1 - dy, top.2);
        put(world, pos, block);
        proof {
            assert(pos == BlockPos(top.0, (top.1 - dy) as i32, top.2));
            assert forall|q: BlockPos| #[trigger] world.spec_block(q) == if down_cell(top, dy + 1, q) {
                block@
            } else {
                w0.spec_block(q)
            } by {
                if same_cell(q, pos) {
                    assert(down_cell(top, dy + 1, q));
                } else if down_cell(top, dy + 1, q) {
                    let k = choose|k: int| 0 <= k < dy + 1 && #[trigger] same_cell(q, BlockPos(top.0, (top.1 - k) as i32, top.2));
                    assert(k != dy);
                    assert(down_cell(top, dy as int, q));
                } else {
                    if down_cell(top, dy as int, q) {
                        let k = choose|k: int| 0 <= k < dy && #[trigger] same_cell(q, BlockPos(top.0, (top.1 - k) as i32, top.2));
                        assert(same_cell(q, BlockPos(top.0, (top.1 - k) as i32, top.2)));
                    }
                }
            }
        }
        dy = dy + 1;
    }
    proof {
        assert forall|q: BlockPos| down_cell(top, depth as int, q) == down_cell(top, dy as int, q) by {
            if down_cell(top, depth as int, q) {
                let k = choose|k: int| 0 <= k < depth && #[trigger] same_cell(q, BlockPos(top.0, (top.1 - k) as i32, top.2));
                assert(same_cell(q, BlockPos(top.0, (top.1 - k) as i32, top.2)));
            }
            if down_cell(top, dy as int, q) {
                let k = choose|k: int| 0 <= k < dy && #[trigger] same_cell(q, BlockPos(top.0, (top.1 - k) as i32, top.2));
                assert(same_cell(q, BlockPos(top.0, (top.1 - k) as i32, top.2)));
            }
        }
    }
}

/// Whether the column offset (`dx`, `dz`) lies within the disk of radius `r`.
pub open spec fn in_circle(dx: int, dz: int, r: int) -> bool {
    dx * dx + dz * dz <= r * r
}

/// Whether `q` is one of the `depth` cells below the disk column at offset (`dx`, `dz`).
pub open spec fn disk_column(origin: BlockPos, depth: int, dx: int, dz: int, q: BlockPos) -> bool {
    down_cell(BlockPos((origin.0 + dx) as i32, origin.1, (origin.2 + dz) as i32), depth, q)
}

/// Whether `q` lies in the disk of radius `r` around `origin`, `depth` cells deep.
pub open spec fn disk_cell(origin: BlockPos, r: int, depth: int, q: BlockPos) -> bool {
    exists|dx: int, dz: int|
        -r <= dx <= r && -r <= dz <= r && in_circle(dx, dz, r) && #[trigger] disk_column(origin, depth, dx, dz, q)
}

/// Whether `q` lies in a disk column visited before column (`cx`, `cz`), rows
/// of increasing `dx`, each of increasing `dz`.
spec fn disk_cell_before(origin: BlockPos, r: int, depth: int, cx: int, cz: int, q: BlockPos) -> bool {
    exists|dx: int, dz: int|
        -r <= dx <= r && -r <= dz <= r && in_circle(dx, dz, r) && (dx < cx || (dx == cx && dz < cz))
            && #[trigger] disk_column(origin, depth, dx, dz, q)
}

proof fn lemma_disk_step(origin: BlockPos, r: int, depth: int, cx: int, cz: int, q: BlockPos)
    requires
        -r <= cx <= r,
        -r <= cz <= r,
    ensures
        disk_cell_before(origin, r, depth, cx, cz + 1, q) == (disk_cell_before(origin, r, depth, cx, cz, q)
            || (in_circle(cx, cz, r) && disk_column(origin, depth, cx, cz, q))),
{
    if disk_cell_before(origin, r, depth, cx, cz + 1, q) {
        let (dx, dz) = choose|dx: int, dz: int|
            -r <= dx <= r && -r <= dz <= r && in_circle(dx, dz, r) && (dx < cx || (dx == cx && dz < cz + 1))
                && #[trigger] disk_column(origin, depth, dx, dz, q);
        if !(dx == cx && dz == cz) {
            assert(disk_column(origin, depth, dx, dz, q));
        }
    }
    if disk_cell_before(origin, r, depth, cx, cz, q) {
        let (dx, dz) = choose|dx: int, dz: int|
            -r <= dx <= r && -r <= dz <= r && in_circle(dx, dz, r) && (dx < cx || (dx == cx && dz < cz))
                && #[trigger] disk_column(origin, depth, dx, dz, q);
        assert(disk_column(origin, depth, dx, dz, q));
    }
    if in_circle(cx, cz, r) && disk_column(origin, depth, cx, cz, q) {
        assert(disk_column(origin, depth, cx, cz, q));
    }
}

proof fn lemma_disk_row(origin: BlockPos, r: int, depth: int, cx: int, q: BlockPos)
    ensures
        disk_cell_before(origin, r, depth, cx, r + 1, q) == disk_cell_before(origin, r, depth, cx + 1, -r, q),
{
    if disk_cell_before(origin, r, depth, cx, r + 1, q) {
        let (dx, dz) = choose|dx: int, dz: int|
            -r <= dx <= r && -r <= dz <= r && in_circle(dx, dz, r) && (dx < cx || (dx == cx && dz < r + 1))
                && #[trigger] disk_column(origin, depth, dx, dz, q);
        assert(disk_column(origin, depth, dx, dz, q));
    }
    if disk_cell_before(origin, r, depth, cx + 1, -r, q) {
        let (dx, dz) = choose|dx: int, dz: int|
            -r <= dx <= r && -r <= dz <= r && in_circle(dx, dz, r) && (dx < cx + 1 || (dx == cx + 1 && dz < -r))
                && #[trigger] disk_column(origin, depth, dx, dz, q);
        assert(disk_column(origin, depth, dx, dz, q));
    }
}

proof fn lemma_disk_all(origin: BlockPos, r: int, depth: int, q: BlockPos)
    ensures
        disk_cell_before(origin, r, depth, r + 1, -r, q) == disk_cell(origin, r, depth, q),
        disk_cell_before(origin, r, depth, -r, -r, q) == false,
{
    if disk_cell_before(origin, r, depth, r + 1, -r, q) {
        let (dx, dz) = choose|dx: int, dz: int|
            -r <= dx <= r && -r <= dz <= r && in_circle(dx, dz, r) && (dx < r + 1 || (dx == r + 1 && dz < -r))
                && #[trigger] disk_column(origin, depth, dx, dz, q);
        assert(disk_column(origin, depth, dx, dz, q));
    }
    if disk_cell(origin, r, depth, q) {
        let (dx, dz) = choose|dx: int, dz: int|
            -r <= dx <= r && -r <= dz <= r && in_circle(dx, dz, r) && #[trigger] disk_column(origin, depth, dx, dz, q);
        assert(disk_column(origin, depth, dx, dz, q));
    }
}

/// The disk's arithmetic stays within `i32`: the squared radius and squared
/// distances, and (when anything is written) every coordinate written.
pub open spec fn disk_fits(origin: BlockPos, r: int, depth: int) -> bool {
    &&& r * r <= i32::MAX
    &&& r >= 0 ==> 2 * r * r <= i32::MAX
    &&& (r >= 0 && depth > 0) ==> {
        &&& i32::MIN <= origin.0 - r
        &&& origin.0 + r <= i32::MAX
        &&& i32::MIN <= origin.2 - r
        &&& origin.2 + r <= i32::MAX
        &&& i32::MIN <= origin.1 - (depth - 1)
    }
}

/// `w1` is `w0` with `block` written over the disk of radius `r` around
/// `origin`, `depth` cells deep.
pub open spec fn disk_effect(w0: World, w1: World, origin: BlockPos, r: int, depth: int, block: Seq<char>) -> bool {
    &&& keeps_rest(w0, w1)
    &&& forall|q: BlockPos| #[trigger] w1.spec_block(q) == if disk_cell(origin, r, depth, q) {
        block
    } else {
        w0.spec_block(q)
    }
}

/// Fills every column within `radius` of `origin` (by squared distance) with
/// `block`, from `origin`'s height down `depth` cells.
fn place_filled_disk(world: &mut World, origin: BlockPos, block: &BlockId, radius: i32, depth: i32)
    requires
        old(world).wf(),
        disk_fits(origin, radius as int, depth as int),
    ensures
        disk_effect(*old(world), *final(world), origin, radius as int, depth as int, block@),
{
    let ghost w0 = *world;
    let ghost r = radius as int;
    assert(0 <= radius * radius) by (nonlinear_arith);
    assert(radius * radius <= i32::MAX);
    let r2 = radius * radius;
    if radius < 0 {
        proof {
            assert forall|q: BlockPos| !#[trigger] disk_cell(origin, r, depth as int, q) by {}
        }
        return;
    }
    assert(r * r + r * r <= i32::MAX) by (nonlinear_arith)
        requires
            2 * r * r <= i32::MAX;
    assert(radius <= 32768) by (nonlinear_arith)
        requires
            r * r + r * r <= i32::MAX,
            r == radius,
            0 <= r;
    let mut dx: i32 = -radius;
    proof {
        assert forall|q: BlockPos| !#[trigger] disk_cell_before(origin, r, depth as int, dx as int, -r, q) by {
            lemma_disk_all(origin, r, depth as int, q);
        }
    }
    while dx <= radius
        invariant
            0 <= radius,
            r == radius,
            r2 == r * r,
            r * r + r * r <= i32::MAX,
            radius <= 32768,
            -radius <= dx <= radius + 1,
            disk_fits(origin, r, depth as int),
            w0.wf(),
            keeps_rest(w0, *world),
            forall|q: BlockPos| #[trigger] world.spec_block(q) == if disk_cell_before(origin, r, depth as int, dx as int, -r, q) {
                block@
            } else {
                w0.spec_block(q)
            },
        decreases radius + 1 - dx,
    {
        let mut dz: i32 = -radius;
        while dz <= radius
            invariant
                0 <= radius,
                r == radius,
                r2 == r * r,
                r * r + r * r <= i32::MAX,
                radius <= 32768,
                -radius <= dx <= radius,
                -radius <= dz <= radius + 1,
                disk_fits(origin, r, depth as int),
                w0.wf(),
                keeps_rest(w0, *world),
                forall|q: BlockPos| #[trigger] world.spec_block(q) == if disk_cell_before(origin, r, depth as int, dx as int, dz as int, q) {
                    block@
                } else {
                    w0.spec_block(q)
                },
            decreases radius + 1 - dz,
        {
            assert(0 <= dx * dx <= r * r) by (nonlinear_arith)
                requires
                    -r <= dx <= r;
            assert(0 <= dz * dz <= r * r) by (nonlinear_arith)
                requires
                    -r <= dz <= r;
            assert(dx * dx + dz * dz <= r * r + r * r);
            let inside = dx * dx + dz * dz <= r2;
            if inside && depth > 0 {
                let top = BlockPos(origin.0 + dx, origin.1, origin.2 + dz);
                let ghost w1 = *world;
                fill_column_down(world, top, depth, block);
                proof {
                    assert(top == BlockPos((origin.0 + dx) as i32, origin.1, (origin.2 + dz) as i32));
                    assert forall|q: BlockPos| #[trigger] world.spec_block(q) == if disk_cell_before(origin, r, depth as int, dx as int, dz + 1, q) {
                        block@
                    } else {
                        w0.spec_block(q)
                    } by {
                        lemma_disk_step(origin, r, depth as int, dx as int, dz as int, q);
                    }
                }
            } else {
                proof {
                    assert forall|q: BlockPos| #[trigger] world.spec_block(q) == if disk_cell_before(origin, r, depth as int, dx as int, dz + 1, q) {
                        block@
                    } else {
                        w0.spec_block(q)
                    } by {
                        lemma_disk_step(origin, r, depth as int, dx as int, dz as int, q);
                        if disk_column(origin, depth as int, dx as int, dz as int, q) && depth <= 0 {
                            let tp = BlockPos((origin.0 + dx) as i32, origin.1, (origin.2 + dz) as i32);
                            let k = choose|k: int| 0 <= k < depth && #[trigger] same_cell(q, BlockPos(tp.0, (tp.1 - k) as i32, tp.2));
                        }
                    }
                }
            }
            dz = dz + 1;
        }
        proof {
            assert forall|q: BlockPos| #[trigger] world.spec_block(q) == if disk_cell_before(origin, r, depth as int, dx + 1, -r, q) {
                block@
            } else {
                w0.spec_block(q)
            } by {
                lemma_disk_row(origin, r, depth as int, dx as int, q);
            }
        }
        dx = dx + 1;
    }
    proof {
        assert forall|q: BlockPos| #[trigger] world.spec_block(q) == if disk_cell(origin, r, depth as int, q) {
            block@
        } else {
            w0.spec_block(q)
        } by {
            lemma_disk_all(origin, r, depth as int, q);
        }
    }
}

/// Whether `q` is one of the five leaf cells of a tree with a trunk of
/// `trunk_height` above `origin`: four around the top of the trunk and one
/// above it.
pub open spec fn leaf_cell(origin: BlockPos, trunk_height: int, q: BlockPos) -> bool {
    let cy = origin.1 + trunk_height - 1;
    ||| same_cell(q, BlockPos((origin.0 - 1) as i32, cy as i32, origin.2))
    ||| same_cell(q, BlockPos((origin.0 + 1) as i32, cy as i32, origin.2))
    ||| same_cell(q, BlockPos(origin.0, cy as i32, (origin.2 - 1) as i32))
    ||| same_cell(q, BlockPos(origin.0, cy as i32, (origin.2 + 1) as i32))
    ||| same_cell(q, BlockPos(origin.0, (cy + 1) as i32, origin.2))
}

/// The tree's coordinates stay within `i32`.
pub open spec fn tree_fits(origin: BlockPos, trunk_height: int) -> bool {
    &&& i32::MIN < origin.1 + trunk_height <= i32::MAX
    &&& i32::MIN < origin.0 < i32::MAX
    &&& i32::MIN < origin.2 < i32::MAX
}

/// `w1` is `w0` with a tree placed at `origin`: leaves over the leaf cells,
/// logs over the rest of the trunk.
pub open spec fn tree_effect(w0: World, w1: World, origin: BlockPos, trunk_height: int, log: Seq<char>, leaves: Seq<char>) -> bool {
    &&& keeps_rest(w0, w1)
    &&& forall|q: BlockPos| #[trigger] w1.spec_block(q) == if leaf_cell(origin, trunk_height, q) {
        leaves
    } else if column_cell(origin, trunk_height, q) {
        log
    } else {
        w0.spec_block(q)
    }
}

/// The number of cells a block column feature fills at `origin`.
pub open spec fn column_height(seed: u64, origin: BlockPos, min_height: i32, max_height: i32, height_salt: u64) -> i32 {
    spec_seeded_range(seed, origin.0, origin.2, height_salt, min_height, max_height)
}

/// The offset of the `i`-th ore attempt from the origin, each coordinate in -1..=1.
pub open spec fn ore_pos(seed: u64, origin: BlockPos, i: int) -> (int, int, int) {
    let dx = spec_seeded_range(seed, (origin.0 + i) as i32, origin.2, (1100 + i) as u64, -1i32, 1i32);
    let dy = spec_seeded_range(seed, origin.0, (origin.2 + i) as i32, (1101 + i) as u64, -1i32, 1i32);
    let dz = spec_seeded_range(seed, (origin.0 - i) as i32, origin.2, (1102 + i) as u64, -1i32, 1i32);
    (origin.0 + dx, origin.1 + dy, origin.2 + dz)
}

/// The block position of the `i`-th ore attempt.
pub open spec fn ore_block(seed: u64, origin: BlockPos, i: int) -> BlockPos {
    BlockPos(ore_pos(seed, origin, i).0 as i32, ore_pos(seed, origin, i).1 as i32, ore_pos(seed, origin, i).2 as i32)
}

/// Number of ore attempts: `size`, and at least one.
pub open spec fn ore_attempts(size: u32) -> int {
    if size == 0 { 1 } else { size as int }
}

/// Whether one of the first `n` ore attempts targets the cell of `q`.
pub open spec fn ore_cell(seed: u64, origin: BlockPos, n: int, q: BlockPos) -> bool {
    exists|i: int| 0 <= i < n && #[trigger] same_cell(q, ore_block(seed, origin, i))
}

/// The ore attempts' coordinates stay within `i32`.
pub open spec fn ore_fits(seed: u64, origin: BlockPos, size: u32) -> bool {
    let n = ore_attempts(size);
    &&& origin.0 + (n - 1) <= i32::MAX
    &&& i32::MIN <= origin.0 - (n - 1)
    &&& origin.2 + (n - 1) <= i32::MAX
    &&& forall|i: int| 0 <= i < n ==> {
        let p = #[trigger] ore_pos(seed, origin, i);
        &&& i32::MIN <= p.0 <= i32::MAX
        &&& i32::MIN <= p.1 <= i32::MAX
        &&& i32::MIN <= p.2 <= i32::MAX
    }
}

/// The views of a list of block identifiers.
pub open spec fn block_views(s: Seq<BlockId>) -> Seq<Seq<char>> {
    s.map_values(|b: BlockId| b@)
}

/// `w1` is `w0` with `ore` in each targeted cell whose block was one of
/// `replaceable`; every other cell keeps its block.
pub open spec fn ore_effect(w0: World, w1: World, origin: BlockPos, size: u32, ore: Seq<char>, replaceable: Seq<Seq<char>>) -> bool {
    &&& keeps_rest(w0, w1)
    &&& forall|q: BlockPos| #[trigger] w1.spec_block(q) == if ore_cell(w0.spec_seed(), origin, ore_attempts(size), q)
        && replaceable.contains(w0.spec_block(q)) {
        ore
    } else {
        w0.spec_block(q)
    }
}

/// Whether `q` is one of the four cells of a stone pile at `origin`.
pub open spec fn stone_pile_cell(origin: BlockPos, q: BlockPos) -> bool {
    ||| same_cell(q, origin)
    ||| same_cell(q, BlockPos((origin.0 + 1) as i32, origin.1, origin.2))
    ||| same_cell(q, BlockPos(origin.0, origin.1, (origin.2 + 1) as i32))
    ||| same_cell(q, BlockPos(origin.0, (origin.1 + 1) as i32, origin.2))
}

/// The stone pile's coordinates stay within `i32`.
pub open spec fn stone_pile_fits(origin: BlockPos) -> bool {
    origin.0 < i32::MAX && origin.1 < i32::MAX && origin.2 < i32::MAX
}

/// `w1` is `w0` with stone over the four cells of a pile at `origin`.
pub open spec fn stone_pile_effect(w0: World, w1: World, origin: BlockPos) -> bool {
    &&& keeps_rest(w0, w1)
    &&& forall|q: BlockPos| #[trigger] w1.spec_block(q) == if stone_pile_cell(origin, q) {
        "stone"@
    } else {
        w0.spec_block(q)
    }
}

/// The coordinates a configuration's own algorithm computes stay within `i32`.
pub open spec fn feature_fits(seed: u64, origin: BlockPos, config: FeatureConfig) -> bool {
    match config {
        FeatureConfig::BlockColumn { block, min_height, max_height, height_salt } => {
            let h = column_height(seed, origin, min_height, max_height, height_salt);
            h <= 0 || origin.1 + h - 1 <= i32::MAX
        },
        FeatureConfig::SimpleTree { log, leaves, trunk_height } => tree_fits(origin, trunk_height as int),
        FeatureConfig::Disk { block, radius, depth } => disk_fits(origin, radius as int, depth as int),
        FeatureConfig::Lake { fluid, radius, depth } => disk_fits(origin, radius as int, depth as int),
        FeatureConfig::Ore { ore, replaceable, size } => ore_fits(seed, origin, size),
    }
}

/// The algorithm a configuration variant belongs to.
pub open spec fn config_kind(config: FeatureConfig) -> FeatureKind {
    match config {
        FeatureConfig::BlockColumn { .. } => FeatureKind::BlockColumn,
        FeatureConfig::SimpleTree { .. } => FeatureKind::Tree,
        FeatureConfig::Disk { .. } => FeatureKind::Disk,
        FeatureConfig::Lake { .. } => FeatureKind::Lake,
        FeatureConfig::Ore { .. } => FeatureKind::Ore,
    }
}

/// Running `kind` with `config` stays within `i32`: only the algorithm that
/// `config` belongs to computes coordinates.
pub open spec fn feature_fits_for(seed: u64, origin: BlockPos, kind: FeatureKind, config: FeatureConfig) -> bool {
    config_kind(config) == kind ==> feature_fits(seed, origin, config)
}

/// What running the algorithm `kind` with `config` at `origin` does: the
/// configured placement when `config` is the algorithm's own variant, and
/// nothing otherwise.
pub open spec fn feature_effect(w0: World, w1: World, kind: FeatureKind, origin: BlockPos, config: FeatureConfig) -> bool {
    match config {
        FeatureConfig::BlockColumn { block, min_height, max_height, height_salt } => if kind == FeatureKind::BlockColumn {
            column_effect(w0, w1, origin, column_height(w0.spec_seed(), origin, min_height, max_height, height_salt) as int, block@)
        } else {
            w1 == w0
        },
        FeatureConfig::SimpleTree { log, leaves, trunk_height } => if kind == FeatureKind::Tree {
            tree_effect(w0, w1, origin, trunk_height as int, log@, leaves@)
        } else {
            w1 == w0
        },
        FeatureConfig::Disk { block, radius, depth } => if kind == FeatureKind::Disk {
            disk_effect(w0, w1, origin, radius as int, depth as int, block@)
        } else {
            w1 == w0
        },
        FeatureConfig::Lake { fluid, radius, depth } => if kind == FeatureKind::Lake {
            disk_effect(w0, w1, origin, radius as int, depth as int, fluid@)
        } else {
            w1 == w0
        },
        FeatureConfig::Ore { ore, replaceable, size } => if kind == FeatureKind::Ore {
            ore_effect(w0, w1, origin, size, ore@, block_views(replaceable@))
        } else {
            w1 == w0
        },
    }
}

/// Block column: a seeded number of cells of `block` from the origin upward.
fn place_block_column(world: &mut World, origin: BlockPos, config: &FeatureConfig)
    requires
        old(world).wf(),
        feature_fits_for(old(world).spec_seed(), origin, FeatureKind::BlockColumn, *config),
    ensures
        feature_effect(*old(world), *final(world), FeatureKind::BlockColumn, origin, *config),
{
    match config {
        FeatureConfig::BlockColumn { block, min_height, max_height, height_salt } => {
            let height = world.seeded_range(origin.0, origin.2, *height_salt, *min_height, *max_height);
            fill_column_up(world, origin, height, block);
        },
        _ => {},
    }
}

/// Tree: a trunk of logs from the origin upward, then five leaves at its top.
fn place_tree(world: &mut World, origin: BlockPos, config: &FeatureConfig)
    requires
        old(world).wf(),
        feature_fits_for(old(world).spec_seed(), origin, FeatureKind::Tree, *config),
    ensures
        feature_effect(*old(world), *final(world), FeatureKind::Tree, origin, *config),
{
    match config {
        FeatureConfig::SimpleTree { log, leaves, trunk_height } => {
            let ghost w0 = *world;
            let h = *trunk_height;
            fill_column_up(world, origin, h, log);
            let ghost w1 = *world;
            let canopy_y = origin.1 + h - 1;
            let p1 = BlockPos(origin.0 - 1, canopy_y, origin.2);
            let p2 = BlockPos(origin.0 + 1, canopy_y, origin.2);
            let p3 = BlockPos(origin.0, canopy_y, origin.2 - 1);
            let p4 = BlockPos(origin.0, canopy_y, origin.2 + 1);
            let p5 = BlockPos(origin.0, canopy_y + 1, origin.2);
            put(world, p1, leaves);
            put(world, p2, leaves);
            put(world, p3, leaves);
            put(world, p4, leaves);
            put(world, p5, leaves);
            proof {
                assert forall|q: BlockPos| #[trigger] world.spec_block(q) == if leaf_cell(origin, h as int, q) {
                    leaves@
                } else if column_cell(origin, h as int, q) {
                    log@
                } else {
                    w0.spec_block(q)
                } by {
                    assert(w1.spec_block(q) == if column_cell(origin, h as int, q) { log@ } else { w0.spec_block(q) });
                }
            }
        },
        _ => {},
    }
}

/// Disk: a filled disk of `block` below the origin.
fn place_disk(world: &mut World, origin: BlockPos, config: &FeatureConfig)
    requires
        old(world).wf(),
        feature_fits_for(old(world).spec_seed(), origin, FeatureKind::Disk, *config),
    ensures
        feature_effect(*old(world), *final(world), FeatureKind::Disk, origin, *config),
{
    match config {
        FeatureConfig::Disk { block, radius, depth } => {
            place_filled_disk(world, origin, block, *radius, *depth);
        },
        _ => {},
    }
}

/// Lake: a filled disk of `fluid` below the origin.
fn place_lake(world: &mut World, origin: BlockPos, config: &FeatureConfig)
    requires
        old(world).wf(),
        feature_fits_for(old(world).spec_seed(), origin, FeatureKind::Lake, *config),
    ensures
        feature_effect(*old(world), *final(world), FeatureKind::Lake, origin, *config),
{
    match config {
        FeatureConfig::Lake { fluid, radius, depth } => {
            place_filled_disk(world, origin, fluid, *radius, *depth);
        },
        _ => {},
    }
}

/// Whether `b` is one of `list`.
fn contains_block(list: &Vec<BlockId>, b: &BlockId) -> (r: bool)
    ensures
        r == block_views(list@).contains(b@),
{
    let mut i: usize = 0;
    while i < list.len()
        invariant
            i <= list@.len(),
            forall|j: int| 0 <= j < i ==> #[trigger] list@[j]@ != b@,
        decreases list.len() - i,
    {
        if list[i].same(b) {
            assert(block_views(list@)[i as int] == b@);
            return true;
        }
        i = i + 1;
    }
    proof {
        if block_views(list@).contains(b@) {
            let j = choose|j: int| 0 <= j < block_views(list@).len() && block_views(list@)[j] == b@;
            assert(list@[j]@ == b@);
        }
    }
    false
}

/// Ore: up to `size` seeded cells next to the origin become `ore` where they
/// hold one of the replaceable blocks.
fn place_ore(world: &mut World, origin: BlockPos, config: &FeatureConfig)
    requires
        old(world).wf(),
        feature_fits_for(old(world).spec_seed(), origin, FeatureKind::Ore, *config),
    ensures
        feature_effect(*old(world), *final(world), FeatureKind::Ore, origin, *config),
{
    match config {
        FeatureConfig::Ore { ore, replaceable, size } => {
            let ghost w0 = *world;
            let ghost seed = w0.spec_seed();
            let ghost repl = block_views(replaceable@);
            let n: u32 = if *size == 0 { 1 } else { *size };
            let mut i: u32 = 0;
            while i < n
                invariant
                    i <= n,
                    n == ore_attempts(*size),
                    ore_fits(seed, origin, *size),
                    repl == block_views(replaceable@),
                    w0.wf(),
                    seed == w0.spec_seed(),
                    keeps_rest(w0, *world),
                    forall|q: BlockPos| #[trigger] world.spec_block(q) == if ore_cell(seed, origin, i as int, q)
                        && repl.contains(w0.spec_block(q)) {
                        ore@
                    } else {
                        w0.spec_block(q)
                    },
                decreases n - i,
            {
                let ii: i32 = i as i32;
                let salt: u64 = 1100 + i as u64;
                let dx = world.seeded_range(origin.0 + ii, origin.2, salt, -1, 1);
                let dy = world.seeded_range(origin.0, origin.2 + ii, salt + 1, -1, 1);
                let dz = world.seeded_range(origin.0 - ii, origin.2, salt + 2, -1, 1);
                proof {
                    let p = ore_pos(seed, origin, i as int);
                    assert(p == (origin.0 + dx, origin.1 + dy, origin.2 + dz));
                }
                let pos = BlockPos(origin.0 + dx, origin.1 + dy, origin.2 + dz);
                assert(pos == ore_block(seed, origin, i as int));
                let ghost w1 = *world;
                let current = world.get_block(pos);
                let hit = contains_block(replaceable, &current);
                if hit {
                    put(world, pos, ore);
                }
                proof {
                    assert forall|q: BlockPos| #[trigger] world.spec_block(q) == if ore_cell(seed, origin, i + 1, q)
                        && repl.contains(w0.spec_block(q)) {
                        ore@
                    } else {
                        w0.spec_block(q)
                    } by {
                        if same_cell(q, pos) {
                            w1.lemma_same_cell(q, pos);
                            w0.lemma_same_cell(q, pos);
                            assert(ore_cell(seed, origin, i + 1, q));
                        } else {
                            if ore_cell(seed, origin, i + 1, q) {
                                let k = choose|k: int| 0 <= k < i + 1 && #[trigger] same_cell(q, ore_block(seed, origin, k));
                                assert(k != i);
                                assert(ore_cell(seed, origin, i as int, q));
                            }
                            if ore_cell(seed, origin, i as int, q) {
                                let k = choose|k: int| 0 <= k < i && #[trigger] same_cell(q, ore_block(seed, origin, k));
                                assert(same_cell(q, ore_block(seed, origin, k)));
                            }
                        }
                    }
                }
                i = i + 1;
            }
        },
        _ => {},
    }
}

/// Stone pile: stone at the origin, east of it, south of it and above it.
fn place_stone_pile(world: &mut World, origin: BlockPos)
    requires
        old(world).wf(),
        stone_pile_fits(origin),
    ensures
        stone_pile_effect(*old(world), *final(world), origin),
{
    let ghost w0 = *world;
    let stone = BlockId::named("stone");
    put(world, origin, &stone);
    put(world, BlockPos(origin.0 + 1, origin.1, origin.2), &stone);
    put(world, BlockPos(origin.0, origin.1, origin.2 + 1), &stone);
    put(world, BlockPos(origin.0, origin.1 + 1, origin.2), &stone);
}

/// Places a configured feature by resolving its registered feature type; a
/// feature type missing from the registry places nothing.
pub fn place_configured_feature(
    registry: &Registry<WorldgenFeatureType>,
    configured: &ConfiguredFeature,
    world: &mut World,
    origin: BlockPos,
)
    requires
        old(world).wf(),
        forall|i: int| 0 <= i < registry@.len() && #[trigger] registry@[i].0 == configured.feature_type@
            ==> feature_fits_for(old(world).spec_seed(), origin, registry@[i].1.spec_kind(), configured.config),
    ensures
        final(world).wf(),
        !has_id(registry@, configured.feature_type@) ==> *final(world) == *old(world),
        forall|i: int| 0 <= i < registry@.len() && #[trigger] registry@[i].0 == configured.feature_type@
            ==> feature_effect(*old(world), *final(world), registry@[i].1.spec_kind(), origin, configured.config),
{
    match registry.get(&configured.feature_type) {
        Some(feature_type) => {
            feature_type.place(world, origin, &configured.config);
        },
        None => {},
    }
}

/// Registers built-in structure sets used by world generation hooks.
pub fn register_core_structure_sets() -> (r: Registry<StructureSet>)
    ensures
        r@.len() == 1,
        r@[0].0 == (crate::id::default_namespace(), "stone_pile"@),
        r@[0].1.spec_name() == "Stone pile",
        r@[0].1.spec_spacing() == 5,
        r@[0].1.spec_salt() == 6006,
        r@[0].1.spec_kind() == StructureKind::StonePile,
{
    let mut reg: Registry<StructureSet> = Registry::new();
    proof {
        reveal_strlit("stone_pile");
        let p = "stone_pile"@;
        assert forall|k: int| 0 <= k < p.len() implies crate::id::is_part_char(#[trigger] p[k], true) by {}
        crate::id::lemma_all_allowed(p, true, 0);
    }
    let id = NamespacedId::builtin("stone_pile");
    reg.register(id, StructureSet::new("Stone pile", 5, 6006, StructureKind::StonePile));
    reg
}

/// The chunks of the spawn area, row by row: `(center.0 + i - r, center.1 + j - r)`
/// at index `i * (2r + 1) + j`, where `r` is `radius` clamped at zero.
pub open spec fn spawn_area(center: ChunkPos, radius: int) -> Seq<ChunkPos> {
    let r = if radius < 0 { 0 } else { radius };
    let w = 2 * r + 1;
    Seq::new((w * w) as nat, |k: int| ChunkPos((center.0 - r + k / w) as i32, (center.1 - r + k % w) as i32))
}

/// Returns chunk positions in the square spawn area around a center chunk.
pub fn spawn_area_chunks(center: ChunkPos, radius: i32) -> (r: Vec<ChunkPos>)
    requires
        ({
            let r = if radius < 0 { 0 } else { radius as int };
            &&& i32::MIN <= center.0 - r
            &&& center.0 + r <= i32::MAX
            &&& i32::MIN <= center.1 - r
            &&& center.1 + r <= i32::MAX
            &&& (2 * r + 1) * (2 * r + 1) <= usize::MAX
        }),
    ensures
        r@ == spawn_area(center, radius as int),
{
    let radius: i32 = if radius < 0 { 0 } else { radius };
    let ghost rr = radius as int;
    let ghost w = 2 * rr + 1;
    let mut chunks: Vec<ChunkPos> = Vec::new();
    let mut chunk_x: i64 = center.0 as i64 - radius as i64;
    while chunk_x <= center.0 as i64 + radius as i64
        invariant
            0 <= rr,
            rr == radius,
            w == 2 * rr + 1,
            w * w <= usize::MAX,
            i32::MIN <= center.0 - rr,
            center.0 + rr <= i32::MAX,
            i32::MIN <= center.1 - rr,
            center.1 + rr <= i32::MAX,
            center.0 - rr <= chunk_x <= center.0 + rr + 1,
            chunks@.len() == (chunk_x - (center.0 - rr)) * w,
            forall|k: int| 0 <= k < chunks@.len() ==> #[trigger] chunks@[k] == ChunkPos((center.0 - rr + k / w) as i32, (center.1 - rr + k % w) as i32),
        decreases center.0 + radius + 1 - chunk_x,
    {
        let ghost row = chunk_x - (center.0 - rr);
        assert((row + 1) * w <= w * w) by (nonlinear_arith)
            requires
                0 <= row,
                row + 1 <= w,
                0 < w;
        let mut chunk_z: i64 = center.1 as i64 - radius as i64;
        while chunk_z <= center.1 as i64 + radius as i64
            invariant
                0 <= rr,
                rr == radius,
                w == 2 * rr + 1,
                i32::MIN <= center.1 - rr,
                center.1 + rr <= i32::MAX,
                row == chunk_x - (center.0 - rr),
                0 <= row,
                (row + 1) * w <= w * w,
                w * w <= usize::MAX,
                center.1 - rr <= chunk_z <= center.1 + rr + 1,
                chunks@.len() == row * w + (chunk_z - (center.1 - rr)),
                forall|k: int| 0 <= k < chunks@.len() ==> #[trigger] chunks@[k] == ChunkPos((center.0 - rr + k / w) as i32, (center.1 - rr + k % w) as i32),
            decreases center.1 + radius + 1 - chunk_z,
        {
            let ghost col = chunk_z - (center.1 - rr);
            assert((row * w + col) / w == row && (row * w + col) % w == col) by (nonlinear_arith)
                requires
                    0 <= col < w,
                    0 <= row;
            assert(row * w + col < (row + 1) * w) by (nonlinear_arith)
                requires
                    col < w;
            chunks.push(ChunkPos(chunk_x as i32, chunk_z as i32));
            chunk_z = chunk_z + 1;
        }
        assert(row * w + w == (row + 1) * w) by (nonlinear_arith);
        chunk_x = chunk_x + 1;
    }
    assert(chunks@ =~= spawn_area(center, rr));
    chunks
}

/// Top and filler blocks of a biome's surface.
#[derive(Clone, Debug)]
pub struct SurfaceBlocks {
    pub top: BlockId,
    pub filler: BlockId,
}

/// Surface blocks by biome: sand in deserts, stone on hills from height 7 up,
/// grass over dirt elsewhere.
pub open spec fn spec_surface(biome_path: Seq<char>, height: i32) -> (Seq<char>, Seq<char>) {
    if biome_path == "desert"@ {
        ("sand"@, "sand"@)
    } else if biome_path == "hills"@ && height >= 7 {
        ("stone"@, "stone"@)
    } else {
        ("grass_block"@, "dirt"@)
    }
}

/// The top and filler blocks of a column of the given biome and surface height.
pub fn surface_blocks(biome_path: &str, height: i32) -> (r: SurfaceBlocks)
    ensures
        (r.top@, r.filler@) == spec_surface(biome_path@, height),
{
    if str_eq(biome_path, "desert") {
        SurfaceBlocks { top: BlockId::named("sand"), filler: BlockId::named("sand") }
    } else if str_eq(biome_path, "hills") && height >= 7 {
        SurfaceBlocks { top: BlockId::named("stone"), filler: BlockId::named("stone") }
    } else {
        SurfaceBlocks { top: BlockId::named("grass_block"), filler: BlockId::named("dirt") }
    }
}

/// How many cells of a column are solid for a surface height: those with
/// `y <= height` among `0..64`.
pub open spec fn solid_cells(height: i32) -> int {
    if height < 0 {
        0
    } else if height >= 63 {
        64
    } else {
        height + 1
    }
}

/// Fills the column (`x`, `z`) with `stone` wherever the terrain density
/// `height - y` is non-negative, for `y` in `0..64`.
pub fn fill_terrain_column(world: &mut World, x: i32, z: i32, height: i32, stone: &BlockId)
    requires
        old(world).wf(),
    ensures
        column_effect(*old(world), *final(world), BlockPos(x, 0, z), solid_cells(height), stone@),
{
    let n: i32 = if height < 0 {
        0
    } else if height >= 63 {
        64
    } else {
        height + 1
    };
    fill_column_up(world, BlockPos(x, 0, z), n, stone);
}

/// The lowest filler cell under a surface at `height`: two cells down, not below 0.
pub open spec fn filler_bottom(height: i32) -> int {
    if height - 2 < 0 { 0 } else { height - 2 }
}

/// `w1` is `w0` with the surface of column (`x`, `z`) at `height` covered:
/// filler from `filler_bottom(height)` up to just below `height`, and the top
/// block at `height`.
pub open spec fn surface_effect(w0: World, w1: World, x: i32, z: i32, height: i32, top: Seq<char>, filler: Seq<char>) -> bool {
    &&& keeps_rest(w0, w1)
    &&& forall|q: BlockPos| #[trigger] w1.spec_block(q) == if column_cell(BlockPos(x, filler_bottom(height) as i32, z), height - filler_bottom(height), q) {
        filler
    } else if same_cell(q, BlockPos(x, height, z)) {
        top
    } else {
        w0.spec_block(q)
    }
}

/// Replaces the top of column (`x`, `z`) at `height` and up to two filler cells below it.
pub fn apply_surface_column(world: &mut World, x: i32, z: i32, height: i32, surface: &SurfaceBlocks)
    requires
        old(world).wf(),
        i32::MIN + 2 <= height,
    ensures
        surface_effect(*old(world), *final(world), x, z, height, surface.top@, surface.filler@),
{
    let ghost w0 = *world;
    put(world, BlockPos(x, height, z), &surface.top);
    let ghost w1 = *world;
    let bottom: i32 = if height - 2 < 0 { 0 } else { height - 2 };
    fill_column_up(world, BlockPos(x, bottom, z), height - bottom, &surface.filler);
    proof {
        assert forall|q: BlockPos| #[trigger] world.spec_block(q) == if column_cell(BlockPos(x, filler_bottom(height) as i32, z), height - filler_bottom(height), q) {
            surface.filler@
        } else if same_cell(q, BlockPos(x, height, z)) {
            surface.top@
        } else {
            w0.spec_block(q)
        } by {
            assert(w1.spec_block(q) == if same_cell(q, BlockPos(x, height, z)) { surface.top@ } else { w0.spec_block(q) });
        }
    }
}

/// Whether `q` is one of the cells of column (`x`, `z`) above `height` up to
/// `sea_level`.
pub open spec fn sea_cell(x: i32, z: i32, height: i32, sea_level: i32, q: BlockPos) -> bool {
    exists|y: int| height < y <= sea_level && #[trigger] same_cell(q, BlockPos(x, y as i32, z))
}

/// `w1` is `w0` with `water` in each air cell of column (`x`, `z`) above
/// `height` up to `sea_level`.
pub open spec fn sea_effect(w0: World, w1: World, x: i32, z: i32, height: i32, sea_level: i32, water: Seq<char>) -> bool {
    &&& keeps_rest(w0, w1)
    &&& forall|q: BlockPos| #[trigger] w1.spec_block(q) == if sea_cell(x, z, height, sea_level, q) && w0.spec_block(q).len() == 0 {
        water
    } else {
        w0.spec_block(q)
    }
}

/// Fills the air of column (`x`, `z`) above a surface at `height` with
/// `water`, up to `sea_level`; a surface at or above sea level is left dry.
pub fn fill_sea_column(world: &mut World, x: i32, z: i32, height: i32, sea_level: i32, water: &BlockId)
    requires
        old(world).wf(),
    ensures
        sea_effect(*old(world), *final(world), x, z, height, sea_level, water@),
{
    let ghost w0 = *world;
    if height >= sea_level {
        proof {
            assert forall|q: BlockPos| !#[trigger] sea_cell(x, z, height, sea_level, q) by {}
        }
        return;
    }
    let mut y: i64 = height as i64 + 1;
    while y <= sea_level as i64
        invariant
            height < sea_level,
            height + 1 <= y <= sea_level + 1,
            w0.wf(),
            keeps_rest(w0, *world),
            forall|q: BlockPos| #[trigger] world.spec_block(q) == if (exists|k: int| height < k < y && #[trigger] same_cell(q, BlockPos(x, k as i32, z)))
                && w0.spec_block(q).len() == 0 {
                water@
            } else {
                w0.spec_block(q)
            },
        decreases sea_level + 1 - y,
    {
        let pos = BlockPos(x, y as i32, z);
        let ghost w1 = *world;
        let current = world.get_block(pos);
        if current.is_air() {
            put(world, pos, water);
        }
        proof {
            assert forall|q: BlockPos| #[trigger] world.spec_block(q) == if (exists|k: int| height < k < y + 1 && #[trigger] same_cell(q, BlockPos(x, k as i32, z)))
                && w0.spec_block(q).len() == 0 {
                water@
            } else {
                w0.spec_block(q)
            } by {
                if same_cell(q, pos) {
                    w1.lemma_same_cell(q, pos);
                    w0.lemma_same_cell(q, pos);
                    assert(same_cell(q, BlockPos(x, y as i32, z)));
                } else {
                    if exists|k: int| height < k < y + 1 && #[trigger] same_cell(q, BlockPos(x, k as i32, z)) {
                        let k = choose|k: int| height < k < y + 1 && #[trigger] same_cell(q, BlockPos(x, k as i32, z));
                        assert(k != y);
                        assert(same_cell(q, BlockPos(x, k as i32, z)));
                    }
                    if exists|k: int| height < k < y && #[trigger] same_cell(q, BlockPos(x, k as i32, z)) {
                        let k = choose|k: int| height < k < y && #[trigger] same_cell(q, BlockPos(x, k as i32, z));
                        assert(same_cell(q, BlockPos(x, k as i32, z)));
                    }
                }
            }
        }
        y = y + 1;
    }
    proof {
        assert forall|q: BlockPos| sea_cell(x, z, height, sea_level, q) == (exists|k: int| height < k < y && #[trigger] same_cell(q, BlockPos(x, k as i32, z))) by {
            if sea_cell(x, z, height, sea_level, q) {
                let k = choose|k: int| height < k <= sea_level && #[trigger] same_cell(q, BlockPos(x, k as i32, z));
                assert(same_cell(q, BlockPos(x, k as i32, z)));
            }
            if exists|k: int| height < k < y && #[trigger] same_cell(q, BlockPos(x, k as i32, z)) {
                let k = choose|k: int| height < k < y && #[trigger] same_cell(q, BlockPos(x, k as i32, z));
                assert(same_cell(q, BlockPos(x, k as i32, z)));
            }
        }
    }
}

/// Euclidean remainder of `v` by a positive `m`.
fn rem_euclid(v: i32, m: i32) -> (r: i32)
    requires
        m > 0,
    ensures
        r as int == v as int % m as int,
{
    let vv = v as i64;
    let mm = m as i64;
    if vv >= 0 {
        (vv % mm) as i32
    } else {
        let a: i64 = -(vv + 1);
        let q: i64 = a / mm;
        let k: i64 = a % mm;
        assert(a == q * mm + k && 0 <= k < mm) by (nonlinear_arith)
            requires
                a >= 0,
                mm > 0,
                q == a / mm,
                k == a % mm;
        assert(vv == -(q + 1) * mm + (mm - 1 - k)) by (nonlinear_arith)
            requires
                a == q * mm + k,
                a == -(vv + 1);
        proof {
            vstd::arithmetic::div_mod::lemma_fundamental_div_mod_converse(vv as int, mm as int, -(q + 1) as int, (mm - 1 - k) as int);
        }
        (mm - 1 - k) as i32
    }
}

/// The column where a structure set places its structure in `chunk_pos`:
/// the chunk must match the set's seeded offset on both axes, modulo the
/// spacing (at least 1); the column is then seeded within 4..=11 of the chunk.
pub open spec fn structure_origin(seed: u64, set: StructureSet, chunk_pos: ChunkPos) -> Option<(i32, i32)> {
    let spacing = if set.spec_spacing() < 1 { 1 } else { set.spec_spacing() };
    let salt = set.spec_salt();
    if chunk_pos.0 as int % spacing as int == spec_seeded_range(seed, chunk_pos.0, chunk_pos.1, salt, 0, (spacing - 1) as i32) as int
        && chunk_pos.1 as int % spacing as int == spec_seeded_range(seed, chunk_pos.0, chunk_pos.1, (salt + 1) as u64, 0, (spacing - 1) as i32) as int {
        Some((
            (chunk_pos.0 * 16 + spec_seeded_range(seed, chunk_pos.0, chunk_pos.1, (salt + 2) as u64, 4, 11)) as i32,
            (chunk_pos.1 * 16 + spec_seeded_range(seed, chunk_pos.0, chunk_pos.1, (salt + 3) as u64, 4, 11)) as i32,
        ))
    } else {
        None
    }
}

/// The column where `set` places its structure in `chunk_pos`, if it places
/// one there.
pub fn structure_origin_in_chunk(world: &World, set: &StructureSet, chunk_pos: ChunkPos) -> (r: Option<(i32, i32)>)
    requires
        set.spec_salt() <= u64::MAX - 3,
        i32::MIN <= chunk_pos.0 * 16,
        chunk_pos.0 * 16 + 11 <= i32::MAX,
        i32::MIN <= chunk_pos.1 * 16,
        chunk_pos.1 * 16 + 11 <= i32::MAX,
    ensures
        r == structure_origin(world.spec_seed(), *set, chunk_pos),
{
    let spacing: i32 = if set.spacing < 1 { 1 } else { set.spacing };
    let ox = world.seeded_range(chunk_pos.0, chunk_pos.1, set.salt, 0, spacing - 1);
    let oz = world.seeded_range(chunk_pos.0, chunk_pos.1, set.salt + 1, 0, spacing - 1);
    if rem_euclid(chunk_pos.0, spacing) != ox || rem_euclid(chunk_pos.1, spacing) != oz {
        return None;
    }
    let x = chunk_pos.0 * 16 + world.seeded_range(chunk_pos.0, chunk_pos.1, set.salt + 2, 4, 11);
    let z = chunk_pos.1 * 16 + world.seeded_range(chunk_pos.0, chunk_pos.1, set.salt + 3, 4, 11);
    Some((x, z))
}

/// A `u32` reinterpreted as an `i32` (two's complement), as `as i32` does.
pub open spec fn wrapped_i32(c: u32) -> int {
    if c <= 0x7fff_ffff { c as int } else { c - 0x1_0000_0000 }
}

/// The seeded salt of a placement attempt.
pub open spec fn attempt_salt(placement: PlacementConfig, attempt: u32) -> int {
    placement.salt + attempt * 31
}

/// The column a placement attempt picks in `chunk_pos`, and whether it
/// passes the placement's one-in-`chance` roll (`chance` at least 1).
pub open spec fn attempt_column(seed: u64, placement: PlacementConfig, chunk_pos: ChunkPos, attempt: u32) -> Option<(i32, i32)> {
    let salt = attempt_salt(placement, attempt);
    let chance = if placement.chance < 1 { 1u32 } else { placement.chance };
    let x = (chunk_pos.0 * 16 + spec_seeded_range(seed, chunk_pos.0, chunk_pos.1, salt as u64, 2, 13)) as i32;
    let z = (chunk_pos.1 * 16 + spec_seeded_range(seed, chunk_pos.0, chunk_pos.1, (salt + 1) as u64, 2, 13)) as i32;
    if spec_seeded_range(seed, x, z, (salt + 2) as u64, 0, (wrapped_i32(chance) - 1) as i32) == 0 {
        Some((x, z))
    } else {
        None
    }
}

/// The column of attempt `attempt` of a placed feature in `chunk_pos`, when
/// the attempt passes its chance roll.
pub fn placement_attempt_column(world: &World, placement: &PlacementConfig, chunk_pos: ChunkPos, attempt: u32) -> (r: Option<(i32, i32)>)
    requires
        attempt_salt(*placement, attempt) + 3 <= u64::MAX,
        i32::MIN <= chunk_pos.0 * 16,
        chunk_pos.0 * 16 + 13 <= i32::MAX,
        i32::MIN <= chunk_pos.1 * 16,
        chunk_pos.1 * 16 + 13 <= i32::MAX,
        placement.chance != 0x8000_0000,
    ensures
        r == attempt_column(world.spec_seed(), *placement, chunk_pos, attempt),
{
    let salt: u64 = placement.salt + attempt as u64 * 31;
    let chance: u32 = if placement.chance < 1 { 1 } else { placement.chance };
    let x = chunk_pos.0 * 16 + world.seeded_range(chunk_pos.0, chunk_pos.1, salt, 2, 13);
    let z = chunk_pos.1 * 16 + world.seeded_range(chunk_pos.0, chunk_pos.1, salt + 1, 2, 13);
    let top: i32 = if chance <= 0x7fff_ffff { chance as i32 } else { (chance as i64 - 0x1_0000_0000) as i32 };
    let roll = world.seeded_range(x, z, salt + 2, 0, top - 1);
    if roll != 0 {
        None
    } else {
        Some((x, z))
    }
}

/// Whether a biome passes a placement's biome filter: an empty filter lets
/// every biome through.
pub open spec fn biome_passes(filter: Seq<NamespacedId>, biome: IdView) -> bool {
    filter.len() == 0 || exists|i: int| 0 <= i < filter.len() && (#[trigger] filter[i])@ == biome
}

/// Whether `biome` passes the biome filter of a placement.
pub fn biome_allowed(filter: &Vec<NamespacedId>, biome: &NamespacedId) -> (r: bool)
    ensures
        r == biome_passes(filter@, biome@),
{
    if filter.len() == 0 {
        return true;
    }
    let mut i: usize = 0;
    while i < filter.len()
        invariant
            i <= filter@.len(),
            forall|j: int| 0 <= j < i ==> (#[trigger] filter@[j])@ != biome@,
        decreases filter.len() - i,
    {
        if filter[i].same(biome) {
            return true;
        }
        i = i + 1;
    }
    false
}

/// The height a placed feature starts at: just above the surface, or a
/// seeded height within the configured range.
pub open spec fn placement_height_at(seed: u64, height: PlacementHeight, x: i32, z: i32, salt: int, surface: i32) -> int {
    match height {
        PlacementHeight::Surface => surface + 1,
        PlacementHeight::Range { min, max } => spec_seeded_range(seed, x, z, (salt + 3) as u64, min, max) as int,
    }
}

/// The starting height of a placed feature at column (`x`, `z`), given the
/// terrain surface height there.
pub fn placement_y(world: &World, height: PlacementHeight, x: i32, z: i32, salt: u64, surface: i32) -> (r: i32)
    requires
        salt + 3 <= u64::MAX,
        height is Surface ==> surface < i32::MAX,
    ensures
        r as int == placement_height_at(world.spec_seed(), height, x, z, salt as int, surface),
{
    match height {
        PlacementHeight::Surface => surface + 1,
        PlacementHeight::Range { min, max } => world.seeded_range(x, z, salt + 3, min, max),
    }
}

} // verus!
