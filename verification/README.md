# FerrumCraft

A block game's core, written in Verus: the rules and data structures of the
game are executable Rust whose behaviour is stated in `requires` / `ensures`
contracts and proved.

## Layout

- `src/` — the verified library.
  - `block`, `id`, `registry`, `tag`, `lang`, `model`, `resource`, `font`,
    `validation`: block identifiers, namespaced IDs, registries and the
    data-driven content (translations, tags, block models, fonts).
  - `world`: chunked world storage, block positions, block properties.
  - `classic_worldgen`: the classic level generator's integer stages (its
    random source, permutation tables, flood fills, trees, spawn search) and
    the extraction of chunks from a level.
  - `worldgen`: feature and structure placement in generated chunks.
  - `water`, `fluid`, `water_schedule`: water flow rules, the fluid update
    of a cell, and the tick schedule of fluid updates.
  - `gameplay`, `controls`, `inventory`, `input`: the creative palette,
    breaking and placing, falling sand, hotbar and inventory handling, and
    keyboard and mouse state.
  - `physics`: the cell-level side of movement: which cells stop a body,
    how water pushes, how far daylight reaches, where the player first
    stands.
  - `streaming`, `mesh_queue`, `mesher`, `render`: which chunks around the
    player to load, generate and mesh, the mesh rebuild schedule, the pieces
    of a chunk's mesh, and render distance checks.
  - `texture`: procedural textures, frame decoding, the texture atlas and
    texture animations.
  - `save`: the save format's block runs and chunk decoding.
  - `logging`, `debug`, `text`: timestamps, the debug overlay, and decimal
    text.
- `tests/` — tests of the library on concrete values.
- `app/` — the program around the library: startup without a window, file
  and resource I/O, JSON, PNG, logging, and the floating-point parts
  (noise-based terrain, block definitions, biomes, collision boxes and
  movement, mesh vertices).
