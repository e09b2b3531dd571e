//! The state of the debug overlay: whether it shows, the frame rate counted
//! over whole seconds, and the diagnostics that gameplay and rendering hand
//! it, and the text it shows.

use vstd::prelude::*;
use crate::text::{append_decimal, append_signed, decimal, signed_decimal};

verus! {

/// Nanoseconds in the second over which frames are counted.
pub const NANOS_PER_SECOND: u128 = 1_000_000_000;

/// The overlay's state as values.
pub struct DebugOverlayView {
    pub visible: bool,
    pub frame_count: u32,
    pub fps_elapsed: u128,
    pub fps: u32,
    pub facing: Seq<char>,
    pub visible_meshes: usize,
    pub culled_meshes: usize,
    pub render_distance: i32,
    pub world_seed: u64,
    pub biome: Seq<char>,
}

/// The debug overlay. The frame time and the player's position, which are
/// floating point, are kept by the caller and handed to `text`.
pub struct DebugOverlay {
    visible: bool,
    frame_count: u32,
    fps_elapsed: u128,
    fps: u32,
    facing: String,
    visible_meshes: usize,
    culled_meshes: usize,
    render_distance_chunks: i32,
    world_seed: u64,
    biome: String,
}

impl View for DebugOverlay {
    type V = DebugOverlayView;

    closed spec fn view(&self) -> DebugOverlayView {
        DebugOverlayView {
            visible: self.visible,
            frame_count: self.frame_count,
            fps_elapsed: self.fps_elapsed,
            fps: self.fps,
            facing: self.facing@,
            visible_meshes: self.visible_meshes,
            culled_meshes: self.culled_meshes,
            render_distance: self.render_distance_chunks,
            world_seed: self.world_seed,
            biome: self.biome@,
        }
    }
}

/// The state of a new overlay: hidden, nothing counted, nothing known.
pub open spec fn initial_overlay() -> DebugOverlayView {
    DebugOverlayView {
        visible: false,
        frame_count: 0,
        fps_elapsed: 0,
        fps: 0,
        facing: Seq::empty(),
        visible_meshes: 0,
        culled_meshes: 0,
        render_distance: 0,
        world_seed: 0,
        biome: Seq::empty(),
    }
}

/// The overlay after a frame of `frame` nanoseconds: frames are counted
/// until a second has passed; then the count becomes the frame rate and
/// counting starts over.
pub open spec fn after_frame(v: DebugOverlayView, frame: u128) -> DebugOverlayView {
    let count = (v.frame_count + 1) as u32;
    let elapsed = (v.fps_elapsed + frame) as u128;
    if elapsed >= NANOS_PER_SECOND {
        DebugOverlayView { fps: count, frame_count: 0, fps_elapsed: 0, ..v }
    } else {
        DebugOverlayView { frame_count: count, fps_elapsed: elapsed, ..v }
    }
}

/// The overlay's text, given the frame time and position already written
/// out, and the chunk the player is in.
pub open spec fn overlay_text(v: DebugOverlayView, frame_ms: Seq<char>, position: Seq<char>, chunk_x: i32, chunk_z: i32) -> Seq<char> {
    "F3 DEBUG\nFPS: "@ + decimal(v.fps as nat)
        + "\nFRAME: "@ + frame_ms + " MS\nSEED: "@ + decimal(v.world_seed as nat)
        + "\nPOSITION: "@ + position
        + "\nCHUNK: "@ + signed_decimal(chunk_x as int) + " "@ + signed_decimal(chunk_z as int)
        + "\nBIOME: "@ + v.biome
        + "\nFACING: "@ + v.facing
        + "\nRENDER DISTANCE: "@ + signed_decimal(v.render_distance as int) + " CHUNKS\nMESHES: "@
        + decimal(v.visible_meshes as nat) + " VISIBLE, "@ + decimal(v.culled_meshes as nat) + " CULLED"@
}

impl DebugOverlay {
    /// A hidden overlay with nothing counted.
    pub fn new() -> (r: DebugOverlay)
        ensures
            r@ == initial_overlay(),
    {
        DebugOverlay {
            visible: false,
            frame_count: 0,
            fps_elapsed: 0,
            fps: 0,
            facing: String::new(),
            visible_meshes: 0,
            culled_meshes: 0,
            render_distance_chunks: 0,
            world_seed: 0,
            biome: String::new(),
        }
    }

    /// Shows the overlay, or hides it.
    pub fn toggle(&mut self)
        ensures
            final(self)@ == (DebugOverlayView { visible: !old(self)@.visible, ..old(self)@ }),
    {
        self.visible = !self.visible;
    }

    /// Whether the overlay shows.
    pub fn is_visible(&self) -> (r: bool)
        ensures
            r == self@.visible,
    {
        self.visible
    }

    /// The frame rate: the frames counted in the last whole second.
    pub fn fps(&self) -> (r: u32)
        ensures
            r == self@.fps,
    {
        self.fps
    }

    /// The frames counted so far in the current second.
    pub fn frame_count(&self) -> (r: u32)
        ensures
            r == self@.frame_count,
    {
        self.frame_count
    }

    /// Counts a finished frame that took `frame` nanoseconds.
    pub fn record_frame(&mut self, frame: u128)
        requires
            old(self)@.frame_count < u32::MAX,
            old(self)@.fps_elapsed + frame <= u128::MAX,
        ensures
            final(self)@ == after_frame(old(self)@, frame),
    {
        self.frame_count = self.frame_count + 1;
        self.fps_elapsed = self.fps_elapsed + frame;
        if self.fps_elapsed >= NANOS_PER_SECOND {
            self.fps = self.frame_count;
            self.frame_count = 0;
            self.fps_elapsed = 0;
        }
    }

    /// Sets the name of the direction the player faces.
    pub fn set_facing(&mut self, facing: String)
        ensures
            final(self)@ == (DebugOverlayView { facing: facing@, ..old(self)@ }),
    {
        self.facing = facing;
    }

    /// Sets how many chunk meshes were drawn and culled.
    pub fn set_render_stats(&mut self, visible_meshes: usize, culled_meshes: usize)
        ensures
            final(self)@ == (DebugOverlayView { visible_meshes, culled_meshes, ..old(self)@ }),
    {
        self.visible_meshes = visible_meshes;
        self.culled_meshes = culled_meshes;
    }

    /// Sets the render distance, in chunks.
    pub fn set_render_distance(&mut self, chunks: i32)
        ensures
            final(self)@ == (DebugOverlayView { render_distance: chunks, ..old(self)@ }),
    {
        self.render_distance_chunks = chunks;
    }

    /// Sets the world seed.
    pub fn set_world_seed(&mut self, seed: u64)
        ensures
            final(self)@ == (DebugOverlayView { world_seed: seed, ..old(self)@ }),
    {
        self.world_seed = seed;
    }

    /// Sets the name of the biome the player is in.
    pub fn set_biome(&mut self, biome: String)
        ensures
            final(self)@ == (DebugOverlayView { biome: biome@, ..old(self)@ }),
    {
        self.biome = biome;
    }

    /// The overlay's text when it shows, given the frame time and the
    /// player's position as written out by the caller, and the chunk the
    /// player is in.
    pub fn text(&self, frame_ms: &str, position: &str, chunk_x: i32, chunk_z: i32) -> (r: Option<String>)
        ensures
            match r {
                Some(t) => self@.visible && t@ == overlay_text(self@, frame_ms@, position@, chunk_x, chunk_z),
                None => !self@.visible,
            },
    {
        if !self.visible {
            return None;
        }
        let mut s = String::new();
        s.append("F3 DEBUG\nFPS: ");
        append_decimal(&mut s, self.fps as u64);
        s.append("\nFRAME: ");
        s.append(frame_ms);
        s.append(" MS\nSEED: ");
        append_decimal(&mut s, self.world_seed);
        s.append("\nPOSITION: ");
        s.append(position);
        s.append("\nCHUNK: ");
        append_signed(&mut s, chunk_x as i64);
        s.append(" ");
        append_signed(&mut s, chunk_z as i64);
        s.append("\nBIOME: ");
        s.append(self.biome.as_str());
        s.append("\nFACING: ");
        s.append(self.facing.as_str());
        s.append("\nRENDER DISTANCE: ");
        append_signed(&mut s, self.render_distance_chunks as i64);
        s.append(" CHUNKS\nMESHES: ");
        append_decimal(&mut s, self.visible_meshes as u64);
        s.append(" VISIBLE, ");
        append_decimal(&mut s, self.culled_meshes as u64);
        s.append(" CULLED");
        assert(s@ =~= overlay_text(self@, frame_ms@, position@, chunk_x, chunk_z));
        Some(s)
    }
}

impl Default for DebugOverlay {
    fn default() -> (r: DebugOverlay)
        ensures
            r@ == initial_overlay(),
    {
        DebugOverlay::new()
    }
}

} // verus!
