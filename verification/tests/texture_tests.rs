use ferrumcraft::texture::{
    alpha_blend_channel, alpha_composite, apply_grass_side_overlay, apply_water_overlay,
    atlas_height, blit_into_atlas, clamp_alpha, frames_from_pixels, glass, grass_side, grass_top,
    leaves, log_side, log_top, new_atlas, planks, procedural_texture, set_alpha, solid,
    texture_name, unique_paths, water, load_png_frames, atlas_slot_origin, FrameError, PixelFormat, PngError, TextureAnimation,
    WATER_ALPHA,
};

fn reference_noise(s: u32, cubic: bool) -> u8 {
    let mut nn = s.wrapping_mul(0x9E37_79B9);
    if cubic {
        nn = nn.wrapping_add(s * s * s);
    }
    (nn >> 16) as u8
}

fn reference_solid(r: u8, g: u8, b: u8, noise: u8) -> Vec<u8> {
    let mut d = Vec::new();
    for i in 0..256u32 {
        let n = reference_noise(i, true) % (noise + 1);
        d.extend_from_slice(&[r.saturating_sub(n), g.saturating_sub(n), b.saturating_sub(n), 255]);
    }
    d
}

fn frame(rgba: [u8; 4]) -> Vec<u8> {
    let mut d = Vec::new();
    for _ in 0..256 {
        d.extend_from_slice(&rgba);
    }
    d
}

#[test]
fn blend_weights_overlay_by_its_alpha() {
    assert_eq!(alpha_blend_channel(100, 200, 128), 150);
    assert_eq!(alpha_blend_channel(0, 255, 255), 255);
    assert_eq!(alpha_blend_channel(255, 0, 0), 255);
}

#[test]
fn composite_skips_transparent_overlay_pixels() {
    let mut base = frame([10, 20, 30, 40]);
    let mut overlay = frame([200, 200, 200, 0]);
    overlay[4..8].copy_from_slice(&[250, 0, 100, 255]);
    alpha_composite(&mut base, &overlay);
    assert_eq!(&base[0..4], &[10, 20, 30, 40]);
    assert_eq!(&base[4..8], &[250, 0, 100, 255]);
}

#[test]
fn alpha_is_set_and_clamped_per_pixel() {
    let mut f = frame([1, 2, 3, 255]);
    set_alpha(&mut f, 7);
    assert!(f.chunks(4).all(|p| p == [1, 2, 3, 7]));
    let mut g = frame([1, 2, 3, 250]);
    g[3] = 5;
    clamp_alpha(&mut g, 100);
    assert_eq!(&g[0..4], &[1, 2, 3, 5]);
    assert_eq!(&g[4..8], &[1, 2, 3, 100]);
}

#[test]
fn water_frames_become_translucent_without_overlay() {
    let mut frames = vec![frame([40, 60, 180, 255]), frame([0, 0, 0, 0])];
    apply_water_overlay(&mut frames, None);
    assert_eq!(frames.len(), 2);
    assert!(frames[0].chunks(4).all(|p| p == [40, 60, 180, WATER_ALPHA]));
    assert!(frames[1].chunks(4).all(|p| p[3] == WATER_ALPHA));
}

#[test]
fn water_overlay_is_clamped_then_composited() {
    let mut frames = vec![frame([0, 0, 0, 255])];
    apply_water_overlay(&mut frames, Some(frame([255, 255, 255, 255])));
    // The overlay's alpha is clamped to the water's: 255 * 210 / 255.
    assert!(frames[0].chunks(4).all(|p| p == [210, 210, 210, WATER_ALPHA]));
}

#[test]
fn grass_side_overlay_applies_to_every_frame() {
    let mut frames = vec![frame([0, 0, 0, 255]), frame([255, 255, 255, 255])];
    apply_grass_side_overlay(&mut frames, Some(frame([100, 100, 100, 255])));
    assert!(frames.iter().all(|f| f.chunks(4).all(|p| p == [100, 100, 100, 255])));
    let mut untouched = vec![frame([9, 9, 9, 9])];
    apply_grass_side_overlay(&mut untouched, None);
    assert_eq!(untouched[0], frame([9, 9, 9, 9]));
}

#[test]
fn solid_textures_match_their_noise_formula() {
    let stone = solid(140, 135, 130, 30);
    assert_eq!(stone, reference_solid(140, 135, 130, 30));
    assert_eq!(&stone[0..8], &[140, 135, 130, 255, 116, 111, 106, 255]);
    assert_eq!(stone.iter().map(|&b| b as u32).sum::<u32>(), 157_506);
}

#[test]
fn grass_textures_have_a_green_band_over_dirt() {
    let top = grass_top();
    assert_eq!(&top[0..4], &[90, 160, 50, 255]);
    assert_eq!(&top[400..404], &[110, 80, 50, 255]);
    assert_eq!(top.iter().map(|&b| b as u32).sum::<u32>(), 130_740);
    let side = grass_side();
    assert_eq!(&side[160..164], &[57, 117, 37, 255]);
    assert_eq!(&side[240..244], &[112, 82, 52, 255]);
    assert_eq!(side.iter().map(|&b| b as u32).sum::<u32>(), 125_460);
}

#[test]
fn other_procedural_textures_have_expected_pixels() {
    let w = water();
    assert_eq!(&w[0..8], &[40, 60, 180, 180, 37, 57, 177, 180]);
    assert_eq!(w.iter().map(|&b| b as u32).sum::<u32>(), 116_707);
    let top = log_top();
    assert_eq!(&top[0..4], &[110, 75, 35, 255]);
    assert_eq!(&top[136 * 4..136 * 4 + 4], &[105, 70, 30, 255]);
    assert_eq!(top.iter().map(|&b| b as u32).sum::<u32>(), 129_712);
    for (i, p) in log_side().chunks(4).enumerate() {
        let n = reference_noise(i as u32 * 3, false) % 16;
        let streak = if (i % 16) % 3 == 1 { 10 } else { 0 };
        assert_eq!(p, [100 - n + streak, 70 - n + streak, 35 - n + streak / 2, 255]);
    }
    for (i, p) in leaves().chunks(4).enumerate() {
        let n = reference_noise(i as u32 * 7, false) % 31;
        assert_eq!(p, [30 - n / 3, 120 - n / 3, 30 - n / 3, 200]);
    }
    for (i, p) in planks().chunks(4).enumerate() {
        let n = reference_noise(i as u32 * 3, false) % 11;
        let line = if (i / 16) % 4 == 0 { 15 } else { 0 };
        assert_eq!(p, [160 - n - line, 120 - n - line, 70 - n - line, 255]);
    }
    for (i, p) in glass().chunks(4).enumerate() {
        let n = reference_noise(i as u32 * 3, false) % 6;
        assert_eq!(p, [200 - n, 220 - n, 240 - n, 100]);
    }
}

#[test]
fn procedural_textures_are_chosen_by_file_name() {
    assert_eq!(texture_name("block/oak_log"), "oak_log");
    assert_eq!(texture_name("stone"), "stone");
    assert_eq!(texture_name("a/b/"), "");
    assert_eq!(procedural_texture("block/stone"), Some(reference_solid(140, 135, 130, 30)));
    assert_eq!(procedural_texture("block/dirt"), Some(reference_solid(115, 85, 55, 25)));
    assert_eq!(procedural_texture("sand"), Some(reference_solid(210, 195, 140, 20)));
    assert_eq!(procedural_texture("block/oak_leaves"), Some(leaves()));
    assert_eq!(procedural_texture("block/planks"), Some(planks()));
    assert_eq!(procedural_texture("block/water_still"), Some(water()));
    assert_eq!(procedural_texture("block/bedrock"), None);
}

#[test]
fn decoded_images_must_be_sixteen_wide_and_whole_frames_tall() {
    let bytes = vec![0u8; 16 * 16 * 4];
    assert_eq!(frames_from_pixels(32, 16, PixelFormat::Rgba, &bytes, &None), Err(FrameError::Width(32)));
    assert_eq!(frames_from_pixels(16, 8, PixelFormat::Rgba, &bytes, &None), Err(FrameError::Height(8)));
    assert_eq!(frames_from_pixels(16, 24, PixelFormat::Rgba, &bytes, &None), Err(FrameError::Height(24)));
    assert_eq!(
        frames_from_pixels(16, 16, PixelFormat::Indexed, &vec![0u8; 256], &None),
        Err(FrameError::MissingPalette)
    );
}

#[test]
fn decoded_pixels_are_converted_to_rgba() {
    let rgb: Vec<u8> = (0..256 * 3).map(|i| (i % 251) as u8).collect();
    let frames = frames_from_pixels(16, 16, PixelFormat::Rgb, &rgb, &None).unwrap();
    assert_eq!(frames.len(), 1);
    assert_eq!(&frames[0][0..8], &[0, 1, 2, 255, 3, 4, 5, 255]);
    let gray: Vec<u8> = (0..256).map(|i| i as u8).collect();
    let frames = frames_from_pixels(16, 16, PixelFormat::Grayscale, &gray, &None).unwrap();
    assert_eq!(&frames[0][4..8], &[1, 1, 1, 255]);
    let gray_alpha: Vec<u8> = (0..512).map(|i| (i % 256) as u8).collect();
    let frames = frames_from_pixels(16, 16, PixelFormat::GrayscaleAlpha, &gray_alpha, &None).unwrap();
    assert_eq!(&frames[0][4..8], &[2, 2, 2, 3]);
    let indices: Vec<u8> = (0..256).map(|i| (i % 3) as u8).collect();
    let palette = Some(vec![10, 20, 30, 40, 50, 60]);
    let frames = frames_from_pixels(16, 16, PixelFormat::Indexed, &indices, &palette).unwrap();
    assert_eq!(&frames[0][0..12], &[10, 20, 30, 255, 40, 50, 60, 255, 0, 0, 0, 0]);
}

#[test]
fn tall_images_split_into_frames() {
    let rgba: Vec<u8> = (0..3 * 1024).map(|i| (i / 1024) as u8).collect();
    let frames = frames_from_pixels(16, 48, PixelFormat::Rgba, &rgba, &None).unwrap();
    assert_eq!(frames.len(), 3);
    for (i, f) in frames.iter().enumerate() {
        assert_eq!(f.len(), 1024);
        assert!(f.iter().all(|&b| b == i as u8));
    }
}

#[test]
fn texture_paths_are_deduplicated_in_order() {
    let paths: Vec<String> = ["b", "a", "b", "c", "a"].iter().map(|s| s.to_string()).collect();
    assert_eq!(unique_paths(&paths), vec!["b", "a", "c"]);
}

#[test]
fn frames_land_in_their_atlas_slot() {
    assert_eq!(atlas_height(0), 0);
    assert_eq!(atlas_height(1), 16);
    assert_eq!(atlas_height(8), 16);
    assert_eq!(atlas_height(9), 32);
    let mut atlas = new_atlas(atlas_height(10));
    assert_eq!(atlas.len(), 128 * 32 * 4);
    let frame = frame([1, 2, 3, 4]);
    blit_into_atlas(&mut atlas, 9, &frame);
    // Slot 9 is column 1 of the second row: pixels x 16..32, y 16..32.
    let at = |x: usize, y: usize| &atlas[(y * 128 + x) * 4..(y * 128 + x) * 4 + 4];
    assert_eq!(at(16, 16), &[1, 2, 3, 4]);
    assert_eq!(at(31, 31), &[1, 2, 3, 4]);
    assert_eq!(at(15, 16), &[0, 0, 0, 0]);
    assert_eq!(at(32, 20), &[0, 0, 0, 0]);
    assert_eq!(at(16, 15), &[0, 0, 0, 0]);
    assert_eq!(atlas.iter().filter(|&&b| b != 0).count(), 256 * 4);
}

#[test]
fn animations_step_one_frame_per_frame_time() {
    let mut anim = TextureAnimation {
        atlas_x: 0,
        atlas_y: 16,
        frame_time: 50,
        elapsed: 0,
        frame_index: 0,
        frames: vec![frame([0, 0, 0, 0]), frame([1, 1, 1, 1]), frame([2, 2, 2, 2])],
    };
    assert!(!anim.advance(30));
    assert_eq!((anim.frame_index, anim.elapsed), (0, 30));
    assert!(anim.advance(30));
    assert_eq!((anim.frame_index, anim.elapsed), (1, 10));
    assert!(anim.advance(150));
    assert_eq!((anim.frame_index, anim.elapsed), (1, 10));
    assert!(anim.advance(40));
    assert_eq!((anim.frame_index, anim.elapsed), (2, 0));
}

fn encode_png(width: u32, height: u32, color: png::ColorType, data: &[u8]) -> Vec<u8> {
    let mut out = Vec::new();
    {
        let mut encoder = png::Encoder::new(&mut out, width, height);
        encoder.set_color(color);
        encoder.set_depth(png::BitDepth::Eight);
        let mut writer = encoder.write_header().unwrap();
        writer.write_image_data(data).unwrap();
    }
    out
}

#[test]
fn png_bytes_decode_into_frames() {
    let pixels: Vec<u8> = (0..16 * 32 * 4).map(|i| (i % 251) as u8).collect();
    let frames = load_png_frames(&encode_png(16, 32, png::ColorType::Rgba, &pixels)).unwrap();
    assert_eq!(frames.len(), 2);
    assert_eq!(frames[0], pixels[..1024].to_vec());
    assert_eq!(frames[1], pixels[1024..].to_vec());
    // RGB pixels come out opaque.
    let rgb: Vec<u8> = vec![10; 16 * 16 * 3];
    let frames = load_png_frames(&encode_png(16, 16, png::ColorType::Rgb, &rgb)).unwrap();
    assert_eq!(frames.len(), 1);
    assert_eq!(&frames[0][..4], &[10, 10, 10, 255]);
    // Bytes that are no PNG, and images that are no block texture.
    assert!(matches!(load_png_frames(&vec![1, 2, 3]), Err(PngError::Decode(_))));
    let small = encode_png(8, 8, png::ColorType::Rgba, &vec![0; 8 * 8 * 4]);
    assert!(matches!(load_png_frames(&small), Err(PngError::Frames(FrameError::Width(8)))));
    let short = encode_png(16, 8, png::ColorType::Rgba, &vec![0; 16 * 8 * 4]);
    assert!(matches!(load_png_frames(&short), Err(PngError::Frames(FrameError::Height(8)))));
}

#[test]
fn atlas_slots_fill_rows_of_eight_tiles() {
    assert_eq!(atlas_slot_origin(0), (0, 0));
    assert_eq!(atlas_slot_origin(7), (112, 0));
    assert_eq!(atlas_slot_origin(8), (0, 16));
    assert_eq!(atlas_slot_origin(19), (48, 32));
}
