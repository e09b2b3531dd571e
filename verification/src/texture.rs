//! Block texture pixels: overlay compositing and the procedural fallback
//! textures written on first run.
//!
//! A texture frame is 16×16 RGBA pixels, 1024 bytes, row by row; pixel `i`
//! occupies bytes `4i` (red) to `4i + 3` (alpha).

use vstd::prelude::*;
use crate::text::str_eq;

verus! {

/// Width and height of a block texture, in pixels.
pub const TEX_SIZE: u32 = 16;

/// Opacity of still water.
pub const WATER_ALPHA: u8 = 210;

/// Bytes in one texture frame.
pub open spec fn frame_len() -> int {
    1024
}

/// One colour channel of `overlay` blended over `base` with opacity `alpha`.
pub open spec fn blend(base: u8, overlay: u8, alpha: u8) -> int {
    (overlay * alpha + base * (255 - alpha)) / 255
}

/// Byte `k` of `base` after compositing `overlay` over it: pixels where the
/// overlay is transparent stay; others blend their colour and keep the
/// larger alpha.
pub open spec fn composite_byte(base: Seq<u8>, overlay: Seq<u8>, k: int) -> int {
    let a = overlay[k - k % 4 + 3];
    if k >= frame_len() || a == 0 {
        base[k] as int
    } else if k % 4 < 3 {
        blend(base[k], overlay[k], a)
    } else if base[k] >= a {
        base[k] as int
    } else {
        a as int
    }
}

/// Whether byte `k` is the alpha byte of one of the frame's pixels.
pub open spec fn is_alpha_byte(k: int) -> bool {
    0 <= k < frame_len() && k % 4 == 3
}

/// `rgba` with every pixel's alpha set to `alpha`.
pub open spec fn with_alpha(rgba: Seq<u8>, alpha: u8) -> Seq<u8> {
    Seq::new(rgba.len(), |k: int| if is_alpha_byte(k) { alpha } else { rgba[k] })
}

/// `rgba` with every pixel's alpha lowered to at most `alpha`.
pub open spec fn clamped_alpha(rgba: Seq<u8>, alpha: u8) -> Seq<u8> {
    Seq::new(rgba.len(), |k: int| if is_alpha_byte(k) && rgba[k] > alpha { alpha } else { rgba[k] })
}

/// `base` with `overlay` composited over it.
pub open spec fn composited(base: Seq<u8>, overlay: Seq<u8>) -> Seq<u8> {
    Seq::new(base.len(), |k: int| composite_byte(base, overlay, k) as u8)
}

/// Blends one colour channel of `overlay` over `base` with opacity `alpha`.
pub fn alpha_blend_channel(base: u8, overlay: u8, alpha: u8) -> (r: u8)
    ensures
        r == blend(base, overlay, alpha),
{
    let a = alpha as u16;
    assert(overlay as u16 * a + base as u16 * (255 - a) <= 255 * 255) by (nonlinear_arith)
        requires
            overlay <= 255,
            base <= 255,
            a <= 255,
    ;
    ((overlay as u16 * a + base as u16 * (255 - a)) / 255) as u8
}

/// Composites `overlay` over the first frame of `base`.
pub fn alpha_composite(base: &mut Vec<u8>, overlay: &Vec<u8>)
    requires
        old(base)@.len() >= frame_len(),
        overlay@.len() >= frame_len(),
    ensures
        final(base)@ == composited(old(base)@, overlay@),
{
    let ghost b0 = base@;
    let mut i: usize = 0;
    while i < 256
        invariant
            i <= 256,
            b0.len() >= frame_len(),
            overlay@.len() >= frame_len(),
            base@.len() == b0.len(),
            forall|k: int| 0 <= k < 4 * i ==> #[trigger] base@[k] == composite_byte(b0, overlay@, k) as u8,
            forall|k: int| 4 * i <= k < b0.len() ==> #[trigger] base@[k] == b0[k],
        decreases 256 - i,
    {
        let idx = i * 4;
        let alpha = overlay[idx + 3];
        if alpha != 0 {
            let r = alpha_blend_channel(base[idx], overlay[idx], alpha);
            base.set(idx, r);
            let g = alpha_blend_channel(base[idx + 1], overlay[idx + 1], alpha);
            base.set(idx + 1, g);
            let b = alpha_blend_channel(base[idx + 2], overlay[idx + 2], alpha);
            base.set(idx + 2, b);
            let a = if base[idx + 3] >= alpha { base[idx + 3] } else { alpha };
            base.set(idx + 3, a);
        }
        proof {
            assert forall|k: int| 4 * i <= k < 4 * i + 4 implies #[trigger] base@[k] == composite_byte(b0, overlay@, k) as u8 by {
                assert(k - k % 4 + 3 == idx + 3);
            }
        }
        i = i + 1;
    }
    assert(base@ =~= composited(b0, overlay@));
}

/// Sets the alpha of every pixel of the first frame.
pub fn set_alpha(rgba: &mut Vec<u8>, alpha: u8)
    requires
        old(rgba)@.len() >= frame_len(),
    ensures
        final(rgba)@ == with_alpha(old(rgba)@, alpha),
{
    let ghost r0 = rgba@;
    let mut i: usize = 0;
    while i < 256
        invariant
            i <= 256,
            r0.len() >= frame_len(),
            rgba@.len() == r0.len(),
            forall|k: int| 0 <= k < rgba@.len() ==> #[trigger] rgba@[k] == (if is_alpha_byte(k) && k < 4 * i { alpha } else { r0[k] }),
        decreases 256 - i,
    {
        rgba.set(i * 4 + 3, alpha);
        i = i + 1;
    }
    assert(rgba@ =~= with_alpha(r0, alpha));
}

/// Lowers the alpha of every pixel of the first frame to at most `alpha`.
pub fn clamp_alpha(rgba: &mut Vec<u8>, alpha: u8)
    requires
        old(rgba)@.len() >= frame_len(),
    ensures
        final(rgba)@ == clamped_alpha(old(rgba)@, alpha),
{
    let ghost r0 = rgba@;
    let mut i: usize = 0;
    while i < 256
        invariant
            i <= 256,
            r0.len() >= frame_len(),
            rgba@.len() == r0.len(),
            forall|k: int| 0 <= k < rgba@.len() ==> #[trigger] rgba@[k] == (if is_alpha_byte(k) && k < 4 * i && r0[k] > alpha { alpha } else { r0[k] }),
        decreases 256 - i,
    {
        let idx = i * 4 + 3;
        if rgba[idx] > alpha {
            rgba.set(idx, alpha);
        }
        i = i + 1;
    }
    assert(rgba@ =~= clamped_alpha(r0, alpha));
}

/// The pixels of an optional frame.
pub open spec fn pixels_of(frame: Option<Vec<u8>>) -> Option<Seq<u8>> {
    match frame {
        Some(f) => Some(f@),
        None => None,
    }
}

/// Whether every frame holds at least one full frame of pixels.
pub open spec fn frames_complete(frames: Seq<Vec<u8>>) -> bool {
    forall|i: int| 0 <= i < frames.len() ==> (#[trigger] frames[i])@.len() >= frame_len()
}

/// A still-water frame: made translucent, with the overlay (its alpha
/// clamped to the water's) composited over it, and made translucent again.
pub open spec fn water_frame(frame: Seq<u8>, overlay: Option<Seq<u8>>) -> Seq<u8> {
    match overlay {
        Some(o) => with_alpha(composited(with_alpha(frame, WATER_ALPHA), clamped_alpha(o, WATER_ALPHA)), WATER_ALPHA),
        None => with_alpha(frame, WATER_ALPHA),
    }
}

/// A grass side frame with the overlay composited over it.
pub open spec fn grass_side_frame(frame: Seq<u8>, overlay: Option<Seq<u8>>) -> Seq<u8> {
    match overlay {
        Some(o) => composited(frame, o),
        None => frame,
    }
}

/// Turns the frames of the still-water texture translucent and composites
/// the water overlay frame over each (`None` when the overlay could not be
/// loaded: the frames are then only made translucent).
pub fn apply_water_overlay(water_frames: &mut Vec<Vec<u8>>, overlay: Option<Vec<u8>>)
    requires
        frames_complete(old(water_frames)@),
        overlay matches Some(o) ==> o@.len() >= frame_len(),
    ensures
        final(water_frames)@.len() == old(water_frames)@.len(),
        forall|i: int| 0 <= i < final(water_frames)@.len() ==> (#[trigger] final(water_frames)@[i])@
            == water_frame(old(water_frames)@[i]@, pixels_of(overlay)),
{
    let ghost ov = pixels_of(overlay);
    let clamped = match overlay {
        Some(o) => {
            let mut o = o;
            clamp_alpha(&mut o, WATER_ALPHA);
            Some(o)
        },
        None => None,
    };
    let mut rest: Vec<Vec<u8>> = Vec::new();
    std::mem::swap(water_frames, &mut rest);
    let ghost all = rest@;
    let n = rest.len();
    let mut i: usize = 0;
    while i < n
        invariant
            n == all.len(),
            i <= n,
            frames_complete(all),
            rest@ == all.subrange(i as int, n as int),
            water_frames@.len() == i,
            forall|j: int| 0 <= j < i ==> (#[trigger] water_frames@[j])@ == water_frame(all[j]@, ov),
            match clamped { Some(c) => ov matches Some(o) && c@ == clamped_alpha(o, WATER_ALPHA) && o.len() >= frame_len(), None => ov is None },
        decreases n - i,
    {
        let mut frame = rest.remove(0);
        assert(frame@ == all[i as int]@);
        set_alpha(&mut frame, WATER_ALPHA);
        match &clamped {
            Some(c) => {
                alpha_composite(&mut frame, c);
                set_alpha(&mut frame, WATER_ALPHA);
            },
            None => {},
        }
        water_frames.push(frame);
        assert(rest@ =~= all.subrange(i + 1, n as int));
        i = i + 1;
    }
}

/// Composites the grass side overlay frame over each frame of the grass
/// side texture (`None` when the overlay could not be loaded: the frames
/// stay as they are).
pub fn apply_grass_side_overlay(base_frames: &mut Vec<Vec<u8>>, overlay: Option<Vec<u8>>)
    requires
        frames_complete(old(base_frames)@),
        overlay matches Some(o) ==> o@.len() >= frame_len(),
    ensures
        final(base_frames)@.len() == old(base_frames)@.len(),
        forall|i: int| 0 <= i < final(base_frames)@.len() ==> (#[trigger] final(base_frames)@[i])@
            == grass_side_frame(old(base_frames)@[i]@, pixels_of(overlay)),
{
    let ghost ov = pixels_of(overlay);
    let mut rest: Vec<Vec<u8>> = Vec::new();
    std::mem::swap(base_frames, &mut rest);
    let ghost all = rest@;
    let n = rest.len();
    let mut i: usize = 0;
    while i < n
        invariant
            n == all.len(),
            i <= n,
            frames_complete(all),
            rest@ == all.subrange(i as int, n as int),
            base_frames@.len() == i,
            forall|j: int| 0 <= j < i ==> (#[trigger] base_frames@[j])@ == grass_side_frame(all[j]@, ov),
            match &overlay { Some(o) => ov == Some(o@) && o@.len() >= frame_len(), None => ov is None },
        decreases n - i,
    {
        let mut frame = rest.remove(0);
        assert(frame@ == all[i as int]@);
        match &overlay {
            Some(o) => {
                alpha_composite(&mut frame, o);
            },
            None => {},
        }
        base_frames.push(frame);
        assert(rest@ =~= all.subrange(i + 1, n as int));
        i = i + 1;
    }
}


/// `n` reduced to 32 bits.
pub open spec fn wrap32(n: int) -> int {
    n % 0x1_0000_0000
}

/// The golden-ratio multiplicative hash of `s`, in 32 bits.
pub open spec fn golden_mix(s: int) -> int {
    wrap32(s * 0x9E37_79B9)
}

/// The third byte (bits 16 to 23) of `n`.
pub open spec fn high_byte(n: int) -> int {
    (n / 65536) % 256
}

/// Pixel noise from `s`: the golden hash plus the cube of `s`.
pub open spec fn cubic_noise(s: int) -> int {
    high_byte(wrap32(golden_mix(s) + s * s * s))
}

/// Pixel noise from `s`: the golden hash alone.
pub open spec fn golden_noise(s: int) -> int {
    high_byte(golden_mix(s))
}

/// `a - b`, or 0 when `b` is larger.
pub open spec fn saturating_sub(a: int, b: int) -> int {
    if a >= b { a - b } else { 0 }
}

/// The frame whose pixel `i` has the given red, green, blue and alpha.
pub open spec fn image_from(pixel: spec_fn(int) -> (int, int, int, int)) -> Seq<u8> {
    Seq::new(frame_len() as nat, |k: int| {
        let p = pixel(k / 4);
        (if k % 4 == 0 { p.0 } else if k % 4 == 1 { p.1 } else if k % 4 == 2 { p.2 } else { p.3 }) as u8
    })
}

/// A pixel of a solid colour darkened by up to `noise`.
pub open spec fn solid_pixel(r: u8, g: u8, b: u8, noise: u8, i: int) -> (int, int, int, int) {
    let n = cubic_noise(i) % (noise + 1);
    (saturating_sub(r as int, n), saturating_sub(g as int, n), saturating_sub(b as int, n), 255)
}

/// A pixel of grass: a green band of `green_rows` rows over dirt.
pub open spec fn grass_pixel(green_rows: int, top: (int, int, int), i: int) -> (int, int, int, int) {
    let n = cubic_noise(3 * i) % 21;
    if i / 16 < green_rows {
        (top.0 - n / 2, top.1 - n / 2, top.2 - n / 2, 255)
    } else {
        (115 - n / 2, 85 - n / 2, 55 - n / 2, 255)
    }
}

/// A pixel of still water.
pub open spec fn water_pixel(i: int) -> (int, int, int, int) {
    let n = golden_noise(5 * i) % 11;
    (40 - n / 3, 60 - n / 3, 180 - n / 3, 180)
}

/// A pixel of a log's bark, with a light streak every third column.
pub open spec fn log_side_pixel(i: int) -> (int, int, int, int) {
    let n = golden_noise(3 * i) % 16;
    let streak: int = if (i % 16) % 3 == 1 { 10 } else { 0 };
    (100 - n + streak, 70 - n + streak, 35 - n + streak / 2, 255)
}

/// The distance of pixel `i` from the texture's centre, by its larger axis.
pub open spec fn ring_distance(i: int) -> int {
    let dx = if i % 16 >= 8 { i % 16 - 8 } else { 8 - i % 16 };
    let dy = if i / 16 >= 8 { i / 16 - 8 } else { 8 - i / 16 };
    if dx >= dy { dx } else { dy }
}

/// A pixel of a log's cut end, with a dark ring every fourth distance.
pub open spec fn log_top_pixel(i: int) -> (int, int, int, int) {
    let ring: int = if ring_distance(i) % 4 == 0 { 20 } else { 0 };
    let n = golden_noise(3 * i) % 10;
    (130 - n - ring, 95 - n - ring, 55 - n - ring, 255)
}

/// A pixel of leaves.
pub open spec fn leaves_pixel(i: int) -> (int, int, int, int) {
    let n = golden_noise(7 * i) % 31;
    (30 - n / 3, 120 - n / 3, 30 - n / 3, 200)
}

/// A pixel of planks, with a dark line every fourth row.
pub open spec fn planks_pixel(i: int) -> (int, int, int, int) {
    let n = golden_noise(3 * i) % 11;
    let line: int = if (i / 16) % 4 == 0 { 15 } else { 0 };
    (160 - n - line, 120 - n - line, 70 - n - line, 255)
}

/// A pixel of glass.
pub open spec fn glass_pixel(i: int) -> (int, int, int, int) {
    let n = golden_noise(3 * i) % 6;
    (200 - n, 220 - n, 240 - n, 100)
}

proof fn lemma_high_byte(x: u32)
    ensures
        ((x >> 16) as u8) as int == high_byte(x as int),
{
    assert((x >> 16) as u8 == ((x / 65536) % 256) as u8) by (bit_vector);
}

/// The cubic noise of `s`.
fn cubic_noise_of(s: u32) -> (r: u8)
    requires
        s < 1024,
    ensures
        r == cubic_noise(s as int),
{
    assert(s * s < 1024 * 1024 && s * s * s < 1024 * 1024 * 1024) by (nonlinear_arith)
        requires
            s < 1024,
    ;
    let nn = s.wrapping_mul(0x9E37_79B9).wrapping_add(s * s * s);
    proof {
        lemma_high_byte(nn);
        let a = golden_mix(s as int);
        let c = s * s * s;
        assert(0 <= a < 0x1_0000_0000);
        assert(nn == wrap32(a + c));
    }
    (nn >> 16) as u8
}

/// The golden noise of `s`.
fn golden_noise_of(s: u32) -> (r: u8)
    ensures
        r == golden_noise(s as int),
{
    let nn = s.wrapping_mul(0x9E37_79B9);
    proof {
        lemma_high_byte(nn);
    }
    (nn >> 16) as u8
}

/// A blank frame.
fn blank_frame() -> (d: Vec<u8>)
    ensures
        d@.len() == frame_len(),
{
    let mut d: Vec<u8> = Vec::new();
    let mut k: usize = 0;
    while k < 1024
        invariant
            k <= 1024,
            d@.len() == k,
        decreases 1024 - k,
    {
        d.push(0);
        k = k + 1;
    }
    d
}

/// Writes pixel `i`.
fn put_pixel(d: &mut Vec<u8>, i: usize, p: (u8, u8, u8, u8))
    requires
        i < 256,
        old(d)@.len() == frame_len(),
    ensures
        final(d)@.len() == frame_len(),
        forall|k: int| 0 <= k < frame_len() ==> #[trigger] final(d)@[k] == (if k / 4 == i {
            if k % 4 == 0 { p.0 } else if k % 4 == 1 { p.1 } else if k % 4 == 2 { p.2 } else { p.3 }
        } else {
            old(d)@[k]
        }),
{
    d.set(4 * i, p.0);
    d.set(4 * i + 1, p.1);
    d.set(4 * i + 2, p.2);
    d.set(4 * i + 3, p.3);
}

/// A solid colour darkened per pixel by up to `noise`.
pub fn solid(r: u8, g: u8, b: u8, noise: u8) -> (d: Vec<u8>)
    requires
        noise < 255,
    ensures
        d@ == image_from(|i: int| solid_pixel(r, g, b, noise, i)),
{
    let ghost img = image_from(|i: int| solid_pixel(r, g, b, noise, i));
    let mut d = blank_frame();
    let mut i: usize = 0;
    while i < 256
        invariant
            i <= 256,
            noise < 255,
            d@.len() == frame_len(),
            img == image_from(|i: int| solid_pixel(r, g, b, noise, i)),
            forall|k: int| 0 <= k < 4 * i ==> #[trigger] d@[k] == img[k],
        decreases 256 - i,
    {
        let n = cubic_noise_of(i as u32) % (noise + 1);
        let p = (r.saturating_sub(n), g.saturating_sub(n), b.saturating_sub(n), 255u8);
        let ghost d0 = d@;
        put_pixel(&mut d, i, p);
        assert forall|k: int| 0 <= k < 4 * (i + 1) implies #[trigger] d@[k] == img[k] by {
            if k / 4 != i {
                assert(d@[k] == d0[k]);
            }
        }
        i = i + 1;
    }
    assert(d@ =~= img);
    d
}


fn grass_frame(green_rows: usize, top: (u8, u8, u8)) -> (d: Vec<u8>)
    requires
        top.0 >= 10 && top.1 >= 10 && top.2 >= 10,
    ensures
        d@ == image_from(|i: int| grass_pixel(green_rows as int, (top.0 as int, top.1 as int, top.2 as int), i)),
{
    let ghost img = image_from(|i: int| grass_pixel(green_rows as int, (top.0 as int, top.1 as int, top.2 as int), i));
    let mut d = blank_frame();
    let mut i: usize = 0;
    while i < 256
        invariant
            i <= 256,
            top.0 >= 10 && top.1 >= 10 && top.2 >= 10,
            d@.len() == frame_len(),
            img == image_from(|i: int| grass_pixel(green_rows as int, (top.0 as int, top.1 as int, top.2 as int), i)),
            forall|k: int| 0 <= k < 4 * i ==> #[trigger] d@[k] == img[k],
        decreases 256 - i,
    {
        let n = cubic_noise_of(3 * i as u32) % 21;
        let h = n / 2;
        let p = if i / 16 < green_rows {
            (top.0 - h, top.1 - h, top.2 - h, 255u8)
        } else {
            (115 - h, 85 - h, 55 - h, 255u8)
        };
        let ghost d0 = d@;
        put_pixel(&mut d, i, p);
        assert forall|k: int| 0 <= k < 4 * (i + 1) implies #[trigger] d@[k] == img[k] by {
            if k / 4 != i {
                assert(d@[k] == d0[k]);
            }
        }
        i = i + 1;
    }
    assert(d@ =~= img);
    d
}

/// The top of a grass block: green over its first five rows, dirt below.
pub fn grass_top() -> (d: Vec<u8>)
    ensures
        d@ == image_from(|i: int| grass_pixel(5, (90, 160, 50), i)),
{
    grass_frame(5, (90, 160, 50))
}

/// The side of a grass block: green over its first three rows, dirt below.
pub fn grass_side() -> (d: Vec<u8>)
    ensures
        d@ == image_from(|i: int| grass_pixel(3, (60, 120, 40), i)),
{
    grass_frame(3, (60, 120, 40))
}

/// Still water.
pub fn water() -> (d: Vec<u8>)
    ensures
        d@ == image_from(|i: int| water_pixel(i)),
{
    let ghost img = image_from(|i: int| water_pixel(i));
    let mut d = blank_frame();
    let mut i: usize = 0;
    while i < 256
        invariant
            i <= 256,
            d@.len() == frame_len(),
            img == image_from(|i: int| water_pixel(i)),
            forall|k: int| 0 <= k < 4 * i ==> #[trigger] d@[k] == img[k],
        decreases 256 - i,
    {
        let n = golden_noise_of(i as u32 * 5) % 11;
        let p = (40 - n / 3, 60 - n / 3, 180 - n / 3, 180u8);
        let ghost d0 = d@;
        put_pixel(&mut d, i, p);
        assert forall|k: int| 0 <= k < 4 * (i + 1) implies #[trigger] d@[k] == img[k] by {
            if k / 4 != i {
                assert(d@[k] == d0[k]);
            }
        }
        i = i + 1;
    }
    assert(d@ =~= img);
    d
}

/// The bark of a log.
pub fn log_side() -> (d: Vec<u8>)
    ensures
        d@ == image_from(|i: int| log_side_pixel(i)),
{
    let ghost img = image_from(|i: int| log_side_pixel(i));
    let mut d = blank_frame();
    let mut i: usize = 0;
    while i < 256
        invariant
            i <= 256,
            d@.len() == frame_len(),
            img == image_from(|i: int| log_side_pixel(i)),
            forall|k: int| 0 <= k < 4 * i ==> #[trigger] d@[k] == img[k],
        decreases 256 - i,
    {
        let n = golden_noise_of(i as u32 * 3) % 16;
        let streak: u8 = if (i % 16) % 3 == 1 { 10 } else { 0 };
        let p = (100 - n + streak, 70 - n + streak, 35 - n + streak / 2, 255u8);
        let ghost d0 = d@;
        put_pixel(&mut d, i, p);
        assert forall|k: int| 0 <= k < 4 * (i + 1) implies #[trigger] d@[k] == img[k] by {
            if k / 4 != i {
                assert(d@[k] == d0[k]);
            }
        }
        i = i + 1;
    }
    assert(d@ =~= img);
    d
}

/// The cut end of a log.
pub fn log_top() -> (d: Vec<u8>)
    ensures
        d@ == image_from(|i: int| log_top_pixel(i)),
{
    let ghost img = image_from(|i: int| log_top_pixel(i));
    let mut d = blank_frame();
    let mut i: usize = 0;
    while i < 256
        invariant
            i <= 256,
            d@.len() == frame_len(),
            img == image_from(|i: int| log_top_pixel(i)),
            forall|k: int| 0 <= k < 4 * i ==> #[trigger] d@[k] == img[k],
        decreases 256 - i,
    {
        let x = i % 16;
        let y = i / 16;
        let dx = if x >= 8 { x - 8 } else { 8 - x };
        let dy = if y >= 8 { y - 8 } else { 8 - y };
        let dist = if dx >= dy { dx } else { dy };
        let ring: u8 = if dist % 4 == 0 { 20 } else { 0 };
        let n = golden_noise_of(i as u32 * 3) % 10;
        let p = (130 - n - ring, 95 - n - ring, 55 - n - ring, 255u8);
        let ghost d0 = d@;
        put_pixel(&mut d, i, p);
        assert forall|k: int| 0 <= k < 4 * (i + 1) implies #[trigger] d@[k] == img[k] by {
            if k / 4 != i {
                assert(d@[k] == d0[k]);
            }
        }
        i = i + 1;
    }
    assert(d@ =~= img);
    d
}

/// Leaves.
pub fn leaves() -> (d: Vec<u8>)
    ensures
        d@ == image_from(|i: int| leaves_pixel(i)),
{
    let ghost img = image_from(|i: int| leaves_pixel(i));
    let mut d = blank_frame();
    let mut i: usize = 0;
    while i < 256
        invariant
            i <= 256,
            d@.len() == frame_len(),
            img == image_from(|i: int| leaves_pixel(i)),
            forall|k: int| 0 <= k < 4 * i ==> #[trigger] d@[k] == img[k],
        decreases 256 - i,
    {
        let n = golden_noise_of(i as u32 * 7) % 31;
        let p = (30 - n / 3, 120 - n / 3, 30 - n / 3, 200u8);
        let ghost d0 = d@;
        put_pixel(&mut d, i, p);
        assert forall|k: int| 0 <= k < 4 * (i + 1) implies #[trigger] d@[k] == img[k] by {
            if k / 4 != i {
                assert(d@[k] == d0[k]);
            }
        }
        i = i + 1;
    }
    assert(d@ =~= img);
    d
}

/// Planks.
pub fn planks() -> (d: Vec<u8>)
    ensures
        d@ == image_from(|i: int| planks_pixel(i)),
{
    let ghost img = image_from(|i: int| planks_pixel(i));
    let mut d = blank_frame();
    let mut i: usize = 0;
    while i < 256
        invariant
            i <= 256,
            d@.len() == frame_len(),
            img == image_from(|i: int| planks_pixel(i)),
            forall|k: int| 0 <= k < 4 * i ==> #[trigger] d@[k] == img[k],
        decreases 256 - i,
    {
        let n = golden_noise_of(i as u32 * 3) % 11;
        let line: u8 = if (i / 16) % 4 == 0 { 15 } else { 0 };
        let p = (160 - n - line, 120 - n - line, 70 - n - line, 255u8);
        let ghost d0 = d@;
        put_pixel(&mut d, i, p);
        assert forall|k: int| 0 <= k < 4 * (i + 1) implies #[trigger] d@[k] == img[k] by {
            if k / 4 != i {
                assert(d@[k] == d0[k]);
            }
        }
        i = i + 1;
    }
    assert(d@ =~= img);
    d
}

/// Glass.
pub fn glass() -> (d: Vec<u8>)
    ensures
        d@ == image_from(|i: int| glass_pixel(i)),
{
    let ghost img = image_from(|i: int| glass_pixel(i));
    let mut d = blank_frame();
    let mut i: usize = 0;
    while i < 256
        invariant
            i <= 256,
            d@.len() == frame_len(),
            img == image_from(|i: int| glass_pixel(i)),
            forall|k: int| 0 <= k < 4 * i ==> #[trigger] d@[k] == img[k],
        decreases 256 - i,
    {
        let n = golden_noise_of(i as u32 * 3) % 6;
        let p = (200 - n, 220 - n, 240 - n, 100u8);
        let ghost d0 = d@;
        put_pixel(&mut d, i, p);
        assert forall|k: int| 0 <= k < 4 * (i + 1) implies #[trigger] d@[k] == img[k] by {
            if k / 4 != i {
                assert(d@[k] == d0[k]);
            }
        }
        i = i + 1;
    }
    assert(d@ =~= img);
    d
}


/// Where the last `/`-separated segment of `s` starts.
pub open spec fn segment_start(s: Seq<char>) -> int
    decreases s.len(),
{
    if s.len() == 0 {
        0
    } else if s.last() == '/' {
        s.len() as int
    } else {
        segment_start(s.drop_last())
    }
}

/// The part of `s` after its last `/` (all of it when it has none).
pub open spec fn last_segment(s: Seq<char>) -> Seq<char> {
    s.subrange(segment_start(s), s.len() as int)
}

/// The fallback texture for a texture path, by its file name.
pub open spec fn procedural_image(name: Seq<char>) -> Option<Seq<u8>> {
    if name == "stone"@ {
        Some(image_from(|i: int| solid_pixel(140, 135, 130, 30, i)))
    } else if name == "dirt"@ {
        Some(image_from(|i: int| solid_pixel(115, 85, 55, 25, i)))
    } else if name == "grass_block_top"@ {
        Some(image_from(|i: int| grass_pixel(5, (90, 160, 50), i)))
    } else if name == "grass_block_side"@ {
        Some(image_from(|i: int| grass_pixel(3, (60, 120, 40), i)))
    } else if name == "sand"@ {
        Some(image_from(|i: int| solid_pixel(210, 195, 140, 20, i)))
    } else if name == "water_still"@ {
        Some(image_from(|i: int| water_pixel(i)))
    } else if name == "oak_log"@ {
        Some(image_from(|i: int| log_side_pixel(i)))
    } else if name == "oak_log_top"@ {
        Some(image_from(|i: int| log_top_pixel(i)))
    } else if name == "leaves"@ || name == "oak_leaves"@ {
        Some(image_from(|i: int| leaves_pixel(i)))
    } else if name == "planks"@ || name == "oak_planks"@ {
        Some(image_from(|i: int| planks_pixel(i)))
    } else if name == "glass"@ {
        Some(image_from(|i: int| glass_pixel(i)))
    } else {
        None
    }
}

/// The file name of a texture path: what follows its last `/`.
pub fn texture_name(path: &str) -> (r: &str)
    ensures
        r@ == last_segment(path@),
{
    let n = path.unicode_len();
    let mut i: usize = n;
    assert(path@.subrange(0, n as int) =~= path@);
    while i > 0 && path.get_char(i - 1) != '/'
        invariant
            i <= n,
            n == path@.len(),
            segment_start(path@) == segment_start(path@.subrange(0, i as int)),
        decreases i,
    {
        assert(path@.subrange(0, i as int).drop_last() =~= path@.subrange(0, i - 1));
        i = i - 1;
    }
    proof {
        if i > 0 {
            assert(path@.subrange(0, i as int).last() == '/');
        }
    }
    path.substring_char(i, n)
}

/// The procedural texture generated on first run for a texture path that
/// has no file yet, if its name is one of the built-in blocks'.
pub fn procedural_texture(path: &str) -> (r: Option<Vec<u8>>)
    ensures
        pixels_of(r) == procedural_image(last_segment(path@)),
{
    proof {
        reveal_strlit("stone");
        reveal_strlit("dirt");
        reveal_strlit("grass_block_top");
        reveal_strlit("grass_block_side");
        reveal_strlit("sand");
        reveal_strlit("water_still");
        reveal_strlit("oak_log");
        reveal_strlit("oak_log_top");
        reveal_strlit("leaves");
        reveal_strlit("oak_leaves");
        reveal_strlit("planks");
        reveal_strlit("oak_planks");
        reveal_strlit("glass");
    }
    let name = texture_name(path);
    if str_eq(name, "stone") {
        Some(solid(140, 135, 130, 30))
    } else if str_eq(name, "dirt") {
        Some(solid(115, 85, 55, 25))
    } else if str_eq(name, "grass_block_top") {
        Some(grass_top())
    } else if str_eq(name, "grass_block_side") {
        Some(grass_side())
    } else if str_eq(name, "sand") {
        Some(solid(210, 195, 140, 20))
    } else if str_eq(name, "water_still") {
        Some(water())
    } else if str_eq(name, "oak_log") {
        Some(log_side())
    } else if str_eq(name, "oak_log_top") {
        Some(log_top())
    } else if str_eq(name, "leaves") || str_eq(name, "oak_leaves") {
        Some(leaves())
    } else if str_eq(name, "planks") || str_eq(name, "oak_planks") {
        Some(planks())
    } else if str_eq(name, "glass") {
        Some(glass())
    } else {
        None
    }
}


/// How the pixels of a decoded image are stored.
#[derive(Clone, Copy, Debug, PartialEq, Eq, Structural)]
pub enum PixelFormat {
    /// Red, green, blue and alpha bytes.
    Rgba,
    /// Red, green and blue bytes.
    Rgb,
    /// One grey byte.
    Grayscale,
    /// A grey byte and an alpha byte.
    GrayscaleAlpha,
    /// One byte indexing a palette of red, green and blue triples.
    Indexed,
}

/// Why a decoded image cannot be used as a block texture.
#[derive(Clone, Copy, Debug, PartialEq, Eq, Structural)]
pub enum FrameError {
    /// The image is not 16 pixels wide; its width.
    Width(u32),
    /// The image height is not a non-zero multiple of 16 pixels; its height.
    Height(u32),
    /// An indexed image came without a palette.
    MissingPalette,
}

/// The RGBA bytes of `n` pixels stored in `format`.
pub open spec fn rgba_pixels(format: PixelFormat, bytes: Seq<u8>, palette: Option<Seq<u8>>, n: int) -> Seq<u8> {
    match format {
        PixelFormat::Rgba => bytes,
        PixelFormat::Rgb => Seq::new((4 * n) as nat, |k: int| if k % 4 < 3 { bytes[3 * (k / 4) + k % 4] } else { 255u8 }),
        PixelFormat::Grayscale => Seq::new((4 * n) as nat, |k: int| if k % 4 < 3 { bytes[k / 4] } else { 255u8 }),
        PixelFormat::GrayscaleAlpha => Seq::new((4 * n) as nat, |k: int| if k % 4 < 3 { bytes[2 * (k / 4)] } else { bytes[2 * (k / 4) + 1] }),
        PixelFormat::Indexed => {
            let pal = palette.unwrap();
            Seq::new((4 * n) as nat, |k: int| {
                let idx = bytes[k / 4] as int;
                if idx * 3 + 2 < pal.len() {
                    if k % 4 < 3 { pal[idx * 3 + k % 4] } else { 255u8 }
                } else {
                    0u8
                }
            })
        },
    }
}

/// Whether the stored bytes hold `n` pixels, and `frames` whole frames.
pub open spec fn pixel_bytes_suffice(format: PixelFormat, len: int, n: int, frames: int) -> bool {
    match format {
        PixelFormat::Rgba => frames > 1 ==> len >= frame_len() * frames,
        PixelFormat::Rgb => len >= 3 * n,
        PixelFormat::Grayscale => len >= n,
        PixelFormat::GrayscaleAlpha => len >= 2 * n,
        PixelFormat::Indexed => len >= n,
    }
}

/// The frames of a texture image whose RGBA bytes are `rgba`: the whole
/// image when it is one frame tall, else one frame per 16 rows.
pub open spec fn split_frames(rgba: Seq<u8>, frames: int) -> Seq<Seq<u8>> {
    if frames == 1 {
        seq![rgba]
    } else {
        Seq::new(frames as nat, |f: int| rgba.subrange(frame_len() * f, frame_len() * f + frame_len()))
    }
}

/// The frames of a decoded texture image, or why it cannot be one.
pub open spec fn decoded_frames(width: u32, height: u32, format: PixelFormat, bytes: Seq<u8>, palette: Option<Seq<u8>>)
    -> Result<Seq<Seq<u8>>, FrameError>
{
    if width != 16 {
        Err(FrameError::Width(width))
    } else if height < 16 || height % 16 != 0 {
        Err(FrameError::Height(height))
    } else if format == PixelFormat::Indexed && palette is None {
        Err(FrameError::MissingPalette)
    } else {
        Ok(split_frames(rgba_pixels(format, bytes, palette, 16 * height), height as int / 16))
    }
}

/// The views of a sequence of frames.
pub open spec fn frames_view(frames: Seq<Vec<u8>>) -> Seq<Seq<u8>> {
    Seq::new(frames.len(), |i: int| frames[i]@)
}

/// The pixels of an optional palette.
pub open spec fn palette_of(palette: Option<Vec<u8>>) -> Option<Seq<u8>> {
    match palette {
        Some(p) => Some(p@),
        None => None,
    }
}

fn to_rgba(format: PixelFormat, bytes: &Vec<u8>, palette: &Vec<u8>, n: usize) -> (r: Vec<u8>)
    requires
        format != PixelFormat::Rgba,
        pixel_bytes_suffice(format, bytes@.len() as int, n as int, 1),
        4 * n <= usize::MAX,
    ensures
        r@ == rgba_pixels(format, bytes@, Some(palette@), n as int),
{
    let ghost target = rgba_pixels(format, bytes@, Some(palette@), n as int);
    let mut out: Vec<u8> = Vec::new();
    let mut i: usize = 0;
    while i < n
        invariant
            i <= n,
            4 * n <= usize::MAX,
            format != PixelFormat::Rgba,
            pixel_bytes_suffice(format, bytes@.len() as int, n as int, 1),
            target == rgba_pixels(format, bytes@, Some(palette@), n as int),
            target.len() == 4 * n,
            out@.len() == 4 * i,
            forall|k: int| 0 <= k < 4 * i ==> #[trigger] out@[k] == target[k],
        decreases n - i,
    {
        let p: (u8, u8, u8, u8) = match format {
            PixelFormat::Rgb => (bytes[3 * i], bytes[3 * i + 1], bytes[3 * i + 2], 255),
            PixelFormat::Grayscale => (bytes[i], bytes[i], bytes[i], 255),
            PixelFormat::GrayscaleAlpha => (bytes[2 * i], bytes[2 * i], bytes[2 * i], bytes[2 * i + 1]),
            _ => {
                let idx = bytes[i] as usize;
                if idx * 3 + 2 < palette.len() {
                    (palette[idx * 3], palette[idx * 3 + 1], palette[idx * 3 + 2], 255)
                } else {
                    (0, 0, 0, 0)
                }
            },
        };
        out.push(p.0);
        out.push(p.1);
        out.push(p.2);
        out.push(p.3);
        proof {
            assert forall|k: int| 0 <= k < 4 * (i + 1) implies #[trigger] out@[k] == target[k] by {
                if k >= 4 * i {
                    assert(k / 4 == i);
                }
            }
        }
        i = i + 1;
    }
    out
}

/// Turns the pixels of a decoded texture image into its frames: the image
/// must be 16 pixels wide and a non-zero multiple of 16 pixels tall; its
/// pixels are converted to RGBA, then split into 16×16 frames.
pub fn frames_from_pixels(width: u32, height: u32, format: PixelFormat, bytes: &Vec<u8>, palette: &Option<Vec<u8>>)
    -> (r: Result<Vec<Vec<u8>>, FrameError>)
    requires
        width == 16 && height >= 16 && height % 16 == 0 ==> {
            &&& 16 * height <= u32::MAX
            &&& 64 * height <= usize::MAX
            &&& pixel_bytes_suffice(format, bytes@.len() as int, 16 * height, height as int / 16)
        },
    ensures
        match r {
            Ok(frames) => decoded_frames(width, height, format, bytes@, palette_of(*palette)) == Ok::<Seq<Seq<u8>>, FrameError>(frames_view(frames@)),
            Err(e) => decoded_frames(width, height, format, bytes@, palette_of(*palette)) == Err::<Seq<Seq<u8>>, FrameError>(e),
        },
{
    if width != TEX_SIZE {
        return Err(FrameError::Width(width));
    }
    if height < TEX_SIZE || height % TEX_SIZE != 0 {
        return Err(FrameError::Height(height));
    }
    let n: usize = (width * height) as usize;
    let rgba: Vec<u8> = match format {
        PixelFormat::Rgba => bytes.clone(),
        PixelFormat::Indexed => {
            match palette {
                Some(p) => to_rgba(format, bytes, p, n),
                None => {
                    return Err(FrameError::MissingPalette);
                },
            }
        },
        _ => {
            let none: Vec<u8> = Vec::new();
            let r = to_rgba(format, bytes, &none, n);
            proof {
                assert(r@ =~= rgba_pixels(format, bytes@, palette_of(*palette), n as int));
            }
            r
        },
    };
    assert(rgba@ == rgba_pixels(format, bytes@, palette_of(*palette), 16 * height));
    let frame_count = (height / TEX_SIZE) as usize;
    if frame_count == 1 {
        let mut one: Vec<Vec<u8>> = Vec::new();
        one.push(rgba);
        assert(frames_view(one@) =~= seq![rgba@]);
        return Ok(one);
    }
    let mut frames: Vec<Vec<u8>> = Vec::new();
    let total = rgba.len();
    let mut f: usize = 0;
    while f < frame_count
        invariant
            total == rgba@.len(),
            f <= frame_count,
            frame_count > 1,
            rgba@.len() >= 1024 * frame_count,
            frames@.len() == f,
            forall|j: int| 0 <= j < f ==> (#[trigger] frames@[j])@ == rgba@.subrange(1024 * j, 1024 * j + 1024),
        decreases frame_count - f,
    {
        assert(f * 1024 < 1024 * frame_count) by (nonlinear_arith)
            requires
                f < frame_count,
        ;
        let start = f * 1024;
        let mut frame: Vec<u8> = Vec::new();
        let mut k: usize = 0;
        while k < 1024
            invariant
                k <= 1024,
                start == f * 1024,
                f < frame_count,
                rgba@.len() >= 1024 * frame_count,
                frame@ == rgba@.subrange(start as int, start + k),
            decreases 1024 - k,
        {
            frame.push(rgba[start + k]);
            k = k + 1;
            assert(frame@ =~= rgba@.subrange(start as int, start + k));
        }
        frames.push(frame);
        f = f + 1;
    }
    assert(frames_view(frames@) =~= split_frames(rgba@, frame_count as int));
    Ok(frames)
}


/// Textures per row of the atlas.
pub const ATLAS_COLS: u32 = 8;

/// Bytes per pixel row of the atlas (eight textures of 16 RGBA pixels).
pub open spec fn atlas_row_len() -> int {
    512
}

/// The paths of `s`, each once, in order of first appearance.
pub open spec fn first_occurrences(s: Seq<Seq<char>>) -> Seq<Seq<char>>
    decreases s.len(),
{
    if s.len() == 0 {
        Seq::empty()
    } else {
        let before = first_occurrences(s.drop_last());
        if before.contains(s.last()) { before } else { before.push(s.last()) }
    }
}

/// The views of a sequence of strings.
pub open spec fn texts_view(s: Seq<String>) -> Seq<Seq<char>> {
    Seq::new(s.len(), |i: int| s[i]@)
}

/// The texture paths, each once, in order of first appearance.
pub fn unique_paths(paths: &Vec<String>) -> (r: Vec<String>)
    ensures
        texts_view(r@) == first_occurrences(texts_view(paths@)),
{
    let ghost all = texts_view(paths@);
    let mut out: Vec<String> = Vec::new();
    let mut i: usize = 0;
    while i < paths.len()
        invariant
            i <= paths@.len(),
            all == texts_view(paths@),
            texts_view(out@) == first_occurrences(all.subrange(0, i as int)),
        decreases paths.len() - i,
    {
        let p = paths[i].as_str();
        let mut seen = false;
        let mut j: usize = 0;
        while j < out.len()
            invariant
                j <= out@.len(),
                seen == exists|k: int| 0 <= k < j && out@[k]@ == p@,
            decreases out.len() - j,
        {
            if crate::text::str_eq(out[j].as_str(), p) {
                seen = true;
            }
            j = j + 1;
        }
        proof {
            let s = all.subrange(0, i + 1);
            assert(s.drop_last() =~= all.subrange(0, i as int));
            assert(s.last() == p@);
            if seen {
                let k = choose|k: int| 0 <= k < out@.len() && out@[k]@ == p@;
                assert(texts_view(out@)[k] == p@);
            } else {
                assert(!texts_view(out@).contains(p@)) by {
                    if texts_view(out@).contains(p@) {
                        let k = choose|k: int| 0 <= k < texts_view(out@).len() && texts_view(out@)[k] == p@;
                        assert(out@[k]@ == p@);
                    }
                }
            }
        }
        if !seen {
            out.push(p.to_owned());
        }
        assert(texts_view(out@) =~= first_occurrences(all.subrange(0, i + 1)));
        i = i + 1;
    }
    assert(all.subrange(0, paths@.len() as int) =~= all);
    out
}

/// Pixel rows of an atlas holding `count` textures, eight to a row.
pub open spec fn atlas_rows(count: int) -> int {
    ((count + 7) / 8) * 16
}

/// The pixel rows of an atlas holding `count` textures.
pub fn atlas_height(count: u32) -> (r: u32)
    requires
        count <= 0x0FFF_FFFF,
    ensures
        r == atlas_rows(count as int),
{
    ((count + ATLAS_COLS - 1) / ATLAS_COLS) * TEX_SIZE
}

/// A blank atlas of the given pixel rows.
pub fn new_atlas(rows: u32) -> (r: Vec<u8>)
    requires
        atlas_row_len() * rows <= usize::MAX,
    ensures
        r@ == Seq::new((atlas_row_len() * rows) as nat, |k: int| 0u8),
{
    let n = 512 * rows as usize;
    let mut r: Vec<u8> = Vec::new();
    let mut k: usize = 0;
    while k < n
        invariant
            k <= n,
            n == atlas_row_len() * rows,
            r@ == Seq::new(k as nat, |j: int| 0u8),
        decreases n - k,
    {
        r.push(0);
        k = k + 1;
        assert(r@ =~= Seq::new(k as nat, |j: int| 0u8));
    }
    r
}

/// Whether atlas byte `k` lies in the square of texture slot `slot`.
pub open spec fn in_slot(k: int, slot: int) -> bool {
    let pixel = k / 4;
    &&& (pixel % 128) / 16 == slot % 8
    &&& (pixel / 128) / 16 == slot / 8
}

/// The byte of a texture frame that atlas byte `k` shows.
pub open spec fn slot_source(k: int) -> int {
    let pixel = k / 4;
    (((pixel / 128) % 16) * 16 + (pixel % 128) % 16) * 4 + k % 4
}

/// `atlas` with `frame` copied into the square of texture slot `slot`.
pub open spec fn blitted(atlas: Seq<u8>, slot: int, frame: Seq<u8>) -> Seq<u8> {
    Seq::new(atlas.len(), |k: int| if in_slot(k, slot) { frame[slot_source(k)] } else { atlas[k] })
}

/// The pixel origin (x, y) of texture slot `slot` in the atlas: column
/// `slot % 8`, row `slot / 8`, each tile 16 pixels a side.
pub open spec fn slot_origin(slot: int) -> (int, int) {
    ((slot % 8) * 16, (slot / 8) * 16)
}

/// The pixel origin of texture slot `slot` in the atlas, where its frames
/// are drawn and its animation updates.
pub fn atlas_slot_origin(slot: usize) -> (r: (u32, u32))
    requires
        slot <= 0x7fff_ffff,
    ensures
        r.0 as int == slot_origin(slot as int).0,
        r.1 as int == slot_origin(slot as int).1,
{
    let s = slot as u32;
    ((s % ATLAS_COLS) * TEX_SIZE, (s / ATLAS_COLS) * TEX_SIZE)
}

/// Copies the 16×16 pixels of a frame into the square of texture slot
/// `slot`: column `slot % 8`, row `slot / 8` of the atlas.
pub fn blit_into_atlas(atlas: &mut Vec<u8>, slot: usize, frame: &Vec<u8>)
    requires
        old(atlas)@.len() as int % atlas_row_len() == 0,
        old(atlas)@.len() >= atlas_row_len() * ((slot / 8) * 16 + 16),
        frame@.len() >= frame_len(),
    ensures
        final(atlas)@ == blitted(old(atlas)@, slot as int, frame@),
{
    let ghost a0 = atlas@;
    let total = atlas.len();
    assert((slot / 8) * 16 + 16 <= total) by (nonlinear_arith)
        requires
            total >= 512 * ((slot / 8) * 16 + 16),
    ;
    let ox = (slot % 8) * 16;
    let oy = (slot / 8) * 16;
    let mut py: usize = 0;
    while py < 16
        invariant
            py <= 16,
            total == a0.len(),
            ox == (slot % 8) * 16,
            oy == (slot / 8) * 16,
            a0.len() as int % atlas_row_len() == 0,
            a0.len() >= atlas_row_len() * (oy + 16),
            frame@.len() >= frame_len(),
            atlas@.len() == a0.len(),
            forall|k: int| 0 <= k < a0.len() ==> #[trigger] atlas@[k] == if in_slot(k, slot as int) && (k / 4) / 128 < oy + py {
                frame@[slot_source(k)]
            } else {
                a0[k]
            },
        decreases 16 - py,
    {
        let mut px: usize = 0;
        while px < 16
            invariant
                px <= 16,
                py < 16,
                total == a0.len(),
                ox == (slot % 8) * 16,
                oy == (slot / 8) * 16,
                a0.len() as int % atlas_row_len() == 0,
                a0.len() >= atlas_row_len() * (oy + 16),
                frame@.len() >= frame_len(),
                atlas@.len() == a0.len(),
                forall|k: int| 0 <= k < a0.len() ==> #[trigger] atlas@[k] == if in_slot(k, slot as int)
                    && ((k / 4) / 128 < oy + py || ((k / 4) / 128 == oy + py && (k / 4) % 128 < ox + px)) {
                    frame@[slot_source(k)]
                } else {
                    a0[k]
                },
            decreases 16 - px,
        {
            let si = (py * 16 + px) * 4;
            let di = ((oy + py) * 128 + (ox + px)) * 4;
            assert(di + 4 <= a0.len()) by (nonlinear_arith)
                requires
                    di == ((oy + py) * 128 + (ox + px)) * 4,
                    py < 16,
                    px < 16,
                    ox <= 112,
                    a0.len() >= 512 * (oy + 16),
            ;
            let ghost before = atlas@;
            let mut c: usize = 0;
            while c < 4
                invariant
                    c <= 4,
                    total == atlas@.len(),
                    si < 1021,
                    di + 4 <= atlas@.len(),
                    si + 4 <= frame@.len(),
                    atlas@.len() == before.len(),
                    forall|k: int| 0 <= k < before.len() ==> #[trigger] atlas@[k] == if di <= k < di + c { frame@[si + k - di] } else { before[k] },
                decreases 4 - c,
            {
                atlas.set(di + c, frame[si + c]);
                c = c + 1;
            }
            proof {
                assert forall|k: int| 0 <= k < a0.len() implies #[trigger] atlas@[k] == if in_slot(k, slot as int)
                    && ((k / 4) / 128 < oy + py || ((k / 4) / 128 == oy + py && (k / 4) % 128 < ox + px + 1)) {
                    frame@[slot_source(k)]
                } else {
                    a0[k]
                } by {
                    if di <= k < di + 4 {
                        assert(k / 4 == (oy + py) * 128 + (ox + px));
                        assert((k / 4) / 128 == oy + py);
                        assert((k / 4) % 128 == ox + px);
                        assert(slot_source(k) == si + k - di);
                    } else {
                        let pixel = k / 4;
                        assert(pixel != (oy + py) * 128 + (ox + px));
                    }
                }
            }
            px = px + 1;
        }
        proof {
            assert forall|k: int| 0 <= k < a0.len() implies #[trigger] atlas@[k] == if in_slot(k, slot as int) && (k / 4) / 128 < oy + py + 1 {
                frame@[slot_source(k)]
            } else {
                a0[k]
            } by {
                if in_slot(k, slot as int) && (k / 4) / 128 == oy + py {
                    assert((k / 4) % 128 < ox + 16);
                }
            }
        }
        py = py + 1;
    }
    proof {
        assert forall|k: int| 0 <= k < a0.len() implies #[trigger] atlas@[k] == blitted(a0, slot as int, frame@)[k] by {
            if in_slot(k, slot as int) {
                assert((k / 4) / 128 < oy + 16);
            }
        }
    }
    assert(atlas@ =~= blitted(a0, slot as int, frame@));
}


/// An animated texture: its place in the atlas, its frames, and the clock
/// that picks the frame shown (times in nanoseconds).
#[derive(Debug)]
pub struct TextureAnimation {
    pub atlas_x: u32,
    pub atlas_y: u32,
    pub frame_time: u128,
    pub elapsed: u128,
    pub frame_index: usize,
    pub frames: Vec<Vec<u8>>,
}

impl TextureAnimation {
    /// Lets `dt` nanoseconds pass: once the time since the last frame change
    /// reaches the frame time, the animation moves on by one frame per whole
    /// frame time (wrapping to the first frame), keeping the remainder.
    /// Returns whether at least one whole frame time passed.
    pub fn advance(&mut self, dt: u128) -> (r: bool)
        requires
            old(self).frame_time > 0,
            old(self).frame_index < old(self).frames@.len(),
            old(self).elapsed + dt <= u128::MAX,
        ensures
            ({
                let t = old(self).elapsed + dt;
                let ft = old(self).frame_time as int;
                &&& r == (t >= ft)
                &&& final(self).elapsed == if r { t % ft } else { t }
                &&& final(self).frame_index == if r {
                    (old(self).frame_index + t / ft) % (old(self).frames@.len() as int)
                } else {
                    old(self).frame_index as int
                }
            }),
            final(self).frame_index < final(self).frames@.len(),
            final(self).frames == old(self).frames,
            final(self).frame_time == old(self).frame_time,
            final(self).atlas_x == old(self).atlas_x,
            final(self).atlas_y == old(self).atlas_y,
    {
        let ghost t = self.elapsed + dt;
        let ghost i0 = self.frame_index as int;
        let ghost s0 = *self;
        let n = self.frames.len();
        self.elapsed = self.elapsed + dt;
        if self.elapsed < self.frame_time {
            return false;
        }
        let ghost ft = self.frame_time as int;
        let ghost mut steps: int = 0;
        proof {
            vstd::arithmetic::div_mod::lemma_small_mod(i0 as nat, n as nat);
        }
        while self.elapsed >= self.frame_time
            invariant
                n == self.frames@.len(),
                n > 0,
                self.frames == s0.frames,
                self.frame_time == s0.frame_time,
                self.atlas_x == s0.atlas_x,
                self.atlas_y == s0.atlas_y,
                ft == self.frame_time,
                ft > 0,
                0 <= steps,
                self.elapsed == t - steps * ft,
                self.frame_index == (i0 + steps) % (n as int),
                self.frame_index < n,
            decreases self.elapsed,
        {
            self.elapsed = self.elapsed - self.frame_time;
            proof {
                vstd::arithmetic::div_mod::lemma_add_mod_noop_right(1, i0 + steps, n as int);
                assert(t - (steps + 1) * ft == t - steps * ft - ft) by (nonlinear_arith);
                steps = steps + 1;
            }
            self.frame_index = (self.frame_index + 1) % n;
        }
        proof {
            assert(t == steps * ft + self.elapsed) by (nonlinear_arith)
                requires
                    self.elapsed == t - steps * ft,
            ;
            vstd::arithmetic::div_mod::lemma_fundamental_div_mod_converse(t, ft, steps, self.elapsed as int);
        }
        true
    }
}

/// What decoding a PNG file's `bytes` gives, with palettes expanded and
/// 16-bit samples cut to 8 bits: width, height, pixel format, pixel bytes
/// and palette; `None` when the bytes are no image the decoder reads.
pub uninterp spec fn png_image(bytes: Seq<u8>) -> Option<(u32, u32, PixelFormat, Seq<u8>, Option<Seq<u8>>)>;

#[verifier::external_type_specification]
#[verifier::external_body]
pub struct ExDecodingError(png::DecodingError);

/// Decodes a PNG file's bytes with the `png` crate (`Decoder`, with the
/// `EXPAND` and `STRIP_16` transformations, then `next_frame` into a buffer of
/// `output_buffer_size` bytes, or of none when that size is unknown, which
/// `next_frame` refuses). The contract names what it gives (`png_image`).
#[verifier::external_body]
fn decode_png(bytes: &Vec<u8>) -> (r: Result<(u32, u32, PixelFormat, Vec<u8>, Option<Vec<u8>>), png::DecodingError>)
    ensures
        match r {
            Ok(image) => png_image(bytes@) == Some((image.0, image.1, image.2, image.3@, palette_of(image.4))),
            Err(_) => png_image(bytes@) is None,
        },
{
    let mut decoder = png::Decoder::new(std::io::Cursor::new(bytes));
    decoder.set_transformations(png::Transformations::EXPAND | png::Transformations::STRIP_16);
    let mut reader = decoder.read_info()?;
    let mut buf = vec![0u8; reader.output_buffer_size().unwrap_or(0)];
    let info = reader.next_frame(&mut buf)?;
    buf.truncate(info.buffer_size());
    let format = match info.color_type {
        png::ColorType::Rgba => PixelFormat::Rgba,
        png::ColorType::Rgb => PixelFormat::Rgb,
        png::ColorType::Grayscale => PixelFormat::Grayscale,
        png::ColorType::GrayscaleAlpha => PixelFormat::GrayscaleAlpha,
        png::ColorType::Indexed => PixelFormat::Indexed,
    };
    Ok((info.width, info.height, format, buf, reader.info().palette.as_ref().map(|p| p.to_vec())))
}

/// The message the `png` crate gives for a decoding error, by its `Display`.
#[verifier::external_body]
fn decoding_error_message(e: &png::DecodingError) -> String {
    e.to_string()
}

/// Why a PNG file gives no texture frames.
#[derive(Clone, Debug)]
pub enum PngError {
    /// The bytes are no image the decoder reads; the decoder's message.
    Decode(String),
    /// The image is no block texture.
    Frames(FrameError),
    /// The image is a block texture's size but holds fewer pixel bytes than
    /// that size needs, or is too tall to address.
    Truncated,
}

/// Whether a decoded image of a block texture's size holds the pixel bytes
/// its size needs, and is small enough to address; images of other sizes
/// always do (they are refused by size).
pub open spec fn image_fits(width: u32, height: u32, format: PixelFormat, len: int) -> bool {
    width == 16 && height >= 16 && height % 16 == 0 ==> {
        &&& 16 * height <= u32::MAX
        &&& 64 * height <= usize::MAX
        &&& pixel_bytes_suffice(format, len, 16 * height, height as int / 16)
    }
}

fn fits(width: u32, height: u32, format: PixelFormat, len: usize) -> (r: bool)
    ensures
        r == image_fits(width, height, format, len as int),
{
    if !(width == TEX_SIZE && height >= TEX_SIZE && height % TEX_SIZE == 0) {
        return true;
    }
    if height > u32::MAX / 16 || height as u64 > (usize::MAX / 64) as u64 {
        return false;
    }
    let n = 16 * height as usize;
    let frames = height as usize / 16;
    match format {
        PixelFormat::Rgba => frames <= 1 || len >= 1024 * frames,
        PixelFormat::Rgb => len >= 3 * n,
        PixelFormat::Grayscale => len >= n,
        PixelFormat::GrayscaleAlpha => len >= 2 * n,
        PixelFormat::Indexed => len >= n,
    }
}

/// The 16×16 RGBA frames of a PNG file's `bytes`: the decoded image's
/// frames (see `frames_from_pixels`), an error when the bytes do not decode,
/// when the image is no block texture, or when it holds too few pixel bytes
/// for its size.
pub fn load_png_frames(bytes: &Vec<u8>) -> (r: Result<Vec<Vec<u8>>, PngError>)
    ensures
        png_image(bytes@) is None ==> r matches Err(PngError::Decode(_)),
        png_image(bytes@) matches Some(image) ==> {
            if !image_fits(image.0, image.1, image.2, image.3.len() as int) {
                r matches Err(PngError::Truncated)
            } else {
                match decoded_frames(image.0, image.1, image.2, image.3, image.4) {
                    Ok(frames) => r matches Ok(f) && frames_view(f@) == frames,
                    Err(e) => r matches Err(PngError::Frames(e2)) && e2 == e,
                }
            }
        },
{
    match decode_png(bytes) {
        Err(e) => Err(PngError::Decode(decoding_error_message(&e))),
        Ok((width, height, format, pixels, palette)) => {
            if !fits(width, height, format, pixels.len()) {
                return Err(PngError::Truncated);
            }
            match frames_from_pixels(width, height, format, &pixels, &palette) {
                Ok(frames) => Ok(frames),
                Err(e) => Err(PngError::Frames(e)),
            }
        },
    }
}

} // verus!
