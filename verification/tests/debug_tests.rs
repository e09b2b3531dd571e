use ferrumcraft::debug::DebugOverlay;

#[test]
fn frames_are_counted_over_whole_seconds() {
    let mut overlay = DebugOverlay::new();
    assert_eq!(overlay.fps(), 0);
    overlay.record_frame(400_000_000);
    overlay.record_frame(400_000_000);
    assert_eq!(overlay.frame_count(), 2);
    assert_eq!(overlay.fps(), 0);
    overlay.record_frame(400_000_000);
    assert_eq!(overlay.fps(), 3);
    assert_eq!(overlay.frame_count(), 0);
    overlay.record_frame(999_999_999);
    assert_eq!(overlay.fps(), 3);
    assert_eq!(overlay.frame_count(), 1);
}

#[test]
fn the_overlay_text_shows_only_when_toggled_on() {
    let mut overlay = DebugOverlay::default();
    assert!(overlay.text("16.67", "0.00 0.00 0.00", 0, 0).is_none());
    overlay.toggle();
    assert!(overlay.is_visible());
    overlay.set_world_seed(12345);
    overlay.set_biome("plains".to_string());
    overlay.set_facing("SOUTH (+Z)".to_string());
    overlay.set_render_distance(4);
    overlay.set_render_stats(3, 1);
    for _ in 0..3 {
        overlay.record_frame(400_000_000);
    }
    assert_eq!(
        overlay.text("16.67", "1.50 64.00 -2.25", 0, -1).unwrap(),
        "F3 DEBUG\nFPS: 3\nFRAME: 16.67 MS\nSEED: 12345\nPOSITION: 1.50 64.00 -2.25\nCHUNK: 0 -1\nBIOME: plains\nFACING: SOUTH (+Z)\nRENDER DISTANCE: 4 CHUNKS\nMESHES: 3 VISIBLE, 1 CULLED"
    );
    overlay.toggle();
    assert!(overlay.text("16.67", "1.50 64.00 -2.25", 0, -1).is_none());
}
