use ferrumcraft::font::Font;

#[test]
fn empty_font_draws_blank_glyphs() {
    let font = Font::new_empty();
    assert_eq!(font.glyph_count(), 0);
    assert!(font.glyph('A').iter().all(|row| row.is_empty()));
}

#[test]
fn font_keeps_single_character_seven_row_glyphs() {
    let text = r#"{"A":["1","2","3","4","5","6","7"],"ab":["1","2","3","4","5","6","7"],"b":["x"]}"#;
    let font = Font::load(text).unwrap();
    assert_eq!(font.glyph_count(), 1);
    assert_eq!(font.glyph('A')[0], "1");
    assert_eq!(font.glyph('a')[6], "7");
    assert!(font.glyph('b').iter().all(|row| row.is_empty()));
    assert!(Font::load("not json").is_err());
}

#[test]
fn cloned_font_draws_the_same_glyphs() {
    let text = r#"{"A":["1","2","3","4","5","6","7"],"B":["a","b","c","d","e","f","g"]}"#;
    let font = Font::load(text).unwrap();
    let copy = font.clone();
    assert_eq!(copy.glyph_count(), 2);
    assert_eq!(copy.glyph('b'), font.glyph('B'));
    assert!(copy.glyph('?').iter().all(|row| row.is_empty()));
}
