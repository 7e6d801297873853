use bigsryai::text::glyph_bounds;

#[test]
fn bounds_cover_every_glyph() {
    let boxes = [(3, -20, 15, 2), (17, -25, 30, 0), (-1, -5, 4, 6)];
    assert_eq!(glyph_bounds(&boxes), (-1, -25, 30, 6));
}

#[test]
fn bounds_of_one_glyph_are_its_box() {
    assert_eq!(glyph_bounds(&[(5, 6, 7, 8)]), (5, 6, 7, 8));
}

#[test]
fn bounds_of_no_glyphs_are_zero() {
    assert_eq!(glyph_bounds(&[]), (0, 0, 0, 0));
}
