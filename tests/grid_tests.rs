use analog_clock::grid::{compose, CharGrid, Glyph};

fn column(grid: &CharGrid, x: u8) -> Vec<Glyph> {
    (0u8..8).map(|row| grid.glyph(x, row)).collect()
}

#[test]
fn no_pixels_give_an_all_space_grid() {
    let grid = compose(&Vec::new());
    for x in 0u8..16 {
        for row in 0u8..8 {
            assert_eq!(grid.glyph(x, row), Glyph::Space);
        }
    }
}

#[test]
fn even_row_pixel_fills_upper_half() {
    let grid = compose(&vec![(3, 4)]);
    assert_eq!(grid.glyph(3, 2), Glyph::Upper);
    assert_eq!(grid.glyph(3, 1), Glyph::Space);
    assert_eq!(grid.glyph(2, 2), Glyph::Space);
}

#[test]
fn odd_row_pixel_fills_lower_half() {
    let grid = compose(&vec![(3, 5)]);
    assert_eq!(grid.glyph(3, 2), Glyph::Lower);
}

#[test]
fn both_halves_give_a_full_block() {
    assert_eq!(compose(&vec![(0, 14), (0, 15)]).glyph(0, 7), Glyph::Full);
    assert_eq!(compose(&vec![(15, 1), (15, 0)]).glyph(15, 0), Glyph::Full);
}

#[test]
fn order_of_pixels_does_not_matter() {
    let a = vec![(3, 4), (3, 5), (7, 9), (7, 9), (12, 0)];
    let b = vec![(7, 9), (12, 0), (3, 5), (7, 9), (3, 4)];
    let ga = compose(&a);
    let gb = compose(&b);
    for x in 0u8..16 {
        assert_eq!(column(&ga, x), column(&gb, x));
    }
}

#[test]
fn full_cell_stays_full() {
    let a = vec![(5, 6), (5, 7)];
    let b = vec![(5, 6), (5, 7), (5, 6), (5, 7)];
    assert_eq!(compose(&a).glyph(5, 3), Glyph::Full);
    assert_eq!(compose(&b).glyph(5, 3), Glyph::Full);
    assert_eq!(column(&compose(&a), 5), column(&compose(&b), 5));
}

#[test]
fn merge_table() {
    assert_eq!(Glyph::Space.merge(true), Glyph::Upper);
    assert_eq!(Glyph::Space.merge(false), Glyph::Lower);
    assert_eq!(Glyph::Upper.merge(false), Glyph::Full);
    assert_eq!(Glyph::Lower.merge(true), Glyph::Full);
    assert_eq!(Glyph::Upper.merge(true), Glyph::Upper);
    assert_eq!(Glyph::Lower.merge(false), Glyph::Lower);
    assert_eq!(Glyph::Full.merge(true), Glyph::Full);
    assert_eq!(Glyph::Full.merge(false), Glyph::Full);
}

#[test]
fn glyph_characters() {
    assert_eq!(Glyph::Space.to_char(), ' ');
    assert_eq!(Glyph::Upper.to_char(), '\u{2580}');
    assert_eq!(Glyph::Lower.to_char(), '\u{2584}');
    assert_eq!(Glyph::Full.to_char(), '\u{2588}');
}
