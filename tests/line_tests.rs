use analog_clock::line::get_line;

fn line_of(x0: u8, y0: u8, x1: u8, y1: u8) -> Vec<(u8, u8)> {
    let mut pixels = Vec::new();
    get_line(x0, y0, x1, y1, &mut pixels);
    pixels
}

#[test]
fn zero_length_line_is_the_center() {
    assert_eq!(line_of(8, 8, 8, 8), vec![(8, 8)]);
}

#[test]
fn three_o_clock_hour_hand_stays_on_center_row() {
    assert_eq!(line_of(8, 8, 11, 8), vec![(8, 8), (9, 8), (10, 8), (11, 8)]);
}

#[test]
fn twelve_o_clock_minute_hand_goes_straight_up() {
    assert_eq!(
        line_of(8, 8, 8, 3),
        vec![(8, 8), (8, 7), (8, 6), (8, 5), (8, 4), (8, 3)]
    );
}

#[test]
fn ties_round_toward_the_start() {
    assert_eq!(line_of(0, 0, 4, 2), vec![(0, 0), (1, 0), (2, 1), (3, 1), (4, 2)]);
}

#[test]
fn steep_line_toward_upper_left() {
    assert_eq!(
        line_of(8, 8, 6, 3),
        vec![(8, 8), (8, 7), (7, 6), (7, 5), (6, 4), (6, 3)]
    );
}

#[test]
fn diagonal_line_moves_both_axes_each_step() {
    assert_eq!(line_of(8, 8, 11, 11), vec![(8, 8), (9, 9), (10, 10), (11, 11)]);
    assert_eq!(line_of(8, 8, 5, 11), vec![(8, 8), (7, 9), (6, 10), (5, 11)]);
}

#[test]
fn line_is_appended_after_existing_pixels() {
    let mut pixels = vec![(1, 1)];
    get_line(8, 8, 10, 9, &mut pixels);
    assert_eq!(pixels, vec![(1, 1), (8, 8), (9, 8), (10, 9)]);
}

#[test]
fn every_hand_end_gives_a_connected_path_from_center() {
    for ex in 0u8..16 {
        for ey in 0u8..16 {
            let pixels = line_of(8, 8, ex, ey);
            assert_eq!(pixels[0], (8, 8));
            assert_eq!(*pixels.last().unwrap(), (ex, ey));
            for w in pixels.windows(2) {
                let ddx = (w[1].0 as i32 - w[0].0 as i32).abs();
                let ddy = (w[1].1 as i32 - w[0].1 as i32).abs();
                assert!(ddx <= 1 && ddy <= 1 && (ddx + ddy) > 0);
            }
        }
    }
}
