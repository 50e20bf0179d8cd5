use analog_clock::clock::{dial, draw_clock, ClockTime, RunState};
use analog_clock::grid::Glyph;
use analog_clock::grid::Glyph::{Full, Lower, Space, Upper};

fn column(grid: &analog_clock::grid::CharGrid, x: u8) -> Vec<Glyph> {
    (0u8..8).map(|row| grid.glyph(x, row)).collect()
}

#[test]
fn dial_has_forty_pixels_on_a_circle() {
    let d = dial();
    assert_eq!(d.len(), 40);
    assert_eq!(d[0], (6, 1));
    assert_eq!(d[39], (10, 15));
    for (x, y) in d {
        let r2 = (x as i32 - 8) * (x as i32 - 8) + (y as i32 - 8) * (y as i32 - 8);
        assert!(r2 >= 36 && r2 <= 64);
    }
}

#[test]
fn twelve_o_clock_hands_point_straight_up() {
    // hour hand ends at (8, 5), minute hand at (8, 3)
    let grid = draw_clock((8, 5), (8, 3));
    assert_eq!(
        column(&grid, 8),
        vec![Lower, Lower, Full, Full, Upper, Space, Space, Lower]
    );
    let side = vec![Space, Space, Space, Full, Full, Upper, Space, Space];
    assert_eq!(column(&grid, 1), side);
    assert_eq!(column(&grid, 15), side);
    assert_eq!(column(&grid, 7), column(&grid, 9));
}

#[test]
fn three_o_clock_hour_hand_points_right() {
    // hour hand ends at (11, 8), minute hand at (8, 3)
    let grid = draw_clock((11, 8), (8, 3));
    for x in 9u8..12 {
        assert_eq!(grid.glyph(x, 4), Upper);
    }
    assert_eq!(grid.glyph(12, 4), Space);
    assert_eq!(grid.glyph(8, 4), Upper);
}

#[test]
fn clock_time_wraps_hours_and_minutes() {
    let t = ClockTime::new(12, 60);
    assert_eq!((t.hour(), t.minute()), (0, 0));
    let t = ClockTime::new(15, 7);
    assert_eq!((t.hour(), t.minute()), (3, 7));
    let t = ClockTime::new(11, 59);
    assert_eq!((t.hour(), t.minute()), (11, 59));
}

#[test]
fn interrupt_stops_the_clock_for_good() {
    let s = RunState::start();
    assert!(s.is_running());
    let s = s.after(false);
    assert_eq!(s, RunState::Running);
    let s = s.after(true);
    assert_eq!(s, RunState::Stopped);
    assert!(!s.is_running());
    assert_eq!(s.after(false), RunState::Stopped);
}
