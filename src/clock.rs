use vstd::prelude::*;

use crate::grid::{all_on_canvas, compose, grid_of, on_canvas, CharGrid};
use crate::line::{adjacent, get_line, lemma_line_path, lemma_line_pixels_exact, line, line_pixels};

verus! {

/// Column and row of the canvas pixel that both hands turn around.
pub const CENTER: u8 = 8;

/// Length of the hour hand, in tenths of a canvas cell.
pub const HOUR_HAND_TENTHS: u32 = 28;

/// Length of the minute hand, in tenths of a canvas cell.
pub const MINUTE_HAND_TENTHS: u32 = 48;

/// The pixels of the dial: a circle outline around the center, row by row from the top.
pub open spec fn dial_pixels() -> Seq<(u8, u8)> {
    seq![
        (6, 1), (7, 1), (8, 1), (9, 1), (10, 1),
        (4, 2), (5, 2), (11, 2), (12, 2),
        (3, 3), (13, 3),
        (2, 4), (14, 4),
        (2, 5), (14, 5),
        (1, 6), (15, 6),
        (1, 7), (15, 7),
        (1, 8), (15, 8),
        (1, 9), (15, 9),
        (1, 10), (15, 10),
        (2, 11), (14, 11),
        (2, 12), (14, 12),
        (3, 13), (13, 13),
        (4, 14), (5, 14), (11, 14), (12, 14),
        (6, 15), (7, 15), (8, 15), (9, 15), (10, 15),
    ]
}

/// The pixels of the dial, in the order of `dial_pixels`.
pub fn dial() -> (r: Vec<(u8, u8)>)
    ensures
        r@ == dial_pixels(),
        r@.len() == 40,
        all_on_canvas(r@),
{
    let r = vec![
        (6, 1), (7, 1), (8, 1), (9, 1), (10, 1),
        (4, 2), (5, 2), (11, 2), (12, 2),
        (3, 3), (13, 3),
        (2, 4), (14, 4),
        (2, 5), (14, 5),
        (1, 6), (15, 6),
        (1, 7), (15, 7),
        (1, 8), (15, 8),
        (1, 9), (15, 9),
        (1, 10), (15, 10),
        (2, 11), (14, 11),
        (2, 12), (14, 12),
        (3, 13), (13, 13),
        (4, 14), (5, 14), (11, 14), (12, 14),
        (6, 15), (7, 15), (8, 15), (9, 15), (10, 15),
    ];
    assert(r@ =~= dial_pixels());
    r
}

/// Draws the clock face: the dial and the two hands, each a line from the center to
/// the end given for it, composed into the character grid.
pub fn draw_clock(hour_end: (u8, u8), minute_end: (u8, u8)) -> (grid: CharGrid)
    requires
        on_canvas(hour_end),
        on_canvas(minute_end),
    ensures
        grid@ == grid_of(
            dial_pixels() + line_pixels(CENTER, CENTER, hour_end.0, hour_end.1) + line_pixels(
                CENTER,
                CENTER,
                minute_end.0,
                minute_end.1,
            ),
        ),
{
    let mut pixels = dial();
    get_line(CENTER, CENTER, hour_end.0, hour_end.1, &mut pixels);
    get_line(CENTER, CENTER, minute_end.0, minute_end.1, &mut pixels);
    proof {
        lemma_hand_path(hour_end);
        lemma_hand_path(minute_end);
        let all = pixels@;
        assert forall|i: int| 0 <= i < all.len() implies on_canvas(#[trigger] all[i]) by {
            let d = dial_pixels();
            let h = line_pixels(CENTER, CENTER, hour_end.0, hour_end.1);
            if i >= d.len() + h.len() {
                assert(all[i] == line_pixels(CENTER, CENTER, minute_end.0, minute_end.1)[i - d.len()
                    - h.len()]);
            } else if i >= d.len() {
                assert(all[i] == h[i - d.len()]);
            } else {
                assert(all[i] == d[i]);
            }
        }
    }
    compose(&pixels)
}

/// A hand from the center to a pixel of the canvas is a path of touching pixels on
/// the canvas: it starts at the center, ends at the given pixel, and each pixel
/// touches the next one and differs from it.
pub proof fn lemma_hand_path(end: (u8, u8))
    requires
        on_canvas(end),
    ensures
        line_pixels(CENTER, CENTER, end.0, end.1).len() >= 1,
        line_pixels(CENTER, CENTER, end.0, end.1)[0] == (CENTER, CENTER),
        line_pixels(CENTER, CENTER, end.0, end.1).last() == end,
        forall|i: int|
            0 <= i < line_pixels(CENTER, CENTER, end.0, end.1).len() - 1 ==> {
                let p = #[trigger] line_pixels(CENTER, CENTER, end.0, end.1)[i];
                let q = line_pixels(CENTER, CENTER, end.0, end.1)[i + 1];
                adjacent((p.0 as int, p.1 as int), (q.0 as int, q.1 as int)) && p != q
            },
        all_on_canvas(line_pixels(CENTER, CENTER, end.0, end.1)),
{
    lemma_line_path(CENTER as int, CENTER as int, end.0 as int, end.1 as int);
    lemma_line_pixels_exact(CENTER, CENTER, end.0, end.1);
    let l = line(CENTER as int, CENTER as int, end.0 as int, end.1 as int);
    let lp = line_pixels(CENTER, CENTER, end.0, end.1);
    assert(lp[0] == (CENTER, CENTER)) by {
        assert(l[0] == l[0]);
    }
    assert(lp.last() == end) by {
        assert(l[lp.len() - 1] == l[lp.len() - 1]);
    }
    assert forall|i: int| 0 <= i < lp.len() - 1 implies {
        let p = #[trigger] lp[i];
        let q = lp[i + 1];
        adjacent((p.0 as int, p.1 as int), (q.0 as int, q.1 as int)) && p != q
    } by {
        assert(l[i] == l[i]);
        assert(l[i + 1] == l[i + 1]);
        assert(lp[i + 1] == lp[i + 1]);
    }
    assert forall|i: int| 0 <= i < lp.len() implies on_canvas(#[trigger] lp[i]) by {
        assert(l[i] == l[i]);
    }
}

/// A reading of the clock: the hour on the twelve-hour dial and the minute.
pub struct ClockTime {
    hour: u8,
    minute: u8,
}

impl View for ClockTime {
    type V = (nat, nat);

    closed spec fn view(&self) -> (nat, nat) {
        (self.hour as nat, self.minute as nat)
    }
}

impl ClockTime {
    #[verifier::type_invariant]
    spec fn wf(self) -> bool {
        self.hour < 12 && self.minute < 60
    }

    /// The reading for an hour, taken modulo twelve, and a minute, taken modulo sixty,
    /// so that neither twelve o'clock nor minute sixty stands apart from zero.
    pub fn new(hour: u32, minute: u32) -> (r: ClockTime)
        ensures
            r@ == ((hour % 12) as nat, (minute % 60) as nat),
    {
        ClockTime { hour: (hour % 12) as u8, minute: (minute % 60) as u8 }
    }

    /// The hour, below twelve: it turns the hour hand by twelfths of a full turn.
    pub fn hour(&self) -> (r: u8)
        ensures
            r as nat == self@.0,
            r < 12,
    {
        proof {
            use_type_invariant(self);
        }
        self.hour
    }

    /// The minute, below sixty: it turns the minute hand by sixtieths of a full turn.
    pub fn minute(&self) -> (r: u8)
        ensures
            r as nat == self@.1,
            r < 60,
    {
        proof {
            use_type_invariant(self);
        }
        self.minute
    }
}

/// Whether the clock goes on redrawing itself.
#[derive(Clone, Copy, Debug, PartialEq, Eq, Structural)]
pub enum RunState {
    Running,
    Stopped,
}

impl RunState {
    /// The state to start in.
    pub fn start() -> (r: RunState)
        ensures
            r == RunState::Running,
    {
        RunState::Running
    }

    /// The state after a check of the interrupt request: a request stops the clock,
    /// and a stopped clock stays stopped.
    pub fn after(self, interrupted: bool) -> (r: RunState)
        ensures
            r == (if interrupted || self == RunState::Stopped {
                RunState::Stopped
            } else {
                RunState::Running
            }),
    {
        match self {
            RunState::Running => if interrupted {
                RunState::Stopped
            } else {
                RunState::Running
            },
            RunState::Stopped => RunState::Stopped,
        }
    }

    /// Whether a frame is drawn in this state.
    pub fn is_running(self) -> (r: bool)
        ensures
            r == (self == RunState::Running),
    {
        match self {
            RunState::Running => true,
            RunState::Stopped => false,
        }
    }
}

} // verus!
