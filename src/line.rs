use vstd::prelude::*;

verus! {

/// Distance between two coordinates along one axis.
pub open spec fn span(a: int, b: int) -> nat {
    if a <= b {
        (b - a) as nat
    } else {
        (a - b) as nat
    }
}

/// The coordinate `n` cells away from `a` in the direction of `b`.
pub open spec fn advance(a: int, b: int, n: int) -> int {
    if a < b {
        a + n
    } else {
        a - n
    }
}

/// Offset along the minor axis after `i` steps along the major axis, for a line that
/// moves `minor` cells across while moving `major` cells along: `i * minor / major`
/// rounded to the nearest integer, a tie rounding toward the start of the line.
pub open spec fn minor_offset(i: nat, minor: nat, major: nat) -> nat {
    if major == 0 {
        0
    } else {
        ((2 * i * minor + major - 1) as int / (2 * major as int)) as nat
    }
}

/// Number of cells on the line from `(x0, y0)` to `(x1, y1)`, both ends included.
pub open spec fn line_len(x0: int, y0: int, x1: int, y1: int) -> nat {
    let dx = span(x0, x1);
    let dy = span(y0, y1);
    if dx > dy {
        dx + 1
    } else {
        dy + 1
    }
}

/// The `i`-th cell of the line from `(x0, y0)` to `(x1, y1)`: the axis with the larger
/// distance advances by one cell per step, the other follows the true line to the
/// nearest cell.
pub open spec fn line_point(x0: int, y0: int, x1: int, y1: int, i: nat) -> (int, int) {
    let dx = span(x0, x1);
    let dy = span(y0, y1);
    if dx > dy {
        (advance(x0, x1, i as int), advance(y0, y1, minor_offset(i, dy, dx) as int))
    } else {
        (advance(x0, x1, minor_offset(i, dx, dy) as int), advance(y0, y1, i as int))
    }
}

/// The cells of the line from `(x0, y0)` to `(x1, y1)`, in order from the first end.
pub open spec fn line(x0: int, y0: int, x1: int, y1: int) -> Seq<(int, int)> {
    Seq::new(line_len(x0, y0, x1, y1), |i: int| line_point(x0, y0, x1, y1, i as nat))
}

/// A cell of the line as a canvas pixel.
pub open spec fn as_pixel(p: (int, int)) -> (u8, u8) {
    (p.0 as u8, p.1 as u8)
}

/// The pixels of the line between two canvas pixels.
pub open spec fn line_pixels(x0: u8, y0: u8, x1: u8, y1: u8) -> Seq<(u8, u8)> {
    line(x0 as int, y0 as int, x1 as int, y1 as int).map_values(|p: (int, int)| as_pixel(p))
}

/// Two cells touch, sides or corners, or are the same cell.
pub open spec fn adjacent(p: (int, int), q: (int, int)) -> bool {
    -1 <= q.0 - p.0 <= 1 && -1 <= q.1 - p.1 <= 1
}

/// An offset `m` that keeps `m * major` within half a cell of `i * minor` is the
/// rounded offset of `minor_offset`.
pub proof fn lemma_minor_offset_unique(i: nat, minor: nat, major: nat, m: int)
    requires
        major > 0,
        -(major as int) <= 2 * (m * major - i * minor) < major,
    ensures
        m == minor_offset(i, minor, major),
{
    let n: int = 2 * i * minor + major - 1;
    let d: int = 2 * major as int;
    let q: int = n / d;
    vstd::arithmetic::div_mod::lemma_fundamental_div_mod(n, d);
    vstd::arithmetic::div_mod::lemma_mod_bound(n, d);
    assert(m == q) by (nonlinear_arith)
        requires
            major > 0,
            d == 2 * major,
            n == 2 * i * minor + major - 1,
            n == d * q + n % d,
            0 <= n % d < d,
            -(major as int) <= 2 * (m * major - i * minor) < major,
    ;
}

/// While the number of steps stays within the major distance, the rounded offset
/// stays within the minor distance.
pub proof fn lemma_minor_offset_bounds(i: nat, minor: nat, major: nat, m: int)
    requires
        major > 0,
        i <= major,
        minor <= major,
        -(major as int) <= 2 * (m * major - i * minor) < major,
    ensures
        0 <= m <= minor,
{
    assert(0 <= m <= minor) by (nonlinear_arith)
        requires
            major > 0,
            i <= major,
            minor <= major,
            -(major as int) <= 2 * (m * major - i * minor) < major,
    ;
}

/// Before any step the offset is zero.
pub proof fn lemma_minor_offset_start(minor: nat, major: nat)
    requires
        major > 0,
    ensures
        minor_offset(0, minor, major) == 0,
        0 * major - 0 * minor == 0,
{
    assert(0 * major == 0 && 0 * minor == 0) by (nonlinear_arith);
    lemma_minor_offset_unique(0, minor, major, 0);
}

/// After all the steps along the major axis, the offset reaches the minor distance.
pub proof fn lemma_minor_offset_end(minor: nat, major: nat)
    requires
        major > 0,
    ensures
        minor_offset(major, minor, major) == minor,
{
    assert(minor * major == major * minor) by (nonlinear_arith);
    lemma_minor_offset_unique(major, minor, major, minor as int);
}

/// The rounded offset is within half a cell of the true line.
pub proof fn lemma_minor_offset_rounds(i: nat, minor: nat, major: nat)
    requires
        major > 0,
    ensures
        -(major as int) <= 2 * (minor_offset(i, minor, major) * major - i * minor) < major,
{
    let n: int = 2 * i * minor + major - 1;
    let d: int = 2 * major as int;
    let q: int = n / d;
    vstd::arithmetic::div_mod::lemma_fundamental_div_mod(n, d);
    vstd::arithmetic::div_mod::lemma_mod_bound(n, d);
    assert(-(major as int) <= 2 * (q * major - i * minor) < major) by (nonlinear_arith)
        requires
            major > 0,
            d == 2 * major,
            n == 2 * i * minor + major - 1,
            n == d * q + n % d,
            0 <= n % d < d,
    ;
}

/// From one step to the next the offset along the minor axis grows by zero or one.
pub proof fn lemma_minor_offset_step(i: nat, minor: nat, major: nat)
    requires
        major > 0,
        minor <= major,
    ensures
        minor_offset(i + 1, minor, major) == minor_offset(i, minor, major) || minor_offset(
            i + 1,
            minor,
            major,
        ) == minor_offset(i, minor, major) + 1,
{
    let a = minor_offset(i, minor, major) as int;
    let b = minor_offset(i + 1, minor, major) as int;
    lemma_minor_offset_rounds(i, minor, major);
    lemma_minor_offset_rounds(i + 1, minor, major);
    assert(b == a || b == a + 1) by (nonlinear_arith)
        requires
            major > 0,
            minor <= major,
            -(major as int) <= 2 * (a * major - i * minor) < major,
            -(major as int) <= 2 * (b * major - (i + 1) * minor) < major,
    ;
}

/// The line is a path of touching cells: it starts at `(x0, y0)`, ends at `(x1, y1)`,
/// each cell touches the next one and differs from it, and every cell lies in the
/// rectangle spanned by the two ends.
pub proof fn lemma_line_path(x0: int, y0: int, x1: int, y1: int)
    ensures
        line(x0, y0, x1, y1).len() >= 1,
        line(x0, y0, x1, y1)[0] == (x0, y0),
        line(x0, y0, x1, y1).last() == (x1, y1),
        forall|i: int|
            0 <= i < line(x0, y0, x1, y1).len() - 1 ==> adjacent(
                #[trigger] line(x0, y0, x1, y1)[i],
                line(x0, y0, x1, y1)[i + 1],
            ) && line(x0, y0, x1, y1)[i] != line(x0, y0, x1, y1)[i + 1],
        forall|i: int|
            0 <= i < line(x0, y0, x1, y1).len() ==> {
                let p = #[trigger] line(x0, y0, x1, y1)[i];
                &&& (x0 <= p.0 <= x1 || x1 <= p.0 <= x0)
                &&& (y0 <= p.1 <= y1 || y1 <= p.1 <= y0)
            },
{
    let l = line(x0, y0, x1, y1);
    let dx = span(x0, x1);
    let dy = span(y0, y1);
    let major: nat = if dx > dy { dx } else { dy };
    let minor: nat = if dx > dy { dy } else { dx };
    assert(l.len() == major + 1);
    if major > 0 {
        lemma_minor_offset_start(minor, major);
        lemma_minor_offset_end(minor, major);
    }
    assert(l[0] == (x0, y0));
    assert(l.last() == (x1, y1));
    assert forall|i: int| 0 <= i < l.len() - 1 implies adjacent(#[trigger] l[i], l[i + 1])
        && l[i] != l[i + 1] by {
        lemma_minor_offset_step(i as nat, minor, major);
    }
    assert forall|i: int| 0 <= i < l.len() implies {
        let p = #[trigger] l[i];
        &&& (x0 <= p.0 <= x1 || x1 <= p.0 <= x0)
        &&& (y0 <= p.1 <= y1 || y1 <= p.1 <= y0)
    } by {
        if major > 0 {
            lemma_minor_offset_rounds(i as nat, minor, major);
            lemma_minor_offset_bounds(
                i as nat,
                minor,
                major,
                minor_offset(i as nat, minor, major) as int,
            );
        }
    }
}

/// On canvas pixels the line's cells are kept exactly: each pixel holds the
/// coordinates of the corresponding cell.
pub proof fn lemma_line_pixels_exact(x0: u8, y0: u8, x1: u8, y1: u8)
    ensures
        line_pixels(x0, y0, x1, y1).len() == line(x0 as int, y0 as int, x1 as int, y1 as int).len(),
        forall|i: int|
            0 <= i < line_pixels(x0, y0, x1, y1).len() ==> {
                let p = #[trigger] line_pixels(x0, y0, x1, y1)[i];
                (p.0 as int, p.1 as int) == line(x0 as int, y0 as int, x1 as int, y1 as int)[i]
            },
{
    let l = line(x0 as int, y0 as int, x1 as int, y1 as int);
    lemma_line_path(x0 as int, y0 as int, x1 as int, y1 as int);
    assert forall|i: int| 0 <= i < line_pixels(x0, y0, x1, y1).len() implies {
        let p = #[trigger] line_pixels(x0, y0, x1, y1)[i];
        (p.0 as int, p.1 as int) == l[i]
    } by {
        assert(l[i] == l[i]);
    }
}

/// A line whose two ends are the same pixel is that pixel alone.
pub proof fn lemma_line_single(x: u8, y: u8)
    ensures
        line_pixels(x, y, x, y) == seq![(x, y)],
{
    assert(line(x as int, y as int, x as int, y as int) =~= seq![(x as int, y as int)]);
    assert(line_pixels(x, y, x, y) =~= seq![(x, y)]);
}

/// Appends to `pixels` the cells of the straight line from `(x0, y0)` to `(x1, y1)`,
/// both ends included, in order from `(x0, y0)`: one step at a time along the axis with
/// the larger distance, with an error term deciding when the other axis follows.
#[verifier::rlimit(40)]
pub fn get_line(x0: u8, y0: u8, x1: u8, y1: u8, pixels: &mut Vec<(u8, u8)>)
    ensures
        final(pixels)@ == old(pixels)@ + line_pixels(x0, y0, x1, y1),
{
    let ghost start = pixels@;
    let ghost lp = line_pixels(x0, y0, x1, y1);
    let ex = x1 as i32;
    let ey = y1 as i32;
    let mut x = x0 as i32;
    let mut y = y0 as i32;
    let dx: i32 = if x < ex { ex - x } else { x - ex };
    let dy: i32 = if y < ey { ey - y } else { y - ey };
    let sx: i32 = if x < ex { 1 } else { -1 };
    let sy: i32 = if y < ey { 1 } else { -1 };
    let mut err: i32 = if dx > dy { dx / 2 } else { -(dy / 2) };
    let ghost x_major = dx > dy;
    let ghost major: nat = if x_major { dx as nat } else { dy as nat };
    let ghost minor: nat = if x_major { dy as nat } else { dx as nat };
    // steps taken along the major axis, and along the minor axis
    let ghost mut k: nat = 0;
    let ghost mut m: nat = 0;
    proof {
        if major > 0 {
            lemma_minor_offset_start(minor, major);
        }
        assert(line_point(x0 as int, y0 as int, x1 as int, y1 as int, 0) == (x0 as int, y0 as int));
        assert(lp[0] == (x as u8, y as u8));
        assert(pixels@.push((x as u8, y as u8)) =~= start + lp.take(1));
    }
    pixels.push((x as u8, y as u8));
    while x != ex || y != ey
        invariant
            ex == x1 as int,
            ey == y1 as int,
            dx == span(x0 as int, x1 as int),
            dy == span(y0 as int, y1 as int),
            sx == (if x0 < x1 { 1int } else { -1int }),
            sy == (if y0 < y1 { 1int } else { -1int }),
            x_major == (dx > dy),
            major == (if x_major { dx as nat } else { dy as nat }),
            minor == (if x_major { dy as nat } else { dx as nat }),
            lp == line_pixels(x0, y0, x1, y1),
            lp.len() == major + 1,
            k <= major,
            m <= minor,
            major > 0 ==> m == minor_offset(k, minor, major),
            major == 0 ==> k == 0 && m == 0,
            major > 0 ==> -(major as int) <= 2 * (m * major - k * minor) < major,
            x_major ==> x == advance(x0 as int, x1 as int, k as int),
            x_major ==> y == advance(y0 as int, y1 as int, m as int),
            x_major ==> err == dx / 2 + (m * major - k * minor),
            !x_major ==> x == advance(x0 as int, x1 as int, m as int),
            !x_major ==> y == advance(y0 as int, y1 as int, k as int),
            !x_major ==> err == -(dy / 2) - (m * major - k * minor),
            pixels@ == start + lp.take(k + 1int),
        decreases major - k,
    {
        proof {
            if major > 0 && k == major {
                lemma_minor_offset_end(minor, major);
            }
        }
        let e2 = err;
        let ghost stepped_minor = if x_major { e2 < dy } else { e2 > -dx };
        if e2 > -dx {
            err = err - dy;
            x = x + sx;
        }
        if e2 < dy {
            err = err + dx;
            y = y + sy;
        }
        proof {
            let m2: nat = if stepped_minor { m + 1 } else { m };
            let k2: nat = k + 1;
            assert(m2 * major - k2 * minor == m * major - k * minor + (if stepped_minor {
                major as int
            } else {
                0
            }) - minor) by (nonlinear_arith)
                requires
                    m2 == (if stepped_minor { m + 1 } else { m }),
                    k2 == k + 1,
            ;
            lemma_minor_offset_unique(k2, minor, major, m2 as int);
            lemma_minor_offset_bounds(k2, minor, major, m2 as int);
            k = k2;
            m = m2;
            assert(lp[k as int] == (x as u8, y as u8));
            assert(pixels@.push((x as u8, y as u8)) =~= start + lp.take(k + 1int));
        }
        pixels.push((x as u8, y as u8));
    }
    proof {
        assert(lp.take(k + 1int) =~= lp);
    }
}

} // verus!
