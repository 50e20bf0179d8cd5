use vstd::prelude::*;

verus! {

/// Width of the canvas and number of columns of the character grid.
pub const CANVAS_WIDTH: u8 = 16;

/// Height of the canvas in pixels.
pub const CANVAS_HEIGHT: u8 = 16;

/// Number of rows of the character grid: each character cell is two pixels tall.
pub const GRID_ROWS: u8 = 8;

/// Number of cells of the character grid.
pub const GRID_CELLS: usize = 128;

/// What a character cell shows of its two pixels.
#[derive(Clone, Copy, Debug, PartialEq, Eq, Structural)]
pub enum Glyph {
    Space,
    Upper,
    Lower,
    Full,
}

/// The glyph for a cell whose upper and lower pixels are set as given.
pub open spec fn cover(upper: bool, lower: bool) -> Glyph {
    if upper && lower {
        Glyph::Full
    } else if upper {
        Glyph::Upper
    } else if lower {
        Glyph::Lower
    } else {
        Glyph::Space
    }
}

/// The glyph of a cell after one more of its halves is drawn.
pub open spec fn merged(g: Glyph, upper: bool) -> Glyph {
    match g {
        Glyph::Space => if upper {
            Glyph::Upper
        } else {
            Glyph::Lower
        },
        Glyph::Upper => if upper {
            Glyph::Upper
        } else {
            Glyph::Full
        },
        Glyph::Lower => if upper {
            Glyph::Full
        } else {
            Glyph::Lower
        },
        Glyph::Full => Glyph::Full,
    }
}

/// The character that shows a glyph in a terminal.
pub open spec fn glyph_char(g: Glyph) -> char {
    match g {
        Glyph::Space => ' ',
        Glyph::Upper => '\u{2580}',
        Glyph::Lower => '\u{2584}',
        Glyph::Full => '\u{2588}',
    }
}

/// A pixel lies on the canvas.
pub open spec fn on_canvas(p: (u8, u8)) -> bool {
    p.0 < CANVAS_WIDTH && p.1 < CANVAS_HEIGHT
}

/// Every pixel of the sequence lies on the canvas.
pub open spec fn all_on_canvas(pixels: Seq<(u8, u8)>) -> bool {
    forall|i: int| 0 <= i < pixels.len() ==> on_canvas(#[trigger] pixels[i])
}

/// The glyph of the cell in column `x` and row `row`: which of its two pixels,
/// `(x, 2 * row)` above and `(x, 2 * row + 1)` below, occur among `pixels`.
pub open spec fn cell_of(pixels: Seq<(u8, u8)>, x: int, row: int) -> Glyph {
    cover(pixels.contains((x as u8, (2 * row) as u8)), pixels.contains((x as u8, (2 * row + 1) as u8)))
}

/// Position in the grid's cell sequence of the cell in column `x` and row `row`;
/// the cells of a column are consecutive.
pub open spec fn cell_index(x: int, row: int) -> int {
    x * GRID_ROWS + row
}

/// The character grid that shows `pixels`, column after column.
pub open spec fn grid_of(pixels: Seq<(u8, u8)>) -> Seq<Glyph> {
    Seq::new(GRID_CELLS as nat, |i: int| cell_of(pixels, i / GRID_ROWS as int, i % GRID_ROWS as int))
}

impl Glyph {
    /// The glyph after one more half of the cell is drawn, the upper one if `upper`.
    /// Drawing is order-free and a drawn half stays drawn; a full cell stays full.
    pub fn merge(self, upper: bool) -> (r: Glyph)
        ensures
            r == merged(self, upper),
    {
        match self {
            Glyph::Space => if upper {
                Glyph::Upper
            } else {
                Glyph::Lower
            },
            Glyph::Upper => if upper {
                Glyph::Upper
            } else {
                Glyph::Full
            },
            Glyph::Lower => if upper {
                Glyph::Full
            } else {
                Glyph::Lower
            },
            Glyph::Full => Glyph::Full,
        }
    }

    /// The character that shows this glyph: a space or a half or full block.
    pub fn to_char(self) -> (r: char)
        ensures
            r == glyph_char(self),
    {
        match self {
            Glyph::Space => ' ',
            Glyph::Upper => '\u{2580}',
            Glyph::Lower => '\u{2584}',
            Glyph::Full => '\u{2588}',
        }
    }
}

/// Merging two halves gives the same glyph in either order, and merging a half that
/// is already drawn changes nothing.
pub proof fn lemma_merge_order_free(g: Glyph, a: bool, b: bool)
    ensures
        merged(merged(g, a), b) == merged(merged(g, b), a),
        merged(merged(g, a), a) == merged(g, a),
        merged(Glyph::Full, a) == Glyph::Full,
{
}

/// A grid of half-block glyphs, `GRID_ROWS` rows by `CANVAS_WIDTH` columns.
pub struct CharGrid {
    cells: Vec<Glyph>,
}

impl View for CharGrid {
    type V = Seq<Glyph>;

    closed spec fn view(&self) -> Seq<Glyph> {
        self.cells@
    }
}

impl CharGrid {
    /// A grid holds one glyph for each cell.
    #[verifier::type_invariant]
    spec fn wf(self) -> bool {
        self.cells@.len() == GRID_CELLS
    }

    /// The glyph in column `x` and row `row`.
    pub fn glyph(&self, x: u8, row: u8) -> (r: Glyph)
        requires
            x < CANVAS_WIDTH,
            row < GRID_ROWS,
        ensures
            r == self@[cell_index(x as int, row as int)],
    {
        proof {
            use_type_invariant(self);
        }
        self.cells[x as usize * GRID_ROWS as usize + row as usize]
    }
}

/// Whether a sequence holds a pixel after one more is pushed.
proof fn lemma_push_contains(s: Seq<(u8, u8)>, p: (u8, u8), q: (u8, u8))
    ensures
        s.push(p).contains(q) <==> (s.contains(q) || q == p),
{
    if s.contains(q) {
        let i = choose|i: int| 0 <= i < s.len() && s[i] == q;
        assert(s.push(p)[i] == q);
    }
    if q == p {
        assert(s.push(p)[s.len() as int] == q);
    }
    if s.push(p).contains(q) && q != p {
        let i = choose|i: int| 0 <= i < s.len() + 1 && s.push(p)[i] == q;
        assert(s[i] == q);
    }
}

/// Drawing one more pixel on the canvas changes only the cell that holds it, by
/// merging the pixel's half into that cell.
pub proof fn lemma_grid_push(s: Seq<(u8, u8)>, p: (u8, u8))
    requires
        on_canvas(p),
    ensures
        grid_of(s.push(p)) == grid_of(s).update(
            cell_index(p.0 as int, p.1 as int / 2),
            merged(grid_of(s)[cell_index(p.0 as int, p.1 as int / 2)], p.1 % 2 == 0),
        ),
{
    let t = s.push(p);
    let k = cell_index(p.0 as int, p.1 as int / 2);
    assert forall|i: int| 0 <= i < GRID_CELLS implies #[trigger] grid_of(t)[i] == grid_of(s).update(
        k,
        merged(grid_of(s)[k], p.1 % 2 == 0),
    )[i] by {
        let x = i / GRID_ROWS as int;
        let row = i % GRID_ROWS as int;
        let up = (x as u8, (2 * row) as u8);
        let low = (x as u8, (2 * row + 1) as u8);
        lemma_push_contains(s, p, up);
        lemma_push_contains(s, p, low);
    }
    assert(grid_of(t) =~= grid_of(s).update(k, merged(grid_of(s)[k], p.1 % 2 == 0)));
}

/// The grid does not depend on the order of the pixels: two sequences that are
/// permutations of each other give the same grid.
pub proof fn lemma_compose_permutation(a: Seq<(u8, u8)>, b: Seq<(u8, u8)>)
    requires
        a.to_multiset() == b.to_multiset(),
    ensures
        grid_of(a) == grid_of(b),
{
    a.to_multiset_ensures();
    b.to_multiset_ensures();
    assert forall|q: (u8, u8)| a.contains(q) == b.contains(q) by {
        assert(a.contains(q) <==> a.to_multiset().count(q) > 0);
        assert(b.contains(q) <==> b.to_multiset().count(q) > 0);
    }
    assert(grid_of(a) =~= grid_of(b));
}

/// Drawing a pixel into a cell that is already full leaves the grid as it is.
pub proof fn lemma_compose_full_cell(s: Seq<(u8, u8)>, p: (u8, u8))
    requires
        on_canvas(p),
        grid_of(s)[cell_index(p.0 as int, p.1 as int / 2)] == Glyph::Full,
    ensures
        grid_of(s.push(p)) == grid_of(s),
{
    lemma_grid_push(s, p);
    assert(grid_of(s.push(p)) =~= grid_of(s));
}

/// Drawing a pixel a second time leaves the grid as it is.
pub proof fn lemma_compose_repeat(s: Seq<(u8, u8)>, p: (u8, u8))
    requires
        on_canvas(p),
        s.contains(p),
    ensures
        grid_of(s.push(p)) == grid_of(s),
{
    let t = s.push(p);
    assert forall|q: (u8, u8)| t.contains(q) == s.contains(q) by {
        lemma_push_contains(s, p, q);
    }
    assert(grid_of(t) =~= grid_of(s));
}

/// With no pixels every cell of the grid is a space.
pub proof fn lemma_compose_empty()
    ensures
        grid_of(Seq::empty()) == Seq::new(GRID_CELLS as nat, |i: int| Glyph::Space),
{
    assert(grid_of(Seq::empty()) =~= Seq::new(GRID_CELLS as nat, |i: int| Glyph::Space));
}

/// Composes the character grid that shows `pixels`: each cell shows which of its two
/// pixels occur, whatever their order and however often they occur.
pub fn compose(pixels: &Vec<(u8, u8)>) -> (grid: CharGrid)
    requires
        all_on_canvas(pixels@),
    ensures
        grid@ == grid_of(pixels@),
{
    let mut cells: Vec<Glyph> = Vec::new();
    let mut i: usize = 0;
    while i < GRID_CELLS
        invariant
            i <= GRID_CELLS,
            cells@ =~= grid_of(Seq::empty()).take(i as int),
        decreases GRID_CELLS - i,
    {
        cells.push(Glyph::Space);
        i = i + 1;
        assert(cells@ =~= grid_of(Seq::empty()).take(i as int));
    }
    let mut j: usize = 0;
    while j < pixels.len()
        invariant
            j <= pixels@.len(),
            all_on_canvas(pixels@),
            cells@ == grid_of(pixels@.take(j as int)),
        decreases pixels@.len() - j,
    {
        let (x, y) = pixels[j];
        assert(on_canvas(pixels@[j as int]));
        let k = x as usize * GRID_ROWS as usize + (y / 2) as usize;
        let g = cells[k].merge(y % 2 == 0);
        proof {
            lemma_grid_push(pixels@.take(j as int), (x, y));
            assert(pixels@.take(j as int).push((x, y)) =~= pixels@.take(j + 1));
        }
        cells.set(k, g);
        j = j + 1;
    }
    assert(pixels@.take(j as int) =~= pixels@);
    CharGrid { cells }
}

} // verus!
