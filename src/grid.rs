use vstd::arithmetic::div_mod::{lemma_mod_add_multiples_vanish, lemma_small_mod};
use vstd::prelude::*;

verus! {

/// A cell coordinate: column `x`, row `y`.
#[derive(Clone, Copy, Debug, PartialEq, Eq, Structural)]
pub struct Position {
    pub x: usize,
    pub y: usize,
}

/// A replacement buffer did not have the grid's shape.
#[derive(Clone, Copy, Debug, PartialEq, Eq, Structural)]
pub struct DimensionMismatch;

/// A coordinate lay outside the grid.
#[derive(Clone, Copy, Debug, PartialEq, Eq, Structural)]
pub struct OutOfBounds;

/// A Game of Life on a `width` x `height` torus, stored row by row.
pub struct Conway {
    width: usize,
    height: usize,
    cells: Vec<Vec<bool>>,
}

/// The rows of a buffer, as sequences of cell values.
pub open spec fn rows_of(cells: Seq<Vec<bool>>) -> Seq<Seq<bool>> {
    cells.map_values(|r: Vec<bool>| r@)
}

/// `g` has exactly `h` rows of exactly `w` cells each.
pub open spec fn has_shape(g: Seq<Seq<bool>>, w: int, h: int) -> bool {
    &&& g.len() == h
    &&& forall|y: int| 0 <= y < h ==> (#[trigger] g[y]).len() == w
}

/// An all-dead grid of `h` rows of `w` cells.
pub open spec fn dead_grid(w: int, h: int) -> Seq<Seq<bool>> {
    Seq::new(h as nat, |y: int| Seq::new(w as nat, |x: int| false))
}

/// `g` with the cell at column `x`, row `y` set to `v`.
pub open spec fn with_cell(g: Seq<Seq<bool>>, x: int, y: int, v: bool) -> Seq<Seq<bool>> {
    g.update(y, g[y].update(x, v))
}

/// `g` with the cell at column `x`, row `y` flipped.
pub open spec fn toggled(g: Seq<Seq<bool>>, x: int, y: int) -> Seq<Seq<bool>> {
    with_cell(g, x, y, !g[y][x])
}

/// 1 when the cell at `(x, y)`, taken modulo the grid's size, is alive; else 0.
pub open spec fn alive_at(g: Seq<Seq<bool>>, w: int, h: int, x: int, y: int) -> int {
    if g[y % h][x % w] {
        1
    } else {
        0
    }
}

/// The number of live cells among the eight toroidal neighbours of `(x, y)`.
pub open spec fn live_neighbors(g: Seq<Seq<bool>>, w: int, h: int, x: int, y: int) -> int {
    alive_at(g, w, h, x - 1, y - 1) + alive_at(g, w, h, x, y - 1) + alive_at(g, w, h, x + 1, y - 1)
        + alive_at(g, w, h, x - 1, y) + alive_at(g, w, h, x + 1, y)
        + alive_at(g, w, h, x - 1, y + 1) + alive_at(g, w, h, x, y + 1)
        + alive_at(g, w, h, x + 1, y + 1)
}

/// The B3/S23 rule: whether a cell is alive in the next generation.
pub open spec fn lives_next(alive: bool, n: int) -> bool {
    if alive {
        n == 2 || n == 3
    } else {
        n == 3
    }
}

/// The generation that follows `g` on a `w` x `h` torus.
pub open spec fn next_gen(g: Seq<Seq<bool>>, w: int, h: int) -> Seq<Seq<bool>> {
    Seq::new(
        h as nat,
        |y: int| Seq::new(w as nat, |x: int| lives_next(g[y][x], live_neighbors(g, w, h, x, y))),
    )
}

/// On a line of `n` cells, the neighbours of `c` wrap around at both edges.
proof fn lemma_wrap(c: int, n: int)
    requires
        0 <= c < n,
    ensures
        c % n == c,
        (c - 1) % n == if c == 0 {
            n - 1
        } else {
            c - 1
        },
        (c + 1) % n == if c + 1 == n {
            0
        } else {
            c + 1
        },
{
    lemma_small_mod(c as nat, n as nat);
    if c == 0 {
        lemma_mod_add_multiples_vanish(-1, n);
        lemma_small_mod((n - 1) as nat, n as nat);
    } else {
        lemma_small_mod((c - 1) as nat, n as nat);
    }
    if c + 1 == n {
        lemma_mod_add_multiples_vanish(0, n);
        lemma_small_mod(0, n as nat);
    } else {
        lemma_small_mod((c + 1) as nat, n as nat);
    }
}

/// The index before `c` on a ring of `n`.
fn before(c: usize, n: usize) -> (r: usize)
    requires
        c < n,
    ensures
        r == (c - 1) % (n as int),
{
    proof {
        lemma_wrap(c as int, n as int);
    }
    if c == 0 {
        n - 1
    } else {
        c - 1
    }
}

/// The index after `c` on a ring of `n`.
fn after(c: usize, n: usize) -> (r: usize)
    requires
        c < n,
    ensures
        r == (c + 1) % (n as int),
{
    proof {
        lemma_wrap(c as int, n as int);
    }
    if c + 1 == n {
        0
    } else {
        c + 1
    }
}

/// Whether a cell that is `alive` with `n` live neighbours lives on.
fn survives(alive: bool, n: u8) -> (r: bool)
    ensures
        r == lives_next(alive, n as int),
{
    matches!((alive, n), (true, 2) | (true, 3) | (false, 3))
}

/// The character shown for a cell.
pub open spec fn glyph(alive: bool) -> char {
    if alive {
        '\u{25A0}'
    } else {
        '\u{25A1}'
    }
}

/// One row as text: a glyph per cell, then a newline.
pub open spec fn row_text(r: Seq<bool>) -> Seq<char> {
    r.map_values(|c: bool| glyph(c)).push('\n')
}

/// The grid as text, row after row.
pub open spec fn grid_text(g: Seq<Seq<bool>>) -> Seq<char>
    decreases g.len(),
{
    if g.len() == 0 {
        Seq::empty()
    } else {
        grid_text(g.drop_last()) + row_text(g.last())
    }
}

/// Relies on `String::push`: it appends the character to the string.
#[verifier::external_body]
fn push_char(s: &mut String, c: char)
    ensures
        final(s)@ == old(s)@.push(c),
{
    s.push(c)
}

impl View for Conway {
    type V = Seq<Seq<bool>>;

    closed spec fn view(&self) -> Seq<Seq<bool>> {
        rows_of(self.cells@)
    }
}

impl Conway {
    /// The number of columns.
    pub closed spec fn spec_width(&self) -> int {
        self.width as int
    }

    /// The number of rows.
    pub closed spec fn spec_height(&self) -> int {
        self.height as int
    }

    /// Both dimensions are positive and the cells have exactly that shape.
    pub open spec fn wf(&self) -> bool {
        &&& self.spec_width() > 0
        &&& self.spec_height() > 0
        &&& has_shape(self@, self.spec_width(), self.spec_height())
    }

    /// `other` is well formed and has the dimensions of `self`.
    pub open spec fn same_dims(&self, other: &Conway) -> bool {
        &&& other.wf()
        &&& other.spec_width() == self.spec_width()
        &&& other.spec_height() == self.spec_height()
    }

    /// Whether `p` names a cell of this grid.
    pub open spec fn contains(&self, p: Position) -> bool {
        p.x < self.spec_width() && p.y < self.spec_height()
    }

    /// A grid of `width` x `height` dead cells; `None` when a dimension is zero.
    pub fn new(width: usize, height: usize) -> (r: Option<Conway>)
        ensures
            r is Some <==> (width > 0 && height > 0),
            r matches Some(c) ==> {
                &&& c.wf()
                &&& c.spec_width() == width
                &&& c.spec_height() == height
                &&& c@ == dead_grid(width as int, height as int)
            },
    {
        if width == 0 || height == 0 {
            return None;
        }
        let mut cells: Vec<Vec<bool>> = Vec::new();
        let mut y: usize = 0;
        while y < height
            invariant
                y <= height,
                cells@.len() == y,
                forall|j: int| 0 <= j < y ==> (#[trigger] cells@[j])@ == Seq::new(width as nat, |x: int| false),
            decreases height - y,
        {
            let row: Vec<bool> = vec![false; width];
            proof {
                assert(row@ == Seq::new(width as nat, |x: int| false));
            }
            cells.push(row);
            y = y + 1;
        }
        proof {
            assert(rows_of(cells@) =~= dead_grid(width as int, height as int));
        }
        Some(Conway { width, height, cells })
    }

    /// The number of columns.
    pub fn width(&self) -> (r: usize)
        ensures
            r == self.spec_width(),
    {
        self.width
    }

    /// The number of rows.
    pub fn height(&self) -> (r: usize)
        ensures
            r == self.spec_height(),
    {
        self.height
    }

    /// The cell at column `x`, row `y`.
    fn cell_at(&self, x: usize, y: usize) -> (r: bool)
        requires
            self.wf(),
            x < self.spec_width(),
            y < self.spec_height(),
        ensures
            r == self@[y as int][x as int],
    {
        proof {
            assert(self.cells@[y as int]@ == self@[y as int]);
        }
        self.cells[y][x]
    }

    /// The number of live cells among the eight toroidal neighbours of `(x, y)`.
    fn count_neighbors(&self, x: usize, y: usize) -> (n: u8)
        requires
            self.wf(),
            x < self.spec_width(),
            y < self.spec_height(),
        ensures
            n == live_neighbors(self@, self.spec_width(), self.spec_height(), x as int, y as int),
    {
        let xl = before(x, self.width);
        let xr = after(x, self.width);
        let yu = before(y, self.height);
        let yd = after(y, self.height);
        proof {
            lemma_wrap(x as int, self.spec_width());
            lemma_wrap(y as int, self.spec_height());
        }
        let mut n: u8 = 0;
        if self.cell_at(xl, yu) {
            n = n + 1;
        }
        if self.cell_at(x, yu) {
            n = n + 1;
        }
        if self.cell_at(xr, yu) {
            n = n + 1;
        }
        if self.cell_at(xl, y) {
            n = n + 1;
        }
        if self.cell_at(xr, y) {
            n = n + 1;
        }
        if self.cell_at(xl, yd) {
            n = n + 1;
        }
        if self.cell_at(x, yd) {
            n = n + 1;
        }
        if self.cell_at(xr, yd) {
            n = n + 1;
        }
        n
    }

    /// Advances the grid by one generation. Every new cell is computed from
    /// the current generation, which stays untouched until all are known.
    pub fn tick(&mut self)
        requires
            old(self).wf(),
        ensures
            old(self).same_dims(final(self)),
            final(self)@ == next_gen(old(self)@, old(self).spec_width(), old(self).spec_height()),
    {
        let w = self.width;
        let h = self.height;
        let mut next: Vec<Vec<bool>> = Vec::new();
        let mut y: usize = 0;
        while y < h
            invariant
                *self == *old(self),
                self.wf(),
                w == self.spec_width(),
                h == self.spec_height(),
                y <= h,
                next@.len() == y,
                forall|j: int|
                    0 <= j < y ==> (#[trigger] next@[j])@ == next_gen(self@, w as int, h as int)[j],
            decreases h - y,
        {
            let mut row: Vec<bool> = Vec::new();
            let mut x: usize = 0;
            while x < w
                invariant
                    self.wf(),
                    w == self.spec_width(),
                    h == self.spec_height(),
                    x <= w,
                    y < h,
                    row@.len() == x,
                    forall|i: int|
                        0 <= i < x ==> row@[i] == next_gen(self@, w as int, h as int)[y as int][i],
                decreases w - x,
            {
                let n = self.count_neighbors(x, y);
                let alive = self.cell_at(x, y);
                row.push(survives(alive, n));
                x = x + 1;
            }
            proof {
                assert(row@ =~= next_gen(self@, w as int, h as int)[y as int]);
            }
            next.push(row);
            y = y + 1;
        }
        self.cells = next;
        proof {
            assert(self@ =~= next_gen(old(self)@, w as int, h as int));
        }
    }

    /// Whether the cell at `position` is alive; `None` outside the grid.
    pub fn get(&self, position: Position) -> (r: Option<bool>)
        requires
            self.wf(),
        ensures
            r is Some <==> self.contains(position),
            r matches Some(v) ==> v == self@[position.y as int][position.x as int],
    {
        if position.x >= self.width || position.y >= self.height {
            return None;
        }
        Some(self.cell_at(position.x, position.y))
    }

    /// The grid as text: one glyph per cell, a newline after each row.
    pub fn render(&self) -> (r: String)
        requires
            self.wf(),
        ensures
            r@ == grid_text(self@),
    {
        let mut s = String::new();
        let mut y: usize = 0;
        while y < self.height
            invariant
                self.wf(),
                y <= self.spec_height(),
                s@ == grid_text(self@.take(y as int)),
            decreases self.height - y,
        {
            let ghost done = s@;
            let mut x: usize = 0;
            while x < self.width
                invariant
                    self.wf(),
                    y < self.spec_height(),
                    x <= self.spec_width(),
                    s@ == done + self@[y as int].take(x as int).map_values(|c: bool| glyph(c)),
                decreases self.width - x,
            {
                let c = if self.cell_at(x, y) {
                    '\u{25A0}'
                } else {
                    '\u{25A1}'
                };
                push_char(&mut s, c);
                proof {
                    assert(self@[y as int].take(x + 1).map_values(|c: bool| glyph(c))
                        =~= self@[y as int].take(x as int).map_values(|c: bool| glyph(c)).push(c));
                }
                x = x + 1;
            }
            push_char(&mut s, '\n');
            proof {
                assert(self@[y as int].take(x as int) =~= self@[y as int]);
                assert(self@.take(y + 1).drop_last() =~= self@.take(y as int));
            }
            y = y + 1;
        }
        proof {
            assert(self@.take(y as int) =~= self@);
        }
        s
    }

    /// Replaces every cell with `field`, which must have the grid's shape;
    /// on a mismatch the grid is left as it was.
    pub fn set_bulk(&mut self, field: Vec<Vec<bool>>) -> (r: Result<(), DimensionMismatch>)
        requires
            old(self).wf(),
        ensures
            old(self).same_dims(final(self)),
            r is Ok <==> has_shape(
                rows_of(field@),
                old(self).spec_width(),
                old(self).spec_height(),
            ),
            r is Ok ==> final(self)@ == rows_of(field@),
            r is Err ==> *final(self) == *old(self),
    {
        if field.len() != self.height {
            return Err(DimensionMismatch);
        }
        let mut i: usize = 0;
        while i < field.len()
            invariant
                i <= field.len(),
                old(self).wf(),
                *self == *old(self),
                field.len() == self.height,
                forall|j: int| 0 <= j < i ==> (#[trigger] field@[j]).len() == self.width,
            decreases field.len() - i,
        {
            if field[i].len() != self.width {
                proof {
                    assert(rows_of(field@)[i as int].len() != self.width);
                }
                return Err(DimensionMismatch);
            }
            i = i + 1;
        }
        self.cells = field;
        Ok(())
    }

    /// Sets the cell at `position` to `value` (`true` is alive).
    pub fn set(&mut self, position: Position, value: bool) -> (r: Result<(), OutOfBounds>)
        requires
            old(self).wf(),
        ensures
            old(self).same_dims(final(self)),
            r is Ok <==> old(self).contains(position),
            r is Ok ==> final(self)@ == with_cell(
                old(self)@,
                position.x as int,
                position.y as int,
                value,
            ),
            r is Err ==> *final(self) == *old(self),
    {
        if position.x >= self.width || position.y >= self.height {
            return Err(OutOfBounds);
        }
        proof {
            assert(self.cells@[position.y as int]@ == self@[position.y as int]);
        }
        self.cells[position.y][position.x] = value;
        proof {
            assert(self@ =~= with_cell(old(self)@, position.x as int, position.y as int, value));
        }
        Ok(())
    }

    /// Flips the cell at `position` between alive and dead.
    pub fn toggle(&mut self, position: Position) -> (r: Result<(), OutOfBounds>)
        requires
            old(self).wf(),
        ensures
            old(self).same_dims(final(self)),
            r is Ok <==> old(self).contains(position),
            r is Ok ==> final(self)@ == toggled(old(self)@, position.x as int, position.y as int),
            r is Err ==> *final(self) == *old(self),
    {
        if position.x >= self.width || position.y >= self.height {
            return Err(OutOfBounds);
        }
        proof {
            assert(self.cells@[position.y as int]@ == self@[position.y as int]);
        }
        let v = !self.cells[position.y][position.x];
        self.cells[position.y][position.x] = v;
        proof {
            assert(self@ =~= toggled(old(self)@, position.x as int, position.y as int));
        }
        Ok(())
    }
}

/// A `w` x `h` grid whose only live cells form the 2x2 block with its
/// top-left cell at `(bx, by)`.
pub open spec fn block_grid(w: int, h: int, bx: int, by: int) -> Seq<Seq<bool>> {
    Seq::new(h as nat, |y: int| Seq::new(w as nat, |x: int| bx <= x <= bx + 1 && by <= y <= by + 1))
}

/// Flipping a cell twice gives back the grid it started from.
pub proof fn lemma_toggle_twice(g: Seq<Seq<bool>>, x: int, y: int)
    requires
        0 <= y < g.len(),
        0 <= x < g[y].len(),
    ensures
        toggled(toggled(g, x, y), x, y) == g,
{
    assert(toggled(toggled(g, x, y), x, y) =~~= g);
}

/// A 2x2 block whose neighbourhood stays clear of the edges is a still life:
/// a generation leaves it exactly as it was.
pub proof fn lemma_block_still(w: int, h: int, bx: int, by: int)
    requires
        1 <= bx,
        bx + 3 <= w,
        1 <= by,
        by + 3 <= h,
    ensures
        next_gen(block_grid(w, h, bx, by), w, h) == block_grid(w, h, bx, by),
{
    let g = block_grid(w, h, bx, by);
    assert forall|y: int, x: int| 0 <= y < h && 0 <= x < w implies #[trigger] next_gen(g, w, h)[y][x]
        == g[y][x] by {
        lemma_wrap(x, w);
        lemma_wrap(y, h);
    }
    assert(next_gen(g, w, h) =~~= g);
}

} // verus!
