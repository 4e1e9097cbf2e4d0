//! The program grid: a rectangular, growable matrix of bytes.

use crate::text::push_char;
use vstd::prelude::*;

verus! {

/// The byte every cell holds until something else is written to it.
pub const BLANK: u8 = 0x20;

/// The mathematical grid: `cells[r][c]` is the byte at row `r`, column `c`.
///
/// `cols` is kept beside the rows because a grid without rows still has a
/// width.
pub struct Plane {
    pub cols: nat,
    pub cells: Seq<Seq<u8>>,
}

impl Plane {
    /// Number of rows.
    pub open spec fn rows(self) -> nat {
        self.cells.len()
    }

    /// Every row has exactly `cols` cells.
    pub open spec fn wf(self) -> bool {
        forall|r: int| 0 <= r < self.cells.len() ==> (#[trigger] self.cells[r]).len() == self.cols
    }

    /// Whether `(r, c)` lies inside the current extents.
    pub open spec fn holds(self, r: int, c: int) -> bool {
        0 <= r < self.rows() && 0 <= c < self.cols
    }

    /// The byte at `(r, c)`; outside the extents every cell reads as `BLANK`.
    pub open spec fn at(self, r: int, c: int) -> u8 {
        if self.holds(r, c) {
            self.cells[r][c]
        } else {
            BLANK
        }
    }

    /// A grid of the given extents with every cell `BLANK`.
    pub open spec fn blank(rows: nat, cols: nat) -> Plane {
        Plane { cols, cells: Seq::new(rows, |r: int| Seq::new(cols, |c: int| BLANK)) }
    }

    /// This grid redrawn on the extents `rows` by `cols`: cells it already
    /// had keep their bytes, the others are `BLANK`.
    pub open spec fn extended(self, rows: nat, cols: nat) -> Plane {
        Plane { cols, cells: Seq::new(rows, |r: int| Seq::new(cols, |c: int| self.at(r, c))) }
    }

    /// The smallest extension of this grid that holds `(r, c)`.
    pub open spec fn grown(self, r: nat, c: nat) -> Plane {
        self.extended(
            if r < self.rows() { self.rows() } else { (r + 1) as nat },
            if c < self.cols { self.cols } else { (c + 1) as nat },
        )
    }

    /// This grid after writing `v` at `(r, c)`, grown first where needed.
    pub open spec fn put(self, r: nat, c: nat, v: u8) -> Plane {
        let g = self.grown(r, c);
        Plane { cols: g.cols, cells: g.cells.update(r as int, g.cells[r as int].update(c as int, v)) }
    }
}

/// The characters whose code points are the bytes of `row`.
pub open spec fn row_text(row: Seq<u8>) -> Seq<char> {
    Seq::new(row.len(), |c: int| row[c] as char)
}

/// The rows `cells` as text, one line each, with a line feed between two
/// rows and none after the last.
pub open spec fn rows_text(cells: Seq<Seq<u8>>) -> Seq<char>
    decreases cells.len(),
{
    if cells.len() == 0 {
        Seq::empty()
    } else if cells.len() == 1 {
        row_text(cells[0])
    } else {
        rows_text(cells.drop_last()) + seq!['\n'] + row_text(cells.last())
    }
}

/// Two rectangular grids of the same extents that agree on every cell are
/// the same grid.
pub proof fn lemma_plane_eq(p: Plane, q: Plane)
    requires
        p.wf(),
        q.wf(),
        p.rows() == q.rows(),
        p.cols == q.cols,
        forall|r: int, c: int| p.holds(r, c) ==> p.at(r, c) == q.at(r, c),
    ensures
        p == q,
{
    assert forall|r: int| 0 <= r < p.cells.len() implies p.cells[r] == q.cells[r] by {
        assert(p.cells[r].len() == q.cells[r].len());
        assert forall|c: int| 0 <= c < p.cells[r].len() implies p.cells[r][c] == q.cells[r][c] by {
            assert(p.holds(r, c));
            assert(p.at(r, c) == q.at(r, c));
        }
        assert(p.cells[r] =~= q.cells[r]);
    }
    assert(p.cells =~= q.cells);
}

/// Redrawing a grid on extents that are no smaller keeps every byte and
/// gives a rectangular grid of those extents.
pub proof fn lemma_extended(p: Plane, rows: nat, cols: nat)
    requires
        p.rows() <= rows,
        p.cols <= cols,
    ensures
        p.extended(rows, cols).wf(),
        p.extended(rows, cols).rows() == rows,
        p.extended(rows, cols).cols == cols,
        forall|r: int, c: int| (#[trigger] p.extended(rows, cols).at(r, c)) == p.at(r, c),
{
}

/// What growing does: the extents become just large enough, every byte
/// stays.
pub proof fn lemma_grown(p: Plane, r: nat, c: nat)
    ensures
        p.grown(r, c).wf(),
        p.grown(r, c).rows() == if r < p.rows() { p.rows() } else { (r + 1) as nat },
        p.grown(r, c).cols == if c < p.cols { p.cols } else { (c + 1) as nat },
        p.grown(r, c).holds(r as int, c as int),
        forall|i: int, j: int| (#[trigger] p.grown(r, c).at(i, j)) == p.at(i, j),
{
    lemma_extended(
        p,
        if r < p.rows() { p.rows() } else { (r + 1) as nat },
        if c < p.cols { p.cols } else { (c + 1) as nat },
    );
}

/// What writing does: the grid grows to hold the cell, the cell takes the
/// byte, and every other cell reads as before.
pub proof fn lemma_put(p: Plane, r: nat, c: nat, v: u8)
    ensures
        p.put(r, c, v).wf(),
        p.put(r, c, v).rows() == p.grown(r, c).rows(),
        p.put(r, c, v).cols == p.grown(r, c).cols,
        forall|i: int, j: int| (#[trigger] p.put(r, c, v).at(i, j)) == if i == r && j == c {
                v
            } else {
                p.at(i, j)
            },
{
    lemma_grown(p, r, c);
    let g = p.grown(r, c);
    let q = p.put(r, c, v);
    assert forall|i: int, j: int| (#[trigger] q.at(i, j)) == if i == r && j == c {
        v
    } else {
        p.at(i, j)
    } by {
        assert(g.at(i, j) == p.at(i, j));
    }
}

/// The executable grid.
#[derive(Debug)]
pub struct Area {
    vec: Vec<Vec<u8>>,
    cols: usize,
}

impl View for Area {
    type V = Plane;

    closed spec fn view(&self) -> Plane {
        Plane { cols: self.cols as nat, cells: Seq::new(self.vec@.len(), |r: int| self.vec@[r]@) }
    }
}

/// A fresh row of `cols` blanks.
fn blank_row(cols: usize) -> (row: Vec<u8>)
    ensures
        row@ == Seq::new(cols as nat, |c: int| BLANK),
{
    let mut row: Vec<u8> = Vec::with_capacity(cols);
    let mut c: usize = 0;
    while c < cols
        invariant
            c <= cols,
            row@ == Seq::new(c as nat, |j: int| BLANK),
        decreases cols - c,
    {
        row.push(BLANK);
        c = c + 1;
        assert(row@ =~= Seq::new(c as nat, |j: int| BLANK));
    }
    row
}

/// Appends `count` blanks to `row`.
fn pad_row(row: &mut Vec<u8>, count: usize)
    ensures
        final(row)@ == old(row)@ + Seq::new(count as nat, |c: int| BLANK),
{
    let mut k: usize = 0;
    while k < count
        invariant
            k <= count,
            row@ == old(row)@ + Seq::new(k as nat, |c: int| BLANK),
        decreases count - k,
    {
        row.push(BLANK);
        k = k + 1;
        assert(row@ =~= old(row)@ + Seq::new(k as nat, |c: int| BLANK));
    }
}

impl Area {
    /// Every stored row has `cols` cells.
    spec fn rectangular(&self) -> bool {
        forall|r: int| 0 <= r < self.vec@.len() ==> (#[trigger] self.vec@[r])@.len() == self.cols
    }

    /// The stored rows are rectangular exactly when the view is, and the
    /// view's rows are the stored ones.
    proof fn lemma_view(&self)
        ensures
            self.rectangular() == self@.wf(),
            self@.cols == self.cols,
            self@.cells.len() == self.vec@.len(),
            forall|r: int| 0 <= r < self.vec@.len() ==> (#[trigger] self@.cells[r]) == self.vec@[r]@,
    {
        if self@.wf() {
            assert forall|r: int| 0 <= r < self.vec@.len() implies (#[trigger] self.vec@[r])@.len()
                == self.cols by {
                assert(self@.cells[r] == self.vec@[r]@);
            }
        }
    }

    /// A grid of `rows` by `cols` blanks.
    pub fn new(rows: usize, cols: usize) -> (area: Area)
        ensures
            area@ == Plane::blank(rows as nat, cols as nat),
            area@.wf(),
    {
        let mut vec: Vec<Vec<u8>> = Vec::with_capacity(rows);
        let mut r: usize = 0;
        while r < rows
            invariant
                r <= rows,
                vec@.len() == r,
                forall|i: int|
                    0 <= i < r ==> (#[trigger] vec@[i])@ == Seq::new(cols as nat, |c: int| BLANK),
            decreases rows - r,
        {
            let row = blank_row(cols);
            vec.push(row);
            r = r + 1;
        }
        let area = Area { vec, cols };
        assert(area@.cells =~= Plane::blank(rows as nat, cols as nat).cells);
        area
    }

    /// Current number of rows.
    pub fn rows(&self) -> (n: usize)
        ensures
            n == self@.rows(),
    {
        self.vec.len()
    }

    /// Current number of columns.
    pub fn cols(&self) -> (n: usize)
        ensures
            n == self@.cols,
    {
        self.cols
    }

    /// Appends `count` rows of blanks.
    pub fn add_rows(&mut self, count: usize)
        requires
            old(self)@.wf(),
            old(self)@.rows() + count <= usize::MAX,
        ensures
            final(self)@ == old(self)@.extended((old(self)@.rows() + count) as nat, old(self)@.cols),
            final(self)@.wf(),
    {
        proof {
            self.lemma_view();
        }
        let cols = self.cols;
        let mut rows: Vec<Vec<u8>> = Vec::new();
        core::mem::swap(&mut rows, &mut self.vec);
        let ghost before = rows@;
        let mut k: usize = 0;
        while k < count
            invariant
                k <= count,
                rows@.len() == before.len() + k,
                forall|i: int| 0 <= i < before.len() ==> rows@[i] == before[i],
                forall|i: int|
                    before.len() <= i < rows@.len() ==> (#[trigger] rows@[i])@ == Seq::new(
                        cols as nat,
                        |c: int| BLANK,
                    ),
            decreases count - k,
        {
            let row = blank_row(cols);
            rows.push(row);
            k = k + 1;
        }
        self.vec = rows;
        proof {
            self.lemma_view();
            old(self).lemma_view();
            let want = old(self)@.extended((old(self)@.rows() + count) as nat, old(self)@.cols);
            lemma_extended(old(self)@, (old(self)@.rows() + count) as nat, old(self)@.cols);
            assert forall|r: int| 0 <= r < self.vec@.len() implies (#[trigger] self.vec@[r])@.len()
                == self.cols by {
                if r < before.len() {
                    assert(self.vec@[r] == before[r]);
                }
            }
            assert forall|r: int, c: int| self@.holds(r, c) implies self@.at(r, c) == want.at(
                r,
                c,
            ) by {
                assert(self@.cells[r] == self.vec@[r]@);
                if r < before.len() {
                    assert(self.vec@[r] == before[r]);
                    assert(old(self)@.cells[r] == before[r]@);
                }
            }
            lemma_plane_eq(self@, want);
        }
    }

    /// Appends `count` columns of blanks to every row.
    pub fn add_cols(&mut self, count: usize)
        requires
            old(self)@.wf(),
            old(self)@.cols + count <= usize::MAX,
        ensures
            final(self)@ == old(self)@.extended(old(self)@.rows(), (old(self)@.cols + count) as nat),
            final(self)@.wf(),
    {
        proof {
            self.lemma_view();
        }
        let cols = self.cols;
        let mut rows: Vec<Vec<u8>> = Vec::new();
        core::mem::swap(&mut rows, &mut self.vec);
        let ghost before = rows@;
        let n = rows.len();
        let mut r: usize = 0;
        while r < n
            invariant
                r <= n,
                n == before.len(),
                rows@.len() == n,
                forall|i: int| r <= i < n ==> rows@[i] == before[i],
                forall|i: int|
                    0 <= i < r ==> (#[trigger] rows@[i])@ == before[i]@ + Seq::new(
                        count as nat,
                        |c: int| BLANK,
                    ),
            decreases n - r,
        {
            pad_row(&mut rows[r], count);
            r = r + 1;
        }
        self.cols = cols + count;
        self.vec = rows;
        proof {
            self.lemma_view();
            old(self).lemma_view();
            let want = old(self)@.extended(old(self)@.rows(), (old(self)@.cols + count) as nat);
            lemma_extended(old(self)@, old(self)@.rows(), (old(self)@.cols + count) as nat);
            assert forall|r: int| 0 <= r < self.vec@.len() implies (#[trigger] self.vec@[r])@.len()
                == self.cols by {
                assert(before[r]@.len() == cols);
            }
            assert forall|r: int, c: int| self@.holds(r, c) implies self@.at(r, c) == want.at(
                r,
                c,
            ) by {
                assert(self@.cells[r] == self.vec@[r]@);
                assert(old(self)@.cells[r] == before[r]@);
                assert(before[r]@.len() == cols);
            }
            lemma_plane_eq(self@, want);
        }
    }

    /// The byte at `(row, col)`; `BLANK` outside the extents. Reading never
    /// grows the grid.
    pub fn read(&self, row: usize, col: usize) -> (b: u8)
        requires
            self@.wf(),
        ensures
            b == self@.at(row as int, col as int),
    {
        proof {
            self.lemma_view();
        }
        if row < self.vec.len() && col < self.cols {
            self.vec[row][col]
        } else {
            BLANK
        }
    }

    /// The grid as text: each byte as the character with that code point,
    /// each row on a line of its own.
    pub fn to_text(&self) -> (text: String)
        requires
            self@.wf(),
        ensures
            text@ == rows_text(self@.cells),
    {
        proof {
            self.lemma_view();
        }
        let mut text = String::new();
        let rows = self.vec.len();
        let mut r: usize = 0;
        while r < rows
            invariant
                r <= rows,
                rows == self.vec@.len(),
                self@.cells.len() == rows,
                forall|i: int| 0 <= i < rows ==> (#[trigger] self@.cells[i]) == self.vec@[i]@,
                text@ == rows_text(self@.cells.take(r as int)),
            decreases rows - r,
        {
            if r > 0 {
                push_char(&mut text, '\n');
            }
            let ghost start = text@;
            let row = &self.vec[r];
            let n = row.len();
            let mut c: usize = 0;
            while c < n
                invariant
                    c <= n,
                    n == row@.len(),
                    text@ == start + row_text(row@.take(c as int)),
                decreases n - c,
            {
                push_char(&mut text, row[c] as char);
                c = c + 1;
                assert(row_text(row@.take(c as int)) =~= row_text(row@.take(c - 1)).push(
                    row@[c - 1] as char,
                ));
                assert(text@ =~= start + row_text(row@.take(c as int)));
            }
            proof {
                let done = self@.cells.take(r + 1);
                assert(row@.take(n as int) =~= row@);
                assert(done.drop_last() =~= self@.cells.take(r as int));
                assert(done.last() == row@);
                if r == 0 {
                    assert(done[0] == row@);
                    assert(row_text(row@.take(0)) =~= Seq::<char>::empty());
                    assert(start =~= Seq::<char>::empty());
                    assert(text@ =~= row_text(row@));
                }
            }
            r = r + 1;
        }
        assert(self@.cells.take(rows as int) =~= self@.cells);
        text
    }

    /// The cell at `pos`, given as `(row, column)`, for reading or writing.
    /// The grid is first grown to hold the cell.
    pub fn pos(&mut self, pos: (usize, usize)) -> (cell: &mut u8)
        requires
            old(self)@.wf(),
            pos.0 < usize::MAX,
            pos.1 < usize::MAX,
        ensures
            *cell == old(self)@.at(pos.0 as int, pos.1 as int),
            final(self)@ == old(self)@.put(pos.0 as nat, pos.1 as nat, *final(cell)),
            final(self)@.wf(),
    {
        let (row, col) = pos;
        if col >= self.cols {
            self.add_cols(col - self.cols + 1);
        }
        if row >= self.rows() {
            self.add_rows(row - self.rows() + 1);
        }
        let ghost mid = *self;
        proof {
            let before = old(self)@;
            lemma_grown(before, row as nat, col as nat);
            lemma_extended(before, before.rows(), before.grown(row as nat, col as nat).cols);
            let wide = before.extended(before.rows(), before.grown(row as nat, col as nat).cols);
            lemma_extended(wide, before.grown(row as nat, col as nat).rows(), wide.cols);
            lemma_plane_eq(mid@, before.grown(row as nat, col as nat));
            mid.lemma_view();
            let r = row as int;
            let c = col as int;
            assert(mid@.cells[r] == mid.vec@[r]@);
            assert(mid.vec@[r]@[c] == before.at(r, c));
            assert forall|a: Area, v: u8|
                #![trigger a@, before.put(row as nat, col as nat, v)]
                a.cols == mid.cols && a.vec@.len() == mid.vec@.len() && a.vec@[r]@
                    == mid.vec@[r]@.update(c, v) && (forall|i: int|
                    0 <= i < mid.vec@.len() && i != r ==> a.vec@[i] == mid.vec@[i]) implies a@
                    == before.put(row as nat, col as nat, v) by {
                let want = before.put(row as nat, col as nat, v);
                lemma_put(before, row as nat, col as nat, v);
                a.lemma_view();
                assert forall|i: int| 0 <= i < a.vec@.len() implies (#[trigger] a.vec@[i])@.len()
                    == a.cols by {
                    assert(mid.vec@[i]@.len() == mid.cols);
                }
                assert forall|i: int, j: int| a@.holds(i, j) implies a@.at(i, j) == want.at(
                    i,
                    j,
                ) by {
                    assert(a@.cells[i] == a.vec@[i]@);
                    assert(mid@.cells[i] == mid.vec@[i]@);
                    assert(mid@.at(i, j) == before.at(i, j));
                }
                lemma_plane_eq(a@, want);
            }
        }
        &mut self.vec[row][col]
    }

    /// Writes `value` at `(row, col)`, growing the grid first where the cell
    /// lies outside it.
    pub fn write(&mut self, row: usize, col: usize, value: u8)
        requires
            old(self)@.wf(),
            row < usize::MAX,
            col < usize::MAX,
        ensures
            final(self)@ == old(self)@.put(row as nat, col as nat, value),
            final(self)@.wf(),
    {
        let cell = self.pos((row, col));
        *cell = value;
    }
}

} // verus!
