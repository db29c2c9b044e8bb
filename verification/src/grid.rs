//! The grid of cells and its mathematical model.
//!
//! Coordinates are `(column, row)`. Row 0 is the bottom of the grid, so a
//! falling grain moves towards smaller rows.

use vstd::prelude::*;
use vstd::seq_lib::*;
use crate::particle::Particle;

verus! {

/// The one way in which an access to the grid can fail.
#[derive(Clone, Copy, Debug, PartialEq, Eq, Structural)]
pub enum GridError {
    /// The coordinates name no cell of the grid.
    OutOfBounds,
}

/// What a grid is, mathematically: its dimensions and its cells, one column
/// after the other, each column from row 0 upwards.
pub struct GridView {
    pub width: usize,
    pub height: usize,
    pub cells: Seq<Particle>,
}

impl GridView {
    /// A grid has at least one cell, and exactly one particle per cell.
    pub open spec fn wf(self) -> bool {
        &&& self.width >= 1
        &&& self.height >= 1
        &&& self.cells.len() == self.width * self.height
    }

    /// Whether `(col, row)` names a cell of the grid.
    pub open spec fn contains(self, col: int, row: int) -> bool {
        0 <= col < self.width && 0 <= row < self.height
    }

    /// Where the cell `(col, row)` stands in `cells`.
    pub open spec fn offset(self, col: int, row: int) -> int {
        col * self.height + row
    }

    /// The particle in the cell `(col, row)`.
    pub open spec fn at(self, col: int, row: int) -> Particle {
        self.cells[self.offset(col, row)]
    }

    /// The grid with the cell `(col, row)` overwritten by `value`.
    pub open spec fn with_cell(self, col: int, row: int, value: Particle) -> GridView {
        GridView { cells: self.cells.update(self.offset(col, row), value), ..self }
    }

    /// The grid with the contents of the cells `a` and `b` exchanged.
    pub open spec fn swapped(self, a: (int, int), b: (int, int)) -> GridView {
        self.with_cell(a.0, a.1, self.at(b.0, b.1)).with_cell(b.0, b.1, self.at(a.0, a.1))
    }

    /// The grid of the given dimensions in which every cell is empty.
    pub open spec fn blank(width: usize, height: usize) -> GridView {
        GridView {
            width,
            height,
            cells: Seq::new((width * height) as nat, |k: int| Particle::Empty),
        }
    }

    /// How many cells hold the particle `p`.
    pub open spec fn census(self, p: Particle) -> nat {
        self.cells.to_multiset().count(p)
    }

    /// How many cells are not empty.
    pub open spec fn occupied(self) -> nat {
        (self.cells.len() - self.census(Particle::Empty)) as nat
    }

    /// Every cell of a well-formed grid has a place in `cells`.
    pub proof fn lemma_offset_in_range(self, col: int, row: int)
        requires
            self.wf(),
            self.contains(col, row),
        ensures
            0 <= self.offset(col, row) < self.cells.len(),
    {
        let h = self.height as int;
        let w = self.width as int;
        assert(0 <= col * h && col * h + h <= w * h) by (nonlinear_arith)
            requires
                0 <= col < w,
                0 <= h,
        ;
    }

    /// Two different cells never share a place in `cells`.
    pub proof fn lemma_offset_injective(self, a: (int, int), b: (int, int))
        requires
            self.contains(a.0, a.1),
            self.contains(b.0, b.1),
            self.offset(a.0, a.1) == self.offset(b.0, b.1),
        ensures
            a == b,
    {
        let h = self.height as int;
        assert(a.0 == b.0) by (nonlinear_arith)
            requires
                a.0 * h + a.1 == b.0 * h + b.1,
                0 <= a.1 < h,
                0 <= b.1 < h,
        ;
    }

    /// Overwriting a cell is seen at that cell and at no other.
    pub proof fn lemma_with_cell(self, col: int, row: int, value: Particle, c: int, r: int)
        requires
            self.wf(),
            self.contains(col, row),
            self.contains(c, r),
        ensures
            self.with_cell(col, row, value).wf(),
            self.with_cell(col, row, value).at(c, r) == if (c, r) == (col, row) {
                value
            } else {
                self.at(c, r)
            },
    {
        self.lemma_offset_in_range(col, row);
        self.lemma_offset_in_range(c, r);
        if self.offset(c, r) == self.offset(col, row) {
            self.lemma_offset_injective((c, r), (col, row));
        }
    }

    /// Overwriting a cell changes the count of the particle that goes and of
    /// the particle that comes, and of no other.
    pub proof fn lemma_with_cell_census(self, col: int, row: int, value: Particle, p: Particle)
        requires
            self.wf(),
            self.contains(col, row),
        ensures
            self.with_cell(col, row, value).census(p) == self.census(p) + (if value == p {
                1int
            } else {
                0int
            }) - (if self.at(col, row) == p {
                1int
            } else {
                0int
            }),
    {
        let k = self.offset(col, row);
        self.lemma_offset_in_range(col, row);
        to_multiset_update(self.cells, k, value);
        to_multiset_contains(self.cells, self.cells[k]);
    }

    /// Overwriting a cell changes the number of occupied cells by one where
    /// an empty cell is filled or a filled one emptied, and not at all
    /// otherwise.
    pub proof fn lemma_with_cell_occupied(self, col: int, row: int, value: Particle)
        requires
            self.wf(),
            self.contains(col, row),
        ensures
            self.with_cell(col, row, value).occupied() == self.occupied() + (if value
                != Particle::Empty {
                1int
            } else {
                0int
            }) - (if self.at(col, row) != Particle::Empty {
                1int
            } else {
                0int
            }),
    {
        let after = self.with_cell(col, row, value);
        self.lemma_offset_in_range(col, row);
        self.lemma_with_cell_census(col, row, value, Particle::Empty);
        self.lemma_census_bounded(Particle::Empty);
        after.lemma_census_bounded(Particle::Empty);
    }

    /// No particle is counted more often than there are cells.
    pub proof fn lemma_census_bounded(self, p: Particle)
        ensures
            self.census(p) <= self.cells.len(),
    {
        to_multiset_len(self.cells);
    }

    /// Exchanging two cells is seen at those two cells and at no other.
    pub proof fn lemma_swapped(self, a: (int, int), b: (int, int), c: int, r: int)
        requires
            self.wf(),
            self.contains(a.0, a.1),
            self.contains(b.0, b.1),
            self.contains(c, r),
        ensures
            self.swapped(a, b).wf(),
            self.swapped(a, b).at(c, r) == if (c, r) == b {
                self.at(a.0, a.1)
            } else if (c, r) == a {
                self.at(b.0, b.1)
            } else {
                self.at(c, r)
            },
    {
        let mid = self.with_cell(a.0, a.1, self.at(b.0, b.1));
        self.lemma_with_cell(a.0, a.1, self.at(b.0, b.1), c, r);
        mid.lemma_with_cell(b.0, b.1, self.at(a.0, a.1), c, r);
    }

    /// Exchanging two cells moves particles about and neither adds nor
    /// removes any.
    pub proof fn lemma_swapped_keeps_particles(self, a: (int, int), b: (int, int))
        requires
            self.wf(),
            self.contains(a.0, a.1),
            self.contains(b.0, b.1),
        ensures
            self.swapped(a, b).cells.to_multiset() == self.cells.to_multiset(),
            self.swapped(a, b).cells.len() == self.cells.len(),
    {
        let i = self.offset(a.0, a.1);
        let j = self.offset(b.0, b.1);
        self.lemma_offset_in_range(a.0, a.1);
        self.lemma_offset_in_range(b.0, b.1);
        let mid = self.cells.update(i, self.cells[j]);
        to_multiset_update(self.cells, i, self.cells[j]);
        to_multiset_update(mid, j, self.cells[i]);
        self.cells.to_multiset_ensures();
    }
}

/// A rectangle of cells whose dimensions are fixed when it is made.
#[derive(Debug, PartialEq, Eq)]
pub struct Grid {
    width: usize,
    height: usize,
    cells: Vec<Particle>,
}

impl View for Grid {
    type V = GridView;

    /// The dimensions and the cells of the grid.
    closed spec fn view(&self) -> GridView {
        GridView { width: self.width, height: self.height, cells: self.cells@ }
    }
}

impl Clone for Grid {
    /// A grid of the same dimensions with the same particle in every cell.
    fn clone(&self) -> (copy: Grid)
        ensures
            copy@ == self@,
    {
        proof {
            use_type_invariant(self);
        }
        let cells = self.cells.clone();
        Grid { width: self.width, height: self.height, cells }
    }
}

impl Grid {
    /// What holds of every grid: it has at least one cell, and one particle
    /// per cell.
    #[verifier::type_invariant]
    pub open spec fn wf(&self) -> bool {
        self@.wf()
    }

    /// A grid of `width` columns and `height` rows, every cell empty.
    pub fn new(width: usize, height: usize) -> (grid: Grid)
        requires
            width >= 1,
            height >= 1,
            width * height <= usize::MAX,
        ensures
            grid.wf(),
            grid@ == GridView::blank(width, height),
    {
        let cells = vec![Particle::Empty; width * height];
        let grid = Grid { width, height, cells };
        assert(grid@.cells =~= GridView::blank(width, height).cells);
        grid
    }

    /// The number of columns and the number of rows.
    pub fn dimensions(&self) -> (dims: (usize, usize))
        ensures
            dims.0 == self@.width,
            dims.1 == self@.height,
    {
        (self.width, self.height)
    }

    /// Whether `(col, row)` names a cell of the grid.
    pub fn in_bounds(&self, col: usize, row: usize) -> (b: bool)
        ensures
            b == self@.contains(col as int, row as int),
    {
        col < self.width && row < self.height
    }

    /// Where the cell `(col, row)` stands in the buffer.
    fn offset(&self, col: usize, row: usize) -> (k: usize)
        requires
            self@.contains(col as int, row as int),
        ensures
            k == self@.offset(col as int, row as int),
            k < self.cells.len(),
    {
        proof {
            use_type_invariant(self);
            self@.lemma_offset_in_range(col as int, row as int);
            assert(self@.cells.len() == self.cells.len());
        }
        col * self.height + row
    }

    /// The particle in a cell that is known to lie on the grid.
    pub fn at(&self, col: usize, row: usize) -> (p: Particle)
        requires
            self@.contains(col as int, row as int),
        ensures
            p == self@.at(col as int, row as int),
    {
        let k = self.offset(col, row);
        self.cells[k]
    }

    /// Exchanges the contents of two cells that are known to lie on the grid.
    pub fn swap(&mut self, a: (usize, usize), b: (usize, usize))
        requires
            old(self)@.contains(a.0 as int, a.1 as int),
            old(self)@.contains(b.0 as int, b.1 as int),
        ensures
            final(self)@ == old(self)@.swapped((a.0 as int, a.1 as int), (b.0 as int, b.1 as int)),
    {
        proof {
            use_type_invariant(&*self);
        }
        let i = self.offset(a.0, a.1);
        let j = self.offset(b.0, b.1);
        let p = self.cells[i];
        let q = self.cells[j];
        self.cells[i] = q;
        self.cells[j] = p;
    }

    /// The particle in the cell `(col, row)`, or `OutOfBounds` where the grid
    /// has no such cell.
    pub fn get(&self, col: usize, row: usize) -> (result: Result<Particle, GridError>)
        ensures
            self@.contains(col as int, row as int) ==> result == Ok::<Particle, GridError>(
                self@.at(col as int, row as int),
            ),
            !self@.contains(col as int, row as int) ==> result == Err::<Particle, GridError>(
                GridError::OutOfBounds,
            ),
    {
        if self.in_bounds(col, row) {
            Ok(self.at(col, row))
        } else {
            Err(GridError::OutOfBounds)
        }
    }

    /// Overwrites the cell `(col, row)` with `value`, whatever it held. Where
    /// the grid has no such cell it is left as it was and `OutOfBounds` comes
    /// back.
    pub fn set(&mut self, col: usize, row: usize, value: Particle) -> (result: Result<
        (),
        GridError,
    >)
        ensures
            old(self)@.contains(col as int, row as int) ==> result == Ok::<(), GridError>(())
                && final(self)@ == old(self)@.with_cell(col as int, row as int, value),
            !old(self)@.contains(col as int, row as int) ==> result == Err::<(), GridError>(
                GridError::OutOfBounds,
            ) && final(self)@ == old(self)@,
    {
        proof {
            use_type_invariant(&*self);
        }
        if self.in_bounds(col, row) {
            let k = self.offset(col, row);
            self.cells[k] = value;
            Ok(())
        } else {
            Err(GridError::OutOfBounds)
        }
    }

    /// Empties every cell. The dimensions stay.
    pub fn clear(&mut self)
        ensures
            final(self)@ == GridView::blank(old(self)@.width, old(self)@.height),
    {
        proof {
            use_type_invariant(&*self);
        }
        let n = self.cells.len();
        let mut k: usize = 0;
        while k < n
            invariant
                k <= n,
                n == self.cells.len(),
                self.wf(),
                self.width == old(self).width,
                self.height == old(self).height,
                forall|i: int| 0 <= i < k ==> self.cells[i] == Particle::Empty,
            decreases n - k,
        {
            self.cells[k] = Particle::Empty;
            k += 1;
        }
        assert(self@.cells =~= GridView::blank(old(self)@.width, old(self)@.height).cells);
    }

    /// The number of cells that are not empty.
    pub fn occupied(&self) -> (n: usize)
        ensures
            n == self@.occupied(),
    {
        let total = self.cells.len();
        let mut n: usize = 0;
        let mut k: usize = 0;
        proof {
            to_multiset_contains(self.cells@.take(0), Particle::Empty);
        }
        while k < total
            invariant
                k <= total,
                total == self.cells.len(),
                n + self.cells@.take(k as int).to_multiset().count(Particle::Empty) == k,
            decreases total - k,
        {
            proof {
                let before = self.cells@.take(k as int);
                assert(self.cells@.take(k + 1) =~= before.push(self.cells@[k as int]));
                to_multiset_build(before, self.cells@[k as int]);
            }
            if self.cells[k].is_occupied() {
                n += 1;
            }
            k += 1;
        }
        assert(self.cells@.take(total as int) =~= self.cells@);
        n
    }
}

} // verus!
