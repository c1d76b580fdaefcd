//! The grid's storage: a flat buffer of cells with two-dimensional indexing.

use vstd::prelude::*;
use vstd::multiset::Multiset;
use crate::element::{air_element, fresh, solid_element, Cell, Element};

verus! {

/// Number of columns of the grid.
pub const COLS: usize = 640;

/// Number of rows of the grid.
pub const ROWS: usize = 360;

/// `(i, j)` names a cell of the grid: column `i`, row `j`.
pub open spec fn in_grid(i: int, j: int) -> bool {
    0 <= i < COLS && 0 <= j < ROWS
}

/// `(i, j)` lies strictly inside the border ring.
pub open spec fn interior(i: int, j: int) -> bool {
    0 < i < COLS - 1 && 0 < j < ROWS - 1
}

/// Where the cell at column `i`, row `j` stands in the flat buffer: rows follow
/// one another, and the column runs fastest.
pub open spec fn slot(i: int, j: int) -> int {
    j * COLS + i
}

/// The cell at column `i`, row `j`.
pub open spec fn cell_at(cells: Seq<Cell>, i: int, j: int) -> Cell {
    cells[slot(i, j)]
}

/// `cells` with the cells in slots `a` and `b` exchanged.
pub open spec fn swapped(cells: Seq<Cell>, a: int, b: int) -> Seq<Cell> {
    cells.update(a, cells[b]).update(b, cells[a])
}

/// Every position of the grid holds a cell and the border ring is `Solid`.
pub open spec fn bordered(cells: Seq<Cell>) -> bool {
    &&& cells.len() == COLS * ROWS
    &&& forall|i: int, j: int|
        in_grid(i, j) && !interior(i, j) ==> (#[trigger] cell_at(cells, i, j)).element
            == Element::Solid
}

/// How many cells of each material the grid holds.
pub open spec fn census(cells: Seq<Cell>) -> Multiset<Element> {
    cells.map_values(|c: Cell| c.element).to_multiset()
}

/// A `COLS` by `ROWS` buffer of cells on the heap.
pub struct CellArray {
    cells: Vec<Cell>,
}

impl View for CellArray {
    type V = Seq<Cell>;

    /// The cells, row after row.
    closed spec fn view(&self) -> Seq<Cell> {
        self.cells@
    }
}

impl CellArray {
    /// The buffer holds one cell for each position of the grid.
    pub open spec fn wf(&self) -> bool {
        self@.len() == COLS * ROWS
    }

    /// The cell at column `i`, row `j`.
    pub open spec fn at(&self, i: int, j: int) -> Cell {
        cell_at(self@, i, j)
    }

    /// The cell at column `i`, row `j`.
    pub fn get(&self, i: usize, j: usize) -> (cell: &Cell)
        requires
            self.wf(),
            in_grid(i as int, j as int),
        ensures
            *cell == self.at(i as int, j as int),
    {
        &self.cells[j * COLS + i]
    }

    /// Puts `cell` at column `i`, row `j`.
    pub fn set(&mut self, i: usize, j: usize, cell: Cell)
        requires
            old(self).wf(),
            in_grid(i as int, j as int),
        ensures
            final(self)@ == old(self)@.update(slot(i as int, j as int), cell),
            bordered(old(self)@) && (interior(i as int, j as int) || cell.element
                == Element::Solid) ==> bordered(final(self)@),
    {
        self.cells[j * COLS + i] = cell;
        proof {
            if bordered(old(self)@) && (interior(i as int, j as int) || cell.element
                == Element::Solid) {
                assert forall|p: int, q: int| in_grid(p, q) && !interior(p, q) implies (
                #[trigger] cell_at(self@, p, q)).element == Element::Solid by {
                    if p != i || q != j {
                        assert(cell_at(self@, p, q) == cell_at(old(self)@, p, q));
                    }
                }
            }
        }
    }

    /// Exchanges the cells at `(ai, aj)` and `(bi, bj)`.
    pub fn swap(&mut self, ai: usize, aj: usize, bi: usize, bj: usize)
        requires
            old(self).wf(),
            in_grid(ai as int, aj as int),
            in_grid(bi as int, bj as int),
        ensures
            final(self)@ == swapped(old(self)@, slot(ai as int, aj as int), slot(bi as int, bj as int)),
    {
        let a = self.cells[aj * COLS + ai];
        let b = self.cells[bj * COLS + bi];
        self.cells[aj * COLS + ai] = b;
        self.cells[bj * COLS + bi] = a;
    }

    /// Makes the border ring `Solid` and leaves the cells inside it as they are.
    pub fn enclose(&mut self)
        requires
            old(self).wf(),
        ensures
            bordered(final(self)@),
            forall|i: int, j: int|
                in_grid(i, j) ==> #[trigger] cell_at(final(self)@, i, j) == (if interior(i, j) {
                    cell_at(old(self)@, i, j)
                } else {
                    fresh(Element::Solid)
                }),
    {
        let solid = solid_element();
        let mut i: usize = 0;
        while i < COLS
            invariant
                i <= COLS,
                self.wf(),
                solid == fresh(Element::Solid),
                forall|p: int, q: int|
                    in_grid(p, q) ==> #[trigger] cell_at(self@, p, q) == (if p < i && (q == 0 || q
                        == ROWS - 1) {
                        solid
                    } else {
                        cell_at(old(self)@, p, q)
                    }),
            decreases COLS - i,
        {
            let ghost before = self@;
            self.set(i, 0, solid);
            self.set(i, ROWS - 1, solid);
            assert forall|p: int, q: int| in_grid(p, q) implies #[trigger] cell_at(self@, p, q)
                == (if p == i && (q == 0 || q == ROWS - 1) {
                solid
            } else {
                cell_at(before, p, q)
            }) by {}
            i += 1;
        }
        let mut j: usize = 0;
        while j < ROWS
            invariant
                j <= ROWS,
                self.wf(),
                solid == fresh(Element::Solid),
                forall|p: int, q: int|
                    in_grid(p, q) ==> #[trigger] cell_at(self@, p, q) == (if q == 0 || q == ROWS - 1
                        || (q < j && (p == 0 || p == COLS - 1)) {
                        solid
                    } else {
                        cell_at(old(self)@, p, q)
                    }),
            decreases ROWS - j,
        {
            let ghost before = self@;
            self.set(0, j, solid);
            self.set(COLS - 1, j, solid);
            assert forall|p: int, q: int| in_grid(p, q) implies #[trigger] cell_at(self@, p, q)
                == (if q == j && (p == 0 || p == COLS - 1) {
                solid
            } else {
                cell_at(before, p, q)
            }) by {}
            j += 1;
        }
    }

    /// Overwrites this buffer with the cells of `source`.
    pub fn copy_from(&mut self, source: &CellArray)
        requires
            old(self).wf(),
            source.wf(),
        ensures
            final(self)@ == source@,
    {
        let mut p: usize = 0;
        while p < COLS * ROWS
            invariant
                p <= COLS * ROWS,
                self.wf(),
                source.wf(),
                forall|q: int| 0 <= q < p ==> self@[q] == source@[q],
            decreases COLS * ROWS - p,
        {
            self.cells[p] = source.cells[p];
            p += 1;
        }
        assert(self@ =~= source@);
    }
}

/// A buffer in which every cell is `Air`.
pub fn create_cells_array() -> (cells: CellArray)
    ensures
        cells.wf(),
        forall|p: int| 0 <= p < COLS * ROWS ==> cells@[p] == fresh(Element::Air),
{
    let air = air_element();
    let mut cells: Vec<Cell> = Vec::with_capacity(COLS * ROWS);
    let mut p: usize = 0;
    while p < COLS * ROWS
        invariant
            p <= COLS * ROWS,
            cells@.len() == p,
            air == fresh(Element::Air),
            forall|q: int| 0 <= q < p ==> cells@[q] == air,
        decreases COLS * ROWS - p,
    {
        cells.push(air);
        p += 1;
    }
    CellArray { cells }
}

} // verus!
