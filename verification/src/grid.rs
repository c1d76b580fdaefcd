//! The simulation engine: the live grid, the tick that advances it, and the
//! operations that edit it between ticks.

use vstd::prelude::*;
use fastrand::Rng;
use crate::brush::{
    in_blast, in_disc, lemma_blast_is_symmetric, lemma_impulse_along_axis, push, pushed,
    within_blast, within_disc, MAX_SHADE,
};
use crate::cells::{bordered, cell_at, census, in_grid, interior, slot, CellArray};
use crate::element::{fresh, Cell, Element, Velocity};
use crate::fixed::clamped_sum;
use crate::movement::lemma_with_velocity_keeps;
use crate::random::{random_bool, random_u8};
use crate::rules::{step, step_cell, Draw};
use crate::scan::{lemma_scanned_prefix, scan_position, scanned, still, ticked};

pub use crate::cells::{create_cells_array, COLS, ROWS};

verus! {

/// Whether `(i, j)` lies strictly inside the border ring.
pub fn in_bound(i: usize, j: usize) -> (inside: bool)
    ensures
        inside == interior(i as int, j as int),
{
    i > 0 && j > 0 && i < COLS - 1 && j < ROWS - 1
}

/// The bytes of a color buffer that shows `cells`: with `p` counting the cells
/// row after row, bytes `4 * p` to `4 * p + 3` hold the red, green, blue and alpha
/// of the cell at column `p % COLS`, row `p / COLS`.
pub open spec fn packed_colors(cells: Seq<Cell>) -> Seq<u8> {
    Seq::new(
        (COLS * ROWS * 4) as nat,
        |n: int| cell_at(cells, (n / 4) % (COLS as int), (n / 4) / (COLS as int)).color[n % 4],
    )
}

/// `cell` is `template` as a brush may lay it down: darkened by some shade up
/// to `MAX_SHADE`.
pub open spec fn painted(cell: Cell, template: Cell) -> bool {
    exists|shade: u8| shade <= MAX_SHADE && cell == #[trigger] template.spec_shaded(shade)
}

/// `after` is `before` with `template` painted over the disc of a brush of the
/// given size, centred at `(i, j)`: the cell at `(p, q)` is painted if it lies
/// inside the border ring and `(i - p, j - q)` lies in the disc, and is as it was
/// otherwise.
pub open spec fn painted_disc(
    before: Seq<Cell>,
    after: Seq<Cell>,
    i: int,
    j: int,
    size: int,
    template: Cell,
) -> bool {
    forall|p: int, q: int|
        in_grid(p, q) ==> if interior(p, q) && in_disc(i - p, j - q, size) {
            painted(#[trigger] cell_at(after, p, q), template)
        } else {
            cell_at(after, p, q) == cell_at(before, p, q)
        }
}

/// The cell at `(p, q)` after an explosion of the given radius and force at
/// `(i, j)`, where `cell` stood there before it: the cell has received its
/// impulse if it lies inside the border ring and `(i - p, j - q)` lies in the disc
/// of the explosion, and is as it was otherwise.
pub open spec fn blasted(cell: Cell, p: int, q: int, i: int, j: int, radius: int, force: int) -> Cell {
    if interior(p, q) && in_blast(i - p, j - q, radius) {
        Cell { velocity: pushed(cell.velocity, i - p, j - q, force), ..cell }
    } else {
        cell
    }
}

/// `after` is `before` after an explosion of the given radius and force at
/// `(i, j)`.
pub open spec fn exploded(
    before: Seq<Cell>,
    after: Seq<Cell>,
    i: int,
    j: int,
    radius: int,
    force: int,
) -> bool {
    forall|p: int, q: int|
        in_grid(p, q) ==> #[trigger] cell_at(after, p, q) == blasted(
            cell_at(before, p, q),
            p,
            q,
            i,
            j,
            radius,
            force,
        )
}

/// An explosion reaches as far up as down: with `h` half its size, the cell `h`
/// rows above the centre and the cell `h` rows below it both receive the whole
/// force, the upper one upward and the lower one downward.
pub proof fn lemma_explosion_reaches_both_ends(
    before: Seq<Cell>,
    after: Seq<Cell>,
    i: int,
    j: int,
    radius: int,
    force: int,
)
    requires
        exploded(before, after, i, j, radius, force),
        radius >= 2,
        interior(i, j - radius / 2),
        interior(i, j + radius / 2),
    ensures
        cell_at(after, i, j - radius / 2).velocity == (Velocity {
            x: cell_at(before, i, j - radius / 2).velocity.x,
            y: clamped_sum(cell_at(before, i, j - radius / 2).velocity.y as int, -force),
        }),
        cell_at(after, i, j + radius / 2).velocity == (Velocity {
            x: cell_at(before, i, j + radius / 2).velocity.x,
            y: clamped_sum(cell_at(before, i, j + radius / 2).velocity.y as int, force),
        }),
{
    let h = radius / 2;
    lemma_blast_is_symmetric(0, h, radius);
    lemma_impulse_along_axis(h, force);
    lemma_impulse_along_axis(-h, force);
    assert(cell_at(after, i, j - h) == blasted(cell_at(before, i, j - h), i, j - h, i, j, radius, force));
    assert(cell_at(after, i, j + h) == blasted(cell_at(before, i, j + h), i, j + h, i, j, radius, force));
}

/// The state of a brush stroke that has come to column `a`, row `b`: the cells in
/// the columns before `a` and, in column `a`, in the rows before `b` are as
/// `painted_disc` says, the others as they were.
spec fn painted_through(
    before: Seq<Cell>,
    after: Seq<Cell>,
    i: int,
    j: int,
    size: int,
    template: Cell,
    a: int,
    b: int,
) -> bool {
    forall|p: int, q: int|
        in_grid(p, q) ==> if interior(p, q) && (p < a || (p == a && q < b)) && in_disc(
            i - p,
            j - q,
            size,
        ) {
            painted(#[trigger] cell_at(after, p, q), template)
        } else {
            cell_at(after, p, q) == cell_at(before, p, q)
        }
}

/// The state of an explosion that has come to column `a`, row `b`: the cells in
/// the columns before `a` and, in column `a`, in the rows before `b` are as
/// `exploded` says, the others as they were.
spec fn exploded_through(
    before: Seq<Cell>,
    after: Seq<Cell>,
    i: int,
    j: int,
    radius: int,
    force: int,
    a: int,
    b: int,
) -> bool {
    forall|p: int, q: int|
        in_grid(p, q) ==> #[trigger] cell_at(after, p, q) == (if p < a || (p == a && q < b) {
            blasted(cell_at(before, p, q), p, q, i, j, radius, force)
        } else {
            cell_at(before, p, q)
        })
}

/// The simulation: a `COLS` by `ROWS` grid of cells within a ring of `Solid`.
pub struct Grid {
    grid: CellArray,
    future_grid: CellArray,
    rng: Rng,
    bytes: Vec<u8>,
}

impl View for Grid {
    type V = Seq<Cell>;

    /// The cells of the live grid.
    closed spec fn view(&self) -> Seq<Cell> {
        self.grid@
    }
}

impl Grid {
    /// The scratch grid and the color buffer have their full size.
    pub closed spec fn buffers_wf(&self) -> bool {
        &&& self.future_grid.wf()
        &&& self.bytes@.len() == COLS * ROWS * 4
    }

    /// The grid holds a cell at every position and its border ring is `Solid`.
    pub open spec fn wf(&self) -> bool {
        &&& bordered(self@)
        &&& self.buffers_wf()
    }

    /// The color buffer, as `render` last filled it.
    pub closed spec fn colors(&self) -> Seq<u8> {
        self.bytes@
    }

    /// The cells of the scratch grid, which a tick works on: between ticks it
    /// holds the grid as it was before the last tick.
    pub closed spec fn scratch(&self) -> Seq<Cell> {
        self.future_grid@
    }

    /// A grid whose interior is `Air`, drawing its randomness from `rng`. The
    /// scratch grid starts with the same cells and the color buffer with zeros.
    pub fn new(rng: Rng) -> (grid: Grid)
        ensures
            grid.wf(),
            grid.scratch() == grid@,
            forall|i: int, j: int|
                in_grid(i, j) ==> #[trigger] cell_at(grid@, i, j) == fresh(
                    if interior(i, j) {
                        Element::Air
                    } else {
                        Element::Solid
                    },
                ),
            grid.colors() == Seq::new((COLS * ROWS * 4) as nat, |n: int| 0u8),
    {
        let bytes: Vec<u8> = vec![0u8; COLS * ROWS * 4];
        assert(bytes@ =~= Seq::new((COLS * ROWS * 4) as nat, |n: int| 0u8));
        let mut grid = create_cells_array();
        grid.enclose();
        let mut future_grid = create_cells_array();
        future_grid.copy_from(&grid);
        Grid { grid, future_grid, rng, bytes }
    }

    /// Advances the grid by one tick, with the direction of the scan drawn from
    /// the pseudorandom source. The border ring stays `Solid`, the census of the
    /// materials stays as it is, and a grid in which nothing can move is left
    /// unchanged. The scratch grid is left holding the grid as it was.
    pub fn update(&mut self)
        requires
            old(self).wf(),
        ensures
            final(self).wf(),
            exists|flip_x: bool, flip_y: bool, draws: Seq<Draw>| #[trigger]
                ticked(old(self)@, final(self)@, flip_x, flip_y, draws),
            bordered(final(self)@),
            census(final(self)@) == census(old(self)@),
            still(old(self)@) ==> final(self)@ == old(self)@,
            final(self).scratch() == old(self)@,
            final(self).colors() == old(self).colors(),
    {
        let flip_x = random_bool(&mut self.rng);
        let flip_y = random_bool(&mut self.rng);
        self.scan(flip_x, flip_y);
    }

    /// Advances the grid by one tick with a scan in the given direction: the
    /// columns are visited from the right if `flip_x` and the rows from the
    /// bottom if `flip_y`. The scan copies the grid into a scratch grid, visits
    /// every position once and applies to the scratch grid the rule of the
    /// material found there, and the scratch grid becomes the live grid.
    pub fn scan(&mut self, flip_x: bool, flip_y: bool)
        requires
            old(self).wf(),
        ensures
            final(self).wf(),
            exists|draws: Seq<Draw>| #[trigger]
                ticked(old(self)@, final(self)@, flip_x, flip_y, draws),
            bordered(final(self)@),
            census(final(self)@) == census(old(self)@),
            still(old(self)@) ==> final(self)@ == old(self)@,
            final(self).scratch() == old(self)@,
            final(self).colors() == old(self).colors(),
    {
        self.future_grid.copy_from(&self.grid);
        let ghost mut draws: Seq<Draw> = Seq::empty();
        let mut a: usize = 0;
        while a < COLS
            invariant
                a <= COLS,
                self.grid == old(self).grid,
                self.bytes == old(self).bytes,
                bordered(self.grid@),
                bordered(self.future_grid@),
                draws.len() == a * ROWS,
                forall|k: int| 0 <= k < draws.len() ==> (#[trigger] draws[k]).within_spread(),
                self.future_grid@ == scanned(self.grid@, flip_x, flip_y, draws, (a * ROWS) as nat),
                census(self.future_grid@) == census(self.grid@),
                still(self.grid@) ==> self.future_grid@ == self.grid@,
            decreases COLS - a,
        {
            let mut b: usize = 0;
            while b < ROWS
                invariant
                    a < COLS,
                    b <= ROWS,
                    self.grid == old(self).grid,
                    self.bytes == old(self).bytes,
                    bordered(self.grid@),
                    bordered(self.future_grid@),
                    draws.len() == a * ROWS + b,
                    forall|k: int| 0 <= k < draws.len() ==> (#[trigger] draws[k]).within_spread(),
                    self.future_grid@ == scanned(
                        self.grid@,
                        flip_x,
                        flip_y,
                        draws,
                        (a * ROWS + b) as nat,
                    ),
                    census(self.future_grid@) == census(self.grid@),
                    still(self.grid@) ==> self.future_grid@ == self.grid@,
                decreases ROWS - b,
            {
                let i = if flip_x { COLS - 1 - a } else { a };
                let j = if flip_y { ROWS - 1 - b } else { b };
                let ghost before = self.future_grid@;
                step_cell(&mut self.future_grid, &self.grid, &mut self.rng, i, j);
                proof {
                    let draw = choose|draw: Draw|
                        draw.within_spread() && self.future_grid@ == #[trigger] step(
                            before,
                            self.grid@,
                            i as int,
                            j as int,
                            draw,
                        );
                    let k = a * ROWS + b;
                    let longer = draws.push(draw);
                    lemma_scanned_prefix(self.grid@, flip_x, flip_y, draws, longer, k as nat);
                    assert(scan_position(k as int, flip_x, flip_y) == (i as int, j as int));
                    assert(longer[k as int] == draw);
                    assert(self.future_grid@ == scanned(
                        self.grid@,
                        flip_x,
                        flip_y,
                        longer,
                        (k + 1) as nat,
                    ));
                    if still(self.grid@) {
                        let at = self.grid@[slot(i as int, j as int)];
                        assert(at.element == Element::Air || at.element == Element::Solid);
                    }
                    draws = longer;
                }
                b += 1;
            }
            a += 1;
        }
        core::mem::swap(&mut self.grid, &mut self.future_grid);
        assert(ticked(old(self)@, self@, flip_x, flip_y, draws));
    }

    /// Fills the color buffer from the cells of the grid and returns it, ready
    /// to be shown as a `COLS` by `ROWS` image.
    pub fn render(&mut self) -> (bytes: &Vec<u8>)
        requires
            old(self).wf(),
        ensures
            final(self).wf(),
            final(self)@ == old(self)@,
            final(self).scratch() == old(self).scratch(),
            final(self).colors() == packed_colors(old(self)@),
            bytes@ == packed_colors(old(self)@),
    {
        self.update_bytes();
        &self.bytes
    }

    /// Writes the color of every cell into the color buffer.
    fn update_bytes(&mut self)
        requires
            old(self).wf(),
        ensures
            final(self).wf(),
            final(self)@ == old(self)@,
            final(self).scratch() == old(self).scratch(),
            final(self).colors() == packed_colors(old(self)@),
    {
        let mut p: usize = 0;
        while p < COLS * ROWS
            invariant
                p <= COLS * ROWS,
                self.grid == old(self).grid,
                self.future_grid == old(self).future_grid,
                self.wf(),
                forall|n: int| 0 <= n < 4 * p ==> #[trigger] self.bytes@[n] == self.grid@[n / 4].color[n % 4],
            decreases COLS * ROWS - p,
        {
            let color = self.grid.get(p % COLS, p / COLS).color;
            self.bytes[4 * p] = color[0];
            self.bytes[4 * p + 1] = color[1];
            self.bytes[4 * p + 2] = color[2];
            self.bytes[4 * p + 3] = color[3];
            p += 1;
        }
        assert(self.bytes@ =~= packed_colors(self.grid@));
    }

    /// The color buffer, as `render` last filled it: all zeros on a new grid.
    pub fn bytes(&self) -> (bytes: &Vec<u8>)
        ensures
            bytes@ == self.colors(),
    {
        &self.bytes
    }

    /// Puts `cell`, darkened by `shade`, at `(i, j)` if the position lies inside
    /// the border ring; otherwise does nothing.
    pub fn paint(&mut self, i: usize, j: usize, cell: &Cell, shade: u8)
        requires
            old(self).wf(),
        ensures
            final(self).wf(),
            final(self).colors() == old(self).colors(),
            final(self).scratch() == old(self).scratch(),
            final(self)@ == (if interior(i as int, j as int) {
                old(self)@.update(slot(i as int, j as int), cell.spec_shaded(shade))
            } else {
                old(self)@
            }),
    {
        if in_bound(i, j) {
            self.grid.set(i, j, cell.shaded(shade));
        }
    }

    /// Paints `cell` at `(i, j)`, darkened by a shade drawn between zero and
    /// `MAX_SHADE`, if the position lies inside the border ring; otherwise does
    /// nothing, and draws nothing.
    pub fn modify_element(&mut self, i: usize, j: usize, cell: &Cell)
        requires
            old(self).wf(),
        ensures
            final(self).wf(),
            final(self).colors() == old(self).colors(),
            final(self).scratch() == old(self).scratch(),
            !interior(i as int, j as int) ==> final(self)@ == old(self)@,
            interior(i as int, j as int) ==> exists|shade: u8|
                shade <= MAX_SHADE && final(self)@ == old(self)@.update(
                    slot(i as int, j as int),
                    #[trigger] cell.spec_shaded(shade),
                ),
    {
        if in_bound(i, j) {
            let shade = random_u8(&mut self.rng, MAX_SHADE);
            self.paint(i, j, cell, shade);
        }
    }

    /// Paints `cell` over the disc of a brush of size `brush_size` centred at
    /// `(i, j)`, each painted cell with a shade of its own.
    pub fn modify_elements(&mut self, i: usize, j: usize, brush_size: i32, cell: &Cell)
        requires
            old(self).wf(),
        ensures
            final(self).wf(),
            final(self).colors() == old(self).colors(),
            final(self).scratch() == old(self).scratch(),
            painted_disc(old(self)@, final(self)@, i as int, j as int, brush_size as int, *cell),
    {
        if brush_size <= 1 || i >= 0x8000_0000 || j >= 0x8000_0000 {
            assert forall|p: int, q: int| interior(p, q) implies !in_disc(
                i - p,
                j - q,
                brush_size as int,
            ) by {}
            return ;
        }
        let r: i32 = brush_size / 2;
        let mut a: usize = 1;
        while a < COLS - 1
            invariant
                1 <= a <= COLS - 1,
                i < 0x8000_0000,
                j < 0x8000_0000,
                r == brush_size / 2,
                self.wf(),
                self.colors() == old(self).colors(),
                self.scratch() == old(self).scratch(),
                painted_through(
                    old(self)@,
                    self@,
                    i as int,
                    j as int,
                    brush_size as int,
                    *cell,
                    a as int,
                    0,
                ),
            decreases COLS - a,
        {
            let x: i32 = i as i32 - a as i32;
            if -r <= x && x <= r {
                let mut b: usize = 1;
                while b < ROWS - 1
                    invariant
                        1 <= a < COLS - 1,
                        1 <= b <= ROWS - 1,
                        i < 0x8000_0000,
                        j < 0x8000_0000,
                        x == i - a,
                        self.wf(),
                        self.colors() == old(self).colors(),
                        self.scratch() == old(self).scratch(),
                self.scratch() == old(self).scratch(),
                        painted_through(
                            old(self)@,
                            self@,
                            i as int,
                            j as int,
                            brush_size as int,
                            *cell,
                            a as int,
                            b as int,
                        ),
                    decreases ROWS - b,
                {
                    let y: i32 = j as i32 - b as i32;
                    if within_disc(x, y, brush_size) {
                        let ghost before = self@;
                        self.modify_element(a, b, cell);
                        assert forall|p: int, q: int| in_grid(p, q) implies #[trigger] cell_at(
                            self@,
                            p,
                            q,
                        ) == (if p == a && q == b {
                            cell_at(self@, a as int, b as int)
                        } else {
                            cell_at(before, p, q)
                        }) by {}
                        assert(painted(cell_at(self@, a as int, b as int), *cell));
                    }
                    b += 1;
                }
            }
            a += 1;
        }
    }

    /// Gives every cell in the disc of an explosion of size `radius` centred at
    /// `(i, j)` an impulse of strength `force`, in velocity units, away from the
    /// centre. The disc is whole: it holds every cell no farther than half of
    /// `radius` from the centre. Only cells inside the border ring are pushed.
    pub fn explode(&mut self, i: usize, j: usize, radius: i32, force: i32)
        requires
            old(self).wf(),
        ensures
            final(self).wf(),
            final(self).colors() == old(self).colors(),
            final(self).scratch() == old(self).scratch(),
            exploded(old(self)@, final(self)@, i as int, j as int, radius as int, force as int),
            census(final(self)@) == census(old(self)@),
    {
        if radius <= 1 || i >= 0x8000_0000 || j >= 0x8000_0000 {
            assert forall|p: int, q: int| interior(p, q) && in_blast(
                i - p,
                j - q,
                radius as int,
            ) implies p == i && q == j by {}
            return ;
        }
        let r: i32 = radius / 2;
        let mut a: usize = 1;
        while a < COLS - 1
            invariant
                1 <= a <= COLS - 1,
                i < 0x8000_0000,
                j < 0x8000_0000,
                r == radius / 2,
                self.wf(),
                self.colors() == old(self).colors(),
                self.scratch() == old(self).scratch(),
                census(self@) == census(old(self)@),
                exploded_through(
                    old(self)@,
                    self@,
                    i as int,
                    j as int,
                    radius as int,
                    force as int,
                    a as int,
                    0,
                ),
            decreases COLS - a,
        {
            let x: i32 = i as i32 - a as i32;
            if -r <= x && x <= r {
                let mut b: usize = 1;
                while b < ROWS - 1
                    invariant
                        1 <= a < COLS - 1,
                        1 <= b <= ROWS - 1,
                        i < 0x8000_0000,
                        j < 0x8000_0000,
                        x == i - a,
                        self.wf(),
                        self.colors() == old(self).colors(),
                        self.scratch() == old(self).scratch(),
                self.scratch() == old(self).scratch(),
                        census(self@) == census(old(self)@),
                        exploded_through(
                            old(self)@,
                            self@,
                            i as int,
                            j as int,
                            radius as int,
                            force as int,
                            a as int,
                            b as int,
                        ),
                    decreases ROWS - b,
                {
                    let y: i32 = j as i32 - b as i32;
                    if within_blast(x, y, radius) {
                        let ghost before = self@;
                        let mut cell = *self.grid.get(a, b);
                        cell.velocity = push(cell.velocity, x, y, force);
                        proof {
                            lemma_with_velocity_keeps(before, a as int, b as int, cell.velocity);
                        }
                        self.grid.set(a, b, cell);
                        assert forall|p: int, q: int| in_grid(p, q) implies #[trigger] cell_at(
                            self@,
                            p,
                            q,
                        ) == (if p == a && q == b {
                            cell
                        } else {
                            cell_at(before, p, q)
                        }) by {}
                    }
                    b += 1;
                }
            }
            a += 1;
        }
    }

    /// The cell at column `i`, row `j`.
    pub fn get_cell(&self, i: usize, j: usize) -> (cell: &Cell)
        requires
            self.wf(),
            in_grid(i as int, j as int),
        ensures
            *cell == cell_at(self@, i as int, j as int),
    {
        self.grid.get(i, j)
    }
}

} // verus!
