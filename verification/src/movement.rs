//! The movement primitives: gravity, velocity-stepped motion, falling, rising and
//! gas diffusion. Each works on a grid buffer in place and reports whether it
//! relocated a cell.

use vstd::prelude::*;
use fastrand::Rng;
use crate::cells::{bordered, cell_at, census, in_grid, interior, slot, swapped, CellArray};
use crate::element::{Cell, Element, Velocity};
use crate::fixed::{add_clamped, clamped_sum, magnitude, truncated, SUBCELL};
use crate::random::{random_bool, random_i32};

verus! {

/// What gravity adds to a cell's downward velocity each tick.
pub const GRAVITY: i32 = 500;

/// `target` gives way to `mover`: it is `Air`, or strictly less dense.
pub open spec fn yields(target: Cell, mover: Cell) -> bool {
    target.element == Element::Air || target.density() < mover.density()
}

/// The cell at `(i, j)` may move to `(ti, tj)`.
pub open spec fn can_move(cells: Seq<Cell>, i: int, j: int, ti: int, tj: int) -> bool {
    in_grid(ti, tj) && yields(cell_at(cells, ti, tj), cell_at(cells, i, j))
}

/// `cells` with the cells at `(i, j)` and `(ti, tj)` exchanged.
pub open spec fn relocated(cells: Seq<Cell>, i: int, j: int, ti: int, tj: int) -> Seq<Cell> {
    swapped(cells, slot(i, j), slot(ti, tj))
}

/// `cells` with the velocity of the cell at `(i, j)` replaced by `v`.
pub open spec fn with_velocity(cells: Seq<Cell>, i: int, j: int, v: Velocity) -> Seq<Cell> {
    cells.update(slot(i, j), Cell { velocity: v, ..cell_at(cells, i, j) })
}

/// The grid after gravity has acted on the cell at `(i, j)`.
pub open spec fn after_gravity(cells: Seq<Cell>, i: int, j: int) -> Seq<Cell> {
    let v = cell_at(cells, i, j).velocity;
    with_velocity(cells, i, j, Velocity { x: v.x, y: clamped_sum(v.y as int, GRAVITY as int) })
}

/// The grid after the cell at `(i, j)` has tried to move to `(ti, tj)`.
pub open spec fn after_move(cells: Seq<Cell>, i: int, j: int, ti: int, tj: int) -> Seq<Cell> {
    if can_move(cells, i, j, ti, tj) {
        relocated(cells, i, j, ti, tj)
    } else {
        cells
    }
}

/// In a bordered grid a cell that gives way stands inside the border ring.
pub proof fn lemma_yielding_is_interior(cells: Seq<Cell>, i: int, j: int, ti: int, tj: int)
    requires
        bordered(cells),
        can_move(cells, i, j, ti, tj),
    ensures
        interior(ti, tj),
{
    if !interior(ti, tj) {
        assert(cell_at(cells, ti, tj).element == Element::Solid);
    }
}

/// Exchanging two cells inside the border ring keeps the border and the census.
pub proof fn lemma_relocated_keeps(cells: Seq<Cell>, i: int, j: int, ti: int, tj: int)
    requires
        bordered(cells),
        interior(i, j),
        interior(ti, tj),
    ensures
        bordered(relocated(cells, i, j, ti, tj)),
        census(relocated(cells, i, j, ti, tj)) == census(cells),
{
    let a = slot(i, j);
    let b = slot(ti, tj);
    let after = relocated(cells, i, j, ti, tj);
    assert forall|x: int, y: int| in_grid(x, y) && !interior(x, y) implies (#[trigger] cell_at(
        after,
        x,
        y,
    )).element == Element::Solid by {
        assert(slot(x, y) != a && slot(x, y) != b);
        assert(cell_at(after, x, y) == cell_at(cells, x, y));
    }
    let f = |c: Cell| c.element;
    let elements = cells.map_values(f);
    let mid = elements.update(a, elements[b]);
    assert(after.map_values(f) =~= mid.update(b, elements[a]));
    vstd::seq_lib::to_multiset_update(elements, a, elements[b]);
    vstd::seq_lib::to_multiset_update(mid, b, elements[a]);
    elements.to_multiset_ensures();
    if a == b {
        assert(mid =~= elements);
        assert(mid.update(b, elements[a]) =~= elements);
    } else {
        assert(mid[b] == elements[b]);
        assert(elements.to_multiset().count(elements[a]) > 0) by {
            assert(elements.contains(elements[a]));
        }
        assert(elements.to_multiset().count(elements[b]) > 0) by {
            assert(elements.contains(elements[b]));
        }
        assert(mid.update(b, elements[a]).to_multiset() =~= elements.to_multiset());
    }
}

/// Changing a velocity keeps the border and the census.
pub proof fn lemma_with_velocity_keeps(cells: Seq<Cell>, i: int, j: int, v: Velocity)
    requires
        bordered(cells),
        in_grid(i, j),
    ensures
        bordered(with_velocity(cells, i, j, v)),
        census(with_velocity(cells, i, j, v)) == census(cells),
{
    let after = with_velocity(cells, i, j, v);
    assert forall|x: int, y: int| in_grid(x, y) && !interior(x, y) implies (#[trigger] cell_at(
        after,
        x,
        y,
    )).element == Element::Solid by {
        assert(cell_at(after, x, y).element == cell_at(cells, x, y).element);
    }
    assert(after.map_values(|c: Cell| c.element) =~= cells.map_values(|c: Cell| c.element));
}

/// Adds the gravitational increment to the downward velocity of the cell at
/// `(i, j)`: no relocation takes place.
pub fn apply_gravity(cells: &mut CellArray, i: usize, j: usize)
    requires
        bordered(old(cells)@),
        interior(i as int, j as int),
    ensures
        final(cells)@ == after_gravity(old(cells)@, i as int, j as int),
        bordered(final(cells)@),
        census(final(cells)@) == census(old(cells)@),
{
    let mut cell = *cells.get(i, j);
    cell.velocity.y = add_clamped(cell.velocity.y, GRAVITY);
    cells.set(i, j, cell);
    proof {
        let v = (Velocity { x: cell.velocity.x, y: cell.velocity.y });
        lemma_with_velocity_keeps(old(cells)@, i as int, j as int, v);
    }
}

/// Whether `target` gives way to `mover`.
pub fn gives_way(target: &Cell, mover: &Cell) -> (b: bool)
    ensures
        b == yields(*target, *mover),
{
    target.element == Element::Air || target.density() < mover.density()
}

/// Moves the cell at `(i, j)` to `(ti, tj)` if the cell there gives way.
fn try_move(cells: &mut CellArray, i: usize, j: usize, ti: usize, tj: usize) -> (moved: bool)
    requires
        bordered(old(cells)@),
        interior(i as int, j as int),
        in_grid(ti as int, tj as int),
    ensures
        moved == can_move(old(cells)@, i as int, j as int, ti as int, tj as int),
        final(cells)@ == after_move(old(cells)@, i as int, j as int, ti as int, tj as int),
        bordered(final(cells)@),
        census(final(cells)@) == census(old(cells)@),
{
    if gives_way(cells.get(ti, tj), cells.get(i, j)) {
        proof {
            lemma_yielding_is_interior(cells@, i as int, j as int, ti as int, tj as int);
            lemma_relocated_keeps(cells@, i as int, j as int, ti as int, tj as int);
        }
        cells.swap(i, j, ti, tj);
        true
    } else {
        false
    }
}

/// Lets the cell at `(i, j)` fall one row: it changes places with the cell
/// directly below if that cell gives way.
pub fn downward(cells: &mut CellArray, i: usize, j: usize) -> (moved: bool)
    requires
        bordered(old(cells)@),
        interior(i as int, j as int),
    ensures
        moved == can_move(old(cells)@, i as int, j as int, i as int, j + 1),
        final(cells)@ == after_move(old(cells)@, i as int, j as int, i as int, j + 1),
        bordered(final(cells)@),
        census(final(cells)@) == census(old(cells)@),
{
    try_move(cells, i, j, i, j + 1)
}

/// Lets the cell at `(i, j)` rise one row: it changes places with the cell
/// directly above if that cell gives way.
pub fn upward(cells: &mut CellArray, i: usize, j: usize) -> (moved: bool)
    requires
        bordered(old(cells)@),
        interior(i as int, j as int),
    ensures
        moved == can_move(old(cells)@, i as int, j as int, i as int, j - 1),
        final(cells)@ == after_move(old(cells)@, i as int, j as int, i as int, j - 1),
        bordered(final(cells)@),
        census(final(cells)@) == census(old(cells)@),
{
    try_move(cells, i, j, i, j - 1)
}

/// The cell at `(i, j)` can slide to one of the two cells diagonally below.
pub open spec fn can_slide(cells: Seq<Cell>, i: int, j: int) -> bool {
    can_move(cells, i, j, i - 1, j + 1) || can_move(cells, i, j, i + 1, j + 1)
}

/// The grid after the cell at `(i, j)` has tried the two cells diagonally below,
/// the left one first if `left_first`, and moved to the first that gave way.
pub open spec fn after_slide(cells: Seq<Cell>, i: int, j: int, left_first: bool) -> Seq<Cell> {
    let first = if left_first { i - 1 } else { i + 1 };
    let second = if left_first { i + 1 } else { i - 1 };
    if can_move(cells, i, j, first, j + 1) {
        relocated(cells, i, j, first, j + 1)
    } else {
        after_move(cells, i, j, second, j + 1)
    }
}

/// Lets the cell at `(i, j)` slide diagonally down, trying the left side first
/// if `left_first` and the right side first otherwise.
pub fn downward_sides_from(cells: &mut CellArray, i: usize, j: usize, left_first: bool) -> (moved:
    bool)
    requires
        bordered(old(cells)@),
        interior(i as int, j as int),
    ensures
        moved == can_slide(old(cells)@, i as int, j as int),
        final(cells)@ == after_slide(old(cells)@, i as int, j as int, left_first),
        bordered(final(cells)@),
        census(final(cells)@) == census(old(cells)@),
{
    let first = if left_first { i - 1 } else { i + 1 };
    let second = if left_first { i + 1 } else { i - 1 };
    if try_move(cells, i, j, first, j + 1) {
        true
    } else {
        try_move(cells, i, j, second, j + 1)
    }
}

/// Lets the cell at `(i, j)` slide diagonally down, trying the two sides in an
/// order drawn from `rng`.
pub fn downward_sides(cells: &mut CellArray, rng: &mut Rng, i: usize, j: usize) -> (moved: bool)
    requires
        bordered(old(cells)@),
        interior(i as int, j as int),
    ensures
        moved == can_slide(old(cells)@, i as int, j as int),
        exists|left_first: bool|
            final(cells)@ == after_slide(old(cells)@, i as int, j as int, left_first),
        bordered(final(cells)@),
        census(final(cells)@) == census(old(cells)@),
{
    let left_first = random_bool(rng);
    downward_sides_from(cells, i, j, left_first)
}

/// The larger of the magnitudes of the two components of `v`.
pub open spec fn span(v: Velocity) -> int {
    if magnitude(v.x as int) >= magnitude(v.y as int) {
        magnitude(v.x as int)
    } else {
        magnitude(v.y as int)
    }
}

/// The number of cells that a cell with velocity `v` tries to cover in one tick.
pub open spec fn stride(v: Velocity) -> int {
    span(v) / (SUBCELL as int)
}

/// How far, in cells, a velocity component `c` has carried a cell after `m` steps
/// along a velocity whose larger component has magnitude `span`: `m * c / span`,
/// rounded toward zero.
pub open spec fn along(c: int, m: int, span: int) -> int {
    truncated(m * c, span)
}

/// The `m`-th cell on the path of a cell that leaves `(i, j)` with velocity `v`.
/// Each step moves one cell along the larger component of `v` and at most one
/// along the other.
pub open spec fn path_cell(i: int, j: int, v: Velocity, m: int) -> (int, int) {
    (i + along(v.x as int, m, span(v)), j + along(v.y as int, m, span(v)))
}

/// The number of steps that the cell at `(i, j)` makes along its velocity, given
/// that it has made `m`: it stops before the first cell that does not give way,
/// and after `stride` steps at the latest.
pub open spec fn travel(cells: Seq<Cell>, i: int, j: int, m: int) -> int
    decreases stride(cell_at(cells, i, j).velocity) - m,
{
    let v = cell_at(cells, i, j).velocity;
    let next = path_cell(i, j, v, m + 1);
    if 0 <= m < stride(v) && can_move(cells, i, j, next.0, next.1) {
        travel(cells, i, j, m + 1)
    } else {
        m
    }
}

/// The grid after the cell at `(i, j)` has moved along its velocity: it changes
/// places with the last cell of its path that it reached, if it reached any.
pub open spec fn after_velocity(cells: Seq<Cell>, i: int, j: int) -> Seq<Cell> {
    let m = travel(cells, i, j, 0);
    let end = path_cell(i, j, cell_at(cells, i, j).velocity, m);
    if m > 0 {
        relocated(cells, i, j, end.0, end.1)
    } else {
        cells
    }
}

/// One more step along a path moves a cell by at most one position in each
/// direction, and never backward.
pub proof fn lemma_along_step(c: int, m: int, span: int)
    requires
        0 <= m,
        0 < span,
        magnitude(c) <= span,
    ensures
        c >= 0 ==> along(c, m + 1, span) == ((m + 1) * c) / span,
        c < 0 ==> along(c, m + 1, span) == -(((m + 1) * (-c)) / span),
        c >= 0 ==> along(c, m, span) <= along(c, m + 1, span) <= along(c, m, span) + 1,
        c < 0 ==> along(c, m, span) - 1 <= along(c, m + 1, span) <= along(c, m, span),
        along(c, 0, span) == 0,
        magnitude(c) == span ==> magnitude(along(c, m, span)) == m,
{
    let a = magnitude(c);
    assert((m + 1) * a == m * a + a) by (nonlinear_arith);
    assert(0 <= m * a) by (nonlinear_arith)
        requires
            0 <= m,
            0 <= a,
    ;
    assert(c >= 0 ==> m * c == m * a && (m + 1) * c == (m + 1) * a);
    if c < 0 {
        assert(m * c == -(m * a) && (m + 1) * c == -((m + 1) * a) && (m + 1) * (-c) == (m + 1)
            * a) by (nonlinear_arith)
            requires
                a == -c,
        ;
    }
    vstd::arithmetic::div_mod::lemma_div_is_ordered(m * a, m * a + a, span);
    vstd::arithmetic::div_mod::lemma_div_is_ordered(m * a + a, span + m * a, span);
    vstd::arithmetic::div_mod::lemma_div_plus_one(m * a, span);
    assert(0 * c == 0);
    if a == span {
        vstd::arithmetic::div_mod::lemma_div_multiples_vanish(m, span);
    }
}

/// A cell that moves along its velocity ends on a cell of its path that gave way.
pub proof fn lemma_travel_ends_on_open_cell(cells: Seq<Cell>, i: int, j: int, m: int)
    requires
        0 <= m,
    ensures
        travel(cells, i, j, m) >= m,
        travel(cells, i, j, m) > m ==> ({
            let end = path_cell(i, j, cell_at(cells, i, j).velocity, travel(cells, i, j, m));
            can_move(cells, i, j, end.0, end.1)
        }),
    decreases stride(cell_at(cells, i, j).velocity) - m,
{
    let v = cell_at(cells, i, j).velocity;
    let next = path_cell(i, j, v, m + 1);
    if m < stride(v) && can_move(cells, i, j, next.0, next.1) {
        lemma_travel_ends_on_open_cell(cells, i, j, m + 1);
    }
}

/// Moves the cell at `(i, j)` along its velocity, cell by cell, until a cell
/// does not give way, and relocates it to the last cell reached. Reports whether
/// the cell moved.
pub fn apply_velocity(cells: &mut CellArray, i: usize, j: usize) -> (moved: bool)
    requires
        bordered(old(cells)@),
        interior(i as int, j as int),
    ensures
        moved == (travel(old(cells)@, i as int, j as int, 0) > 0),
        final(cells)@ == after_velocity(old(cells)@, i as int, j as int),
        bordered(final(cells)@),
        census(final(cells)@) == census(old(cells)@),
{
    let mover = *cells.get(i, j);
    let vx: i64 = mover.velocity.x as i64;
    let vy: i64 = mover.velocity.y as i64;
    let ax: i64 = if vx < 0 { -vx } else { vx };
    let ay: i64 = if vy < 0 { -vy } else { vy };
    let reach: i64 = if ax >= ay { ax } else { ay };
    let steps: i64 = reach / (SUBCELL as i64);
    let mut m: i64 = 0;
    let mut ci: usize = i;
    let mut cj: usize = j;
    let mut blocked = false;
    while m < steps && !blocked
        invariant
            *cells == *old(cells),
            bordered(cells@),
            interior(i as int, j as int),
            mover == cell_at(cells@, i as int, j as int),
            vx == mover.velocity.x,
            vy == mover.velocity.y,
            ax == magnitude(vx as int),
            ay == magnitude(vy as int),
            reach == span(mover.velocity),
            steps == stride(mover.velocity),
            0 <= m <= steps,
            interior(ci as int, cj as int),
            m == 0 ==> ci == i && cj == j,
            m > 0 ==> (ci as int, cj as int) == path_cell(
                i as int,
                j as int,
                mover.velocity,
                m as int,
            ),
            travel(cells@, i as int, j as int, m as int) == travel(cells@, i as int, j as int, 0),
            blocked ==> travel(cells@, i as int, j as int, m as int) == m,
        decreases steps - m + if blocked { 0int } else { 1int },
    {
        proof {
            lemma_along_step(vx as int, m as int, reach as int);
            lemma_along_step(vy as int, m as int, reach as int);
            assert((m + 1) * ax <= 0x20_0000 * 0x8000_0000) by (nonlinear_arith)
                requires
                    0 <= m + 1 <= 0x20_0000,
                    0 <= ax <= 0x8000_0000,
            ;
            assert((m + 1) * ay <= 0x20_0000 * 0x8000_0000) by (nonlinear_arith)
                requires
                    0 <= m + 1 <= 0x20_0000,
                    0 <= ay <= 0x8000_0000,
            ;
            assert(0 <= (m + 1) * ax && 0 <= (m + 1) * ay) by (nonlinear_arith)
                requires
                    0 <= m,
                    0 <= ax,
                    0 <= ay,
            ;
        }
        let qx: i64 = ((m + 1) * ax) / reach;
        let qy: i64 = ((m + 1) * ay) / reach;
        let ni: i64 = if vx >= 0 { i as i64 + qx } else { i as i64 - qx };
        let nj: i64 = if vy >= 0 { j as i64 + qy } else { j as i64 - qy };
        assert((ni as int, nj as int) == path_cell(
            i as int,
            j as int,
            mover.velocity,
            m as int + 1,
        ));
        if gives_way(cells.get(ni as usize, nj as usize), &mover) {
            proof {
                lemma_yielding_is_interior(cells@, i as int, j as int, ni as int, nj as int);
            }
            m += 1;
            ci = ni as usize;
            cj = nj as usize;
        } else {
            blocked = true;
        }
    }
    if m > 0 {
        proof {
            lemma_relocated_keeps(cells@, i as int, j as int, ci as int, cj as int);
        }
        cells.swap(i, j, ci, cj);
        true
    } else {
        false
    }
}

/// The column `m` cells from column `i`, to the left if `left` and to the right
/// otherwise.
pub open spec fn beside(i: int, left: bool, m: int) -> int {
    if left {
        i - m
    } else {
        i + m
    }
}

/// The number of columns that a gas cell at `(i, j)` drifts along its row, given
/// that it has drifted `m`: it stops before the first cell that is not `Air`, and
/// after `limit` columns at the latest.
pub open spec fn drift_reach(cells: Seq<Cell>, i: int, j: int, left: bool, limit: int, m: int) -> int
    decreases limit - m,
{
    let next = beside(i, left, m + 1);
    if 0 <= m < limit && in_grid(next, j) && cell_at(cells, next, j).element == Element::Air {
        drift_reach(cells, i, j, left, limit, m + 1)
    } else {
        m
    }
}

/// The number of columns that the cell at `(i, j)` moves when it is to drift by
/// `drift` columns: to the left where `drift` is negative.
pub open spec fn drifted(cells: Seq<Cell>, i: int, j: int, drift: int) -> int {
    drift_reach(cells, i, j, drift < 0, magnitude(drift), 0)
}

/// The grid after the cell at `(i, j)` has drifted along its row toward the
/// column `drift` columns away: it changes places with the last empty cell that
/// it reached, if it reached any.
pub open spec fn after_drift(cells: Seq<Cell>, i: int, j: int, drift: int) -> Seq<Cell> {
    let m = drifted(cells, i, j, drift);
    if m > 0 {
        relocated(cells, i, j, beside(i, drift < 0, m), j)
    } else {
        cells
    }
}

/// A gas cell that drifts ends on a cell of its row that was empty.
pub proof fn lemma_drift_ends_on_empty_cell(
    cells: Seq<Cell>,
    i: int,
    j: int,
    left: bool,
    limit: int,
    m: int,
)
    requires
        0 <= m,
    ensures
        drift_reach(cells, i, j, left, limit, m) >= m,
        drift_reach(cells, i, j, left, limit, m) > m ==> ({
            let end = beside(i, left, drift_reach(cells, i, j, left, limit, m));
            in_grid(end, j) && cell_at(cells, end, j).element == Element::Air
        }),
    decreases limit - m,
{
    let next = beside(i, left, m + 1);
    if m < limit && in_grid(next, j) && cell_at(cells, next, j).element == Element::Air {
        lemma_drift_ends_on_empty_cell(cells, i, j, left, limit, m + 1);
    }
}

/// Lets the gas cell at `(i, j)` drift along its row toward the column `drift`
/// columns away, through empty cells only. Reports whether the cell moved.
pub fn sideways_gas_by(cells: &mut CellArray, i: usize, j: usize, drift: i32) -> (moved: bool)
    requires
        bordered(old(cells)@),
        interior(i as int, j as int),
    ensures
        moved == (drifted(old(cells)@, i as int, j as int, drift as int) > 0),
        final(cells)@ == after_drift(old(cells)@, i as int, j as int, drift as int),
        bordered(final(cells)@),
        census(final(cells)@) == census(old(cells)@),
{
    let left = drift < 0;
    let limit: i64 = if left { -(drift as i64) } else { drift as i64 };
    let mut m: i64 = 0;
    let mut ci: usize = i;
    let mut blocked = false;
    while m < limit && !blocked
        invariant
            *cells == *old(cells),
            bordered(cells@),
            interior(i as int, j as int),
            left == (drift < 0),
            limit == magnitude(drift as int),
            0 <= m <= limit,
            interior(ci as int, j as int),
            ci as int == beside(i as int, left, m as int),
            m > 0 ==> cell_at(cells@, ci as int, j as int).element == Element::Air,
            drift_reach(cells@, i as int, j as int, left, limit as int, m as int) == drifted(
                cells@,
                i as int,
                j as int,
                drift as int,
            ),
            blocked ==> drift_reach(cells@, i as int, j as int, left, limit as int, m as int) == m,
        decreases limit - m + if blocked { 0int } else { 1int },
    {
        let ni: usize = if left { ci - 1 } else { ci + 1 };
        if cells.get(ni, j).element == Element::Air {
            assert(interior(ni as int, j as int)) by {
                if !interior(ni as int, j as int) {
                    assert(cell_at(cells@, ni as int, j as int).element == Element::Solid);
                }
            }
            m += 1;
            ci = ni;
        } else {
            blocked = true;
        }
    }
    if m > 0 {
        proof {
            lemma_relocated_keeps(cells@, i as int, j as int, ci as int, j as int);
        }
        cells.swap(i, j, ci, j);
        true
    } else {
        false
    }
}

/// Lets the gas cell at `(i, j)` drift along its row to an empty cell at most
/// `spread` columns away; how far and to which side is drawn from `rng`. With
/// a `spread` of zero or less nothing is drawn and nothing moves.
pub fn sideways_gas(cells: &mut CellArray, rng: &mut Rng, i: usize, j: usize, spread: i32) -> (moved:
    bool)
    requires
        bordered(old(cells)@),
        interior(i as int, j as int),
    ensures
        spread <= 0 ==> !moved && final(cells)@ == old(cells)@,
        spread > 0 ==> exists|drift: int|
            -spread <= drift <= spread && moved == (drifted(
                old(cells)@,
                i as int,
                j as int,
                drift,
            ) > 0) && final(cells)@ == #[trigger] after_drift(
                old(cells)@,
                i as int,
                j as int,
                drift,
            ),
        bordered(final(cells)@),
        census(final(cells)@) == census(old(cells)@),
{
    if spread <= 0 {
        return false;
    }
    let drift = random_i32(rng, -spread, spread);
    sideways_gas_by(cells, i, j, drift)
}

} // verus!
