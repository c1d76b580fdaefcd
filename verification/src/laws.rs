//! What holds of every tick: the border ring stays, mass is conserved, an empty
//! grid stays empty, and no cell is moved by two visits of one scan.

use vstd::prelude::*;
use crate::cells::{bordered, cell_at, census, in_grid, interior, slot, COLS, ROWS};
use crate::element::{Cell, Element, Velocity};
use crate::fixed::{magnitude, SUBCELL};
use crate::movement::{
    after_gravity, beside, can_move, can_slide, drifted, lemma_drift_ends_on_empty_cell,
    lemma_relocated_keeps, lemma_travel_ends_on_open_cell, lemma_with_velocity_keeps, path_cell,
    relocated, travel, with_velocity, yields,
};
use crate::rules::{flow_velocity, rule, step, water_rule, Draw, FLOW_SPEED};
use crate::scan::{
    lemma_scan_visits_each_once, scan_index, scan_position, scanned, still, ticked,
};

verus! {

/// `after` is `before` with the velocity `v` given to the cell at `(i, j)` and
/// that cell exchanged with the cell at `(ti, tj)`, which gave way to it, or left
/// where it was.
pub open spec fn displaces(
    before: Seq<Cell>,
    after: Seq<Cell>,
    i: int,
    j: int,
    v: Velocity,
    ti: int,
    tj: int,
) -> bool {
    &&& in_grid(ti, tj)
    &&& after == relocated(with_velocity(before, i, j, v), i, j, ti, tj)
    &&& (ti == i && tj == j) || yields(cell_at(before, ti, tj), cell_at(before, i, j))
}

/// The cell at `(i, j)` of `future` is the one that stood there in `current`, or
/// one of a denser material.
pub open spec fn untouched_or_denser(current: Seq<Cell>, future: Seq<Cell>, i: int, j: int) -> bool {
    cell_at(future, i, j) == cell_at(current, i, j) || cell_at(future, i, j).density() > cell_at(
        current,
        i,
        j,
    ).density()
}

/// Every position that a scan has yet to visit after `k` visits holds the cell
/// that stood there in `current`, or one of a denser material.
pub open spec fn unvisited_marked(
    current: Seq<Cell>,
    future: Seq<Cell>,
    flip_x: bool,
    flip_y: bool,
    k: int,
) -> bool {
    forall|n: int|
        k <= n < COLS * ROWS ==> untouched_or_denser(
            current,
            future,
            (#[trigger] scan_position(n, flip_x, flip_y)).0,
            scan_position(n, flip_x, flip_y).1,
        )
}

/// The rule of a material relocates at most the cell it is applied to: it gives
/// that cell a velocity and exchanges it with one cell that gave way, or leaves
/// it in place. The result names that velocity and the position of that cell.
pub proof fn lemma_rule_displaces(cells: Seq<Cell>, i: int, j: int, draw: Draw) -> (w: (
    Velocity,
    int,
    int,
))
    requires
        bordered(cells),
        in_grid(i, j),
    ensures
        displaces(cells, rule(cells, i, j, draw), i, j, w.0, w.1, w.2),
        w.1 != i || w.2 != j ==> cell_at(cells, i, j).element != Element::Air && cell_at(
            cells,
            i,
            j,
        ).element != Element::Solid,
{
    let mover = cell_at(cells, i, j);
    let kept = mover.velocity;
    let rest = Velocity { x: 0, y: 0 };
    let pulled = after_gravity(cells, i, j);
    let gained = cell_at(pulled, i, j).velocity;
    let flow = flow_velocity(pulled, i, j);
    assert(with_velocity(cells, i, j, kept) =~= cells);
    assert(relocated(cells, i, j, i, j) =~= cells);
    assert(pulled == with_velocity(cells, i, j, gained));
    assert(relocated(pulled, i, j, i, j) =~= pulled);
    assert(with_velocity(pulled, i, j, flow) =~= with_velocity(cells, i, j, flow));
    assert(with_velocity(pulled, i, j, rest) =~= with_velocity(cells, i, j, rest));
    assert(relocated(with_velocity(cells, i, j, flow), i, j, i, j) =~= with_velocity(
        cells,
        i,
        j,
        flow,
    ));
    assert(relocated(with_velocity(cells, i, j, rest), i, j, i, j) =~= with_velocity(
        cells,
        i,
        j,
        rest,
    ));
    assert(forall|p: int, q: int|
        in_grid(p, q) ==> (#[trigger] cell_at(pulled, p, q)).element == cell_at(
            cells,
            p,
            q,
        ).element);
    if !interior(i, j) {
        assert(cell_at(cells, i, j).element == Element::Solid);
    }
    if mover.element == Element::Air || mover.element == Element::Solid {
        (kept, i, j)
    } else if mover.element == Element::Smoke {
        let m = drifted(cells, i, j, draw.drift);
        lemma_drift_ends_on_empty_cell(
            cells,
            i,
            j,
            draw.drift < 0,
            magnitude(draw.drift),
            0,
        );
        if can_move(cells, i, j, i, j - 1) {
            (kept, i, j - 1)
        } else if m > 0 {
            (kept, beside(i, draw.drift < 0, m), j)
        } else {
            (kept, i, j)
        }
    } else if travel(pulled, i, j, 0) > 0 {
        lemma_travel_ends_on_open_cell(pulled, i, j, 0);
        let end = path_cell(i, j, gained, travel(pulled, i, j, 0));
        (gained, end.0, end.1)
    } else if can_move(pulled, i, j, i, j + 1) {
        (gained, i, j + 1)
    } else if mover.element == Element::Water {
        (flow, i, j)
    } else if can_slide(pulled, i, j) {
        let first = if draw.left_first { i - 1 } else { i + 1 };
        let second = if draw.left_first { i + 1 } else { i - 1 };
        if can_move(pulled, i, j, first, j + 1) {
            (gained, first, j + 1)
        } else {
            (gained, second, j + 1)
        }
    } else {
        (rest, i, j)
    }
}

/// A visit keeps the border ring and the census.
pub proof fn lemma_step_keeps(future: Seq<Cell>, current: Seq<Cell>, i: int, j: int, draw: Draw)
    requires
        bordered(future),
        in_grid(i, j),
    ensures
        bordered(step(future, current, i, j, draw)),
        census(step(future, current, i, j, draw)) == census(future),
{
    let w = lemma_rule_displaces(future, i, j, draw);
    if w.1 != i || w.2 != j {
        let given = with_velocity(future, i, j, w.0);
        lemma_with_velocity_keeps(future, i, j, w.0);
        if !interior(i, j) {
            assert(cell_at(future, i, j).element == Element::Solid);
        }
        if !interior(w.1, w.2) {
            assert(cell_at(future, w.1, w.2).element == Element::Solid);
        }
        lemma_relocated_keeps(given, i, j, w.1, w.2);
    } else {
        lemma_with_velocity_keeps(future, i, j, w.0);
        assert(relocated(with_velocity(future, i, j, w.0), i, j, i, j) =~= with_velocity(
            future,
            i,
            j,
            w.0,
        ));
    }
}

/// After any number of visits the scratch grid has its border ring and the
/// census of the grid that the scan started from, and every position yet to be
/// visited holds the cell it began the tick with or one of a denser material.
pub proof fn lemma_scanned_keeps(
    current: Seq<Cell>,
    flip_x: bool,
    flip_y: bool,
    draws: Seq<Draw>,
    k: nat,
)
    requires
        bordered(current),
        k <= COLS * ROWS,
    ensures
        bordered(scanned(current, flip_x, flip_y, draws, k)),
        census(scanned(current, flip_x, flip_y, draws, k)) == census(current),
        unvisited_marked(current, scanned(current, flip_x, flip_y, draws, k), flip_x, flip_y, k as int),
    decreases k,
{
    if k > 0 {
        let before = scanned(current, flip_x, flip_y, draws, (k - 1) as nat);
        let after = scanned(current, flip_x, flip_y, draws, k);
        let at = scan_position(k - 1, flip_x, flip_y);
        let draw = draws[k - 1];
        lemma_scanned_keeps(current, flip_x, flip_y, draws, (k - 1) as nat);
        lemma_scan_visits_each_once(flip_x, flip_y);
        lemma_step_keeps(before, current, at.0, at.1, draw);
        let w = lemma_rule_displaces(before, at.0, at.1, draw);
        assert forall|n: int| k <= n < COLS * ROWS implies untouched_or_denser(
            current,
            after,
            (#[trigger] scan_position(n, flip_x, flip_y)).0,
            scan_position(n, flip_x, flip_y).1,
        ) by {
            let p = scan_position(n, flip_x, flip_y);
            assert(p != at);
            assert(in_grid(p.0, p.1));
            assert(untouched_or_denser(current, before, p.0, p.1));
            if after != before {
                let given = with_velocity(before, at.0, at.1, w.0);
                assert(cell_at(given, p.0, p.1) == cell_at(before, p.0, p.1));
                if p.0 == w.1 && p.1 == w.2 {
                    assert(cell_at(after, p.0, p.1) == cell_at(given, at.0, at.1));
                } else {
                    assert(cell_at(after, p.0, p.1) == cell_at(before, p.0, p.1));
                }
            }
        }
    }
}

/// Single move: a visit that applies a rule finds at its position the very cell
/// that stood there when the tick began. A cell that an earlier visit of the same
/// tick moved or displaced is therefore never moved by a later one, and together
/// with `lemma_scan_visits_each_once` no cell is the source of two moves.
pub proof fn lemma_visit_finds_untouched_cell(
    current: Seq<Cell>,
    flip_x: bool,
    flip_y: bool,
    draws: Seq<Draw>,
    k: nat,
)
    requires
        bordered(current),
        k < COLS * ROWS,
    ensures
        ({
            let future = scanned(current, flip_x, flip_y, draws, k);
            let at = scan_position(k as int, flip_x, flip_y);
            cell_at(future, at.0, at.1).element == cell_at(current, at.0, at.1).element
                ==> cell_at(future, at.0, at.1) == cell_at(current, at.0, at.1)
        }),
{
    lemma_scanned_keeps(current, flip_x, flip_y, draws, k);
    let future = scanned(current, flip_x, flip_y, draws, k);
    let at = scan_position(k as int, flip_x, flip_y);
    assert(untouched_or_denser(current, future, at.0, at.1));
}

/// One visit of a scan relocates at most one cell, and that cell is the one at
/// the visited position: the grid after the visit is the grid before it with
/// some velocity given to the visited cell and that cell exchanged with one cell
/// that gave way to it, or left in place.
pub proof fn lemma_step_moves_visited_cell_only(
    future: Seq<Cell>,
    current: Seq<Cell>,
    i: int,
    j: int,
    draw: Draw,
)
    requires
        bordered(future),
        in_grid(i, j),
    ensures
        exists|v: Velocity, ti: int, tj: int| #[trigger]
            displaces(future, step(future, current, i, j, draw), i, j, v, ti, tj),
{
    let after = step(future, current, i, j, draw);
    if after == future {
        let kept = cell_at(future, i, j).velocity;
        assert(with_velocity(future, i, j, kept) =~= future);
        assert(relocated(future, i, j, i, j) =~= future);
        assert(displaces(future, after, i, j, kept, i, j));
    } else {
        let w = lemma_rule_displaces(future, i, j, draw);
        assert(displaces(future, after, i, j, w.0, w.1, w.2));
    }
}

/// Mass conservation and the border invariant: a tick keeps the census of the
/// grid, and its border ring `Solid`.
pub proof fn lemma_tick_keeps_census_and_border(
    before: Seq<Cell>,
    after: Seq<Cell>,
    flip_x: bool,
    flip_y: bool,
    draws: Seq<Draw>,
)
    requires
        bordered(before),
        ticked(before, after, flip_x, flip_y, draws),
    ensures
        bordered(after),
        census(after) == census(before),
{
    lemma_scanned_keeps(before, flip_x, flip_y, draws, (COLS * ROWS) as nat);
}

/// After `k` visits a grid in which nothing moves is as it was.
pub proof fn lemma_scanned_still(
    current: Seq<Cell>,
    flip_x: bool,
    flip_y: bool,
    draws: Seq<Draw>,
    k: nat,
)
    requires
        bordered(current),
        still(current),
        k <= COLS * ROWS,
    ensures
        scanned(current, flip_x, flip_y, draws, k) == current,
    decreases k,
{
    if k > 0 {
        lemma_scanned_still(current, flip_x, flip_y, draws, (k - 1) as nat);
        lemma_scan_visits_each_once(flip_x, flip_y);
        let at = scan_position(k - 1, flip_x, flip_y);
        assert(in_grid(at.0, at.1));
        let found = current[slot(at.0, at.1)];
        assert(found.element == Element::Air || found.element == Element::Solid);
    }
}

/// Fixed point: a tick leaves a grid as it is if its interior is all `Air`, and
/// more generally if it holds nothing but `Air` and `Solid`.
pub proof fn lemma_tick_leaves_empty_grid(
    before: Seq<Cell>,
    after: Seq<Cell>,
    flip_x: bool,
    flip_y: bool,
    draws: Seq<Draw>,
)
    requires
        bordered(before),
        ticked(before, after, flip_x, flip_y, draws),
        still(before) || forall|i: int, j: int|
            interior(i, j) ==> (#[trigger] cell_at(before, i, j)).element == Element::Air,
    ensures
        after == before,
{
    if !still(before) {
        assert forall|p: int| 0 <= p < before.len() implies (#[trigger] before[p]).element
            == Element::Air || before[p].element == Element::Solid by {
            let i = p % (COLS as int);
            let j = p / (COLS as int);
            assert(slot(i, j) == p);
            assert(in_grid(i, j));
            if interior(i, j) {
                assert(cell_at(before, i, j).element == Element::Air);
            } else {
                assert(cell_at(before, i, j).element == Element::Solid);
            }
        }
    }
    lemma_scanned_still(before, flip_x, flip_y, draws, (COLS * ROWS) as nat);
}

/// Everything in the grid but the cell at `(i, j)` is `Air` or `Solid`.
pub open spec fn alone(cells: Seq<Cell>, i: int, j: int) -> bool {
    forall|p: int, q: int|
        in_grid(p, q) && (p != i || q != j) ==> (#[trigger] cell_at(cells, p, q)).element
            == Element::Air || cell_at(cells, p, q).element == Element::Solid
}

/// The scan of a grid in which only the cell at `(i, j)` can move leaves the grid
/// as it is until it comes to `(i, j)`, applies the rule of that cell there, and
/// changes nothing afterwards.
pub proof fn lemma_scanned_alone(
    current: Seq<Cell>,
    flip_x: bool,
    flip_y: bool,
    draws: Seq<Draw>,
    i: int,
    j: int,
    k: nat,
)
    requires
        bordered(current),
        in_grid(i, j),
        alone(current, i, j),
        k <= COLS * ROWS,
    ensures
        scanned(current, flip_x, flip_y, draws, k) == (if k <= scan_index(i, j, flip_x, flip_y) {
            current
        } else {
            rule(current, i, j, draws[scan_index(i, j, flip_x, flip_y)])
        }),
    decreases k,
{
    if k > 0 {
        let turn = scan_index(i, j, flip_x, flip_y);
        let draw = draws[turn];
        let before = scanned(current, flip_x, flip_y, draws, (k - 1) as nat);
        let at = scan_position(k - 1, flip_x, flip_y);
        lemma_scanned_alone(current, flip_x, flip_y, draws, i, j, (k - 1) as nat);
        lemma_scan_visits_each_once(flip_x, flip_y);
        assert(scan_position(turn, flip_x, flip_y) == (i, j));
        assert(in_grid(at.0, at.1));
        if k - 1 != turn {
            assert(at != (i, j));
            let found = cell_at(current, at.0, at.1);
            assert(found.element == Element::Air || found.element == Element::Solid);
        }
    }
}

/// One cell alone: a tick of a grid in which only the cell at `(i, j)` can move
/// applies the rule of that cell once and does nothing else.
pub proof fn lemma_tick_of_cell_alone(
    before: Seq<Cell>,
    after: Seq<Cell>,
    flip_x: bool,
    flip_y: bool,
    draws: Seq<Draw>,
    i: int,
    j: int,
)
    requires
        bordered(before),
        ticked(before, after, flip_x, flip_y, draws),
        in_grid(i, j),
        alone(before, i, j),
    ensures
        0 <= scan_index(i, j, flip_x, flip_y) < COLS * ROWS,
        after == rule(before, i, j, draws[scan_index(i, j, flip_x, flip_y)]),
{
    lemma_scanned_alone(before, flip_x, flip_y, draws, i, j, (COLS * ROWS) as nat);
}

/// Water flow at a visit: the rule of water leaves water that can neither move
/// along its velocity nor fall, and that has a less dense neighbor on one side
/// only, in place with a velocity toward that neighbor: `FLOW_SPEED` sideways and
/// one cell per tick downward. Nothing else changes.
pub proof fn lemma_water_flows_to_lower_side(cells: Seq<Cell>, i: int, j: int)
    requires
        bordered(cells),
        interior(i, j),
        cell_at(cells, i, j).element == Element::Water,
        travel(after_gravity(cells, i, j), i, j, 0) == 0,
        !can_move(cells, i, j, i, j + 1),
        (cell_at(cells, i - 1, j).density() < cell_at(cells, i, j).density()) != (cell_at(
            cells,
            i + 1,
            j,
        ).density() < cell_at(cells, i, j).density()),
    ensures
        cell_at(water_rule(cells, i, j), i, j).element == Element::Water,
        cell_at(cells, i - 1, j).density() < cell_at(cells, i, j).density() ==> cell_at(
            water_rule(cells, i, j),
            i,
            j,
        ).velocity == (Velocity { x: (-FLOW_SPEED) as i32, y: SUBCELL }),
        cell_at(cells, i + 1, j).density() < cell_at(cells, i, j).density() ==> cell_at(
            water_rule(cells, i, j),
            i,
            j,
        ).velocity == (Velocity { x: FLOW_SPEED, y: SUBCELL }),
        forall|p: int, q: int|
            in_grid(p, q) && (p != i || q != j) ==> #[trigger] cell_at(water_rule(cells, i, j), p, q)
                == cell_at(cells, p, q),
{
    let pulled = after_gravity(cells, i, j);
    assert(cell_at(pulled, i, j + 1) == cell_at(cells, i, j + 1));
    assert(cell_at(pulled, i - 1, j) == cell_at(cells, i - 1, j));
    assert(cell_at(pulled, i + 1, j) == cell_at(cells, i + 1, j));
    assert(cell_at(pulled, i, j).element == Element::Water);
}

/// Water flow: after one tick, water that stood alone among `Air` and `Solid`,
/// that could neither move along its velocity nor fall, and that had a less dense
/// neighbor on one side only, is where it was with a velocity toward that
/// neighbor: `FLOW_SPEED` sideways and one cell per tick downward.
pub proof fn lemma_tick_water_flows_to_lower_side(
    before: Seq<Cell>,
    after: Seq<Cell>,
    flip_x: bool,
    flip_y: bool,
    draws: Seq<Draw>,
    i: int,
    j: int,
)
    requires
        bordered(before),
        ticked(before, after, flip_x, flip_y, draws),
        interior(i, j),
        alone(before, i, j),
        cell_at(before, i, j).element == Element::Water,
        travel(after_gravity(before, i, j), i, j, 0) == 0,
        !can_move(before, i, j, i, j + 1),
        (cell_at(before, i - 1, j).density() < cell_at(before, i, j).density()) != (cell_at(
            before,
            i + 1,
            j,
        ).density() < cell_at(before, i, j).density()),
    ensures
        cell_at(after, i, j).element == Element::Water,
        cell_at(before, i - 1, j).density() < cell_at(before, i, j).density() ==> cell_at(
            after,
            i,
            j,
        ).velocity == (Velocity { x: (-FLOW_SPEED) as i32, y: SUBCELL }),
        cell_at(before, i + 1, j).density() < cell_at(before, i, j).density() ==> cell_at(
            after,
            i,
            j,
        ).velocity == (Velocity { x: FLOW_SPEED, y: SUBCELL }),
{
    lemma_tick_of_cell_alone(before, after, flip_x, flip_y, draws, i, j);
    lemma_water_flows_to_lower_side(before, i, j);
    assert(after == water_rule(before, i, j));
}

} // verus!
