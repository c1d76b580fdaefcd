//! The per-material rules of a tick, built from the movement primitives.

use vstd::prelude::*;
use fastrand::Rng;
use crate::cells::{bordered, cell_at, census, in_grid, interior, CellArray};
use crate::element::{Cell, Element, Velocity};
use crate::fixed::SUBCELL;
use crate::movement::{
    after_drift, after_gravity, after_slide, after_velocity, apply_gravity, apply_velocity,
    can_move, can_slide, downward, downward_sides, lemma_with_velocity_keeps, relocated,
    sideways_gas, travel, upward, with_velocity,
};

verus! {

/// The sideways speed that water takes toward a less dense neighbor.
pub const FLOW_SPEED: i32 = 5000;

/// How many columns smoke may drift in one tick.
pub const GAS_SPREAD: i32 = 10;

/// What the pseudorandom source contributed to the handling of one cell.
pub struct Draw {
    /// The side that a powder tries first when it slides diagonally.
    pub left_first: bool,
    /// The number of columns that a gas is to drift; negative to the left.
    pub drift: int,
}

impl Draw {
    /// The drift lies within the spread of a gas.
    pub open spec fn within_spread(self) -> bool {
        -GAS_SPREAD <= self.drift <= GAS_SPREAD
    }
}

/// The velocity that water at `(i, j)` takes when it can neither move along its
/// velocity nor fall: toward the left neighbor if that is less dense, else toward
/// the right neighbor if that is less dense, else none.
pub open spec fn flow_velocity(cells: Seq<Cell>, i: int, j: int) -> Velocity {
    let density = cell_at(cells, i, j).density();
    if cell_at(cells, i - 1, j).density() < density {
        Velocity { x: (-FLOW_SPEED) as i32, y: SUBCELL }
    } else if cell_at(cells, i + 1, j).density() < density {
        Velocity { x: FLOW_SPEED, y: SUBCELL }
    } else {
        Velocity { x: 0, y: 0 }
    }
}

/// The rule of `Sand` and `SawDust`: gravity acts; the cell moves along its
/// velocity, or else falls, or else slides diagonally down, or else comes to
/// rest.
pub open spec fn powder_rule(cells: Seq<Cell>, i: int, j: int, left_first: bool) -> Seq<Cell> {
    let pulled = after_gravity(cells, i, j);
    if travel(pulled, i, j, 0) > 0 {
        after_velocity(pulled, i, j)
    } else if can_move(pulled, i, j, i, j + 1) {
        relocated(pulled, i, j, i, j + 1)
    } else if can_slide(pulled, i, j) {
        after_slide(pulled, i, j, left_first)
    } else {
        with_velocity(pulled, i, j, Velocity { x: 0, y: 0 })
    }
}

/// The rule of `Water`: gravity acts; the cell moves along its velocity, or else
/// falls, or else stays and takes its flow velocity.
pub open spec fn water_rule(cells: Seq<Cell>, i: int, j: int) -> Seq<Cell> {
    let pulled = after_gravity(cells, i, j);
    if travel(pulled, i, j, 0) > 0 {
        after_velocity(pulled, i, j)
    } else if can_move(pulled, i, j, i, j + 1) {
        relocated(pulled, i, j, i, j + 1)
    } else {
        with_velocity(pulled, i, j, flow_velocity(pulled, i, j))
    }
}

/// The rule of `Smoke`: the cell rises, or else drifts sideways.
pub open spec fn smoke_rule(cells: Seq<Cell>, i: int, j: int, drift: int) -> Seq<Cell> {
    if can_move(cells, i, j, i, j - 1) {
        relocated(cells, i, j, i, j - 1)
    } else {
        after_drift(cells, i, j, drift)
    }
}

/// The grid after the rule of its material has been applied to the cell at
/// `(i, j)`. `Air` and `Solid` have no rule.
pub open spec fn rule(cells: Seq<Cell>, i: int, j: int, draw: Draw) -> Seq<Cell> {
    match cell_at(cells, i, j).element {
        Element::Air => cells,
        Element::Solid => cells,
        Element::Sand => powder_rule(cells, i, j, draw.left_first),
        Element::SawDust => powder_rule(cells, i, j, draw.left_first),
        Element::Water => water_rule(cells, i, j),
        Element::Smoke => smoke_rule(cells, i, j, draw.drift),
    }
}

/// The scratch grid `future` after the scan of a tick has visited `(i, j)`. Where
/// the material at `(i, j)` differs from the one that stood there in `current`,
/// at the start of the tick, a cell has moved into the position during this scan
/// and the position is passed over.
pub open spec fn step(future: Seq<Cell>, current: Seq<Cell>, i: int, j: int, draw: Draw) -> Seq<
    Cell,
> {
    if cell_at(current, i, j).element == cell_at(future, i, j).element {
        rule(future, i, j, draw)
    } else {
        future
    }
}

/// Applies the rule of `Sand` and `SawDust` to the cell at `(i, j)`.
pub fn settle_powder(cells: &mut CellArray, rng: &mut Rng, i: usize, j: usize)
    requires
        bordered(old(cells)@),
        interior(i as int, j as int),
    ensures
        exists|left_first: bool|
            final(cells)@ == powder_rule(old(cells)@, i as int, j as int, left_first),
        bordered(final(cells)@),
        census(final(cells)@) == census(old(cells)@),
{
    apply_gravity(cells, i, j);
    let ghost pulled = cells@;
    let ghost mut witness = true;
    if !apply_velocity(cells, i, j) {
        if !downward(cells, i, j) {
            if !downward_sides(cells, rng, i, j) {
                let mut cell = *cells.get(i, j);
                cell.velocity = Velocity { x: 0, y: 0 };
                proof {
                    lemma_with_velocity_keeps(cells@, i as int, j as int, cell.velocity);
                }
                cells.set(i, j, cell);
            } else {
                proof {
                    witness = choose|left_first: bool|
                        cells@ == after_slide(pulled, i as int, j as int, left_first);
                }
            }
        }
    }
    assert(cells@ == powder_rule(old(cells)@, i as int, j as int, witness));
}

/// Applies the rule of `Water` to the cell at `(i, j)`.
pub fn settle_water(cells: &mut CellArray, i: usize, j: usize)
    requires
        bordered(old(cells)@),
        interior(i as int, j as int),
    ensures
        final(cells)@ == water_rule(old(cells)@, i as int, j as int),
        bordered(final(cells)@),
        census(final(cells)@) == census(old(cells)@),
{
    apply_gravity(cells, i, j);
    if !apply_velocity(cells, i, j) {
        if !downward(cells, i, j) {
            let mut cell = *cells.get(i, j);
            let density = cell.density();
            cell.velocity = Velocity { x: 0, y: 0 };
            if cells.get(i - 1, j).density() < density {
                cell.velocity = Velocity { x: -FLOW_SPEED, y: SUBCELL };
            } else if cells.get(i + 1, j).density() < density {
                cell.velocity = Velocity { x: FLOW_SPEED, y: SUBCELL };
            }
            proof {
                lemma_with_velocity_keeps(cells@, i as int, j as int, cell.velocity);
            }
            cells.set(i, j, cell);
        }
    }
}

/// Applies the rule of `Smoke` to the cell at `(i, j)`.
pub fn settle_smoke(cells: &mut CellArray, rng: &mut Rng, i: usize, j: usize)
    requires
        bordered(old(cells)@),
        interior(i as int, j as int),
    ensures
        exists|drift: int|
            -GAS_SPREAD <= drift <= GAS_SPREAD && final(cells)@ == #[trigger] smoke_rule(
                old(cells)@,
                i as int,
                j as int,
                drift,
            ),
        bordered(final(cells)@),
        census(final(cells)@) == census(old(cells)@),
{
    let ghost mut witness = 0int;
    if !upward(cells, i, j) {
        sideways_gas(cells, rng, i, j, GAS_SPREAD);
        proof {
            witness = choose|drift: int|
                -GAS_SPREAD <= drift <= GAS_SPREAD && cells@ == #[trigger] after_drift(
                    old(cells)@,
                    i as int,
                    j as int,
                    drift,
                );
        }
    }
    assert(cells@ == smoke_rule(old(cells)@, i as int, j as int, witness));
}

/// Handles the position `(i, j)` during the scan of a tick: applies the rule of
/// the material there to the scratch grid `future`, unless that material differs
/// from the one in `current`, the grid at the start of the tick.
pub fn step_cell(future: &mut CellArray, current: &CellArray, rng: &mut Rng, i: usize, j: usize)
    requires
        bordered(old(future)@),
        bordered(current@),
        in_grid(i as int, j as int),
    ensures
        exists|draw: Draw|
            draw.within_spread() && final(future)@ == #[trigger] step(
                old(future)@,
                current@,
                i as int,
                j as int,
                draw,
            ),
        bordered(final(future)@),
        census(final(future)@) == census(old(future)@),
{
    let element = future.get(i, j).element;
    let ghost still = Draw { left_first: true, drift: 0 };
    if current.get(i, j).element != element {
        assert(future@ == step(old(future)@, current@, i as int, j as int, still));
        return ;
    }
    assert(element != Element::Solid ==> interior(i as int, j as int)) by {
        if !interior(i as int, j as int) {
            assert(cell_at(future@, i as int, j as int).element == Element::Solid);
        }
    }
    match element {
        Element::Air => {
            assert(future@ == step(old(future)@, current@, i as int, j as int, still));
        },
        Element::Solid => {
            assert(future@ == step(old(future)@, current@, i as int, j as int, still));
        },
        Element::Sand | Element::SawDust => {
            settle_powder(future, rng, i, j);
            let ghost left_first = choose|left_first: bool|
                future@ == powder_rule(old(future)@, i as int, j as int, left_first);
            let ghost draw = Draw { left_first, drift: 0 };
            assert(future@ == step(old(future)@, current@, i as int, j as int, draw));
        },
        Element::Water => {
            settle_water(future, i, j);
            assert(future@ == step(old(future)@, current@, i as int, j as int, still));
        },
        Element::Smoke => {
            settle_smoke(future, rng, i, j);
            let ghost drift = choose|drift: int|
                -GAS_SPREAD <= drift <= GAS_SPREAD && future@ == #[trigger] smoke_rule(
                    old(future)@,
                    i as int,
                    j as int,
                    drift,
                );
            let ghost draw = Draw { left_first: true, drift };
            assert(future@ == step(old(future)@, current@, i as int, j as int, draw));
        },
    }
}

} // verus!
