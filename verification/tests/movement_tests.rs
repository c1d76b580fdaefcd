use falling_sand::cells::{create_cells_array, CellArray, COLS, ROWS};
use falling_sand::element::{
    air_element, sand_element, sawdust_element, smoke_element, solid_element, water_element, Cell,
    Element, Velocity,
};
use falling_sand::movement::{
    apply_gravity, apply_velocity, downward, downward_sides, downward_sides_from, gives_way,
    sideways_gas, sideways_gas_by, upward, GRAVITY,
};
use falling_sand::rules::{settle_powder, settle_smoke, settle_water, step_cell};
use fastrand::Rng;

fn arena() -> CellArray {
    let mut cells = create_cells_array();
    cells.enclose();
    cells
}

fn moving(mut cell: Cell, x: i32, y: i32) -> Cell {
    cell.velocity = Velocity { x, y };
    cell
}

fn tally(cells: &CellArray, element: Element) -> usize {
    let mut n = 0;
    for j in 0..ROWS {
        for i in 0..COLS {
            if cells.get(i, j).element == element {
                n += 1;
            }
        }
    }
    n
}

#[test]
fn cell_array_starts_as_air() {
    let cells = create_cells_array();
    assert_eq!(*cells.get(0, 0), air_element());
    assert_eq!(*cells.get(COLS - 1, ROWS - 1), air_element());
    assert_eq!(tally(&cells, Element::Air), COLS * ROWS);
}

#[test]
fn cell_array_set_swap_and_copy() {
    let mut cells = create_cells_array();
    cells.set(3, 4, sand_element());
    cells.set(7, 8, water_element());
    assert_eq!(*cells.get(3, 4), sand_element());
    assert_eq!(*cells.get(4, 3), air_element());
    cells.swap(3, 4, 7, 8);
    assert_eq!(*cells.get(3, 4), water_element());
    assert_eq!(*cells.get(7, 8), sand_element());
    cells.swap(3, 4, 3, 4);
    assert_eq!(*cells.get(3, 4), water_element());
    let mut other = create_cells_array();
    other.copy_from(&cells);
    for j in 0..ROWS {
        for i in 0..COLS {
            assert_eq!(other.get(i, j), cells.get(i, j));
        }
    }
}

#[test]
fn denser_cells_displace_lighter_ones() {
    assert!(gives_way(&air_element(), &sand_element()));
    assert!(gives_way(&air_element(), &smoke_element()));
    assert!(gives_way(&air_element(), &air_element()));
    assert!(gives_way(&water_element(), &sand_element()));
    assert!(gives_way(&smoke_element(), &water_element()));
    assert!(gives_way(&sawdust_element(), &sand_element()));
    assert!(!gives_way(&sand_element(), &water_element()));
    assert!(!gives_way(&sand_element(), &sand_element()));
    assert!(!gives_way(&water_element(), &water_element()));
    assert!(!gives_way(&solid_element(), &sand_element()));
    assert!(!gives_way(&solid_element(), &solid_element()));
    assert!(!gives_way(&water_element(), &smoke_element()));
}

#[test]
fn gravity_adds_its_increment_and_saturates() {
    let mut cells = arena();
    cells.set(5, 5, sand_element());
    apply_gravity(&mut cells, 5, 5);
    assert_eq!(GRAVITY, 500);
    assert_eq!(cells.get(5, 5).velocity, Velocity { x: 0, y: 500 });
    apply_gravity(&mut cells, 5, 5);
    assert_eq!(cells.get(5, 5).velocity, Velocity { x: 0, y: 1000 });
    assert_eq!(cells.get(5, 5).element, Element::Sand);
    cells.set(6, 6, moving(sand_element(), -7, i32::MAX - 100));
    apply_gravity(&mut cells, 6, 6);
    assert_eq!(cells.get(6, 6).velocity, Velocity { x: -7, y: i32::MAX });
    cells.set(7, 7, moving(sand_element(), 3, -200));
    apply_gravity(&mut cells, 7, 7);
    assert_eq!(cells.get(7, 7).velocity, Velocity { x: 3, y: 300 });
}

#[test]
fn velocity_carries_a_cell_along_a_straight_line() {
    let mut cells = arena();
    cells.set(10, 10, moving(sand_element(), 3000, 0));
    assert!(apply_velocity(&mut cells, 10, 10));
    assert_eq!(cells.get(10, 10).element, Element::Air);
    assert_eq!(cells.get(13, 10).element, Element::Sand);
    assert_eq!(cells.get(13, 10).velocity, Velocity { x: 3000, y: 0 });

    cells.set(20, 20, moving(sand_element(), -2999, 0));
    assert!(apply_velocity(&mut cells, 20, 20));
    assert_eq!(cells.get(18, 20).element, Element::Sand);

    cells.set(30, 30, moving(sand_element(), 0, -4000));
    assert!(apply_velocity(&mut cells, 30, 30));
    assert_eq!(cells.get(30, 26).element, Element::Sand);
    assert_eq!(tally(&cells, Element::Sand), 3);
}

#[test]
fn velocity_below_one_cell_moves_nothing() {
    let mut cells = arena();
    cells.set(10, 10, moving(sand_element(), 999, -999));
    assert!(!apply_velocity(&mut cells, 10, 10));
    assert_eq!(cells.get(10, 10).element, Element::Sand);
    cells.set(11, 11, sand_element());
    assert!(!apply_velocity(&mut cells, 11, 11));
    assert_eq!(cells.get(11, 11).element, Element::Sand);
}

#[test]
fn velocity_follows_a_slanted_path() {
    let mut cells = arena();
    cells.set(10, 10, moving(sand_element(), 2000, -1000));
    assert!(apply_velocity(&mut cells, 10, 10));
    assert_eq!(cells.get(12, 9).element, Element::Sand);

    cells.set(50, 50, moving(sand_element(), -4000, 3000));
    assert!(apply_velocity(&mut cells, 50, 50));
    assert_eq!(cells.get(46, 53).element, Element::Sand);

    cells.set(100, 100, moving(sand_element(), 1000, 5000));
    cells.set(100, 103, solid_element());
    assert!(apply_velocity(&mut cells, 100, 100));
    assert_eq!(cells.get(100, 102).element, Element::Sand);
}

#[test]
fn velocity_stops_before_the_first_blocking_cell() {
    let mut cells = arena();
    cells.set(10, 10, moving(sand_element(), 6000, 0));
    cells.set(13, 10, solid_element());
    assert!(apply_velocity(&mut cells, 10, 10));
    assert_eq!(cells.get(12, 10).element, Element::Sand);
    assert_eq!(cells.get(13, 10).element, Element::Solid);
    cells.set(16, 10, sand_element());

    cells.set(20, 20, moving(sand_element(), 6000, 0));
    cells.set(21, 20, sand_element());
    assert!(!apply_velocity(&mut cells, 20, 20));
    assert_eq!(cells.get(20, 20).velocity, Velocity { x: 6000, y: 0 });

    cells.set(COLS - 3, 30, moving(sand_element(), i32::MAX, 0));
    assert!(apply_velocity(&mut cells, COLS - 3, 30));
    assert_eq!(cells.get(COLS - 2, 30).element, Element::Sand);
    assert_eq!(cells.get(COLS - 1, 30).element, Element::Solid);

    cells.set(2, 40, moving(sand_element(), i32::MIN, i32::MIN));
    assert!(apply_velocity(&mut cells, 2, 40));
    assert_eq!(cells.get(1, 39).element, Element::Sand);
    assert_eq!(cells.get(0, 38).element, Element::Solid);
}

#[test]
fn velocity_carries_sand_through_water() {
    let mut cells = arena();
    cells.set(10, 10, moving(sand_element(), 0, 3000));
    cells.set(10, 11, water_element());
    cells.set(10, 12, water_element());
    cells.set(10, 13, water_element());
    cells.set(10, 14, water_element());
    assert!(apply_velocity(&mut cells, 10, 10));
    assert_eq!(cells.get(10, 13).element, Element::Sand);
    assert_eq!(cells.get(10, 10).element, Element::Water);
    assert_eq!(cells.get(10, 11).element, Element::Water);
    assert_eq!(tally(&cells, Element::Water), 4);
}

#[test]
fn downward_swaps_with_a_yielding_cell_below() {
    let mut cells = arena();
    cells.set(5, 5, sand_element());
    assert!(downward(&mut cells, 5, 5));
    assert_eq!(cells.get(5, 6).element, Element::Sand);
    assert_eq!(cells.get(5, 5).element, Element::Air);

    cells.set(8, 8, sand_element());
    cells.set(8, 9, water_element());
    assert!(downward(&mut cells, 8, 8));
    assert_eq!(cells.get(8, 9).element, Element::Sand);
    assert_eq!(cells.get(8, 8).element, Element::Water);

    assert!(!downward(&mut cells, 8, 8));
    assert_eq!(cells.get(8, 8).element, Element::Water);

    cells.set(12, ROWS - 2, sand_element());
    assert!(!downward(&mut cells, 12, ROWS - 2));
    assert_eq!(cells.get(12, ROWS - 2).element, Element::Sand);
    assert_eq!(cells.get(12, ROWS - 1).element, Element::Solid);
}

#[test]
fn upward_swaps_with_a_yielding_cell_above() {
    let mut cells = arena();
    cells.set(5, 5, smoke_element());
    assert!(upward(&mut cells, 5, 5));
    assert_eq!(cells.get(5, 4).element, Element::Smoke);
    assert_eq!(cells.get(5, 5).element, Element::Air);

    cells.set(8, 8, smoke_element());
    cells.set(8, 7, water_element());
    assert!(!upward(&mut cells, 8, 8));
    assert_eq!(cells.get(8, 8).element, Element::Smoke);

    cells.set(9, 1, smoke_element());
    assert!(!upward(&mut cells, 9, 1));
    assert_eq!(cells.get(9, 0).element, Element::Solid);
}

#[test]
fn diagonal_fall_tries_the_given_side_first() {
    let mut cells = arena();
    cells.set(10, 10, sand_element());
    assert!(downward_sides_from(&mut cells, 10, 10, true));
    assert_eq!(cells.get(9, 11).element, Element::Sand);
    assert_eq!(cells.get(10, 10).element, Element::Air);

    cells.set(20, 10, sand_element());
    assert!(downward_sides_from(&mut cells, 20, 10, false));
    assert_eq!(cells.get(21, 11).element, Element::Sand);

    cells.set(30, 10, sand_element());
    cells.set(29, 11, solid_element());
    assert!(downward_sides_from(&mut cells, 30, 10, true));
    assert_eq!(cells.get(31, 11).element, Element::Sand);

    cells.set(40, 10, sand_element());
    cells.set(41, 11, solid_element());
    assert!(downward_sides_from(&mut cells, 40, 10, false));
    assert_eq!(cells.get(39, 11).element, Element::Sand);

    cells.set(50, 10, sand_element());
    cells.set(49, 11, sand_element());
    cells.set(51, 11, solid_element());
    assert!(!downward_sides_from(&mut cells, 50, 10, true));
    assert!(!downward_sides_from(&mut cells, 50, 10, false));
    assert_eq!(cells.get(50, 10).element, Element::Sand);
}

#[test]
fn diagonal_fall_draws_its_side() {
    let mut rng = Rng::with_seed(5);
    let mut left = 0;
    let mut right = 0;
    for _ in 0..64 {
        let mut cells = arena();
        cells.set(10, 10, sand_element());
        assert!(downward_sides(&mut cells, &mut rng, 10, 10));
        if cells.get(9, 11).element == Element::Sand {
            left += 1;
        }
        if cells.get(11, 11).element == Element::Sand {
            right += 1;
        }
    }
    assert_eq!(left + right, 64);
    assert!(left > 0 && right > 0);
    let mut cells = arena();
    cells.set(10, ROWS - 2, sand_element());
    assert!(!downward_sides(&mut cells, &mut rng, 10, ROWS - 2));
}

#[test]
fn gas_drifts_through_empty_cells_only() {
    let mut cells = arena();
    cells.set(100, 10, smoke_element());
    assert!(sideways_gas_by(&mut cells, 100, 10, 5));
    assert_eq!(cells.get(105, 10).element, Element::Smoke);
    assert_eq!(cells.get(100, 10).element, Element::Air);
    assert!(sideways_gas_by(&mut cells, 105, 10, -10));
    assert_eq!(cells.get(95, 10).element, Element::Smoke);
    assert!(!sideways_gas_by(&mut cells, 95, 10, 0));
    assert_eq!(cells.get(95, 10).element, Element::Smoke);

    cells.set(98, 10, sand_element());
    assert!(sideways_gas_by(&mut cells, 95, 10, 10));
    assert_eq!(cells.get(97, 10).element, Element::Smoke);
    assert!(!sideways_gas_by(&mut cells, 97, 10, 10));

    cells.set(3, 20, smoke_element());
    assert!(sideways_gas_by(&mut cells, 3, 20, i32::MIN));
    assert_eq!(cells.get(1, 20).element, Element::Smoke);
    assert!(sideways_gas_by(&mut cells, 1, 20, i32::MAX));
    assert_eq!(cells.get(COLS - 2, 20).element, Element::Smoke);
    assert_eq!(tally(&cells, Element::Smoke), 2);
}

#[test]
fn gas_diffusion_stays_within_its_spread() {
    let mut rng = Rng::with_seed(6);
    let mut seen = std::collections::BTreeSet::new();
    for _ in 0..400 {
        let mut cells = arena();
        cells.set(100, 10, smoke_element());
        let moved = sideways_gas(&mut cells, &mut rng, 100, 10, 10);
        let mut at = 0;
        for i in 1..COLS - 1 {
            if cells.get(i, 10).element == Element::Smoke {
                at = i;
            }
        }
        assert!((90..=110).contains(&at));
        assert_eq!(moved, at != 100);
        seen.insert(at);
    }
    assert!(seen.len() > 10);
    assert!(seen.iter().any(|at| *at < 100));
    assert!(seen.iter().any(|at| *at > 100));
    assert!(seen.iter().any(|at| *at > 90 && *at < 110 && *at != 100));

    let mut cells = arena();
    cells.set(100, 10, smoke_element());
    assert!(!sideways_gas(&mut cells, &mut rng, 100, 10, 0));
    assert!(!sideways_gas(&mut cells, &mut rng, 100, 10, -3));
    assert!(!sideways_gas(&mut cells, &mut rng, 100, 10, i32::MIN));
    assert_eq!(cells.get(100, 10).element, Element::Smoke);
}

#[test]
fn powder_comes_to_rest_when_it_cannot_move() {
    let mut rng = Rng::with_seed(7);
    let mut cells = arena();
    let floor = ROWS - 2;
    cells.set(10, floor, moving(sand_element(), 40, 90));
    settle_powder(&mut cells, &mut rng, 10, floor);
    assert_eq!(cells.get(10, floor).element, Element::Sand);
    assert_eq!(cells.get(10, floor).velocity, Velocity { x: 0, y: 0 });

    cells.set(20, 20, sand_element());
    settle_powder(&mut cells, &mut rng, 20, 20);
    assert_eq!(cells.get(20, 21).velocity, Velocity { x: 0, y: 500 });

    cells.set(30, floor, sand_element());
    cells.set(30, floor - 1, moving(sand_element(), 0, 700));
    settle_powder(&mut cells, &mut rng, 30, floor - 1);
    assert_eq!(cells.get(30, floor - 1).element, Element::Air);
    let left = *cells.get(29, floor);
    let right = *cells.get(31, floor);
    assert!((left.element == Element::Sand) != (right.element == Element::Sand));
    let slid = if left.element == Element::Sand { left } else { right };
    assert_eq!(slid.velocity, Velocity { x: 0, y: 1200 });
}

#[test]
fn water_rule_sets_the_flow_velocity() {
    let mut cells = arena();
    let floor = ROWS - 2;
    cells.set(10, floor, water_element());
    cells.set(9, floor, sand_element());
    settle_water(&mut cells, 10, floor);
    assert_eq!(cells.get(10, floor).velocity, Velocity { x: 5000, y: 1000 });

    cells.set(20, floor, water_element());
    cells.set(21, floor, water_element());
    settle_water(&mut cells, 20, floor);
    assert_eq!(cells.get(20, floor).velocity, Velocity { x: -5000, y: 1000 });
    settle_water(&mut cells, 21, floor);
    assert_eq!(cells.get(21, floor).velocity, Velocity { x: 5000, y: 1000 });

    cells.set(30, floor, water_element());
    cells.set(29, floor, smoke_element());
    cells.set(31, floor, solid_element());
    settle_water(&mut cells, 30, floor);
    assert_eq!(cells.get(30, floor).velocity, Velocity { x: -5000, y: 1000 });

    cells.set(40, 40, water_element());
    settle_water(&mut cells, 40, 40);
    assert_eq!(cells.get(40, 41).element, Element::Water);
    assert_eq!(cells.get(40, 41).velocity, Velocity { x: 0, y: 500 });
}

#[test]
fn smoke_rule_rises_before_it_drifts() {
    let mut rng = Rng::with_seed(8);
    let mut cells = arena();
    cells.set(50, 50, smoke_element());
    settle_smoke(&mut cells, &mut rng, 50, 50);
    assert_eq!(cells.get(50, 49).element, Element::Smoke);
    cells.set(60, 1, smoke_element());
    for _ in 0..50 {
        let mut at = 0;
        for i in 1..COLS - 1 {
            if cells.get(i, 1).element == Element::Smoke {
                at = i;
            }
        }
        settle_smoke(&mut cells, &mut rng, at, 1);
        let mut next = 0;
        for i in 1..COLS - 1 {
            if cells.get(i, 1).element == Element::Smoke {
                next = i;
            }
        }
        assert!((next as i64 - at as i64).abs() <= 10);
    }
    assert_eq!(tally(&cells, Element::Smoke), 2);
}

#[test]
fn a_position_that_changed_in_this_scan_is_passed_over() {
    let mut rng = Rng::with_seed(9);
    let current = arena();
    let mut future = arena();
    future.set(10, 10, sand_element());
    step_cell(&mut future, &current, &mut rng, 10, 10);
    assert_eq!(*future.get(10, 10), sand_element());
    assert_eq!(future.get(10, 11).element, Element::Air);

    let mut current = arena();
    current.set(10, 10, sand_element());
    step_cell(&mut future, &current, &mut rng, 10, 10);
    assert_eq!(future.get(10, 10).element, Element::Air);
    assert_eq!(future.get(10, 11).element, Element::Sand);
    step_cell(&mut future, &current, &mut rng, 10, 10);
    step_cell(&mut future, &current, &mut rng, 0, 0);
    step_cell(&mut future, &current, &mut rng, 10, 12);
    assert_eq!(future.get(10, 11).element, Element::Sand);
    assert_eq!(tally(&future, Element::Sand), 1);
}

#[test]
fn enclose_makes_the_border_solid() {
    let mut cells = create_cells_array();
    cells.set(0, 0, water_element());
    cells.set(7, 7, water_element());
    cells.set(COLS - 1, 9, sand_element());
    cells.enclose();
    assert_eq!(*cells.get(7, 7), water_element());
    assert_eq!(*cells.get(1, 1), air_element());
    assert_eq!(*cells.get(COLS - 2, ROWS - 2), air_element());
    for i in 0..COLS {
        assert_eq!(*cells.get(i, 0), solid_element());
        assert_eq!(*cells.get(i, ROWS - 1), solid_element());
    }
    for j in 0..ROWS {
        assert_eq!(*cells.get(0, j), solid_element());
        assert_eq!(*cells.get(COLS - 1, j), solid_element());
    }
    assert_eq!(tally(&cells, Element::Solid), 2 * COLS + 2 * ROWS - 4);
    assert_eq!(tally(&cells, Element::Water), 1);
    assert_eq!(tally(&cells, Element::Sand), 0);
}
