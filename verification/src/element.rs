//! The cell model: the closed set of materials and the per-cell data.

use vstd::prelude::*;

verus! {

/// The material kind of a cell.
#[derive(Clone, Copy, Debug, PartialEq, Eq, Structural)]
pub enum Element {
    /// Empty background.
    Air,
    /// Immovable obstacle; the border ring is made of it.
    Solid,
    /// A powder: it falls, and slides off what it cannot sink through.
    Sand,
    /// A powder that behaves as `Sand` does.
    SawDust,
    /// A liquid: it falls, and flows sideways where it cannot.
    Water,
    /// A gas: it rises, and drifts sideways where it cannot.
    Smoke,
}

impl Element {
    /// The density of the material: the ordering value that decides which of two
    /// adjacent materials sinks or rises relative to the other.
    pub open spec fn spec_density(self) -> u8 {
        match self {
            Element::Air => 0,
            Element::Smoke => 1,
            Element::Water => 2,
            Element::SawDust => 3,
            Element::Sand => 4,
            Element::Solid => 255,
        }
    }

    /// The density of the material.
    #[verifier::when_used_as_spec(spec_density)]
    pub fn density(self) -> (d: u8)
        ensures
            d == self.spec_density(),
    {
        match self {
            Element::Air => 0,
            Element::Smoke => 1,
            Element::Water => 2,
            Element::SawDust => 3,
            Element::Sand => 4,
            Element::Solid => 255,
        }
    }
}

/// A velocity in fixed point: `SUBCELL` units are one cell per tick. `x` grows
/// rightward and `y` downward, as columns and rows do.
#[derive(Clone, Copy, Debug, PartialEq, Eq, Structural)]
pub struct Velocity {
    /// Rightward speed.
    pub x: i32,
    /// Downward speed.
    pub y: i32,
}

/// The atomic unit of the simulation. The density of a cell is that of its
/// material, and so is computed rather than stored.
#[derive(Clone, Copy, Debug, PartialEq, Eq)]
pub struct Cell {
    /// The material of the cell.
    pub element: Element,
    /// How fast the cell moves; the tick changes it.
    pub velocity: Velocity,
    /// Red, green, blue and alpha; physics does not touch it.
    pub color: [u8; 4],
}

impl Cell {
    /// The cell of `element` at rest with the given color.
    pub open spec fn at_rest(element: Element, color: [u8; 4]) -> Cell {
        Cell { element, velocity: Velocity { x: 0, y: 0 }, color }
    }

    /// A cell of `element` at rest with the given color.
    pub fn new(element: Element, color: [u8; 4]) -> (cell: Cell)
        ensures
            cell == Cell::at_rest(element, color),
    {
        Cell { element, velocity: Velocity { x: 0, y: 0 }, color }
    }

    /// The density of the cell: that of its material.
    pub open spec fn spec_density(&self) -> u8 {
        self.element.spec_density()
    }

    /// This cell as a brush lays it down: each of red, green and blue lowered by
    /// `shade`, or left as it is if one of them is smaller than `shade`, and
    /// opaque.
    pub open spec fn spec_shaded(&self, shade: u8) -> Cell {
        let less = if self.color[0] < shade || self.color[1] < shade || self.color[2] < shade {
            0u8
        } else {
            shade
        };
        Cell {
            color: [
                (self.color[0] - less) as u8,
                (self.color[1] - less) as u8,
                (self.color[2] - less) as u8,
                255u8,
            ],
            ..*self
        }
    }

    /// This cell as a brush lays it down, darkened by `shade`.
    #[verifier::when_used_as_spec(spec_shaded)]
    pub fn shaded(&self, shade: u8) -> (cell: Cell)
        ensures
            cell == self.spec_shaded(shade),
    {
        let less = if self.color[0] < shade || self.color[1] < shade || self.color[2] < shade {
            0u8
        } else {
            shade
        };
        Cell {
            element: self.element,
            velocity: self.velocity,
            color: [self.color[0] - less, self.color[1] - less, self.color[2] - less, 255],
        }
    }

    /// The density of the cell's material.
    #[verifier::when_used_as_spec(spec_density)]
    pub fn density(&self) -> (d: u8)
        ensures
            d == self.element.spec_density(),
    {
        self.element.density()
    }
}

/// The color that a fresh cell of `element` has.
pub open spec fn palette(element: Element) -> [u8; 4] {
    match element {
        Element::Air => [0u8, 0u8, 0u8, 0u8],
        Element::Solid => [100u8, 100u8, 100u8, 255u8],
        Element::Sand => [220u8, 190u8, 120u8, 255u8],
        Element::SawDust => [180u8, 140u8, 90u8, 255u8],
        Element::Water => [60u8, 120u8, 220u8, 255u8],
        Element::Smoke => [130u8, 130u8, 130u8, 255u8],
    }
}

/// A fresh cell of `element`: at rest, in the color of its material.
pub open spec fn fresh(element: Element) -> Cell {
    Cell::at_rest(element, palette(element))
}

/// A fresh `Air` cell.
pub fn air_element() -> (cell: Cell)
    ensures
        cell == fresh(Element::Air),
{
    Cell::new(Element::Air, [0, 0, 0, 0])
}

/// A fresh `Solid` cell.
pub fn solid_element() -> (cell: Cell)
    ensures
        cell == fresh(Element::Solid),
{
    Cell::new(Element::Solid, [100, 100, 100, 255])
}

/// A fresh `Sand` cell.
pub fn sand_element() -> (cell: Cell)
    ensures
        cell == fresh(Element::Sand),
{
    Cell::new(Element::Sand, [220, 190, 120, 255])
}

/// A fresh `SawDust` cell.
pub fn sawdust_element() -> (cell: Cell)
    ensures
        cell == fresh(Element::SawDust),
{
    Cell::new(Element::SawDust, [180, 140, 90, 255])
}

/// A fresh `Water` cell.
pub fn water_element() -> (cell: Cell)
    ensures
        cell == fresh(Element::Water),
{
    Cell::new(Element::Water, [60, 120, 220, 255])
}

/// A fresh `Smoke` cell.
pub fn smoke_element() -> (cell: Cell)
    ensures
        cell == fresh(Element::Smoke),
{
    Cell::new(Element::Smoke, [130, 130, 130, 255])
}

} // verus!
