//! A falling-sand particle simulation: a fixed-size grid of cells, each holding
//! one material, advanced one tick at a time by a cellular-automaton update.
//!
//! Velocities are fixed-point integers, so that every rule of the simulation is
//! stated and proved over mathematical integers.
//!
//! - `fixed`: integer arithmetic for velocities.
//! - `element`: the materials and the cell.
//! - `cells`: the storage of a grid, its border ring and its census.
//! - `random`: the pseudorandom source.
//! - `movement`: the movement primitives.
//! - `rules`: the rule of each material.
//! - `scan`: the order of a tick's scan and the grid it leads to.
//! - `laws`: what holds of every tick.
//! - `brush`: the disc of a brush, the disc and the impulse of an explosion.
//! - `grid`: the engine, with its tick and its editing operations.

pub mod fixed;
pub mod element;
pub mod cells;
pub mod random;
pub mod movement;
pub mod rules;
pub mod scan;
pub mod laws;
pub mod brush;
pub mod grid;
