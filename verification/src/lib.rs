//! A tick-driven simulation of ships on a wrapped hexagonal grid.
//!
//! Ships execute queued orders (movement, resource extraction) against a
//! monotonically non-decreasing tick supplied by the caller. State is never
//! advanced tick by tick: a settlement call reconstructs, from the stored
//! state and the current tick alone, exactly how much progress occurred,
//! including partial order completion, order splitting, energy recharge and
//! constraint-driven clamping.

pub mod engine;
pub mod grid;
pub mod inventory;
pub mod planets;
pub mod ship;

pub use engine::{mine_energy_per_block, move_energy_per_tile, Error, Rareships};
pub use grid::{
    cube_coordinates_to_offset_coordinates, offset_coordinates_to_cube_coordinates, Direction,
    MAX_X, MAX_Y,
};
pub use inventory::{Armor, Inventory, Item, Resource, ResourceType, Weapon};
pub use planets::{Planet, PlanetLevel};
pub use ship::{AccountId, Order, Ship};
