//! Deterministic game-state logic of a 2D submarine simulation: the wire
//! network, the water grid, the rock world, sonar and object behaviour.

pub mod grid;
pub mod wires;
pub mod water;
pub mod rocks;
pub mod sonar;
pub mod state;
pub mod objects;
pub mod saveload;
pub mod object_update;
pub mod collisions;
pub mod docking;
pub mod framing;
pub mod shadows;
pub mod navigation;
pub mod water_balance;
pub mod game;
