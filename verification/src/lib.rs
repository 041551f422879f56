//! Barnes-Hut simulation of gravity and merging among 2-D bodies.
//!
//! Every quantity is a [`scalar::Scalar`], a fixed-point number that counts
//! millionths. Quotients are rounded towards minus infinity, and a result
//! that leaves the range of a `Scalar` saturates at its end.
//!
//! - [`bounding_box`]: square regions and their split into quadrants.
//! - [`quadtree`]: the spatial index with its center-of-mass aggregates.
//! - [`traversal`]: the opening-angle traversal that yields force sources.
//! - [`neighbours`]: the particles in the cells around a particle.
//! - [`simulation`]: forces, integration, collisions and the time step.
//! - [`state`]: a simulation with its controls, driven by input events.
//! - [`particle`], [`scalar`], [`utils`], [`constants`], [`draw`]: the
//!   values and helpers that the others are built from.
pub mod constants;
pub mod scalar;
pub mod utils;
pub mod bounding_box;
pub mod particle;
pub mod quadtree;
pub mod traversal;
pub mod simulation;
pub mod neighbours;
pub mod state;
pub mod draw;
