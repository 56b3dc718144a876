//! Fixed-point flocking simulation with machine-checked contracts.
//!
//! A flock is an ordered collection of agents. One tick scans for neighbours,
//! blends the three steering influences into each velocity, moves every agent
//! and wraps it around the borders of the world. All quantities are 16.16
//! fixed-point integers, so that every result is exact and every run repeats.

pub mod boid;
pub mod fixed;
pub mod flock;
pub mod laws;
pub mod norm;
pub mod settings;
pub mod spawn;
pub mod vector;
pub mod world;

pub use crate::boid::Boid;
pub use crate::flock::Flock;
pub use crate::settings::Settings;
pub use crate::spawn::{spawn_boids, InitError};
pub use crate::vector::{Point, Vec2};
pub use crate::world::WorldBounds;
