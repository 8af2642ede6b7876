//! A two-dimensional world of circular creatures: a spatial index, sensing
//! and memory, goal selection, steering and motion, and collisions that
//! exchange momentum and mass.
//!
//! Every real quantity is a [`fixed::Fixed`], a saturating fixed-point number
//! of six decimals: the world computes the same on every machine, and what
//! it computes is stated exactly. A number on a rail is not finite, and an
//! agent at a position that is not finite is kept out of the index.
//!
//! The world does not know sines and cosines. An agent carries its heading as
//! an angle and as a unit vector; the host gives it the unit vector that goes
//! with the angle before every tick (see [`game::Game`] and
//! [`tick::tick`]).
//!
//! One tick runs the passes in one order: the index is built; the agents see
//! and forget, decide and act, and move; the index is built again and the
//! agents collide; last they feel what hit them and settle. What a pass draws
//! by chance it draws in [`random`]; beside each such pass stands a function
//! that takes the draws as arguments and says exactly what comes of them.

pub mod fixed;
pub mod vec2;
pub mod spatial;
pub mod agent;
pub mod random;
pub mod game;
pub mod collision;
pub mod motion;
pub mod decision;
pub mod energy;
pub mod encoding;
pub mod worldgen;
pub mod tick;
pub mod items;
pub mod marker;
