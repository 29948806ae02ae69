//! A verified core for casting rays at transformable spheres.
//!
//! Numbers are carried by their binary32 bit patterns ([`scalar::Scalar`]); the
//! library decides everything that depends only on sign, order and identity
//! (which intersections are kept, in which order, which one is visible, which
//! way a normal faces), and leaves arithmetic to its caller.
//!
//! - [`scalar`]: bit patterns, the numbers they stand for, their order.
//! - [`math`]: points, vectors, matrices and colours, and what the matrices
//!   built here do in exact arithmetic.
//! - [`material`], [`light`], [`objects`], [`world`]: the scene.
//! - [`intersection`] and [`order`]: intersections, kept nearest first, and
//!   the visible hit.
//! - [`canvas`]: the pixel grid.

pub mod canvas;
pub mod intersection;
pub mod light;
pub mod material;
pub mod math;
pub mod objects;
pub mod order;
pub mod scalar;
pub mod world;
