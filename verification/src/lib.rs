//! A 2D particle-field engine for driving a visual animation.
//!
//! The engine generates a jittered 20x20 grid of points over a rectangular
//! domain, precomputes for every point the indices of its five nearest
//! neighbors (a topology frozen at construction), and recomputes each
//! point's activity level every frame from its squared distance to a
//! moving target. Position tweening is owned by an external driver; the
//! engine only classifies proximity.
//!
//! All coordinates are fixed point: one pixel is `SUBUNITS` (= 20)
//! coordinate units, which makes the grid arithmetic exact.

pub mod engine;
pub mod geometry;
pub mod point;
mod rng;

pub use engine::AnimationEngine;
pub use point::Point;
