//! A 2D rigid-body collision detection and impulse-based resolution engine.
//!
//! All geometry is carried out in fixed-point arithmetic: a coordinate,
//! velocity or angle is an `i64` holding one thousand times its value
//! (milliunits), so every computation is exact integer arithmetic and every
//! result is pinned down by its contract.
//!
//! The engine detects overlap of convex shapes (circles, rectangles, regular
//! polygons) with the separating-axis theorem, derives contact points from
//! clamped point-to-segment projections, and resolves each contact with a
//! positional correction followed by a sequential-impulse velocity solver.

pub mod math;
pub mod body;
pub mod collisions;
pub mod physics;
