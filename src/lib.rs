//! Ray-intersection and light-transport kernel of a small path tracer.
//!
//! Coordinates and ray distances enter the library as the bit patterns of
//! IEEE-754 doubles, turned into integer keys whose order is the order of
//! the numbers (see `key`). On those keys the library builds and walks its
//! bounding-volume hierarchy, keeps the closest hit, and decides each step
//! of the integrator; the arithmetic on the numbers themselves stays with
//! the caller.
pub mod key;
pub mod axis;
pub mod aabb;
pub mod bvh;
pub mod hittable;
pub mod renderer;
pub mod material;
pub mod mesh;
