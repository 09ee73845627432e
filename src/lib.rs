//! A two-dimensional N-body gravity sandbox, in exact integer arithmetic.
//!
//! Units: lengths in micro-pixels (`LENGTH_SCALE` per pixel), time in
//! milliseconds, mass in whole mass units. A body stores its momentum rather
//! than its velocity, so that every exchange of momentum between bodies
//! (gravity, merging, fragmenting) is exact; its velocity is the momentum
//! divided by the mass.
pub mod geometry;
pub mod body;
pub mod gravity;
pub mod containment;
pub mod collision;
pub mod spawn;
pub mod integrator;
pub mod world;
