//! Turns a layered tile grid into a collision model and batched quad geometry,
//! and resolves actor movement against the collision model.
//!
//! Coordinate convention: world units are pixels, x grows to the right and y
//! grows downward (the same direction as the row index). A rectangle's `top`
//! is its smaller y value and `bottom` its larger one.
pub mod grid;
pub mod level;
pub mod runtime;
pub mod chunk;
