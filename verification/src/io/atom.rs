//! Geometries.
pub mod xyz;
