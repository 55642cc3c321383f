//! Basis sets.
pub mod json;
