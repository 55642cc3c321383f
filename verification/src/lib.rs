//! Data plane for a Gaussian-integral engine.
//!
//! The crate packs molecular geometry and basis-set data into the flat
//! atom / basis / environment arrays that the integral kernels read,
//! re-derives basis-record subsets by atom, and addresses the dense
//! tensors that the kernels fill.  Every function is verified against a
//! contract over sequence models of those arrays.
//!
//! Real numbers are never computed with here; they are carried as
//! [`cint::Binary64`], the IEEE 754 bit pattern of a double.
pub mod cint;
pub mod error;
pub mod io;
