//! Atom groups, the assembled dataset and the integral invoker.
use vstd::prelude::*;

pub mod assemble;
pub mod binary64;
pub mod cdata;
pub mod intor;
pub mod layout;
pub mod packing;
pub mod rawdata;
pub mod select;

verus! {

/// Position of a physical atom in declaration order.
pub type AtomIndex = usize;

/// A number of physical atoms.
pub type NAtom = usize;

/// Position of a basis template, one per atom group.
pub type BasisIndex = usize;

/// A number of basis templates.
pub type NBasis = usize;

/// The bit pattern of an IEEE 754 double, as `to_bits` gives it.
pub type Binary64 = u64;

/// Nuclear model tag: point charge.
pub const NUC_POINT: i32 = 1;

/// Nuclear model tag: Gaussian-smeared charge.
pub const NUC_GAUSS: i32 = 2;

} // verus!
