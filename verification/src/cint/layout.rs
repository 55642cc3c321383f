//! Fixed positions of the environment buffer and the record sizes, as the
//! integral engine's public header defines them.
use vstd::prelude::*;

verus! {

/// Slot of the overall exponent cutoff.
pub const PTR_EXPCUTOFF: usize = 0;

/// First slot of the common origin (three slots).
pub const PTR_COMMON_ORIG: usize = 1;

/// First slot of the origin of the inverse-distance operator (three slots).
pub const PTR_RINV_ORIG: usize = 4;

/// Slot of the width of the inverse-distance operator's Gaussian charge.
pub const PTR_RINV_ZETA: usize = 7;

/// Slot of the range-separation parameter.
pub const PTR_RANGE_OMEGA: usize = 8;

/// Slot of the first auxiliary width (F12 factor).
pub const PTR_F12_ZETA: usize = 9;

/// Slot of the second auxiliary width (Gaussian geminal).
pub const PTR_GTG_ZETA: usize = 10;

/// Slot of the grid count.
pub const NGRIDS: usize = 11;

/// First slot of the grid data.
pub const PTR_GRIDS: usize = 12;

/// Size of the header: the first slot free for atom and basis data.
pub const PTR_ENV_START: usize = 20;

/// Angular momenta must stay below this bound.
pub const ANG_MAX: u8 = 15;

/// Number of environment slots per atom: three coordinates and a width.
pub const ATM_SLOT: usize = 4;

/// Number of integers in an atom record.
pub const ATM_SLOTS: usize = 6;

/// Number of integers in a basis record.
pub const BAS_SLOTS: usize = 8;

} // verus!
