//! The error values returned by the fallible operations of the crate.
use vstd::prelude::*;

verus! {

/// Why an operation refused its input.
#[derive(Clone, Copy, Debug, PartialEq, Eq, Structural)]
pub enum CintError {
    /// An atom group reached assembly without a basis.
    MissingBasis,
    /// A geometry line names an element that the periodic table lacks.
    UnknownElementSymbol,
    /// The declared atom count differs from the number of atom lines.
    AtomCountMismatch,
    /// A sub-shell's angular momentum reaches the engine's maximum.
    AngularMomentumOutOfRange,
    /// A selection names an atom that the dataset does not hold.
    AtomIndexOutOfRange,
    /// An integral was requested without a kernel.
    NullKernel,
    /// A numeric field could not be read as a number.
    NumericParse,
}

impl CintError {
    /// A short description of the error.
    pub fn message(&self) -> (r: String)
        ensures
            r@ == Self::spec_message(*self)@,
    {
        match self {
            CintError::MissingBasis => String::from_str("atom group has no basis"),
            CintError::UnknownElementSymbol => String::from_str("unknown element symbol"),
            CintError::AtomCountMismatch => String::from_str("atom count mismatch"),
            CintError::AngularMomentumOutOfRange => String::from_str(
                "angular momentum out of range",
            ),
            CintError::AtomIndexOutOfRange => String::from_str("atom index out of range"),
            CintError::NullKernel => String::from_str("no integral kernel given"),
            CintError::NumericParse => String::from_str("numeric field does not parse"),
        }
    }

    /// The text of [`CintError::message`].
    pub open spec fn spec_message(e: CintError) -> &'static str {
        match e {
            CintError::MissingBasis => "atom group has no basis",
            CintError::UnknownElementSymbol => "unknown element symbol",
            CintError::AtomCountMismatch => "atom count mismatch",
            CintError::AngularMomentumOutOfRange => "angular momentum out of range",
            CintError::AtomIndexOutOfRange => "atom index out of range",
            CintError::NullKernel => "no integral kernel given",
            CintError::NumericParse => "numeric field does not parse",
        }
    }
}

} // verus!
