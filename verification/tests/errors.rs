use cint_data::error::CintError;

#[test]
fn every_error_has_its_message() {
    assert_eq!(CintError::MissingBasis.message(), "atom group has no basis");
    assert_eq!(CintError::UnknownElementSymbol.message(), "unknown element symbol");
    assert_eq!(CintError::AtomCountMismatch.message(), "atom count mismatch");
    assert_eq!(CintError::AngularMomentumOutOfRange.message(), "angular momentum out of range");
    assert_eq!(CintError::AtomIndexOutOfRange.message(), "atom index out of range");
    assert_eq!(CintError::NullKernel.message(), "no integral kernel given");
    assert_eq!(CintError::NumericParse.message(), "numeric field does not parse");
}

#[test]
fn errors_compare_by_kind() {
    assert_eq!(CintError::NullKernel, CintError::NullKernel);
    assert_ne!(CintError::NullKernel, CintError::NumericParse);
}
