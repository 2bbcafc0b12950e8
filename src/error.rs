use vstd::prelude::*;

verus! {

/// Every way an operation of the engine can be refused.
#[derive(Debug, Clone, Copy, PartialEq, Eq, Structural)]
pub enum UnitError {
    /// Two dimension vectors that had to be equal differ.
    DimensionMismatch,
    /// An exponent list does not have one entry per base dimension.
    ArityMismatch,
    /// Two base dimensions share a name or a symbol.
    DuplicateDimension,
    /// A unit symbol is already used for another dimension vector.
    ConflictingSymbol,
    /// A prefix was applied to a unit with a nonzero offset.
    PrefixOnOffsetUnit,
    /// A unit with a nonzero offset was multiplied or divided.
    OffsetUnitNotMultiplicable,
    /// A root left an exponent that is not an integer.
    NonIntegerExponent,
    /// A value has no exact rational root of the asked degree.
    IrrationalRoot,
    /// A division by a zero value, or a root of degree zero.
    DivisionByZero,
    /// A number does not fit in the fixed-width integers that hold it.
    Overflow,
}

} // verus!
