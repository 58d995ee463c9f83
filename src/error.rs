use vstd::prelude::*;

verus! {

/// Why a conversion between denominations fails.
#[derive(Clone, Copy, Debug, PartialEq, Eq, Structural)]
pub enum MoneyError {
    /// No rate joins the two denominations: one of them is foreign to the
    /// family, they are the same denomination, or they lie in two families.
    InvalidCurrency,
    /// The converted amount does not fit the bounds of an amount.
    InvalidAmount,
}

/// Why a family description is refused at generation time.
#[derive(Clone, Copy, Debug, PartialEq, Eq, Structural)]
pub enum GenerationError {
    /// The family has no denomination.
    EmptyFamily,
    /// Two denominations of the family share an identifier.
    DuplicateDenomination,
    /// Two exponents lie further apart than an exact rate can span.
    ExponentSpread,
    /// No denomination carries the identifier named as the default.
    MissingDefault,
    /// A family of that name was registered before in the session.
    DuplicateFamily,
}

} // verus!
