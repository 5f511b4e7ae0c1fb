use vstd::prelude::*;

verus! {

/// The ways an operation of this library can fail.
///
/// Configuration problems (a malformed universe, a rule that names a term
/// its variable does not have, a rule of the wrong arity) surface as soon
/// as the bad value is handed in, never at evaluation time.
#[derive(Clone, Copy, Debug, PartialEq, Eq, Structural)]
pub enum FuzzyError {
    /// A malformed universe (`stop < start`, a non-positive step, or a
    /// length over `MAX_LEN`) or a rule whose arity does not match the
    /// engine's variables.
    Configuration,
    /// A term name that the linguistic variable does not contain.
    UnknownTerm,
    /// Two fuzzy sets over different universes were combined.
    DomainMismatch,
    /// Centroid defuzzification of an all-zero membership vector.
    DegenerateDefuzzification,
    /// `calculate` was called before any rule was added.
    EmptyRuleBase,
}

impl FuzzyError {
    /// A short description of the error, for callers that print diagnostics.
    pub fn describe(&self) -> (r: &'static str)
        ensures
            self is Configuration ==> r@ == "malformed universe or rule arity mismatch"@,
            self is UnknownTerm ==> r@ == "no term with that name in the linguistic variable"@,
            self is DomainMismatch ==> r@ == "the two fuzzy sets live on different universes"@,
            self is DegenerateDefuzzification ==> r@ == "cannot take the centroid of an all-zero set"@,
            self is EmptyRuleBase ==> r@ == "the rule base is empty"@,
    {
        match self {
            FuzzyError::Configuration => "malformed universe or rule arity mismatch",
            FuzzyError::UnknownTerm => "no term with that name in the linguistic variable",
            FuzzyError::DomainMismatch => "the two fuzzy sets live on different universes",
            FuzzyError::DegenerateDefuzzification => "cannot take the centroid of an all-zero set",
            FuzzyError::EmptyRuleBase => "the rule base is empty",
        }
    }
}

} // verus!
