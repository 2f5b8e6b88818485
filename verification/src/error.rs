use vstd::prelude::*;

verus! {

/// Every failure the library reports. Each kind signals a defect in the
/// circuit description or its invocation; none is transient.
#[derive(Clone, Copy, Debug, PartialEq, Eq, Structural)]
pub enum CircuitError {
    /// A tracking-mode local satisfaction check failed.
    UnsatisfiedConstraint,
    /// Field conversion between fields whose canonical encodings have
    /// different byte widths.
    IncompatibleFieldWidth,
    /// Bytes do not decode to a valid element of the destination field.
    DecodeError,
    /// The circuit needs more rows than the backend was configured with.
    RowBudgetExceeded,
    /// The verification oracle was invoked while some witness value is
    /// still unknown.
    IncompleteWitness,
    /// A witness lookup was given an index outside the witness vector.
    IndexOutOfRange,
}

impl CircuitError {
    /// A short name for the error, for callers that need to display it.
    pub fn describe(&self) -> (r: &'static str)
        ensures
            r@ =~= self.spec_describe(),
    {
        match self {
            CircuitError::UnsatisfiedConstraint => "unsatisfied constraint",
            CircuitError::IncompatibleFieldWidth => "incompatible field width",
            CircuitError::DecodeError => "decode error",
            CircuitError::RowBudgetExceeded => "row budget exceeded",
            CircuitError::IncompleteWitness => "incomplete witness",
            CircuitError::IndexOutOfRange => "index out of range",
        }
    }

    pub open spec fn spec_describe(&self) -> Seq<char> {
        match self {
            CircuitError::UnsatisfiedConstraint => "unsatisfied constraint"@,
            CircuitError::IncompatibleFieldWidth => "incompatible field width"@,
            CircuitError::DecodeError => "decode error"@,
            CircuitError::RowBudgetExceeded => "row budget exceeded"@,
            CircuitError::IncompleteWitness => "incomplete witness"@,
            CircuitError::IndexOutOfRange => "index out of range"@,
        }
    }
}

} // verus!
