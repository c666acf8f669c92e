use vstd::prelude::*;

verus! {

/// Error surfaced by every validation or decode failure.
#[derive(Debug, Clone, PartialEq, Eq)]
pub enum CodecError {
    /// Buffer length or layout is invalid.
    InvalidLength,
    /// Data failed a structural validation check.
    ValidationFailed,
    /// Custom message for diagnostics.
    Message(String),
}

impl CodecError {
    /// Short description of the error, suitable for display.
    pub fn describe(&self) -> (r: String)
        ensures
            self matches CodecError::Message(s) ==> r@ == s@,
    {
        match self {
            CodecError::InvalidLength => "invalid length".to_owned(),
            CodecError::ValidationFailed => "validation failed".to_owned(),
            CodecError::Message(s) => s.clone(),
        }
    }
}

} // verus!
