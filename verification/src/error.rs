use vstd::prelude::*;

verus! {

/// Errors reported by the codecs of this library.
#[derive(Debug, Clone, Copy, PartialEq, Eq, Structural)]
pub enum JpeglsError {
    /// The encoded data is malformed or truncated.
    InvalidData,
    /// The operation is not valid in the current state.
    InvalidOperation,
    /// The component count is missing or invalid.
    InvalidParameterComponentCount,
    /// The SPIFF header does not agree with the frame.
    InvalidSpiffHeader,
    /// A parameter value is not supported (also: the output buffer is too small).
    ParameterValueNotSupported,
}

} // verus!
