use vstd::prelude::*;

verus! {

/// Errors surfaced by the verified core.
///
/// Transport failures never reach the library: the surrounding process hands
/// it already-received values. What the library itself can reject is a
/// protocol-level error carried inside a well-formed response, a missing
/// result, a failed batch status, or a malformed hexadecimal field.
#[derive(Debug)]
pub enum OracleError {
    /// The node answered with an explicit protocol-level error message.
    Rpc(String),
    /// A well-formed response carried neither a result nor an error.
    NoResult,
    /// The batch transaction fetch reported a status other than the success
    /// marker; the field holds the reported status.
    BadStatus(String),
    /// A hexadecimal field was malformed, or decoded to a length the field
    /// does not allow.
    Encoding,
}

} // verus!
