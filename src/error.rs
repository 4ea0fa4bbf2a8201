use vstd::prelude::*;

verus! {

/// Why a token did not validate. The public entry point collapses all of
/// these into one invalid record.
#[derive(Clone, Copy, Debug, PartialEq, Eq, Structural)]
pub enum LicenseError {
    /// The token does not follow the wire layout.
    MalformedToken,
    /// The token decodes, but its signature does not verify.
    SignatureMismatch,
    /// The expiration fields do not name a real calendar day.
    InvalidCalendarDate,
    /// The public key cannot be decoded.
    KeyLoadFault,
}

} // verus!
