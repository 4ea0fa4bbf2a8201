//! Validation of signed license tokens: decoding, Ed25519 authenticity and
//! the expiration policy derived from the embedded calendar date.
use vstd::prelude::*;

pub mod calendar;
pub mod codec;
pub mod crypto;
pub mod error;
pub mod plan;
pub mod validate;

pub use codec::{decode, public_key_from_hex, LicensePayload, SignedLicense};
pub use error::LicenseError;
pub use plan::{type_string, LicenseType};
pub use validate::{check_signature, derive_record, validate_license, validate_license_res, LicenseData};

verus! {

} // verus!
