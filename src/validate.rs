use vstd::prelude::*;
use vstd::string::StringSliceAdditionalSpecFns;
use crate::calendar::{
    expiration_and_warn, i64_to_string, int_decimal, is_calendar_date, midnight_seconds,
    WARN_OFFSET,
};
use crate::codec::{
    decode, encodable, encode_message, encode_token, lemma_decode_encode, lemma_truncated_not_well_formed, token_message, token_payload, token_signature, well_formed_token, PayloadView,
    SignedLicense,
};
use crate::crypto::{
    ed25519_key_decodes, ed25519_signature_decodes, ed25519_verifies, key_decodes,
    signature_verifies,
};
use crate::error::LicenseError;
use crate::plan::{plan_code, type_string};

verus! {

/// The flat record handed to the host.
#[derive(Clone, Debug)]
pub struct LicenseData {
    pub license_type: String,
    pub expiration: String,
    pub warn: String,
    pub user_id: u32,
    pub perpetual: bool,
    pub trial: bool,
    pub valid: bool,
    pub computer_id: String,
}

pub struct LicenseDataView {
    pub license_type: Seq<char>,
    pub expiration: Seq<char>,
    pub warn: Seq<char>,
    pub user_id: u32,
    pub perpetual: bool,
    pub trial: bool,
    pub valid: bool,
    pub computer_id: Seq<char>,
}

impl View for LicenseData {
    type V = LicenseDataView;

    open spec fn view(&self) -> LicenseDataView {
        LicenseDataView {
            license_type: self.license_type@,
            expiration: self.expiration@,
            warn: self.warn@,
            user_id: self.user_id,
            perpetual: self.perpetual,
            trial: self.trial,
            valid: self.valid,
            computer_id: self.computer_id@,
        }
    }
}

/// The record returned on every failure: empty strings, zero, all false.
pub open spec fn invalid_record() -> LicenseDataView {
    LicenseDataView {
        license_type: Seq::empty(),
        expiration: Seq::empty(),
        warn: Seq::empty(),
        user_id: 0,
        perpetual: false,
        trial: false,
        valid: false,
        computer_id: Seq::empty(),
    }
}

pub open spec fn payload_date_is_real(p: PayloadView) -> bool {
    is_calendar_date(p.expiration_year as int, p.expiration_month as int, p.expiration_day as int)
}

pub open spec fn payload_expiration(p: PayloadView) -> int {
    midnight_seconds(p.expiration_year as int, p.expiration_month as int, p.expiration_day as int)
}

/// The record derived from a payload with a real expiration date, carrying
/// the given authenticity verdict.
pub open spec fn derived_record(p: PayloadView, authentic: bool) -> LicenseDataView {
    LicenseDataView {
        license_type: plan_code(p.license_type),
        expiration: int_decimal(payload_expiration(p)),
        warn: int_decimal(payload_expiration(p) - WARN_OFFSET),
        user_id: p.user_id,
        perpetual: p.perpetual,
        trial: p.trial,
        valid: authentic,
        computer_id: match p.computer_id {
            Some(c) => c,
            None => Seq::empty(),
        },
    }
}

/// Whether validation of the token bytes `b` under `key` gets as far as a
/// derived record: the key decodes, the token is well formed and its date
/// is real.
pub open spec fn token_accepted(key: Seq<u8>, b: Seq<u8>) -> bool {
    &&& ed25519_key_decodes(key)
    &&& well_formed_token(b)
    &&& payload_date_is_real(token_payload(b))
}

/// The record that validation of the token bytes `b` under `key` yields.
pub open spec fn validation_record(key: Seq<u8>, b: Seq<u8>) -> LicenseDataView {
    if token_accepted(key, b) {
        derived_record(
            token_payload(b),
            ed25519_verifies(key, token_message(b), token_signature(b)),
        )
    } else {
        invalid_record()
    }
}

/// Whether the warning field is the expiration field less thirty days, or
/// both are empty.
pub open spec fn warn_offset_holds(r: LicenseDataView) -> bool {
    (r.expiration.len() == 0 && r.warn.len() == 0) || exists|t: int|
        r.expiration == #[trigger] int_decimal(t) && r.warn == int_decimal(t - WARN_OFFSET)
}

/// Checks a decoded license's signature under the public key.
pub fn check_signature(public_key: &[u8], signed: &SignedLicense) -> (r: Result<(), LicenseError>)
    requires
        ed25519_key_decodes(public_key@),
        ed25519_signature_decodes(signed.signature@),
    ensures
        r is Ok <==> ed25519_verifies(public_key@, signed.message@, signed.signature@),
        r is Err ==> r == Err::<(), LicenseError>(LicenseError::SignatureMismatch),
{
    if signature_verifies(public_key, signed.message.as_slice(), signed.signature.as_slice()) {
        Ok(())
    } else {
        Err(LicenseError::SignatureMismatch)
    }
}

fn computer_id_or_empty(c: &Option<String>) -> (r: String)
    ensures
        r@ == match c {
            Some(s) => s@,
            None => Seq::<char>::empty(),
        },
{
    match c {
        Some(s) => s.clone(),
        None => String::new(),
    }
}

/// Builds the record for a decoded payload, or fails with
/// `InvalidCalendarDate` when its expiration is not a real day.
pub fn derive_record(payload: &crate::codec::LicensePayload, authentic: bool) -> (r: Result<
    LicenseData,
    LicenseError,
>)
    ensures
        r is Ok <==> payload_date_is_real(payload@),
        r is Err ==> r == Err::<LicenseData, LicenseError>(LicenseError::InvalidCalendarDate),
        r matches Ok(d) ==> d@ == derived_record(payload@, authentic),
{
    match expiration_and_warn(
        payload.expiration_year,
        payload.expiration_month,
        payload.expiration_day,
    ) {
        Some((expiration, warn)) => Ok(
            LicenseData {
                license_type: type_string(payload.license_type),
                expiration: i64_to_string(expiration),
                warn: i64_to_string(warn),
                user_id: payload.user_id,
                perpetual: payload.perpetual,
                trial: payload.trial,
                valid: authentic,
                computer_id: computer_id_or_empty(&payload.computer_id),
            },
        ),
        None => Err(LicenseError::InvalidCalendarDate),
    }
}

/// Validates a token under the public key, reporting why it failed: a key
/// that does not decode, then a token that does not, then an expiration
/// that is not a real day. A signature that does not verify is no failure
/// here: the record says so in `valid`.
pub fn validate_license_res(license_str: &str, public_key: &[u8]) -> (r: Result<
    LicenseData,
    LicenseError,
>)
    ensures
        r is Ok <==> token_accepted(public_key@, license_str.spec_bytes()),
        !ed25519_key_decodes(public_key@) ==> r == Err::<LicenseData, LicenseError>(
            LicenseError::KeyLoadFault,
        ),
        ed25519_key_decodes(public_key@) && !well_formed_token(license_str.spec_bytes()) ==> r
            == Err::<LicenseData, LicenseError>(LicenseError::MalformedToken),
        ed25519_key_decodes(public_key@) && well_formed_token(license_str.spec_bytes())
            && !payload_date_is_real(token_payload(license_str.spec_bytes())) ==> r == Err::<
            LicenseData,
            LicenseError,
        >(LicenseError::InvalidCalendarDate),
        r matches Ok(d) ==> d@ == validation_record(public_key@, license_str.spec_bytes()),
{
    if !key_decodes(public_key) {
        return Err(LicenseError::KeyLoadFault);
    }
    let signed = decode(license_str)?;
    let authentic = check_signature(public_key, &signed).is_ok();
    derive_record(&signed.license, authentic)
}

/// Validates a token under the public key. Any failure yields the record of
/// empty strings, zero and false; otherwise the record carries the token's
/// facts and whether its signature verifies.
pub fn validate_license(license_str: &str, public_key: &[u8]) -> (r: LicenseData)
    ensures
        r@ == validation_record(public_key@, license_str.spec_bytes()),
        !well_formed_token(license_str.spec_bytes()) ==> r@ == invalid_record(),
        warn_offset_holds(r@),
{
    let r = match validate_license_res(license_str, public_key) {
        Ok(d) => d,
        Err(_) => LicenseData {
            license_type: String::new(),
            expiration: String::new(),
            warn: String::new(),
            user_id: 0,
            perpetual: false,
            trial: false,
            computer_id: String::new(),
            valid: false,
        },
    };
    proof {
        if token_accepted(public_key@, license_str.spec_bytes()) {
            let t = payload_expiration(token_payload(license_str.spec_bytes()));
            assert(r@.expiration == int_decimal(t) && r@.warn == int_decimal(t - WARN_OFFSET));
        }
    }
    r
}

/// A token built from an encodable payload and a signature that verifies
/// over the payload's bytes under a decodable key validates as authentic, and
/// its record carries the payload's own facts.
pub proof fn lemma_round_trip_authentic(key: Seq<u8>, p: PayloadView, sig: Seq<u8>)
    requires
        ed25519_key_decodes(key),
        encodable(p),
        payload_date_is_real(p),
        sig.len() == 64,
        ed25519_signature_decodes(sig),
        ed25519_verifies(key, encode_message(p), sig),
    ensures
        validation_record(key, encode_token(p, sig)) == derived_record(p, true),
        validation_record(key, encode_token(p, sig)).valid,
        validation_record(key, encode_token(p, sig)).user_id == p.user_id,
        validation_record(key, encode_token(p, sig)).license_type == plan_code(p.license_type),
{
    lemma_decode_encode(p, sig);
}

/// A record is marked valid only when the key decodes and the token's
/// signature verifies over its signed bytes under that key.
pub proof fn lemma_valid_only_if_verified(key: Seq<u8>, b: Seq<u8>)
    requires
        validation_record(key, b).valid,
    ensures
        ed25519_key_decodes(key),
        well_formed_token(b),
        ed25519_verifies(key, token_message(b), token_signature(b)),
{
}

/// Cutting any bytes off the end of a well-formed token leaves a token whose
/// validation yields the invalid record.
pub proof fn lemma_truncated_token_invalid(key: Seq<u8>, b: Seq<u8>, k: int)
    requires
        well_formed_token(b),
        0 <= k < b.len(),
    ensures
        validation_record(key, b.subrange(0, k)) == invalid_record(),
{
    lemma_truncated_not_well_formed(b, k);
}

} // verus!
