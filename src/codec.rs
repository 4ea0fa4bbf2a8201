//! The wire layout of a token, byte by byte:
//!
//! ```text
//! v3|P|UUUUUUUUUU|YYYY|MM|DD|p|t|<computer id>|<signature>
//! ```
//!
//! `P` is the plan digit (`0` to `4`); `U`, `Y`, `M` and `D` are fixed-width
//! decimal digits of the user id, year, month and day; `p` and `t` are `0` or
//! `1` for perpetual and trial; the computer id is UTF-8 text without `|`
//! (empty when the license is not bound to a machine); the signature is 128 lower-case hex
//! digits. The signed message is everything before the last `|`.
use vstd::prelude::*;
use vstd::string::StringSliceAdditionalSpecFns;
use vstd::utf8::{decode_utf8, encode_utf8, valid_utf8};
use crate::crypto::{ed25519_signature_decodes, signature_decodes};
use crate::error::LicenseError;
use crate::plan::LicenseType;

verus! {

/// Bytes before the computer id.
pub const HEADER_LEN: usize = 31;

/// The shortest token: a header, an empty computer id, a delimiter and the
/// signature.
pub const MIN_TOKEN_LEN: usize = 160;

/// The decoded license body.
#[derive(Clone, Debug)]
pub struct LicensePayload {
    pub license_type: LicenseType,
    pub user_id: u32,
    pub expiration_year: u16,
    pub expiration_month: u8,
    pub expiration_day: u8,
    pub perpetual: bool,
    pub trial: bool,
    pub computer_id: Option<String>,
}

pub struct PayloadView {
    pub license_type: LicenseType,
    pub user_id: u32,
    pub expiration_year: u16,
    pub expiration_month: u8,
    pub expiration_day: u8,
    pub perpetual: bool,
    pub trial: bool,
    pub computer_id: Option<Seq<char>>,
}

impl View for LicensePayload {
    type V = PayloadView;

    open spec fn view(&self) -> PayloadView {
        PayloadView {
            license_type: self.license_type,
            user_id: self.user_id,
            expiration_year: self.expiration_year,
            expiration_month: self.expiration_month,
            expiration_day: self.expiration_day,
            perpetual: self.perpetual,
            trial: self.trial,
            computer_id: match self.computer_id {
                Some(s) => Some(s@),
                None => None,
            },
        }
    }
}

/// A payload with the bytes it was signed over and its detached signature.
#[derive(Clone, Debug)]
pub struct SignedLicense {
    pub license: LicensePayload,
    pub message: Vec<u8>,
    pub signature: Vec<u8>,
}

pub open spec fn is_digit(c: u8) -> bool {
    48 <= c <= 57
}

pub open spec fn all_digits(s: Seq<u8>) -> bool {
    forall|i: int| 0 <= i < s.len() ==> is_digit(#[trigger] s[i])
}

/// The value of a run of decimal digits, most significant first.
pub open spec fn decimal_value(s: Seq<u8>) -> nat
    decreases s.len(),
{
    if s.len() == 0 {
        0
    } else {
        decimal_value(s.drop_last()) * 10 + (s.last() - 48) as nat
    }
}

pub open spec fn pow10(n: nat) -> nat
    decreases n,
{
    if n == 0 {
        1
    } else {
        10 * pow10((n - 1) as nat)
    }
}

/// A lower-case hex digit.
pub open spec fn is_hex(c: u8) -> bool {
    48 <= c <= 57 || 97 <= c <= 102
}

pub open spec fn hex_value(c: u8) -> int {
    if c <= 57 {
        c - 48
    } else {
        c - 87
    }
}

/// The bytes that a run of hex digits spells, two digits per byte.
pub open spec fn hex_decode(h: Seq<u8>) -> Seq<u8> {
    Seq::new(h.len() / 2, |i: int| (hex_value(h[2 * i]) * 16 + hex_value(h[2 * i + 1])) as u8)
}

pub open spec fn is_flag(c: u8) -> bool {
    c == 48 || c == 49
}

pub open spec fn plan_of_digit(c: u8) -> LicenseType {
    if c == 48 {
        LicenseType::Basic
    } else if c == 49 {
        LicenseType::Pro
    } else if c == 50 {
        LicenseType::ChinaBasic
    } else if c == 51 {
        LicenseType::ChinaPro
    } else {
        LicenseType::Business
    }
}

/// No byte is the delimiter `|`.
pub open spec fn no_delimiter(s: Seq<u8>) -> bool {
    forall|i: int| 0 <= i < s.len() ==> #[trigger] s[i] != 124
}

pub open spec fn computer_id_bytes(b: Seq<u8>) -> Seq<u8> {
    b.subrange(31, b.len() - 129)
}

pub open spec fn signature_hex(b: Seq<u8>) -> Seq<u8> {
    b.subrange(b.len() - 128, b.len() as int)
}

/// The bytes that the signature covers: all before the last delimiter.
pub open spec fn token_message(b: Seq<u8>) -> Seq<u8> {
    b.subrange(0, b.len() - 129)
}

pub open spec fn token_signature(b: Seq<u8>) -> Seq<u8> {
    hex_decode(signature_hex(b))
}

/// Whether the bytes follow the wire layout, with every field well formed.
pub open spec fn well_formed_token(b: Seq<u8>) -> bool {
    &&& b.len() >= 160
    &&& b[0] == 118 && b[1] == 51 && b[2] == 124
    &&& 48 <= b[3] <= 52
    &&& b[4] == 124 && b[15] == 124 && b[20] == 124 && b[23] == 124
    &&& b[26] == 124 && b[28] == 124 && b[30] == 124 && b[b.len() - 129] == 124
    &&& all_digits(b.subrange(5, 15)) && decimal_value(b.subrange(5, 15)) <= u32::MAX
    &&& all_digits(b.subrange(16, 20)) && all_digits(b.subrange(21, 23))
    &&& all_digits(b.subrange(24, 26))
    &&& is_flag(b[27]) && is_flag(b[29])
    &&& valid_utf8(computer_id_bytes(b))
    &&& no_delimiter(computer_id_bytes(b))
    &&& forall|i: int| 0 <= i < 128 ==> is_hex(#[trigger] signature_hex(b)[i])
    &&& ed25519_signature_decodes(token_signature(b))
}

/// The payload that a well-formed token carries.
pub open spec fn token_payload(b: Seq<u8>) -> PayloadView {
    PayloadView {
        license_type: plan_of_digit(b[3]),
        user_id: decimal_value(b.subrange(5, 15)) as u32,
        expiration_year: decimal_value(b.subrange(16, 20)) as u16,
        expiration_month: decimal_value(b.subrange(21, 23)) as u8,
        expiration_day: decimal_value(b.subrange(24, 26)) as u8,
        perpetual: b[27] == 49,
        trial: b[29] == 49,
        computer_id: if computer_id_bytes(b).len() == 0 {
            None
        } else {
            Some(decode_utf8(computer_id_bytes(b)))
        },
    }
}

proof fn lemma_decimal_bound(s: Seq<u8>)
    requires
        all_digits(s),
    ensures
        decimal_value(s) < pow10(s.len()),
    decreases s.len(),
{
    if s.len() > 0 {
        let t = s.drop_last();
        assert(all_digits(t)) by {
            assert forall|i: int| 0 <= i < t.len() implies is_digit(#[trigger] t[i]) by {
                assert(t[i] == s[i]);
            }
        }
        lemma_decimal_bound(t);
        let a = decimal_value(t);
        let p = pow10(t.len());
        assert(is_digit(s[s.len() - 1]));
        assert(a * 10 + 9 < p * 10) by (nonlinear_arith)
            requires
                a < p,
        ;
    }
}

/// Relies on std's `String::from_utf8`, which succeeds exactly on valid
/// UTF-8 and then holds the characters those bytes encode.
#[verifier::external_body]
fn string_from_utf8(v: Vec<u8>) -> (r: Option<String>)
    ensures
        r.is_some() == valid_utf8(v@),
        r matches Some(s) ==> s@ == decode_utf8(v@),
{
    String::from_utf8(v).ok()
}

fn copy_range(b: &[u8], lo: usize, hi: usize) -> (r: Vec<u8>)
    requires
        lo <= hi <= b@.len(),
    ensures
        r@ == b@.subrange(lo as int, hi as int),
{
    let mut r: Vec<u8> = Vec::new();
    let mut i: usize = lo;
    while i < hi
        invariant
            lo <= i <= hi <= b@.len(),
            r@ == b@.subrange(lo as int, i as int),
        decreases hi - i,
    {
        r.push(b[i]);
        i = i + 1;
        assert(r@ =~= b@.subrange(lo as int, i as int));
    }
    r
}

fn digits_are_decimal(b: &[u8], lo: usize, hi: usize) -> (r: bool)
    requires
        lo <= hi <= b@.len(),
    ensures
        r == all_digits(b@.subrange(lo as int, hi as int)),
{
    let mut i: usize = lo;
    while i < hi
        invariant
            lo <= i <= hi <= b@.len(),
            all_digits(b@.subrange(lo as int, i as int)),
        decreases hi - i,
    {
        if !(48 <= b[i] && b[i] <= 57) {
            assert(b@.subrange(lo as int, hi as int)[i - lo] == b@[i as int]);
            return false;
        }
        i = i + 1;
        assert forall|j: int| 0 <= j < i - lo implies is_digit(
            #[trigger] b@.subrange(lo as int, i as int)[j],
        ) by {
            if j < i - 1 - lo {
                assert(b@.subrange(lo as int, i as int)[j] == b@.subrange(lo as int, i - 1)[j]);
            }
        }
    }
    true
}

fn decimal_at(b: &[u8], lo: usize, hi: usize) -> (r: u64)
    requires
        lo <= hi <= b@.len(),
        hi - lo <= 10,
        all_digits(b@.subrange(lo as int, hi as int)),
    ensures
        r == decimal_value(b@.subrange(lo as int, hi as int)),
{
    let mut acc: u64 = 0;
    let mut i: usize = lo;
    assert(b@.subrange(lo as int, lo as int).len() == 0);
    proof {
        reveal_with_fuel(pow10, 11);
        assert(pow10(10) == 10000000000);
    }
    while i < hi
        invariant
            lo <= i <= hi <= b@.len(),
            hi - lo <= 10,
            all_digits(b@.subrange(lo as int, hi as int)),
            acc == decimal_value(b@.subrange(lo as int, i as int)),
            pow10(10) == 10000000000,
        decreases hi - i,
    {
        let ghost prefix = b@.subrange(lo as int, i as int);
        let ghost next = b@.subrange(lo as int, i + 1);
        assert(next.drop_last() =~= prefix);
        assert(next.last() == b@[i as int]);
        assert(is_digit(b@.subrange(lo as int, hi as int)[i - lo]));
        assert(all_digits(prefix)) by {
            assert forall|j: int| 0 <= j < prefix.len() implies is_digit(#[trigger] prefix[j]) by {
                assert(prefix[j] == b@.subrange(lo as int, hi as int)[j]);
            }
        }
        proof {
            lemma_decimal_bound(prefix);
            lemma_pow10_mono(prefix.len(), 9);
        }
        acc = acc * 10 + (b[i] - 48) as u64;
        i = i + 1;
    }
    acc
}

proof fn lemma_pow10_mono(a: nat, b: nat)
    requires
        a <= b,
    ensures
        pow10(a) <= pow10(b),
    decreases b,
{
    if a < b {
        lemma_pow10_mono(a, (b - 1) as nat);
    }
}

fn hex_digit_value(c: u8) -> (r: u8)
    requires
        is_hex(c),
    ensures
        r as int == hex_value(c),
        r < 16,
{
    if c <= 57 {
        c - 48
    } else {
        c - 87
    }
}

fn decode_hex_at(b: &[u8], lo: usize, hi: usize) -> (r: Vec<u8>)
    requires
        lo <= hi <= b@.len(),
        (hi - lo) % 2 == 0,
        forall|i: int| 0 <= i < hi - lo ==> is_hex(#[trigger] b@.subrange(lo as int, hi as int)[i]),
    ensures
        r@ == hex_decode(b@.subrange(lo as int, hi as int)),
{
    let ghost h = b@.subrange(lo as int, hi as int);
    let mut r: Vec<u8> = Vec::new();
    let mut i: usize = lo;
    while i < hi
        invariant
            lo <= i <= hi <= b@.len(),
            (hi - lo) % 2 == 0,
            (i - lo) % 2 == 0,
            h == b@.subrange(lo as int, hi as int),
            forall|k: int| 0 <= k < hi - lo ==> is_hex(#[trigger] h[k]),
            r@.len() == (i - lo) / 2,
            forall|k: int|
                0 <= k < r@.len() ==> #[trigger] r@[k] == (hex_value(h[2 * k]) * 16 + hex_value(
                    h[2 * k + 1],
                )) as u8,
        decreases hi - i,
    {
        assert(h[i - lo] == b@[i as int]);
        assert(h[i - lo + 1] == b@[i + 1]);
        assert(is_hex(h[i - lo]));
        assert(is_hex(h[i - lo + 1]));
        let high = hex_digit_value(b[i]);
        let low = hex_digit_value(b[i + 1]);
        r.push(high * 16 + low);
        i = i + 2;
    }
    assert(r@ =~= hex_decode(h));
    r
}

/// Decodes a token into its payload, the bytes it was signed over, and its
/// signature. Every departure from the wire layout is `MalformedToken`.
pub fn decode(token: &str) -> (r: Result<SignedLicense, LicenseError>)
    ensures
        r.is_ok() == well_formed_token(token.spec_bytes()),
        r is Err ==> r == Err::<SignedLicense, LicenseError>(LicenseError::MalformedToken),
        r matches Ok(sl) ==> {
            &&& sl.license@ == token_payload(token.spec_bytes())
            &&& sl.message@ == token_message(token.spec_bytes())
            &&& sl.signature@ == token_signature(token.spec_bytes())
        },
{
    let b: &[u8] = token.as_bytes();
    let n: usize = b.len();
    if n < MIN_TOKEN_LEN {
        return Err(LicenseError::MalformedToken);
    }
    if !(b[0] == 118 && b[1] == 51 && b[2] == 124 && 48 <= b[3] && b[3] <= 52) {
        return Err(LicenseError::MalformedToken);
    }
    if !(b[4] == 124 && b[15] == 124 && b[20] == 124 && b[23] == 124 && b[26] == 124 && b[28]
        == 124 && b[30] == 124 && b[n - 129] == 124) {
        return Err(LicenseError::MalformedToken);
    }
    if !(digits_are_decimal(b, 5, 15) && digits_are_decimal(b, 16, 20) && digits_are_decimal(
        b,
        21,
        23,
    ) && digits_are_decimal(b, 24, 26)) {
        return Err(LicenseError::MalformedToken);
    }
    let user: u64 = decimal_at(b, 5, 15);
    if user > 4294967295 {
        return Err(LicenseError::MalformedToken);
    }
    if !((b[27] == 48 || b[27] == 49) && (b[29] == 48 || b[29] == 49)) {
        return Err(LicenseError::MalformedToken);
    }
    let mut k: usize = n - 128;
    while k < n
        invariant
            b@ == token.spec_bytes(),
            n == b@.len(),
            n >= 160,
            n - 128 <= k <= n,
            forall|i: int| 0 <= i < k - (n - 128) ==> is_hex(#[trigger] signature_hex(b@)[i]),
        decreases n - k,
    {
        if !((48 <= b[k] && b[k] <= 57) || (97 <= b[k] && b[k] <= 102)) {
            assert(signature_hex(b@)[k - (n - 128)] == b@[k as int]);
            return Err(LicenseError::MalformedToken);
        }
        assert(signature_hex(b@)[k - (n - 128)] == b@[k as int]);
        k = k + 1;
    }
    assert(signature_hex(b@) == b@.subrange(n - 128, n as int));
    let signature = decode_hex_at(b, n - 128, n);
    if !signature_decodes(signature.as_slice()) {
        return Err(LicenseError::MalformedToken);
    }
    let mut j: usize = HEADER_LEN;
    while j < n - 129
        invariant
            b@ == token.spec_bytes(),
            n == b@.len(),
            n >= 160,
            31 <= j <= n - 129,
            forall|i: int| 0 <= i < j - 31 ==> #[trigger] computer_id_bytes(b@)[i] != 124,
        decreases n - 129 - j,
    {
        assert(computer_id_bytes(b@)[j - 31] == b@[j as int]);
        if b[j] == 124 {
            return Err(LicenseError::MalformedToken);
        }
        j = j + 1;
    }
    let id_bytes = copy_range(b, HEADER_LEN, n - 129);
    let id_len: usize = id_bytes.len();
    let id_text = match string_from_utf8(id_bytes) {
        Some(s) => s,
        None => {
            return Err(LicenseError::MalformedToken);
        },
    };
    let computer_id = if id_len == 0 {
        None
    } else {
        Some(id_text)
    };
    let year = decimal_at(b, 16, 20);
    let month = decimal_at(b, 21, 23);
    let day = decimal_at(b, 24, 26);
    proof {
        reveal_with_fuel(pow10, 5);
        lemma_decimal_bound(b@.subrange(16, 20));
        lemma_decimal_bound(b@.subrange(21, 23));
        lemma_decimal_bound(b@.subrange(24, 26));
    }
    let license_type = if b[3] == 48 {
        LicenseType::Basic
    } else if b[3] == 49 {
        LicenseType::Pro
    } else if b[3] == 50 {
        LicenseType::ChinaBasic
    } else if b[3] == 51 {
        LicenseType::ChinaPro
    } else {
        LicenseType::Business
    };
    let license = LicensePayload {
        license_type,
        user_id: user as u32,
        expiration_year: year as u16,
        expiration_month: month as u8,
        expiration_day: day as u8,
        perpetual: b[27] == 49,
        trial: b[29] == 49,
        computer_id,
    };
    let message = copy_range(b, 0, n - 129);
    Ok(SignedLicense { license, message, signature })
}

/// `n` as exactly `w` decimal digits, most significant first.
pub open spec fn fixed_decimal(n: nat, w: nat) -> Seq<u8>
    decreases w,
{
    if w == 0 {
        Seq::empty()
    } else {
        fixed_decimal(n / 10, (w - 1) as nat).push((n % 10 + 48) as u8)
    }
}

pub open spec fn hex_char(v: int) -> u8 {
    if v < 10 {
        (v + 48) as u8
    } else {
        (v + 87) as u8
    }
}

/// Two lower-case hex digits per byte, high half first.
pub open spec fn hex_encode(s: Seq<u8>) -> Seq<u8> {
    Seq::new(
        2 * s.len(),
        |i: int|
            if i % 2 == 0 {
                hex_char(s[i / 2] as int / 16)
            } else {
                hex_char(s[i / 2] as int % 16)
            },
    )
}

pub open spec fn plan_digit(t: LicenseType) -> u8 {
    match t {
        LicenseType::Basic => 48,
        LicenseType::Pro => 49,
        LicenseType::ChinaBasic => 50,
        LicenseType::ChinaPro => 51,
        LicenseType::Business => 52,
    }
}

pub open spec fn flag_byte(f: bool) -> u8 {
    if f {
        49
    } else {
        48
    }
}

/// The fixed-width header of a payload, up to and including the delimiter
/// before the computer id.
pub open spec fn encode_header(p: PayloadView) -> Seq<u8> {
    seq![118u8, 51u8, 124u8, plan_digit(p.license_type), 124u8] + fixed_decimal(
        p.user_id as nat,
        10,
    ) + seq![124u8] + fixed_decimal(p.expiration_year as nat, 4) + seq![124u8] + fixed_decimal(
        p.expiration_month as nat,
        2,
    ) + seq![124u8] + fixed_decimal(p.expiration_day as nat, 2) + seq![
        124u8,
        flag_byte(p.perpetual),
        124u8,
        flag_byte(p.trial),
        124u8,
    ]
}

pub open spec fn encode_computer_id(p: PayloadView) -> Seq<u8> {
    match p.computer_id {
        Some(c) => encode_utf8(c),
        None => Seq::empty(),
    }
}

/// The bytes a payload is signed over.
pub open spec fn encode_message(p: PayloadView) -> Seq<u8> {
    encode_header(p) + encode_computer_id(p)
}

/// The token that carries a payload and its signature.
pub open spec fn encode_token(p: PayloadView, sig: Seq<u8>) -> Seq<u8> {
    encode_message(p) + seq![124u8] + hex_encode(sig)
}

/// Whether the wire layout can carry a payload: a year of four digits, and a
/// computer id that is absent, or not empty and free of `|`.
pub open spec fn encodable(p: PayloadView) -> bool {
    &&& p.expiration_year <= 9999
    &&& p.expiration_month <= 99
    &&& p.expiration_day <= 99
    &&& p.computer_id matches Some(c) ==> c.len() > 0 && no_delimiter(encode_utf8(c))
}

proof fn lemma_fixed_decimal(n: nat, w: nat)
    requires
        n < pow10(w),
    ensures
        fixed_decimal(n, w).len() == w,
        all_digits(fixed_decimal(n, w)),
        decimal_value(fixed_decimal(n, w)) == n,
    decreases w,
{
    if w == 0 {
        assert(n == 0);
    } else {
        let q = n / 10;
        let pw = pow10((w - 1) as nat);
        vstd::arithmetic::div_mod::lemma_fundamental_div_mod(n as int, 10);
        assert(q < pw) by (nonlinear_arith)
            requires
                n < 10 * pw,
                n == 10 * q + n % 10,
                0 <= n % 10,
        ;
        lemma_fixed_decimal(q, (w - 1) as nat);
        let s = fixed_decimal(n, w);
        assert(s.drop_last() =~= fixed_decimal(q, (w - 1) as nat));
        assert forall|i: int| 0 <= i < s.len() implies is_digit(#[trigger] s[i]) by {
            if i < s.len() - 1 {
                assert(s[i] == fixed_decimal(q, (w - 1) as nat)[i]);
            }
        }
    }
}

proof fn lemma_hex_round_trip(s: Seq<u8>)
    ensures
        hex_encode(s).len() == 2 * s.len(),
        forall|i: int| 0 <= i < 2 * s.len() ==> is_hex(#[trigger] hex_encode(s)[i]),
        hex_decode(hex_encode(s)) == s,
{
    let h = hex_encode(s);
    assert forall|i: int| 0 <= i < 2 * s.len() implies is_hex(#[trigger] h[i]) by {
        assert(i / 2 < s.len());
    }
    assert forall|k: int| 0 <= k < s.len() implies #[trigger] hex_decode(h)[k] == s[k] by {
        assert((2 * k) / 2 == k);
        assert((2 * k + 1) / 2 == k);
        assert((2 * k) % 2 == 0);
        assert((2 * k + 1) % 2 == 1);
        assert(hex_value(h[2 * k]) == s[k] / 16);
        assert(hex_value(h[2 * k + 1]) == s[k] % 16);
    }
    assert(hex_decode(h) =~= s);
}

proof fn lemma_header(p: PayloadView)
    requires
        encodable(p),
    ensures
        ({
            let h = encode_header(p);
            &&& h.len() == 31
            &&& h[0] == 118 && h[1] == 51 && h[2] == 124 && h[3] == plan_digit(p.license_type)
            &&& h[4] == 124 && h[15] == 124 && h[20] == 124 && h[23] == 124 && h[26] == 124
            &&& h[27] == flag_byte(p.perpetual) && h[28] == 124
            &&& h[29] == flag_byte(p.trial) && h[30] == 124
            &&& h.subrange(5, 15) == fixed_decimal(p.user_id as nat, 10)
            &&& h.subrange(16, 20) == fixed_decimal(p.expiration_year as nat, 4)
            &&& h.subrange(21, 23) == fixed_decimal(p.expiration_month as nat, 2)
            &&& h.subrange(24, 26) == fixed_decimal(p.expiration_day as nat, 2)
            &&& all_digits(h.subrange(5, 15))
            &&& decimal_value(h.subrange(5, 15)) == p.user_id
            &&& all_digits(h.subrange(16, 20))
            &&& decimal_value(h.subrange(16, 20)) == p.expiration_year
            &&& all_digits(h.subrange(21, 23))
            &&& decimal_value(h.subrange(21, 23)) == p.expiration_month
            &&& all_digits(h.subrange(24, 26))
            &&& decimal_value(h.subrange(24, 26)) == p.expiration_day
        }),
{
    reveal_with_fuel(pow10, 11);
    lemma_fixed_decimal(p.user_id as nat, 10);
    lemma_fixed_decimal(p.expiration_year as nat, 4);
    lemma_fixed_decimal(p.expiration_month as nat, 2);
    lemma_fixed_decimal(p.expiration_day as nat, 2);
    let h = encode_header(p);
    assert(h.subrange(5, 15) =~= fixed_decimal(p.user_id as nat, 10));
    assert(h.subrange(16, 20) =~= fixed_decimal(p.expiration_year as nat, 4));
    assert(h.subrange(21, 23) =~= fixed_decimal(p.expiration_month as nat, 2));
    assert(h.subrange(24, 26) =~= fixed_decimal(p.expiration_day as nat, 2));
}

proof fn lemma_token_parts(p: PayloadView, sig: Seq<u8>)
    ensures
        ({
            let b = encode_token(p, sig);
            let h = encode_header(p);
            &&& b.len() == (h.len() + encode_computer_id(p).len()) as int + 1 + 2 * sig.len()
            &&& forall|k: int| 0 <= k < h.len() ==> #[trigger] b[k] == h[k]
            &&& b[(h.len() + encode_computer_id(p).len()) as int] == 124
            &&& b.subrange(h.len() as int, (h.len() + encode_computer_id(p).len()) as int)
                == encode_computer_id(p)
            &&& b.subrange(b.len() - 2 * sig.len(), b.len() as int) == hex_encode(sig)
            &&& b.subrange(0, (h.len() + encode_computer_id(p).len()) as int) == encode_message(p)
        }),
{
    lemma_hex_round_trip(sig);
    let b = encode_token(p, sig);
    let h = encode_header(p);
    let c = encode_computer_id(p);
    assert(b.subrange(h.len() as int, (h.len() + c.len()) as int) =~= c);
    assert(b.subrange(b.len() - 2 * sig.len(), b.len() as int) =~= hex_encode(sig));
    assert(b.subrange(0, (h.len() + c.len()) as int) =~= encode_message(p));
}

proof fn lemma_computer_id_round_trip(p: PayloadView)
    requires
        encodable(p),
    ensures
        valid_utf8(encode_computer_id(p)),
        (if encode_computer_id(p).len() == 0 {
            None
        } else {
            Some(decode_utf8(encode_computer_id(p)))
        }) == p.computer_id,
{
    broadcast use vstd::utf8::encode_utf8_valid_utf8, vstd::utf8::encode_utf8_decode_utf8;

    let cid = encode_computer_id(p);
    match p.computer_id {
        Some(c) => {
            assert(decode_utf8(cid) == c);
            if cid.len() == 0 {
                assert(cid =~= Seq::<u8>::empty());
                assert(decode_utf8(Seq::<u8>::empty()) =~= Seq::<char>::empty());
            }
        },
        None => {
            assert(valid_utf8(Seq::<u8>::empty()));
        },
    }
}

/// Decoding inverts encoding: a token built from an encodable payload and a
/// decodable 64-byte signature is well formed, and yields that payload, the
/// payload's own bytes as the signed message, and that signature.
pub proof fn lemma_decode_encode(p: PayloadView, sig: Seq<u8>)
    requires
        encodable(p),
        sig.len() == 64,
        ed25519_signature_decodes(sig),
    ensures
        well_formed_token(encode_token(p, sig)),
        token_payload(encode_token(p, sig)) == p,
        token_message(encode_token(p, sig)) == encode_message(p),
        token_signature(encode_token(p, sig)) == sig,
{
    lemma_hex_round_trip(sig);
    lemma_header(p);
    lemma_token_parts(p, sig);
    lemma_computer_id_round_trip(p);
    let h = encode_header(p);
    let b = encode_token(p, sig);
    assert(b[0] == h[0] && b[1] == h[1] && b[2] == h[2] && b[3] == h[3] && b[4] == h[4]);
    assert(b[15] == h[15] && b[20] == h[20] && b[23] == h[23] && b[26] == h[26]);
    assert(b[27] == h[27] && b[28] == h[28] && b[29] == h[29] && b[30] == h[30]);
    assert(b.subrange(5, 15) =~= h.subrange(5, 15));
    assert(b.subrange(16, 20) =~= h.subrange(16, 20));
    assert(b.subrange(21, 23) =~= h.subrange(21, 23));
    assert(b.subrange(24, 26) =~= h.subrange(24, 26));
    assert(computer_id_bytes(b) == encode_computer_id(p));
    assert(no_delimiter(encode_computer_id(p)));
    assert(signature_hex(b) == hex_encode(sig));
    assert(plan_of_digit(plan_digit(p.license_type)) == p.license_type);
    assert(token_payload(b) == p);
}

/// No strict prefix of a well-formed token is itself well formed: the last
/// delimiter of a shorter candidate would fall inside the computer id, which
/// holds no `|`.
pub proof fn lemma_truncated_not_well_formed(b: Seq<u8>, k: int)
    requires
        well_formed_token(b),
        0 <= k < b.len(),
    ensures
        !well_formed_token(b.subrange(0, k)),
{
    let s = b.subrange(0, k);
    if well_formed_token(s) {
        let pos = k - 129;
        assert(s[pos] == b[pos]);
        assert(computer_id_bytes(b)[pos - 31] == b[pos]);
    }
}

/// Reads a public key written as 64 lower-case hex digits, as it is embedded
/// at build time.
pub fn public_key_from_hex(text: &str) -> (r: Option<Vec<u8>>)
    ensures
        r.is_some() == (text.spec_bytes().len() == 64 && forall|i: int|
            0 <= i < 64 ==> is_hex(#[trigger] text.spec_bytes()[i])),
        r matches Some(k) ==> k@ == hex_decode(text.spec_bytes()),
{
    let b: &[u8] = text.as_bytes();
    if b.len() != 64 {
        return None;
    }
    let mut i: usize = 0;
    while i < 64
        invariant
            b@ == text.spec_bytes(),
            b@.len() == 64,
            i <= 64,
            forall|j: int| 0 <= j < i ==> is_hex(#[trigger] b@[j]),
        decreases 64 - i,
    {
        if !((48 <= b[i] && b[i] <= 57) || (97 <= b[i] && b[i] <= 102)) {
            return None;
        }
        i = i + 1;
    }
    assert(b@.subrange(0, 64) =~= b@);
    Some(decode_hex_at(b, 0, 64))
}

} // verus!
