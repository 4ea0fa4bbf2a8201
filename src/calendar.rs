use vstd::prelude::*;

verus! {

/// How long before expiration the warning falls: thirty days, in seconds.
pub const WARN_OFFSET: i64 = 2592000;

/// Whether a year of the proleptic Gregorian calendar has a 29th of February.
pub open spec fn is_leap_year(y: int) -> bool {
    y % 4 == 0 && (y % 100 != 0 || y % 400 == 0)
}

pub open spec fn days_in_month(y: int, m: int) -> int {
    if m == 2 {
        if is_leap_year(y) { 29 } else { 28 }
    } else if m == 4 || m == 6 || m == 9 || m == 11 {
        30
    } else {
        31
    }
}

/// Whether `(y, m, d)` names a real day of the proleptic Gregorian calendar.
pub open spec fn is_calendar_date(y: int, m: int, d: int) -> bool {
    1 <= m <= 12 && 1 <= d <= days_in_month(y, m)
}

/// The number of days from 1970-01-01 to `(y, m, d)`, counted in the
/// proleptic Gregorian calendar (negative before 1970).
pub open spec fn days_from_civil(y: int, m: int, d: int) -> int {
    let y1 = if m <= 2 { y - 1 } else { y };
    let era = y1 / 400;
    let yoe = y1 - era * 400;
    let mp = if m > 2 { m - 3 } else { m + 9 };
    let doy = (153 * mp + 2) / 5 + d - 1;
    let doe = yoe * 365 + yoe / 4 - yoe / 100 + doy;
    era * 146097 + doe - 719468
}

/// Seconds since the Unix epoch of midnight UTC at the start of `(y, m, d)`.
pub open spec fn midnight_seconds(y: int, m: int, d: int) -> int {
    days_from_civil(y, m, d) * 86400
}

pub open spec fn digit_char(d: nat) -> char {
    ((d % 10) as u8 + 48u8) as char
}

/// The decimal digits of a natural number, most significant first.
pub open spec fn nat_decimal(n: nat) -> Seq<char>
    decreases n,
{
    if n < 10 {
        seq![digit_char(n)]
    } else {
        nat_decimal(n / 10).push(digit_char(n % 10))
    }
}

/// The decimal text of an integer, with a leading `-` when it is negative.
pub open spec fn int_decimal(n: int) -> Seq<char> {
    if n < 0 {
        seq!['-'] + nat_decimal((-n) as nat)
    } else {
        nat_decimal(n as nat)
    }
}

/// Relies on chrono's `NaiveDate::from_ymd_opt`, which accepts exactly the
/// real calendar dates (every `u16` year lies in its range), and on
/// `NaiveDateTime::and_utc` and `DateTime::timestamp`, which count the seconds
/// from the Unix epoch to midnight of that day.
#[verifier::external_body]
fn midnight_timestamp(year: u16, month: u8, day: u8) -> (r: Option<i64>)
    ensures
        r.is_some() == is_calendar_date(year as int, month as int, day as int),
        r matches Some(t) ==> t == midnight_seconds(year as int, month as int, day as int),
{
    match chrono::NaiveDate::from_ymd_opt(year as i32, month as u32, day as u32) {
        Some(date) => Some(date.and_time(chrono::NaiveTime::MIN).and_utc().timestamp()),
        None => None,
    }
}

/// Relies on the `Display` impl of `i64` (through `ToString`): the decimal
/// digits without leading zeros, preceded by `-` for a negative value.
#[verifier::external_body]
pub(crate) fn i64_to_string(n: i64) -> (r: String)
    ensures
        r@ == int_decimal(n as int),
{
    n.to_string()
}

proof fn lemma_days_lower_bound(y: int, m: int, d: int)
    requires
        0 <= y,
        1 <= m <= 12,
        1 <= d,
    ensures
        days_from_civil(y, m, d) >= -146097 - 719468,
{
    let y1 = if m <= 2 { y - 1 } else { y };
    let era = y1 / 400;
    assert(era >= -1);
    let yoe = y1 - era * 400;
    assert(0 <= yoe < 400);
    assert(yoe / 100 <= yoe / 4) by {
        assert(yoe / 100 * 100 <= yoe);
    }
    let mp = if m > 2 { m - 3 } else { m + 9 };
    assert((153 * mp + 2) / 5 >= 0);
    assert(era * 146097 >= -146097) by (nonlinear_arith)
        requires
            era >= -1,
    ;
}

/// The expiration and warning instants of a calendar date, in seconds since
/// the Unix epoch, or `None` when the date is not a real one.
pub fn expiration_and_warn(year: u16, month: u8, day: u8) -> (r: Option<(i64, i64)>)
    ensures
        r.is_some() == is_calendar_date(year as int, month as int, day as int),
        r matches Some(p) ==> p.0 == midnight_seconds(year as int, month as int, day as int)
            && p.1 == p.0 - WARN_OFFSET,
{
    match midnight_timestamp(year, month, day) {
        Some(t) => {
            proof {
                lemma_days_lower_bound(year as int, month as int, day as int);
            }
            Some((t, t - WARN_OFFSET))
        },
        None => None,
    }
}

} // verus!
