use vstd::prelude::*;

use crate::text::{digit_char, push_char};
use vstd::arithmetic::div_mod::{lemma_div_multiples_vanish_fancy, lemma_mod_multiples_vanish};

verus! {

/// A normalized instant text that is not a valid `YYYY-MM-DDTHH:MM:SSZ` UTC
/// instant, or instant arithmetic that leaves the years 1 to 9999.
#[derive(Clone, Copy, Debug, PartialEq, Eq, Structural)]
pub struct InvalidInstant;

impl InvalidInstant {
    /// The stable human-readable message of this failure.
    pub fn message(&self) -> (text: &'static str)
        ensures
            text@ == "invalid normalized instant"@,
    {
        proof {
            reveal_strlit("invalid normalized instant");
        }
        "invalid normalized instant"
    }
}

/// Gregorian leap years: divisible by four, and not by one hundred unless by
/// four hundred.
pub open spec fn is_leap(year: int) -> bool {
    year % 4 == 0 && (year % 100 != 0 || year % 400 == 0)
}

/// Length of a month of a year, for months 1 to 12.
pub open spec fn month_length(year: int, month: int) -> Option<int> {
    if month == 1 || month == 3 || month == 5 || month == 7 || month == 8 || month == 10 || month
        == 12 {
        Some(31)
    } else if month == 4 || month == 6 || month == 9 || month == 11 {
        Some(30)
    } else if month == 2 {
        if is_leap(year) {
            Some(29)
        } else {
            Some(28)
        }
    } else {
        None
    }
}

/// Returns the number of days in a month of a year, or `None` for a month
/// outside 1 to 12.
pub fn days_in_month(year: i64, month: u32) -> (days: Option<u32>)
    ensures
        match days {
            Some(n) => month_length(year as int, month as int) == Some(n as int),
            None => month_length(year as int, month as int) is None,
        },
{
    if month == 1 || month == 3 || month == 5 || month == 7 || month == 8 || month == 10 || month
        == 12 {
        Some(31)
    } else if month == 4 || month == 6 || month == 9 || month == 11 {
        Some(30)
    } else if month == 2 {
        // Divisibility does not depend on the sign, so test the magnitude.
        let wide: i128 = year as i128;
        let magnitude: u128 = if wide < 0 {
            (0 - wide) as u128
        } else {
            wide as u128
        };
        proof {
            lemma_divisible_by_magnitude(year as int, magnitude as int);
        }
        if magnitude % 4 == 0 && (magnitude % 100 != 0 || magnitude % 400 == 0) {
            Some(29)
        } else {
            Some(28)
        }
    } else {
        None
    }
}

proof fn lemma_divisible_by_magnitude(year: int, magnitude: int)
    requires
        magnitude == year || magnitude == -year,
    ensures
        (year % 4 == 0) == (magnitude % 4 == 0),
        (year % 100 == 0) == (magnitude % 100 == 0),
        (year % 400 == 0) == (magnitude % 400 == 0),
{
    if magnitude == -year {
        lemma_negation_divisible(year, 4);
        lemma_negation_divisible(year, 100);
        lemma_negation_divisible(year, 400);
    }
}

proof fn lemma_negation_divisible(a: int, d: int)
    requires
        d > 0,
    ensures
        (a % d == 0) == ((-a) % d == 0),
{
    if a % d == 0 {
        assert((-a) == d * (-(a / d))) by (nonlinear_arith)
            requires
                a % d == 0,
                d > 0,
        ;
        vstd::arithmetic::div_mod::lemma_mod_multiples_basic(-(a / d), d);
        assert(d * (-(a / d)) == (-(a / d)) * d) by (nonlinear_arith);
    }
    if (-a) % d == 0 {
        assert(a == d * (-((-a) / d))) by (nonlinear_arith)
            requires
                (-a) % d == 0,
                d > 0,
        ;
        vstd::arithmetic::div_mod::lemma_mod_multiples_basic(-((-a) / d), d);
        assert(d * (-((-a) / d)) == (-((-a) / d)) * d) by (nonlinear_arith);
    }
}

/// An ASCII decimal digit byte.
pub open spec fn is_digit_byte(b: u8) -> bool {
    48 <= b <= 57
}

/// The value of a string of ASCII decimal digits.
pub open spec fn digits_value(bytes: Seq<u8>) -> int
    decreases bytes.len(),
{
    if bytes.len() == 0 {
        0
    } else {
        digits_value(bytes.drop_last()) * 10 + (bytes.last() - 48)
    }
}

proof fn lemma_digits_value_nonnegative(bytes: Seq<u8>)
    requires
        forall|i: int| 0 <= i < bytes.len() ==> is_digit_byte(#[trigger] bytes[i]),
    ensures
        digits_value(bytes) >= 0,
    decreases bytes.len(),
{
    if bytes.len() > 0 {
        lemma_digits_value_nonnegative(bytes.drop_last());
    }
}

proof fn lemma_digits_value_bound(bytes: Seq<u8>)
    requires
        forall|i: int| 0 <= i < bytes.len() ==> is_digit_byte(#[trigger] bytes[i]),
        bytes.len() <= 4,
    ensures
        0 <= digits_value(bytes) < 10000,
        bytes.len() <= 3 ==> digits_value(bytes) < 1000,
        bytes.len() <= 2 ==> digits_value(bytes) < 100,
        bytes.len() <= 1 ==> digits_value(bytes) < 10,
        bytes.len() == 0 ==> digits_value(bytes) == 0,
    decreases bytes.len(),
{
    if bytes.len() > 0 {
        lemma_digits_value_bound(bytes.drop_last());
        assert(is_digit_byte(bytes[bytes.len() - 1]));
    }
}

/// Reads the value of the ASCII digits `bytes[start..end]`, or `None` when
/// one of them is not a digit.
fn read_digits(bytes: &[u8], start: usize, end: usize) -> (value: Option<u32>)
    requires
        start <= end <= bytes@.len(),
        end - start <= 4,
    ensures
        match value {
            Some(v) => (forall|i: int| start <= i < end ==> is_digit_byte(#[trigger] bytes@[i]))
                && v as int == digits_value(bytes@.subrange(start as int, end as int)) && v
                < 10000,
            None => exists|i: int| start <= i < end && !is_digit_byte(#[trigger] bytes@[i]),
        },
{
    let mut value: u32 = 0;
    let mut i: usize = start;
    while i < end
        invariant
            start <= i <= end <= bytes@.len(),
            end - start <= 4,
            forall|k: int| start <= k < i ==> is_digit_byte(#[trigger] bytes@[k]),
            value as int == digits_value(bytes@.subrange(start as int, i as int)),
            value < 10000,
        decreases end - i,
    {
        let b = bytes[i];
        if b < 48 || b > 57 {
            return None;
        }
        proof {
            let next = bytes@.subrange(start as int, i + 1);
            assert(next.drop_last() =~= bytes@.subrange(start as int, i as int));
            assert(next.last() == b);
            lemma_digits_value_bound(next);
        }
        value = value * 10 + (b - 48) as u32;
        i = i + 1;
    }
    Some(value)
}

/// The fields of a valid normalized instant `YYYY-MM-DDTHH:MM:SSZ`: year,
/// month, day, hour, minute and second, with a year from 1, a month from 1
/// to 12, a day within its month, and a time of day within 23:59:59.
pub open spec fn instant_fields(bytes: Seq<u8>) -> Option<(int, int, int, int, int, int)> {
    if bytes.len() != 20 || bytes[4] != 45 || bytes[7] != 45 || bytes[10] != 84 || bytes[13]
        != 58 || bytes[16] != 58 || bytes[19] != 90 {
        None
    } else if !(forall|i: int|
        0 <= i < 20 && i != 4 && i != 7 && i != 10 && i != 13 && i != 16 && i != 19
            ==> is_digit_byte(#[trigger] bytes[i])) {
        None
    } else {
        let year = digits_value(bytes.subrange(0, 4));
        let month = digits_value(bytes.subrange(5, 7));
        let day = digits_value(bytes.subrange(8, 10));
        let hour = digits_value(bytes.subrange(11, 13));
        let minute = digits_value(bytes.subrange(14, 16));
        let second = digits_value(bytes.subrange(17, 19));
        match month_length(year, month) {
            None => None,
            Some(max_day) => if year == 0 || day == 0 || day > max_day || hour > 23 || minute
                > 59 || second > 59 {
                None
            } else {
                Some((year, month, day, hour, minute, second))
            },
        }
    }
}

/// Splits a normalized instant into year, month, day, hour, minute and second.
pub fn instant_parts(instant: &str) -> (result: Result<(i64, u32, u32, u32, u32, u32), InvalidInstant>)
    ensures
        match result {
            Ok(parts) => instant_fields(crate::span::utf8_of(instant@)) == Some(
                (
                    parts.0 as int,
                    parts.1 as int,
                    parts.2 as int,
                    parts.3 as int,
                    parts.4 as int,
                    parts.5 as int,
                ),
            ),
            Err(_) => instant_fields(crate::span::utf8_of(instant@)) is None,
        },
        result matches Ok(parts) ==> 1 <= parts.0 <= 9999 && 1 <= parts.1 <= 12 && 1 <= parts.2
            <= 31 && parts.3 <= 23 && parts.4 <= 59 && parts.5 <= 59,
{
    let bytes = instant.as_bytes();
    let ghost b = bytes@;
    proof {
        assert(b == crate::span::utf8_of(instant@));
    }
    if bytes.len() != 20 || bytes[4] != 45 || bytes[7] != 45 || bytes[10] != 84 || bytes[13] != 58
        || bytes[16] != 58 || bytes[19] != 90 {
        return Err(InvalidInstant);
    }
    let year = match read_digits(bytes, 0, 4) {
        Some(v) => v,
        None => return Err(InvalidInstant),
    };
    let month = match read_digits(bytes, 5, 7) {
        Some(v) => v,
        None => return Err(InvalidInstant),
    };
    let day = match read_digits(bytes, 8, 10) {
        Some(v) => v,
        None => return Err(InvalidInstant),
    };
    let hour = match read_digits(bytes, 11, 13) {
        Some(v) => v,
        None => return Err(InvalidInstant),
    };
    let minute = match read_digits(bytes, 14, 16) {
        Some(v) => v,
        None => return Err(InvalidInstant),
    };
    let second = match read_digits(bytes, 17, 19) {
        Some(v) => v,
        None => return Err(InvalidInstant),
    };
    proof {
        assert forall|i: int|
            0 <= i < 20 && i != 4 && i != 7 && i != 10 && i != 13 && i != 16 && i != 19
                implies is_digit_byte(#[trigger] b[i]) by {
            if i < 4 {
            } else if i < 7 {
            } else if i < 10 {
            } else if i < 13 {
            } else if i < 16 {
            } else {
            }
        }
    }
    let year = year as i64;
    let max_day = match days_in_month(year, month) {
        Some(n) => n,
        None => return Err(InvalidInstant),
    };
    if year == 0 || day == 0 || day > max_day || hour > 23 || minute > 59 || second > 59 {
        return Err(InvalidInstant);
    }
    Ok((year, month, day, hour, minute, second))
}

/// Whether a text is a valid normalized instant.
pub fn validate_instant(instant: &str) -> (result: Result<(), InvalidInstant>)
    ensures
        result is Ok <==> instant_fields(crate::span::utf8_of(instant@)) is Some,
{
    match instant_parts(instant) {
        Ok(_) => Ok(()),
        Err(e) => Err(e),
    }
}

/// A month from 1 to 12 and a day within that month of that year.
pub open spec fn valid_date(year: int, month: int, day: int) -> bool {
    1 <= month <= 12 && match month_length(year, month) {
        Some(n) => 1 <= day <= n,
        None => false,
    }
}

/// Days from 1970-01-01 to a proleptic Gregorian date, by eras of 400 years
/// that begin on March 1.
pub open spec fn civil_to_days(year: int, month: int, day: int) -> int {
    let adjusted_year = if month <= 2 {
        year - 1
    } else {
        year
    };
    let era = adjusted_year / 400;
    let year_of_era = adjusted_year - era * 400;
    let shifted_month = if month > 2 {
        month - 3
    } else {
        month + 9
    };
    let day_of_year = (153 * shifted_month + 2) / 5 + day - 1;
    let day_of_era = year_of_era * 365 + year_of_era / 4 - year_of_era / 100 + day_of_year;
    era * 146097 + day_of_era - 719468
}

/// The proleptic Gregorian date that lies `days` after 1970-01-01.
pub open spec fn days_to_civil(days: int) -> (int, int, int) {
    let zero_based = days + 719468;
    let era = zero_based / 146097;
    let day_of_era = zero_based - era * 146097;
    let year_of_era = (day_of_era - day_of_era / 1460 + day_of_era / 36524 - day_of_era / 146096)
        / 365;
    let day_of_year = day_of_era - (365 * year_of_era + year_of_era / 4 - year_of_era / 100);
    let month_prime = (5 * day_of_year + 2) / 153;
    let day = day_of_year - (153 * month_prime + 2) / 5 + 1;
    let month = if month_prime < 10 {
        month_prime + 3
    } else {
        month_prime - 9
    };
    let year = year_of_era + era * 400 + if month <= 2 {
        1int
    } else {
        0int
    };
    (year, month, day)
}

/// Days from 1970-01-01 to a date of the years 1 to 9999.
pub fn days_from_civil(year: i64, month: u32, day: u32) -> (days: i64)
    requires
        1 <= year <= 9999,
        1 <= month <= 12,
        1 <= day <= 31,
    ensures
        days == civil_to_days(year as int, month as int, day as int),
{
    let adjusted_year = year - if month <= 2 {
        1
    } else {
        0
    };
    let era = euclid_div(adjusted_year, 400);
    let year_of_era = adjusted_year - era * 400;
    let shifted_month: i64 = if month > 2 {
        month as i64 - 3
    } else {
        month as i64 + 9
    };
    let day_of_year = euclid_div(153 * shifted_month + 2, 5) + day as i64 - 1;
    let day_of_era = year_of_era * 365 + euclid_div(year_of_era, 4) - euclid_div(year_of_era, 100)
        + day_of_year;
    era * 146097 + day_of_era - 719468
}

/// The date that lies `days` after 1970-01-01.
pub fn civil_from_days(days: i64) -> (date: (i64, i64, i64))
    requires
        -0x8000_0000_0000 <= days <= 0x8000_0000_0000,
    ensures
        (date.0 as int, date.1 as int, date.2 as int) == days_to_civil(days as int),
{
    let zero_based = days + 719468;
    let era = euclid_div(zero_based, 146097);
    let day_of_era = zero_based - era * 146097;
    let year_of_era = euclid_div(
        day_of_era - euclid_div(day_of_era, 1460) + euclid_div(day_of_era, 36524) - euclid_div(
            day_of_era,
            146096,
        ),
        365,
    );
    let day_of_year = day_of_era - (365 * year_of_era + euclid_div(year_of_era, 4) - euclid_div(
        year_of_era,
        100,
    ));
    let month_prime = euclid_div(5 * day_of_year + 2, 153);
    let day = day_of_year - euclid_div(153 * month_prime + 2, 5) + 1;
    let month = if month_prime < 10 {
        month_prime + 3
    } else {
        month_prime - 9
    };
    let year = year_of_era + era * 400 + if month <= 2 {
        1
    } else {
        0
    };
    (year, month, day)
}

/// Euclidean quotient of a value by a positive divisor.
fn euclid_div(value: i64, divisor: i64) -> (quotient: i64)
    requires
        divisor > 0,
    ensures
        quotient as int == value as int / divisor as int,
{
    if value >= 0 {
        value / divisor
    } else {
        let q = (value + 1) / divisor - 1;
        proof {
            assert(q as int == value as int / divisor as int) by (nonlinear_arith)
                requires
                    value < 0,
                    divisor > 0,
                    q as int == -(((-(value as int) - 1) / divisor as int)) - 1,
            ;
        }
        q
    }
}

} // verus!
verus! {

/// Year of a 400-year era that a day of the era falls in, counting years from March 1.
pub open spec fn era_year_of(day_of_era: int) -> int {
    (day_of_era - day_of_era / 1460 + day_of_era / 36524 - day_of_era / 146096) / 365
}

/// First day of a year of an era, counting years from March 1.
pub open spec fn era_year_start(year_of_era: int) -> int {
    365 * year_of_era + year_of_era / 4 - year_of_era / 100
}

/// Whether the year of an era that begins on March 1 holds a February 29.
pub open spec fn era_year_has_leap_day(year_of_era: int) -> bool {
    year_of_era % 4 == 3 && (year_of_era % 100 != 99 || year_of_era == 399)
}

proof fn lemma_era_year_of_fits_bits(doe: u32)
    requires
        doe <= 146096,
    ensures
        (doe - doe / 1460 + doe / 36524 - doe / 146096) / 365 <= 399,
        365 * ((doe - doe / 1460 + doe / 36524 - doe / 146096) / 365) + ((doe - doe / 1460 + doe
            / 36524 - doe / 146096) / 365) / 4 - ((doe - doe / 1460 + doe / 36524 - doe / 146096)
            / 365) / 100 <= doe,
        doe - (365 * ((doe - doe / 1460 + doe / 36524 - doe / 146096) / 365) + ((doe - doe / 1460
            + doe / 36524 - doe / 146096) / 365) / 4 - ((doe - doe / 1460 + doe / 36524 - doe
            / 146096) / 365) / 100) <= 365,
{
    assert((doe - doe / 1460 + doe / 36524 - doe / 146096) / 365 <= 399) by (bit_vector)
        requires
            doe <= 146096,
    ;
    assert(365 * ((doe - doe / 1460 + doe / 36524 - doe / 146096) / 365) + ((doe - doe / 1460
        + doe / 36524 - doe / 146096) / 365) / 4 - ((doe - doe / 1460 + doe / 36524 - doe
        / 146096) / 365) / 100 <= doe) by (bit_vector)
        requires
            doe <= 146096,
    ;
    assert(doe - (365 * ((doe - doe / 1460 + doe / 36524 - doe / 146096) / 365) + ((doe - doe
        / 1460 + doe / 36524 - doe / 146096) / 365) / 4 - ((doe - doe / 1460 + doe / 36524 - doe
        / 146096) / 365) / 100) <= 365) by (bit_vector)
        requires
            doe <= 146096,
    ;
}

/// Every day of an era lies in a year of that era, at most 365 days after its start.
pub proof fn lemma_era_year_of_fits(doe: int)
    requires
        0 <= doe <= 146096,
    ensures
        0 <= era_year_of(doe) <= 399,
        era_year_start(era_year_of(doe)) <= doe,
        doe - era_year_start(era_year_of(doe)) <= 365,
{
    lemma_era_year_of_fits_bits(doe as u32);
}


proof fn lemma_leap_day_bits(doe: u32, y: u32)
    requires
        doe <= 146096,
        y == (doe - doe / 1460 + doe / 36524 - doe / 146096) / 365,
        doe - (365 * y + y / 4 - y / 100) == 365,
    ensures
        y % 4 == 3,
        y % 100 != 99 || y == 399,
{
    assert(y % 4 == 3 && (y % 100 != 99 || y == 399)) by (bit_vector)
        requires
            doe <= 146096,
            y <= (doe - doe / 1460 + doe / 36524 - doe / 146096) / 365,
            (doe - doe / 1460 + doe / 36524 - doe / 146096) / 365 <= y,
            doe - (365 * y + y / 4 - y / 100) >= 365,
    ;
}

/// A day 365 days into a year of an era is a February 29.
pub proof fn lemma_leap_day(doe: int)
    requires
        0 <= doe <= 146096,
        doe - era_year_start(era_year_of(doe)) == 365,
    ensures
        era_year_has_leap_day(era_year_of(doe)),
{
    lemma_era_year_of_fits(doe);
    lemma_leap_day_bits(doe as u32, era_year_of(doe) as u32);
}

proof fn lemma_year_recovered_bits(y: u32, doy: u32)
    requires
        y <= 399,
        doy <= 365,
        doy == 365 ==> y % 4 == 3 && (y % 100 != 99 || y == 399),
    ensures
        (365 * y + y / 4 - y / 100 + doy - (365 * y + y / 4 - y / 100 + doy) / 1460 + (365 * y + y
            / 4 - y / 100 + doy) / 36524 - (365 * y + y / 4 - y / 100 + doy) / 146096) / 365 == y,
{
    assert((365 * y + y / 4 - y / 100 + doy - (365 * y + y / 4 - y / 100 + doy) / 1460 + (365 * y
        + y / 4 - y / 100 + doy) / 36524 - (365 * y + y / 4 - y / 100 + doy) / 146096) / 365 == y)
        by (bit_vector)
        requires
            y <= 399,
            doy <= 365,
            doy == 365 ==> y % 4 == 3 && (y % 100 != 99 || y == 399),
    ;
}

/// The year of an era is recovered from any day of it.
pub proof fn lemma_year_recovered(year_of_era: int, day_of_year: int)
    requires
        0 <= year_of_era <= 399,
        0 <= day_of_year <= 365,
        day_of_year == 365 ==> era_year_has_leap_day(year_of_era),
    ensures
        era_year_of(era_year_start(year_of_era) + day_of_year) == year_of_era,
        0 <= era_year_start(year_of_era) + day_of_year <= 146096,
{
    lemma_year_recovered_bits(year_of_era as u32, day_of_year as u32);
    assert(0 <= era_year_start(year_of_era) + day_of_year <= 146096) by (nonlinear_arith)
        requires
            0 <= year_of_era <= 399,
            0 <= day_of_year <= 365,
            day_of_year == 365 ==> era_year_has_leap_day(year_of_era),
    ;
}

proof fn lemma_month_of_day_bits(doy: u32)
    requires
        doy <= 365,
    ensures
        (5 * doy + 2) / 153 <= 11,
        1 <= doy - (153 * ((5 * doy + 2) / 153) + 2) / 5 + 1,
        doy - (153 * ((5 * doy + 2) / 153) + 2) / 5 + 1 <= 31,
        ((5 * doy + 2) / 153 == 1 || (5 * doy + 2) / 153 == 3 || (5 * doy + 2) / 153 == 6 || (5
            * doy + 2) / 153 == 8) ==> doy - (153 * ((5 * doy + 2) / 153) + 2) / 5 + 1 <= 30,
        (5 * doy + 2) / 153 == 11 ==> (doy - (153 * ((5 * doy + 2) / 153) + 2) / 5 + 1 <= 28
            || doy == 365),
{
    assert((5 * doy + 2) / 153 <= 11 && 1 <= doy - (153 * ((5 * doy + 2) / 153) + 2) / 5 + 1
        && doy - (153 * ((5 * doy + 2) / 153) + 2) / 5 + 1 <= 31 && (((5 * doy + 2) / 153 == 1
        || (5 * doy + 2) / 153 == 3 || (5 * doy + 2) / 153 == 6 || (5 * doy + 2) / 153 == 8)
        ==> doy - (153 * ((5 * doy + 2) / 153) + 2) / 5 + 1 <= 30) && ((5 * doy + 2) / 153 == 11
        ==> (doy - (153 * ((5 * doy + 2) / 153) + 2) / 5 + 1 <= 28 || doy == 365))) by (bit_vector)
        requires
            doy <= 365,
    ;
}

proof fn lemma_month_recovered_bits(mp: u32, d: u32)
    requires
        mp <= 11,
        1 <= d <= 31,
        (mp == 1 || mp == 3 || mp == 6 || mp == 8) ==> d <= 30,
        mp == 11 ==> d <= 29,
    ensures
        (5 * ((153 * mp + 2) / 5 + d - 1) + 2) / 153 == mp,
        (153 * mp + 2) / 5 + d - 1 <= 365,
        (153 * mp + 2) / 5 + d - 1 == 365 ==> mp == 11 && d == 29,
{
    assert((5 * ((153 * mp + 2) / 5 + d - 1) + 2) / 153 == mp && (153 * mp + 2) / 5 + d - 1 <= 365
        && ((153 * mp + 2) / 5 + d - 1 == 365 ==> mp == 11 && d == 29)) by (bit_vector)
        requires
            mp <= 11,
            1 <= d <= 31,
            (mp == 1 || mp == 3 || mp == 6 || mp == 8) ==> d <= 30,
            mp == 11 ==> d <= 29,
    ;
}

/// The calendar year of an era's year that holds its February is a leap year
/// exactly when that year of the era holds a February 29.
proof fn lemma_leap_year_of_era(era: int, year_of_era: int)
    requires
        0 <= year_of_era <= 399,
    ensures
        is_leap(era * 400 + year_of_era + 1) == era_year_has_leap_day(year_of_era),
{
    let y = era * 400 + year_of_era + 1;
    lemma_mod_multiples_vanish(era * 100, year_of_era + 1, 4);
    lemma_mod_multiples_vanish(era * 4, year_of_era + 1, 100);
    lemma_mod_multiples_vanish(era, year_of_era + 1, 400);
    assert(4 * (era * 100) == era * 400) by (nonlinear_arith);
    assert(100 * (era * 4) == era * 400) by (nonlinear_arith);
    assert(400 * era == era * 400) by (nonlinear_arith);
    assert((year_of_era + 1) % 400 == 0 <==> year_of_era == 399);
}

/// Every day number names a valid date: a month from 1 to 12 and a day within it.
pub proof fn lemma_days_to_civil_valid(days: int)
    ensures
        ({
            let (year, month, day) = days_to_civil(days);
            valid_date(year, month, day)
        }),
{
    let zero_based = days + 719468;
    let era = zero_based / 146097;
    let doe = zero_based - era * 146097;
    assert(0 <= doe < 146097) by (nonlinear_arith)
        requires
            era == zero_based / 146097,
            doe == zero_based - era * 146097,
    ;
    lemma_era_year_of_fits(doe);
    let yoe = era_year_of(doe);
    let doy = doe - era_year_start(yoe);
    lemma_month_of_day_bits(doy as u32);
    if doy == 365 {
        lemma_leap_day(doe);
    }
    let mp = (5 * doy + 2) / 153;
    let month = if mp < 10 {
        mp + 3
    } else {
        mp - 9
    };
    let year = yoe + era * 400 + if month <= 2 {
        1int
    } else {
        0int
    };
    if mp == 11 {
        lemma_leap_year_of_era(era, yoe);
        assert(year == era * 400 + yoe + 1);
    }
    assert(days_to_civil(days) == (year, month, doy - (153 * mp + 2) / 5 + 1));
}

/// Reading back the day number of the date a day number names gives that day number.
pub proof fn lemma_days_round_trip(days: int)
    ensures
        ({
            let (year, month, day) = days_to_civil(days);
            civil_to_days(year, month, day) == days
        }),
{
    let zero_based = days + 719468;
    let era = zero_based / 146097;
    let doe = zero_based - era * 146097;
    assert(0 <= doe < 146097) by (nonlinear_arith)
        requires
            era == zero_based / 146097,
            doe == zero_based - era * 146097,
    ;
    lemma_era_year_of_fits(doe);
    let yoe = era_year_of(doe);
    let doy = doe - era_year_start(yoe);
    lemma_month_of_day_bits(doy as u32);
    let mp = (5 * doy + 2) / 153;
    let day = doy - (153 * mp + 2) / 5 + 1;
    let month = if mp < 10 {
        mp + 3
    } else {
        mp - 9
    };
    let year = yoe + era * 400 + if month <= 2 {
        1int
    } else {
        0int
    };
    assert(days_to_civil(days) == (year, month, day));
    let adjusted = if month <= 2 {
        year - 1
    } else {
        year
    };
    assert(adjusted == era * 400 + yoe);
    lemma_div_multiples_vanish_fancy(era, yoe, 400);
    assert(400 * era == era * 400) by (nonlinear_arith);
    assert(adjusted / 400 == era);
    let shifted = if month > 2 {
        month - 3
    } else {
        month + 9
    };
    assert(shifted == mp);
}

/// The day number of a valid date names that date again.
pub proof fn lemma_civil_round_trip(year: int, month: int, day: int)
    requires
        1 <= year,
        valid_date(year, month, day),
    ensures
        days_to_civil(civil_to_days(year, month, day)) == (year, month, day),
{
    let adjusted = if month <= 2 {
        year - 1
    } else {
        year
    };
    let era = adjusted / 400;
    let yoe = adjusted - era * 400;
    assert(0 <= yoe < 400) by (nonlinear_arith)
        requires
            era == adjusted / 400,
            yoe == adjusted - era * 400,
    ;
    let mp = if month > 2 {
        month - 3
    } else {
        month + 9
    };
    lemma_month_recovered_bits(mp as u32, day as u32);
    let doy = (153 * mp + 2) / 5 + day - 1;
    if doy == 365 {
        lemma_leap_year_of_era(era, yoe);
        assert(year == era * 400 + yoe + 1);
    }
    lemma_year_recovered(yoe, doy);
    let doe = era_year_start(yoe) + doy;
    let days = era * 146097 + doe - 719468;
    assert(civil_to_days(year, month, day) == days);
    lemma_div_multiples_vanish_fancy(era, doe, 146097);
    assert(146097 * era == era * 146097) by (nonlinear_arith);
    assert((days + 719468) / 146097 == era);
}

/// Seconds from 1970-01-01T00:00:00Z to the fields of an instant.
pub open spec fn epoch_seconds(fields: (int, int, int, int, int, int)) -> int {
    civil_to_days(fields.0, fields.1, fields.2) * 86400 + fields.3 * 3600 + fields.4 * 60
        + fields.5
}

/// The fields of the instant `total` seconds after 1970-01-01T00:00:00Z.
pub open spec fn instant_at(total: int) -> (int, int, int, int, int, int) {
    let (year, month, day) = days_to_civil(total / 86400);
    let second_of_day = total % 86400;
    (year, month, day, second_of_day / 3600, (second_of_day % 3600) / 60, second_of_day % 60)
}

/// Two decimal digits of a value below one hundred.
pub open spec fn two_digits(n: int) -> Seq<char> {
    seq![digit_char((n / 10) as nat), digit_char((n % 10) as nat)]
}

/// Four decimal digits of a value below ten thousand.
pub open spec fn four_digits(n: int) -> Seq<char> {
    seq![
        digit_char((n / 1000) as nat),
        digit_char(((n / 100) % 10) as nat),
        digit_char(((n / 10) % 10) as nat),
        digit_char((n % 10) as nat),
    ]
}

/// The normalized spelling `YYYY-MM-DDTHH:MM:SSZ` of instant fields.
pub open spec fn instant_spelling(fields: (int, int, int, int, int, int)) -> Seq<char> {
    four_digits(fields.0) + seq!['-'] + two_digits(fields.1) + seq!['-'] + two_digits(fields.2)
        + seq!['T'] + two_digits(fields.3) + seq![':'] + two_digits(fields.4) + seq![':']
        + two_digits(fields.5) + seq!['Z']
}

fn digit(d: i64) -> (c: char)
    requires
        0 <= d < 10,
    ensures
        c == digit_char(d as nat),
{
    if d == 0 {
        '0'
    } else if d == 1 {
        '1'
    } else if d == 2 {
        '2'
    } else if d == 3 {
        '3'
    } else if d == 4 {
        '4'
    } else if d == 5 {
        '5'
    } else if d == 6 {
        '6'
    } else if d == 7 {
        '7'
    } else if d == 8 {
        '8'
    } else {
        '9'
    }
}

fn push_two_digits(out: &mut String, n: i64)
    requires
        0 <= n < 100,
    ensures
        final(out)@ == old(out)@ + two_digits(n as int),
{
    let ghost before = out@;
    push_char(out, digit(n / 10));
    push_char(out, digit(n % 10));
    proof {
        assert(out@ =~= before + two_digits(n as int));
    }
}

/// The normalized spelling of an instant moved by `seconds`, or `None`
/// where the instant is malformed, the sum leaves the signed 64-bit range,
/// or the result falls outside the years 1 to 9999.
pub open spec fn shifted_instant(instant: Seq<char>, seconds: i64) -> Option<Seq<char>> {
    match instant_fields(crate::span::utf8_of(instant)) {
        None => None,
        Some(fields) => {
            let total = epoch_seconds(fields) + seconds;
            if total < i64::MIN || total > i64::MAX {
                None
            } else if 1 <= instant_at(total).0 <= 9999 {
                Some(instant_spelling(instant_at(total)))
            } else {
                None
            }
        },
    }
}

/// The instant `seconds` after a normalized instant, in normalized form. An
/// invalid instant, a sum beyond the signed 64-bit range, and a result outside
/// the years 1 to 9999 are errors.
pub fn add_seconds(instant: &str, seconds: i64) -> (result: Result<String, InvalidInstant>)
    ensures
        match result {
            Ok(text) => shifted_instant(instant@, seconds) == Some(text@),
            Err(_) => shifted_instant(instant@, seconds) is None,
        },
        match instant_fields(crate::span::utf8_of(instant@)) {
            None => result is Err,
            Some(fields) => {
                let total = epoch_seconds(fields) + seconds;
                if total < i64::MIN || total > i64::MAX {
                    result is Err
                } else if 1 <= instant_at(total).0 <= 9999 {
                    result matches Ok(text) && text@ == instant_spelling(instant_at(total))
                } else {
                    result is Err
                }
            },
        },
{
    let (year, month, day, hour, minute, second) = instant_parts(instant)?;
    let days = days_from_civil(year, month, day);
    assert(-4000000 <= days <= 4000000) by (nonlinear_arith)
        requires
            1 <= year <= 9999,
            1 <= month <= 12,
            1 <= day <= 31,
            days == civil_to_days(year as int, month as int, day as int),
    ;
    let base = days * 86400 + hour as i64 * 3600 + minute as i64 * 60 + second as i64;
    let total = match base.checked_add(seconds) {
        Some(t) => t,
        None => return Err(InvalidInstant),
    };
    let day_number = euclid_div(total, 86400);
    let wide = (total as i128) - (day_number as i128) * 86400;
    assert(0 <= wide < 86400 && wide == total as int % 86400) by (nonlinear_arith)
        requires
            day_number == total as int / 86400,
            wide == total - day_number * 86400,
    ;
    let second_of_day = wide as i64;
    assert(-0x8000_0000_0000 <= day_number <= 0x8000_0000_0000) by (nonlinear_arith)
        requires
            day_number == total as int / 86400,
    ;
    let (y, m, d) = civil_from_days(day_number);
    if y < 1 || y > 9999 {
        return Err(InvalidInstant);
    }
    proof {
        lemma_days_to_civil_valid(day_number as int);
    }
    let mut text = String::new();
    let ghost start = text@;
    push_char(&mut text, digit(y / 1000));
    push_char(&mut text, digit((y / 100) % 10));
    push_char(&mut text, digit((y / 10) % 10));
    push_char(&mut text, digit(y % 10));
    push_char(&mut text, '-');
    push_two_digits(&mut text, m);
    push_char(&mut text, '-');
    push_two_digits(&mut text, d);
    push_char(&mut text, 'T');
    push_two_digits(&mut text, second_of_day / 3600);
    push_char(&mut text, ':');
    push_two_digits(&mut text, (second_of_day % 3600) / 60);
    push_char(&mut text, ':');
    push_two_digits(&mut text, second_of_day % 60);
    push_char(&mut text, 'Z');
    proof {
        assert(text@ =~= instant_spelling(instant_at(total as int)));
    }
    Ok(text)
}

/// The instant an addition lands on is a valid date and time, and its epoch
/// seconds are the sum.
pub proof fn lemma_instant_at(total: int)
    ensures
        valid_date(instant_at(total).0, instant_at(total).1, instant_at(total).2),
        0 <= instant_at(total).3 <= 23,
        0 <= instant_at(total).4 <= 59,
        0 <= instant_at(total).5 <= 59,
        epoch_seconds(instant_at(total)) == total,
{
    let days = total / 86400;
    let r = total % 86400;
    lemma_days_to_civil_valid(days);
    lemma_days_round_trip(days);
    assert(total == days * 86400 + r && 0 <= r < 86400) by (nonlinear_arith)
        requires
            days == total / 86400,
            r == total % 86400,
    ;
    assert(r == (r / 3600) * 3600 + ((r % 3600) / 60) * 60 + r % 60 && r / 3600 <= 23 && (r
        % 3600) / 60 <= 59 && r % 60 <= 59 && 0 <= r / 3600 && 0 <= (r % 3600) / 60 && 0 <= r % 60)
        by (nonlinear_arith)
        requires
            0 <= r < 86400,
    ;
}

/// The epoch seconds of a valid instant are recovered from its fields: adding
/// zero seconds gives back the same fields.
pub proof fn lemma_instant_at_epoch(fields: (int, int, int, int, int, int))
    requires
        1 <= fields.0,
        valid_date(fields.0, fields.1, fields.2),
        0 <= fields.3 <= 23,
        0 <= fields.4 <= 59,
        0 <= fields.5 <= 59,
    ensures
        instant_at(epoch_seconds(fields)) == fields,
{
    let days = civil_to_days(fields.0, fields.1, fields.2);
    let r = fields.3 * 3600 + fields.4 * 60 + fields.5;
    assert(0 <= r < 86400);
    let total = days * 86400 + r;
    lemma_div_multiples_vanish_fancy(days, r, 86400);
    assert(86400 * days == days * 86400) by (nonlinear_arith);
    assert(total / 86400 == days);
    assert(total % 86400 == r) by (nonlinear_arith)
        requires
            total == days * 86400 + r,
            0 <= r < 86400,
            total / 86400 == days,
    ;
    lemma_civil_round_trip(fields.0, fields.1, fields.2);
    assert(r / 3600 == fields.3 && (r % 3600) / 60 == fields.4 && r % 60 == fields.5)
        by (nonlinear_arith)
        requires
            r == fields.3 * 3600 + fields.4 * 60 + fields.5,
            0 <= fields.3 <= 23,
            0 <= fields.4 <= 59,
            0 <= fields.5 <= 59,
    ;
}

proof fn lemma_ascii_encoding(text: Seq<char>)
    requires
        forall|i: int| 0 <= i < text.len() ==> (#[trigger] text[i] as u32) < 128,
    ensures
        crate::span::utf8_of(text).len() == text.len(),
        forall|i: int|
            0 <= i < text.len() ==> #[trigger] crate::span::utf8_of(text)[i] == (text[i] as u32) as u8,
    decreases text.len(),
{
    if text.len() > 0 {
        lemma_ascii_encoding(text.drop_first());
        let c = text[0];
        assert((c as u32) < 128);
        vstd::utf8::char_is_scalar(c);
        let v = c as u32;
        assert(vstd::utf8::has_width_1_encoding(v));
        assert(v & 0x7F == v) by (bit_vector)
            requires
                v < 128,
        ;
        assert(vstd::utf8::encode_scalar(v) == seq![v as u8]);
        assert forall|i: int| 0 <= i < text.len() implies #[trigger] crate::span::utf8_of(text)[i]
            == (text[i] as u32) as u8 by {
            if i > 0 {
                assert(text.drop_first()[i - 1] == text[i]);
            }
        }
    }
}

proof fn lemma_digit_char_code(d: int)
    requires
        0 <= d < 10,
    ensures
        (digit_char(d as nat) as u32) == 48 + d,
{
}

/// The spelling of valid instant fields reads back as those fields.
pub proof fn lemma_spelling_reads_back(fields: (int, int, int, int, int, int))
    requires
        1 <= fields.0 <= 9999,
        valid_date(fields.0, fields.1, fields.2),
        0 <= fields.3 <= 23,
        0 <= fields.4 <= 59,
        0 <= fields.5 <= 59,
    ensures
        instant_fields(crate::span::utf8_of(instant_spelling(fields))) == Some(fields),
{
    let text = instant_spelling(fields);
    let (y, mo, d, h, mi, se) = fields;
    lemma_digit_char_code(y / 1000);
    lemma_digit_char_code((y / 100) % 10);
    lemma_digit_char_code((y / 10) % 10);
    lemma_digit_char_code(y % 10);
    lemma_digit_char_code(mo / 10);
    lemma_digit_char_code(mo % 10);
    lemma_digit_char_code(d / 10);
    lemma_digit_char_code(d % 10);
    lemma_digit_char_code(h / 10);
    lemma_digit_char_code(h % 10);
    lemma_digit_char_code(mi / 10);
    lemma_digit_char_code(mi % 10);
    lemma_digit_char_code(se / 10);
    lemma_digit_char_code(se % 10);
    assert(text.len() == 20);
    assert(text[0] == digit_char((y / 1000) as nat));
    assert(text[1] == digit_char(((y / 100) % 10) as nat));
    assert(text[2] == digit_char(((y / 10) % 10) as nat));
    assert(text[3] == digit_char((y % 10) as nat));
    assert(text[4] == '-');
    assert(text[5] == digit_char((mo / 10) as nat));
    assert(text[6] == digit_char((mo % 10) as nat));
    assert(text[7] == '-');
    assert(text[8] == digit_char((d / 10) as nat));
    assert(text[9] == digit_char((d % 10) as nat));
    assert(text[10] == 'T');
    assert(text[11] == digit_char((h / 10) as nat));
    assert(text[12] == digit_char((h % 10) as nat));
    assert(text[13] == ':');
    assert(text[14] == digit_char((mi / 10) as nat));
    assert(text[15] == digit_char((mi % 10) as nat));
    assert(text[16] == ':');
    assert(text[17] == digit_char((se / 10) as nat));
    assert(text[18] == digit_char((se % 10) as nat));
    assert(text[19] == 'Z');
    assert forall|i: int| 0 <= i < text.len() implies (#[trigger] text[i] as u32) < 128 by {
        if i == 0 {
        }
    }
    lemma_ascii_encoding(text);
    let b = crate::span::utf8_of(text);
    reveal_with_fuel(digits_value, 5);
    assert(b.subrange(0, 4).drop_last().drop_last().drop_last() =~= seq![b[0]]);
    assert(b.subrange(0, 4).drop_last().drop_last() =~= seq![b[0], b[1]]);
    assert(b.subrange(0, 4).drop_last() =~= seq![b[0], b[1], b[2]]);
    assert(seq![b[0]].drop_last() =~= Seq::<u8>::empty());
    assert(seq![b[0], b[1]].drop_last() =~= seq![b[0]]);
    assert(seq![b[0], b[1], b[2]].drop_last() =~= seq![b[0], b[1]]);
    assert(digits_value(b.subrange(0, 4)) == y) by (nonlinear_arith)
        requires
            digits_value(b.subrange(0, 4)) == (((b[0] - 48) * 10 + (b[1] - 48)) * 10 + (b[2]
                - 48)) * 10 + (b[3] - 48),
            b[0] - 48 == y / 1000,
            b[1] - 48 == (y / 100) % 10,
            b[2] - 48 == (y / 10) % 10,
            b[3] - 48 == y % 10,
            1 <= y <= 9999,
    ;
    assert(b.subrange(5, 7).drop_last() =~= seq![b[5]]);
    assert(b.subrange(8, 10).drop_last() =~= seq![b[8]]);
    assert(b.subrange(11, 13).drop_last() =~= seq![b[11]]);
    assert(b.subrange(14, 16).drop_last() =~= seq![b[14]]);
    assert(b.subrange(17, 19).drop_last() =~= seq![b[17]]);
    assert(digits_value(b.subrange(5, 7)) == mo);
    assert(digits_value(b.subrange(8, 10)) == d);
    assert(digits_value(b.subrange(11, 13)) == h);
    assert(digits_value(b.subrange(14, 16)) == mi);
    assert(digits_value(b.subrange(17, 19)) == se);
}
} // verus!
