//! Calendar dates: parsing `YYYY-MM-DD` strings, validating them against the
//! Gregorian calendar, and the trusted localized formatting.
use crate::text::{digits_val, is_digit};
use vstd::prelude::*;

verus! {

/// A Gregorian leap year.
pub open spec fn is_leap(y: int) -> bool {
    y % 4 == 0 && (y % 100 != 0 || y % 400 == 0)
}

/// The number of days of a month, for months 1 through 12.
pub open spec fn days_in_month(y: int, m: int) -> int {
    if m == 2 {
        if is_leap(y) {
            29
        } else {
            28
        }
    } else if m == 4 || m == 6 || m == 9 || m == 11 {
        30
    } else {
        31
    }
}

/// A valid calendar date with a four-digit year.
pub open spec fn valid_date(y: int, m: int, d: int) -> bool {
    0 <= y <= 9999 && 1 <= m <= 12 && 1 <= d <= days_in_month(y, m)
}

/// The date a `YYYY-MM-DD` string denotes: exactly ten characters, hyphens
/// at positions four and seven, digits elsewhere, and a date the calendar
/// has; anything else denotes none.
pub open spec fn date_of(s: Seq<char>) -> Option<(int, int, int)> {
    if s.len() == 10 && s[4] == '-' && s[7] == '-' && is_digit(s[0]) && is_digit(s[1]) && is_digit(
        s[2],
    ) && is_digit(s[3]) && is_digit(s[5]) && is_digit(s[6]) && is_digit(s[8]) && is_digit(s[9]) {
        let y = digits_val(s.subrange(0, 4));
        let m = digits_val(s.subrange(5, 7));
        let d = digits_val(s.subrange(8, 10));
        if valid_date(y, m, d) {
            Some((y, m, d))
        } else {
            None
        }
    } else {
        None
    }
}

/// A parsed and validated publication date.
pub struct LocalDate {
    pub year: u16,
    pub month: u8,
    pub day: u8,
}

impl LocalDate {
    /// A date the Gregorian calendar has, with a four-digit year.
    pub open spec fn wf(&self) -> bool {
        valid_date(self.year as int, self.month as int, self.day as int)
    }
}

/// The numeric value of two digit characters.
proof fn lemma_digits_val2(s: Seq<char>)
    requires
        s.len() == 2,
    ensures
        digits_val(s) == (s[0] as u32 - 0x30) * 10 + (s[1] as u32 - 0x30),
{
    assert(s.drop_last() =~= seq![s[0]]);
    assert(seq![s[0]].drop_last() =~= Seq::<char>::empty());
    assert(digits_val(s) == digits_val(s.drop_last()) * 10 + (s.last() as u32 - 0x30));
    assert(s.last() == s[1]);
    assert(digits_val(Seq::<char>::empty()) == 0);
    assert(digits_val(seq![s[0]]) == digits_val(Seq::<char>::empty()) * 10 + (seq![s[0]].last()
        as u32 - 0x30));
    assert(digits_val(s.drop_last()) == (s[0] as u32 - 0x30));
}

/// The numeric value of four digit characters.
proof fn lemma_digits_val4(s: Seq<char>)
    requires
        s.len() == 4,
    ensures
        digits_val(s) == ((((s[0] as u32 - 0x30) * 10 + (s[1] as u32 - 0x30)) * 10 + (s[2] as u32
            - 0x30)) * 10 + (s[3] as u32 - 0x30)),
{
    lemma_digits_val2(s.subrange(0, 2));
    assert(s.drop_last() =~= s.subrange(0, 3));
    assert(s.subrange(0, 3).drop_last() =~= s.subrange(0, 2));
    assert(digits_val(s) == digits_val(s.drop_last()) * 10 + (s.last() as u32 - 0x30));
    assert(digits_val(s.subrange(0, 3)) == digits_val(s.subrange(0, 3).drop_last()) * 10 + (
    s.subrange(0, 3).last() as u32 - 0x30));
    assert(s.subrange(0, 3).last() == s[2]);
    assert(s.last() == s[3]);
    assert(s.subrange(0, 2)[0] == s[0] && s.subrange(0, 2)[1] == s[1]);
}

/// Reads a digit character's value.
fn digit_value(c: char) -> (r: u32)
    requires
        is_digit(c),
    ensures
        r == c as u32 - 0x30,
{
    (c as u32) - 0x30
}

/// Decides whether a character is a digit.
fn is_digit_exec(c: char) -> (r: bool)
    ensures
        r == is_digit(c),
{
    let n = c as u32;
    0x30 <= n && n <= 0x39
}

/// Parses and validates a `YYYY-MM-DD` string, as `date_of` describes.
pub fn parse_date(v: &Vec<char>) -> (r: Option<LocalDate>)
    ensures
        match r {
            Some(d) => {
                &&& d.wf()
                &&& date_of(v@) == Some((d.year as int, d.month as int, d.day as int))
            },
            None => date_of(v@) is None,
        },
{
    if v.len() != 10 {
        return None;
    }
    if !(v[4] == '-' && v[7] == '-') {
        return None;
    }
    if !(is_digit_exec(v[0]) && is_digit_exec(v[1]) && is_digit_exec(v[2]) && is_digit_exec(v[3])
        && is_digit_exec(v[5]) && is_digit_exec(v[6]) && is_digit_exec(v[8]) && is_digit_exec(
        v[9],
    )) {
        return None;
    }
    let y: u32 = ((digit_value(v[0]) * 10 + digit_value(v[1])) * 10 + digit_value(v[2])) * 10
        + digit_value(v[3]);
    let m: u32 = digit_value(v[5]) * 10 + digit_value(v[6]);
    let d: u32 = digit_value(v[8]) * 10 + digit_value(v[9]);
    proof {
        lemma_digits_val4(v@.subrange(0, 4));
        lemma_digits_val2(v@.subrange(5, 7));
        lemma_digits_val2(v@.subrange(8, 10));
    }
    if !(1 <= m && m <= 12) {
        return None;
    }
    let max_day: u32 = if m == 2 {
        if y % 4 == 0 && (y % 100 != 0 || y % 400 == 0) {
            29
        } else {
            28
        }
    } else if m == 4 || m == 6 || m == 9 || m == 11 {
        30
    } else {
        31
    };
    if !(1 <= d && d <= max_day) {
        return None;
    }
    Some(LocalDate { year: y as u16, month: m as u8, day: d as u8 })
}

/// What the localized long-form date formatter yields for a date and a
/// language tag, or nothing when the tag does not resolve to a locale whose
/// formats the compiled data holds.
pub uninterp spec fn localized_date(y: int, m: int, d: int, lang: Seq<char>) -> Option<Seq<char>>;

/// Formats a Gregorian calendar date as a long-form localized string.
///
/// Relies on icu: `Locale::from_str` resolves the language tag,
/// `TypedDateFormatter::<Gregorian>::try_new_with_length` builds the
/// formatter over the locale data compiled into the library, and
/// `Date::try_new_gregorian_date` carries the date into `format`. With that
/// fixed data, the outcome is a function of the date and the tag alone,
/// named `localized_date`.
#[verifier::external_body]
pub fn format_date(year: u16, month: u8, day: u8, lang: &str) -> (r: Option<String>)
    ensures
        match r {
            Some(t) => localized_date(year as int, month as int, day as int, lang@) == Some(t@),
            None => localized_date(year as int, month as int, day as int, lang@) is None,
        },
{
    let locale = <icu::locid::Locale as core::str::FromStr>::from_str(lang).ok()?;
    let df = icu::datetime::TypedDateFormatter::<icu::calendar::Gregorian>::try_new_with_length(
        &locale.into(),
        icu::datetime::options::length::Date::Long,
    ).ok()?;
    let date = icu::calendar::Date::try_new_gregorian_date(year as i32, month, day).ok()?;
    Some(df.format(&date).to_string())
}

} // verus!
