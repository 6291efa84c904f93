//! The calls into rust_decimal, jiff and ariadne, with the contracts this library relies on.
use std::str::FromStr;
use vstd::prelude::*;
use vstd::string::StringSliceAdditionalSpecFns;
use crate::text::{byte_len, nat_text};

verus! {

/// What `rust_decimal::Decimal::from_str` makes of a text: `Some((mantissa, scale))`
/// of the decimal it parses, `None` where it reports an error.
pub uninterp spec fn decimal_of(text: Seq<char>) -> Option<(i128, u32)>;

/// Parses a numeric literal with `rust_decimal::Decimal::from_str`.
///
/// Claimed: the result is `decimal_of` of the text, the parsed decimal being taken
/// apart into `Decimal::mantissa` and `Decimal::scale`.
#[verifier::external_body]
pub(crate) fn parse_decimal(text: &str) -> (res: Option<(i128, u32)>)
    ensures
        res == decimal_of(text@),
{
    match rust_decimal::Decimal::from_str(text) {
        Ok(d) => Some((d.mantissa(), d.scale())),
        Err(_) => None,
    }
}

/// `k` zeros.
pub open spec fn zeros(k: int) -> Seq<char> {
    Seq::new(if k > 0 { k as nat } else { 0 }, |i: int| '0')
}

/// The decimal digits of `n`, with zeros in front up to `w` digits.
pub open spec fn padded(n: nat, w: nat) -> Seq<char> {
    zeros(w - nat_text(n).len()) + nat_text(n)
}

/// The largest magnitude of a `rust_decimal` mantissa, `2^96 - 1`.
pub open spec fn decimal_max() -> int {
    79228162514264337593543950335
}

/// The text that `rust_decimal`'s `Display` writes for `mantissa * 10^-scale`: a `-`
/// for a negative number, the digits of the magnitude with at least `scale` of them,
/// a `0` before the point where no digit is left of it, and the point before the last
/// `scale` digits; empty where `Decimal::try_from_i128_with_scale` refuses the parts
/// (a scale beyond 28, a magnitude beyond `2^96 - 1`).
pub open spec fn decimal_text(mantissa: i128, scale: u32) -> Seq<char> {
    if scale > 28 || mantissa > decimal_max() || mantissa < -decimal_max() {
        Seq::empty()
    } else {
        let a: nat = if mantissa < 0 { (-mantissa) as nat } else { mantissa as nat };
        let d = if a == 0 { zeros(scale as int) } else { padded(a, scale as nat) };
        let w = d.len() - scale;
        let body = if scale == 0 {
            if d.len() == 0 { "0"@ } else { d }
        } else {
            (if w == 0 { "0"@ } else { d.take(w) }) + "."@ + d.skip(w)
        };
        (if mantissa < 0 { "-"@ } else { ""@ }) + body
    }
}

/// Formats a decimal with `rust_decimal::Decimal`'s `Display`.
///
/// Claimed: the result is `decimal_text` of the two parts, as `to_str_internal`
/// (rust_decimal's `str.rs`) writes it.
#[verifier::external_body]
pub(crate) fn decimal_to_string(mantissa: i128, scale: u32) -> (res: String)
    ensures
        res@ == decimal_text(mantissa, scale),
{
    match rust_decimal::Decimal::try_from_i128_with_scale(mantissa, scale) {
        Ok(d) => d.to_string(),
        Err(_) => String::new(),
    }
}

/// What `jiff::civil::Date::from_str` makes of a text: `Some((year, month, day))`
/// of the date it parses, `None` where it reports an error.
pub uninterp spec fn civil_date_of(text: Seq<char>) -> Option<(i16, i8, i8)>;

/// Parses a date literal with `jiff::civil::Date::from_str`.
///
/// Claimed: the result is `civil_date_of` of the text.
#[verifier::external_body]
pub(crate) fn parse_civil_date(text: &str) -> (res: Option<(i16, i8, i8)>)
    ensures
        res == civil_date_of(text@),
{
    match jiff::civil::Date::from_str(text) {
        Ok(d) => Some((d.year(), d.month(), d.day())),
        Err(_) => None,
    }
}

/// What `jiff::Timestamp::from_str` makes of a text: `Some((second, nanosecond))`
/// (`Timestamp::as_second`, `Timestamp::subsec_nanosecond`), `None` where it reports an error.
pub uninterp spec fn timestamp_of(text: Seq<char>) -> Option<(i64, i32)>;

/// Parses a timestamp literal with `jiff::Timestamp::from_str`.
///
/// Claimed: the result is `timestamp_of` of the text.
#[verifier::external_body]
pub(crate) fn parse_timestamp(text: &str) -> (res: Option<(i64, i32)>)
    ensures
        res == timestamp_of(text@),
{
    match jiff::Timestamp::from_str(text) {
        Ok(t) => Some((t.as_second(), t.subsec_nanosecond())),
        Err(_) => None,
    }
}

/// Whether `year` is a leap year of the proleptic Gregorian calendar.
pub open spec fn leap_year(year: int) -> bool {
    year % 4 == 0 && (year % 100 != 0 || year % 400 == 0)
}

/// The number of days of `month` in `year`.
pub open spec fn days_in_month(year: int, month: int) -> int {
    if month == 2 {
        if leap_year(year) { 29 } else { 28 }
    } else if month == 4 || month == 6 || month == 9 || month == 11 {
        30
    } else {
        31
    }
}

/// Whether `jiff::civil::Date::new` accepts the parts: a year in `-9999..=9999`, a
/// month in `1..=12`, a day of that month.
pub open spec fn valid_date(year: i16, month: i8, day: i8) -> bool {
    &&& -9999 <= year <= 9999
    &&& 1 <= month <= 12
    &&& 1 <= day <= days_in_month(year as int, month as int)
}

/// The text that `jiff::civil::Date`'s `Display` writes for the date of the parts,
/// `YYYY-MM-DD` (a negative year as `-00` and four digits); empty where
/// `jiff::civil::Date::new` refuses the parts.
pub open spec fn civil_date_text(year: i16, month: i8, day: i8) -> Seq<char> {
    if valid_date(year, month, day) {
        (if year < 0 { "-00"@ } else { ""@ }) + padded(
            (if year < 0 { -year } else { year as int }) as nat,
            4,
        ) + "-"@ + padded(month as nat, 2) + "-"@ + padded(day as nat, 2)
    } else {
        Seq::empty()
    }
}

/// Formats a date with `jiff::civil::Date`'s `Display`.
///
/// Claimed: the result is `civil_date_text` of the parts, as jiff's `print_date_buf`
/// (`fmt/temporal/printer.rs`) writes it.
#[verifier::external_body]
pub(crate) fn civil_date_to_string(year: i16, month: i8, day: i8) -> (res: String)
    ensures
        res@ == civil_date_text(year, month, day),
{
    match jiff::civil::Date::new(year, month, day) {
        Ok(d) => d.to_string(),
        Err(_) => String::new(),
    }
}

/// The text that `jiff::Timestamp`'s `Display` writes for the instant built by
/// `jiff::Timestamp::new(second, nanosecond)` (empty where that refuses the parts).
pub uninterp spec fn timestamp_text(second: i64, nanosecond: i32) -> Seq<char>;

/// Formats an instant with `jiff::Timestamp`'s `Display`.
///
/// Claimed: the result is `timestamp_text` of the parts.
#[verifier::external_body]
pub(crate) fn timestamp_to_string(second: i64, nanosecond: i32) -> (res: String)
    ensures
        res@ == timestamp_text(second, nanosecond),
{
    match jiff::Timestamp::new(second, nanosecond) {
        Ok(t) => t.to_string(),
        Err(_) => String::new(),
    }
}

/// The report that `ariadne` renders, without colour, compact and with byte offsets,
/// for an error at bytes `start..end` of `source`, with `message` as its message and
/// as the message of its one label.
pub uninterp spec fn report_text(source: Seq<char>, start: usize, end: usize, message: Seq<char>) -> Seq<char>;

/// Renders an error report with `ariadne::Report`, written into a buffer and read
/// back as UTF-8 (lossily). Both ends of the span fall between characters of the
/// source, as ariadne slices the source's lines at them.
///
/// Claimed: the result is `report_text` of the arguments, and its first line is
/// `Error: ` and the message, as `Report::write_for_stream` writes it without colour.
#[verifier::external_body]
pub(crate) fn render_report(source: &str, start: usize, end: usize, message: &str) -> (res: String)
    requires
        start <= end <= source.spec_bytes().len(),
        exists|a: int| 0 <= a <= source@.len() && #[trigger] byte_len(source@, a) == start,
        exists|b: int| 0 <= b <= source@.len() && #[trigger] byte_len(source@, b) == end,
    ensures
        res@ == report_text(source@, start, end, message@),
        res@.len() >= message@.len() + 8,
        res@.take(message@.len() + 8int) == "Error: "@ + message@ + "\n"@,
{
    let config = ariadne::Config::new().with_color(false).with_compact(true).with_index_type(
        ariadne::IndexType::Byte,
    );
    let label = ariadne::Label::new(((), start..end)).with_message(message).with_color(
        ariadne::Color::Red,
    );
    let report = ariadne::Report::build(ariadne::ReportKind::Error, ((), start..end)).with_config(
        config,
    ).with_message(message).with_label(label).finish();
    let mut buffer: Vec<u8> = Vec::new();
    let _ = report.write(ariadne::Source::from(source), &mut buffer);
    String::from_utf8_lossy(&buffer).into_owned()
}

} // verus!
