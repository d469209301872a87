//! Calendar dates as plain values.
//!
//! A date is held as the instant it names, in whole seconds since the Unix
//! epoch, together with the offset from UTC under which it is shown.  The
//! calendar arithmetic itself is chrono's.
use vstd::prelude::*;
use crate::text::opt_bytes;

verus! {

/// Layout of the date column of an access log line.
pub const LOG_DATE_FORMAT: &'static str = "%d/%b/%Y:%H:%M:%S %z";

/// An instant and the offset from UTC, in seconds east, under which it is
/// rendered.
#[derive(Clone, Copy, Debug, PartialEq, Eq, Structural)]
pub struct DateValue {
    pub seconds: i64,
    pub offset: i32,
}

/// The instant that `text` names when read under the strftime layout
/// `format`, which must carry a numeric zone; `None` when `text` does not
/// follow the layout or is not UTF-8.
pub uninterp spec fn zoned_timestamp(text: Seq<u8>, format: Seq<char>) -> Option<i64>;

/// The text `YYYY-MM-DD HH:MM:SS +HH:MM` of the instant `seconds` as seen at
/// `offset` seconds east of UTC; `None` when either is outside the range of
/// the calendar.
pub uninterp spec fn date_text(seconds: i64, offset: i32) -> Option<Seq<u8>>;

/// `chrono::DateTime::parse_from_str` followed by `DateTime::timestamp`:
/// the result is a function of the two texts alone, named `zoned_timestamp`.
/// Text that is not UTF-8 yields `None`.
#[verifier::external_body]
pub(crate) fn parse_zoned(text: &[u8], format: &str) -> (r: Option<i64>)
    ensures
        r == zoned_timestamp(text@, format@),
{
    let s = std::str::from_utf8(text).ok()?;
    chrono::DateTime::parse_from_str(s, format).ok().map(|d| d.timestamp())
}

/// `TimeZone::datetime_from_str` on `chrono::Local`: reads `text`, which
/// carries no zone, as a time of day in the zone of the machine.  The answer
/// depends on that zone, so nothing is claimed of it.
#[verifier::external_body]
#[allow(deprecated)]
pub(crate) fn parse_local(text: &[u8], format: &str) -> (r: Option<i64>) {
    let s = std::str::from_utf8(text).ok()?;
    chrono::TimeZone::datetime_from_str(&chrono::Local, s, format).ok().map(|d| d.timestamp())
}

/// `DateTime::with_timezone(&Local)`: the offset from UTC, in seconds east,
/// that the zone of the machine has at the instant `seconds`.  The answer
/// depends on that zone, so nothing is claimed of it.
#[verifier::external_body]
pub(crate) fn local_offset(seconds: i64) -> (r: Option<i32>) {
    let utc = chrono::DateTime::from_timestamp(seconds, 0)?;
    Some(utc.with_timezone(&chrono::Local).offset().local_minus_utc())
}

/// `to_string` of a `chrono::DateTime<FixedOffset>`: the instant `seconds`
/// shown at `offset` seconds east of UTC.  The result is a function of the
/// two numbers alone, named `date_text`.
#[verifier::external_body]
pub(crate) fn render_date(seconds: i64, offset: i32) -> (r: Option<Vec<u8>>)
    ensures
        opt_bytes(r) == date_text(seconds, offset),
{
    let zone = chrono::FixedOffset::east_opt(offset)?;
    let utc = chrono::DateTime::from_timestamp(seconds, 0)?;
    Some(utc.with_timezone(&zone).to_string().into_bytes())
}

} // verus!
