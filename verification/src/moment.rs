//! Points in time. What `chrono` reads and writes of them is taken on trust.
use crate::number::padded;
use chrono::{DateTime, NaiveDateTime};
use vstd::prelude::*;

verus! {

/// A point in time: whole seconds since the beginning of 1970 in UTC, and
/// nanoseconds behind them. In a leap second, which is counted to the second
/// before it, there are a thousand million of them more.
#[derive(Debug, Clone, Copy, PartialEq, Eq, Structural)]
pub struct Moment {
    pub seconds: i64,
    pub nanos: u32,
}

/// Whether a point in time is one that `chrono` can tell the date of.
pub open spec fn is_moment(m: Moment) -> bool {
    &&& -8334601228800 <= m.seconds <= 8210266876799
    &&& m.nanos < 2000000000
    &&& m.nanos >= 1000000000 ==> m.seconds as int % 60 == 59
}

/// Whether one point in time is not later than another.
pub open spec fn not_later(a: Moment, b: Moment) -> bool {
    a.seconds < b.seconds || (a.seconds == b.seconds && a.nanos <= b.nanos)
}

impl Moment {
    /// Whether this point in time is not later than another.
    pub fn is_not_later(&self, other: &Moment) -> (b: bool)
        ensures
            b == not_later(*self, *other),
    {
        self.seconds < other.seconds || (self.seconds == other.seconds && self.nanos <= other.nanos)
    }
}

/// The seconds and nanoseconds of a point in time, if there is one.
pub open spec fn parts(m: Option<Moment>) -> Option<(i64, u32)> {
    match m {
        Some(m) => Some((m.seconds, m.nanos)),
        None => None,
    }
}

/// Whether a point in time, if there is one, is one that `chrono` can tell the
/// date of.
pub open spec fn is_moment_if_any(m: Option<Moment>) -> bool {
    m matches Some(m) ==> is_moment(m)
}

/// The point in time that an RFC 3339 text gives, if it is one.
pub uninterp spec fn rfc3339_parts(text: Seq<char>) -> Option<(i64, u32)>;

/// `DateTime::parse_from_rfc3339` reads an RFC 3339 text. Whether it does, and
/// which point in time it gives, depends on the text alone.
#[verifier::external_body]
pub(crate) fn parse_rfc3339(text: &str) -> (m: Option<Moment>)
    ensures
        parts(m) == rfc3339_parts(text@),
        is_moment_if_any(m),
{
    match DateTime::parse_from_rfc3339(text) {
        Ok(t) => Some(Moment { seconds: t.timestamp(), nanos: t.timestamp_subsec_nanos() }),
        Err(_) => None,
    }
}

/// The point in time that a text without a time zone gives in a format, taken
/// as UTC.
pub uninterp spec fn naive_parts(text: Seq<char>, format: Seq<char>) -> Option<(i64, u32)>;

/// `NaiveDateTime::parse_from_str` reads a text without a time zone in a given
/// format. Whether it does, and which point in time it gives, depends on the
/// two alone.
#[verifier::external_body]
pub(crate) fn parse_naive(text: &str, format: &str) -> (m: Option<Moment>)
    ensures
        parts(m) == naive_parts(text@, format@),
        is_moment_if_any(m),
{
    match NaiveDateTime::parse_from_str(text, format) {
        Ok(t) => Some(Moment { seconds: t.and_utc().timestamp(), nanos: t.and_utc().timestamp_subsec_nanos() }),
        Err(_) => None,
    }
}

/// The time of day in hours and minutes, two digits each.
pub open spec fn clock_text(m: Moment) -> Seq<char> {
    let second = m.seconds as int % 86400;
    padded((second / 3600) as nat, 2) + ":"@ + padded((second % 3600 / 60) as nat, 2)
}

/// Whether a format is one of those in which points in time are told.
pub open spec fn is_known_format(format: Seq<char>) -> bool {
    ||| format == "%H:%M"@
    ||| format == "%Y-%m-%d"@
    ||| format == "%Y-%m-%d %H:%M UTC"@
}

/// The text of a point in time in a format.
pub uninterp spec fn formatted(seconds: i64, nanos: u32, format: Seq<char>) -> Seq<char>;

/// `DateTime::format` tells a point in time in a format. The text depends on
/// the two alone; in the format `%H:%M` it is the time of day. Formats that
/// are not understood make it panic, so only known ones are admitted.
#[verifier::external_body]
pub(crate) fn format_moment(m: Moment, format: &str) -> (text: String)
    requires
        is_moment(m),
        is_known_format(format@),
    ensures
        text@ == formatted(m.seconds, m.nanos, format@),
        format@ == "%H:%M"@ ==> text@ == clock_text(m),
{
    DateTime::from_timestamp(m.seconds, m.nanos).unwrap_or_default().format(format).to_string()
}

/// The RFC 3339 text of a point in time in UTC.
pub uninterp spec fn rfc3339_text(seconds: i64, nanos: u32) -> Seq<char>;

/// `DateTime::to_rfc3339` tells a point in time in RFC 3339. The text depends on
/// the point in time alone.
#[verifier::external_body]
pub(crate) fn moment_to_rfc3339(m: Moment) -> (text: String)
    requires
        is_moment(m),
    ensures
        text@ == rfc3339_text(m.seconds, m.nanos),
{
    DateTime::from_timestamp(m.seconds, m.nanos).unwrap_or_default().to_rfc3339()
}

} // verus!
