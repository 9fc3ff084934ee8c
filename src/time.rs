//! Instants in UTC, read from and written as text.

use vstd::prelude::*;
use crate::error::{ParseError, StructureFault};

verus! {

/// The instant that an RFC 3339 date and time names, as seconds since the
/// Unix epoch and nanoseconds past that second; none where the text is not
/// one.
pub uninterp spec fn rfc3339_instant(s: Seq<char>) -> Option<(i64, u32)>;

/// Relies on chrono's `DateTime::parse_from_rfc3339`: whether the text is an
/// RFC 3339 date and time, and which instant it names, depend on the text
/// alone. The instant is read back from the parsed value by `timestamp` and
/// `timestamp_subsec_nanos`, which `DateTime::<Utc>::from_timestamp` takes
/// back without loss, so the instant has a UTC text.
#[verifier::external_body]
fn parse_rfc3339(s: &str) -> (r: Option<(i64, u32)>)
    ensures
        r == rfc3339_instant(s@),
        r matches Some((seconds, nanos)) ==> utc_text(seconds, nanos) is Some,
{
    match chrono::DateTime::parse_from_rfc3339(s) {
        Ok(d) => Some((d.timestamp(), d.timestamp_subsec_nanos())),
        Err(_) => None,
    }
}

/// How an instant is written in UTC, as `2015-05-15 00:00:00 UTC`; none for
/// seconds or nanoseconds out of range.
pub uninterp spec fn utc_text(seconds: i64, nanos: u32) -> Option<Seq<char>>;

/// Relies on chrono's `DateTime::<Utc>::from_timestamp` and the `Display` of
/// `DateTime<Utc>`: whether the instant exists, and its text, depend on the
/// seconds and nanoseconds alone.
#[verifier::external_body]
fn format_utc(seconds: i64, nanos: u32) -> (r: Option<String>)
    ensures
        match r {
            Some(t) => utc_text(seconds, nanos) == Some(t@),
            None => utc_text(seconds, nanos) is None,
        },
{
    match chrono::DateTime::<chrono::Utc>::from_timestamp(seconds, nanos) {
        Some(d) => Some(d.to_string()),
        None => None,
    }
}

/// An instant in UTC.
#[derive(Clone, Copy, Debug, PartialEq, Eq, Structural)]
pub struct Timestamp {
    pub seconds: i64,
    pub nanos: u32,
}

/// The timestamp for an instant read from text, or the error for text that
/// names none.
pub open spec fn timestamp_from(instant: Option<(i64, u32)>) -> Result<Timestamp, ParseError> {
    match instant {
        Some((seconds, nanos)) => Ok(Timestamp { seconds, nanos }),
        None => Err(ParseError::StructureViolation(StructureFault::MalformedTimestamp)),
    }
}

/// The UTC text of a timestamp; empty for an instant that has none.
pub open spec fn timestamp_text(t: Timestamp) -> Seq<char> {
    match utc_text(t.seconds, t.nanos) {
        Some(text) => text,
        None => Seq::empty(),
    }
}

impl Timestamp {
    /// The instant is one that chrono can write in UTC, as every instant
    /// read from RFC 3339 text is.
    pub open spec fn wf(self) -> bool {
        utc_text(self.seconds, self.nanos) is Some
    }

    /// The instant in UTC, as `2015-05-15 00:00:00 UTC`; empty for an
    /// instant out of chrono's range, which no RFC 3339 text names.
    pub fn to_text(&self) -> (r: String)
        ensures
            r@ == timestamp_text(*self),
    {
        match format_utc(self.seconds, self.nanos) {
            Some(t) => t,
            None => String::new(),
        }
    }

    /// Reads a strict RFC 3339 date and time, such as `2023-05-01T12:00:00Z`.
    pub fn parse(s: &str) -> (r: Result<Timestamp, ParseError>)
        ensures
            r == timestamp_from(rfc3339_instant(s@)),
            r matches Ok(t) ==> t.wf(),
    {
        Self::from_instant(parse_rfc3339(s))
    }

    /// The timestamp for an instant read from RFC 3339 text, or the error
    /// for text that named none.
    pub fn from_instant(instant: Option<(i64, u32)>) -> (r: Result<Timestamp, ParseError>)
        ensures
            r == timestamp_from(instant),
    {
        match instant {
            Some((seconds, nanos)) => Ok(Timestamp { seconds, nanos }),
            None => Err(ParseError::StructureViolation(StructureFault::MalformedTimestamp)),
        }
    }
}

} // verus!
