//! Instants as the database stores them, and their text forms.

use vstd::prelude::*;
use chrono::TimeZone;

verus! {

/// An instant with its UTC offset: seconds since the Unix epoch, nanoseconds within the
/// second, and the offset east of UTC in seconds.
#[derive(Debug, Clone, Copy, PartialEq, Eq, Structural)]
pub struct Timestamp {
    pub seconds: i64,
    pub nanos: u32,
    pub offset_seconds: i32,
}

/// The `Display` text of the `chrono::DateTime<FixedOffset>` with these parts, when they form
/// one.
pub uninterp spec fn timestamp_text(seconds: i64, nanos: u32, offset_seconds: i32) -> Option<Seq<char>>;

/// The `%Y-%m-%d` text (local date) of the `chrono::DateTime<FixedOffset>` with these parts,
/// when they form one.
pub uninterp spec fn timestamp_date(seconds: i64, nanos: u32, offset_seconds: i32) -> Option<Seq<char>>;

/// Trusted: builds the `chrono::DateTime<FixedOffset>` (`FixedOffset::east_opt`, then
/// `timestamp_opt(..).single()`) and takes its `Display` text; the contract names it.
#[verifier::external_body]
fn display_parts(seconds: i64, nanos: u32, offset_seconds: i32) -> (r: Option<String>)
    ensures
        match r {
            Some(s) => timestamp_text(seconds, nanos, offset_seconds) == Some(s@),
            None => timestamp_text(seconds, nanos, offset_seconds) is None,
        },
{
    chrono::FixedOffset::east_opt(offset_seconds).and_then(|o| o.timestamp_opt(seconds, nanos).single()).map(
        |d| d.to_string(),
    )
}

/// Trusted: builds the `chrono::DateTime<FixedOffset>` as above and formats it with
/// `%Y-%m-%d`; the contract names the text.
#[verifier::external_body]
fn date_parts(seconds: i64, nanos: u32, offset_seconds: i32) -> (r: Option<String>)
    ensures
        match r {
            Some(s) => timestamp_date(seconds, nanos, offset_seconds) == Some(s@),
            None => timestamp_date(seconds, nanos, offset_seconds) is None,
        },
{
    chrono::FixedOffset::east_opt(offset_seconds).and_then(|o| o.timestamp_opt(seconds, nanos).single()).map(
        |d| d.format("%Y-%m-%d").to_string(),
    )
}

pub open spec fn text_of_time(t: Timestamp) -> Seq<char> {
    match timestamp_text(t.seconds, t.nanos, t.offset_seconds) {
        Some(s) => s,
        None => seq![],
    }
}

pub open spec fn date_of_time(t: Timestamp) -> Seq<char> {
    match timestamp_date(t.seconds, t.nanos, t.offset_seconds) {
        Some(s) => s,
        None => seq![],
    }
}

impl Timestamp {
    /// The instant as `DateTime<FixedOffset>` displays it (empty if the parts form none).
    pub fn display(&self) -> (r: String)
        ensures
            r@ == text_of_time(*self),
    {
        match display_parts(self.seconds, self.nanos, self.offset_seconds) {
            Some(s) => s,
            None => String::new(),
        }
    }

    /// The local calendar date, `YYYY-MM-DD` (empty if the parts form no instant).
    pub fn date(&self) -> (r: String)
        ensures
            r@ == date_of_time(*self),
    {
        match date_parts(self.seconds, self.nanos, self.offset_seconds) {
            Some(s) => s,
            None => String::new(),
        }
    }
}

} // verus!
