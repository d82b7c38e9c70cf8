//! Instants in UTC and the `chrono` calls that parse and print them.

use vstd::prelude::*;

verus! {

/// An instant: whole seconds since the Unix epoch and the nanoseconds past
/// that second (above one billion during a leap second), as `chrono` keeps
/// them.
pub struct UtcTime {
    pub secs: i64,
    pub nanos: u32,
}

impl UtcTime {
    /// `self` is strictly earlier than `other` (the order `chrono` uses).
    pub open spec fn earlier(self, other: UtcTime) -> bool {
        self.secs < other.secs || (self.secs == other.secs && self.nanos < other.nanos)
    }

    pub fn is_before(&self, other: &UtcTime) -> (r: bool)
        ensures
            r == self.earlier(*other),
    {
        self.secs < other.secs || (self.secs == other.secs && self.nanos < other.nanos)
    }

    /// Milliseconds since the epoch, as `DateTime::timestamp_millis` counts
    /// them (seconds times 1000 plus the whole milliseconds of the fraction).
    pub open spec fn millis(self) -> int {
        self.secs * 1000 + self.nanos / 1_000_000
    }

    pub fn timestamp_millis(&self) -> (r: i64)
        requires
            i64::MIN <= self.secs * 1000,
            self.millis() <= i64::MAX,
        ensures
            r == self.millis(),
    {
        assert(self.nanos / 1_000_000 <= 4294) by (nonlinear_arith)
            requires
                self.nanos <= u32::MAX,
        ;
        let ms = (self.nanos / 1_000_000) as i64;
        self.secs * 1000 + ms
    }

    pub fn copy(&self) -> (r: UtcTime)
        ensures
            r == *self,
    {
        UtcTime { secs: self.secs, nanos: self.nanos }
    }
}

/// What `NaiveDateTime::parse_from_str(text, fmt)`, read as UTC, gives as
/// (seconds, nanoseconds).
pub uninterp spec fn naive_utc_parse(text: Seq<char>, fmt: Seq<char>) -> Option<(i64, u32)>;

/// What `DateTime::parse_from_rfc3339(text)` gives as (seconds, nanoseconds).
pub uninterp spec fn rfc3339_parse(text: Seq<char>) -> Option<(i64, u32)>;

/// What `DateTime::parse_from_str(text, fmt)` gives as (seconds, nanoseconds).
pub uninterp spec fn offset_parse(text: Seq<char>, fmt: Seq<char>) -> Option<(i64, u32)>;

/// Whether `DateTime::from_timestamp(secs, nanos)` gives an instant: the
/// day lies between January 1 of year -262143 and December 31 of 262142
/// (chrono's date range), and the nanoseconds are below two seconds, at or
/// above one second only in a second that ends in :59 (a leap second).
pub open spec fn utc_exists(secs: i64, nanos: u32) -> bool {
    &&& -8_334_601_315_200 <= secs <= 8_210_266_876_799
    &&& nanos < 2_000_000_000
    &&& (nanos < 1_000_000_000 || secs % 60 == 59)
}

/// The text that `DateTime<Utc>::format(fmt)` writes for an instant.
pub uninterp spec fn utc_formatted(secs: i64, nanos: u32, fmt: Seq<char>) -> Seq<char>;

/// The text that `DateTime<Utc>::to_rfc3339` writes for an instant.
pub uninterp spec fn utc_rfc3339(secs: i64, nanos: u32) -> Seq<char>;

/// The weekday of an instant in UTC, counted from Monday as 0: day 0 of
/// the epoch, January 1, 1970, was a Thursday.
pub open spec fn utc_weekday(secs: i64, nanos: u32) -> u32 {
    ((secs as int / 86_400 + 3) % 7) as u32
}

/// The format strings this library prints instants with.
pub open spec fn known_format(fmt: Seq<char>) -> bool {
    fmt == "%Y-%m-%dT%H:00:00Z"@ || fmt == "%b %d"@ || fmt == "%b %d, %Y"@ || fmt == "%Y-%m-%d"@
        || fmt == "%Y-%m"@
}

/// `NaiveDateTime::parse_from_str`, read as UTC. A parsed instant is one that
/// `DateTime::from_timestamp` gives back (as `chrono` documents).
#[verifier::external_body]
pub(crate) fn parse_naive_utc(text: &str, fmt: &str) -> (r: Option<UtcTime>)
    ensures
        match r {
            Some(t) => naive_utc_parse(text@, fmt@) == Some((t.secs, t.nanos)) && utc_exists(
                t.secs,
                t.nanos,
            ),
            None => naive_utc_parse(text@, fmt@) is None,
        },
{
    match chrono::NaiveDateTime::parse_from_str(text, fmt) {
        Ok(ts) => {
            let dt = ts.and_utc();
            Some(UtcTime { secs: dt.timestamp(), nanos: dt.timestamp_subsec_nanos() })
        },
        Err(_) => None,
    }
}

/// `DateTime::parse_from_rfc3339`, as an instant.
#[verifier::external_body]
pub(crate) fn parse_rfc3339(text: &str) -> (r: Option<UtcTime>)
    ensures
        match r {
            Some(t) => rfc3339_parse(text@) == Some((t.secs, t.nanos)) && utc_exists(
                t.secs,
                t.nanos,
            ),
            None => rfc3339_parse(text@) is None,
        },
{
    match chrono::DateTime::parse_from_rfc3339(text) {
        Ok(dt) => Some(UtcTime { secs: dt.timestamp(), nanos: dt.timestamp_subsec_nanos() }),
        Err(_) => None,
    }
}

/// `DateTime::parse_from_str` (a format with an offset), as an instant.
#[verifier::external_body]
pub(crate) fn parse_with_offset(text: &str, fmt: &str) -> (r: Option<UtcTime>)
    ensures
        match r {
            Some(t) => offset_parse(text@, fmt@) == Some((t.secs, t.nanos)) && utc_exists(
                t.secs,
                t.nanos,
            ),
            None => offset_parse(text@, fmt@) is None,
        },
{
    match chrono::DateTime::parse_from_str(text, fmt) {
        Ok(dt) => Some(UtcTime { secs: dt.timestamp(), nanos: dt.timestamp_subsec_nanos() }),
        Err(_) => None,
    }
}

/// `DateTime::from_timestamp` followed by `format(fmt)`; `None` where there
/// is no such instant.
#[verifier::external_body]
pub(crate) fn format_utc(t: &UtcTime, fmt: &str) -> (r: Option<String>)
    requires
        known_format(fmt@),
    ensures
        r is Some <==> utc_exists(t.secs, t.nanos),
        r matches Some(s) ==> s@ == utc_formatted(t.secs, t.nanos, fmt@),
{
    match chrono::DateTime::from_timestamp(t.secs, t.nanos) {
        Some(dt) => Some(dt.format(fmt).to_string()),
        None => None,
    }
}

/// `DateTime::from_timestamp` followed by `to_rfc3339`.
#[verifier::external_body]
pub(crate) fn rfc3339_of(t: &UtcTime) -> (r: Option<String>)
    ensures
        r is Some <==> utc_exists(t.secs, t.nanos),
        r matches Some(s) ==> s@ == utc_rfc3339(t.secs, t.nanos),
{
    match chrono::DateTime::from_timestamp(t.secs, t.nanos) {
        Some(dt) => Some(dt.to_rfc3339()),
        None => None,
    }
}

/// `DateTime::from_timestamp` followed by `weekday().num_days_from_monday()`.
#[verifier::external_body]
pub(crate) fn weekday_of(t: &UtcTime) -> (r: Option<u32>)
    ensures
        r is Some <==> utc_exists(t.secs, t.nanos),
        r matches Some(d) ==> d == utc_weekday(t.secs, t.nanos),
{
    match chrono::DateTime::from_timestamp(t.secs, t.nanos) {
        Some(dt) => Some(chrono::Datelike::weekday(&dt).num_days_from_monday()),
        None => None,
    }
}

} // verus!
