//! Timestamps and host names found in proxy and application log lines.

use vstd::prelude::*;
use crate::patterns::{regex_compiles, regex_group, Pattern};
use crate::text::{replace_all, replace_str};
use crate::time::{
    naive_utc_parse, offset_parse, parse_naive_utc, parse_rfc3339, parse_with_offset,
    rfc3339_parse, utc_exists, UtcTime,
};

verus! {

/// Zoraxy writes `[YYYY-MM-DD hh:mm:ss(.fff)]`.
pub const ZORAXY_PATTERN: &'static str = "\\[(\\d{4}-\\d{2}-\\d{2} \\d{2}:\\d{2}:\\d{2}(?:\\.\\d+)?)\\]";

pub const ZORAXY_FORMAT: &'static str = "%Y-%m-%d %H:%M:%S%.f";

/// An ISO 8601 / RFC 3339 timestamp, with `T` or a space between date and time.
pub const ISO_PATTERN: &'static str = "(\\d{4}-\\d{2}-\\d{2}[T\\s]\\d{2}:\\d{2}:\\d{2}(?:\\.\\d+)?(?:Z|[+-]\\d{2}:?\\d{2})?)";

/// The Apache common log format timestamp.
pub const APACHE_PATTERN: &'static str = "(\\d{2}/[A-Za-z]{3}/\\d{4}:\\d{2}:\\d{2}:\\d{2} [+-]\\d{4})";

pub const APACHE_FORMAT: &'static str = "%d/%b/%Y:%H:%M:%S %z";

/// `host=NAME` or `origin:NAME` in a proxy log line.
pub const HOST_PATTERN: &'static str = "\\bhost=([^\\s]+)|\\borigin:([^\\s\\]]+)";

/// Whether `regex` accepts each of the four expressions.
pub open spec fn patterns_compile() -> bool {
    &&& regex_compiles(ZORAXY_PATTERN@)
    &&& regex_compiles(ISO_PATTERN@)
    &&& regex_compiles(APACHE_PATTERN@)
    &&& regex_compiles(HOST_PATTERN@)
}

/// The compiled expressions that log lines are read with.
pub struct LogPatterns {
    zoraxy: Pattern,
    iso: Pattern,
    apache: Pattern,
    host: Pattern,
}

impl LogPatterns {
    #[verifier::type_invariant]
    spec fn inv(self) -> bool {
        &&& self.zoraxy.source() == ZORAXY_PATTERN@
        &&& self.iso.source() == ISO_PATTERN@
        &&& self.apache.source() == APACHE_PATTERN@
        &&& self.host.source() == HOST_PATTERN@
    }

    /// Compiles the expressions; `None` if one of them is refused.
    pub fn new() -> (r: Option<LogPatterns>)
        ensures
            r is Some <==> patterns_compile(),
    {
        let zoraxy = Pattern::compile(ZORAXY_PATTERN)?;
        let iso = Pattern::compile(ISO_PATTERN)?;
        let apache = Pattern::compile(APACHE_PATTERN)?;
        let host = Pattern::compile(HOST_PATTERN)?;
        Some(LogPatterns { zoraxy, iso, apache, host })
    }
}

/// The timestamp read from the Apache-style expression.
pub open spec fn apache_timestamp(line: Seq<char>) -> Option<(i64, u32)> {
    match regex_group(APACHE_PATTERN@, line, 1) {
        Some(Some(raw)) => offset_parse(raw, APACHE_FORMAT@),
        _ => None,
    }
}

/// The timestamp read from the ISO expression, falling back to Apache.
pub open spec fn iso_timestamp(line: Seq<char>) -> Option<(i64, u32)> {
    match regex_group(ISO_PATTERN@, line, 1) {
        Some(Some(raw)) => match rfc3339_parse(replace_all(raw, " "@, "T"@)) {
            Some(t) => Some(t),
            None => apache_timestamp(line),
        },
        Some(None) => None,
        None => apache_timestamp(line),
    }
}

/// The timestamp of a log line: the Zoraxy form first, then ISO, then
/// Apache; where an expression matches but its date does not parse, the next
/// form is tried.
pub open spec fn line_timestamp(line: Seq<char>) -> Option<(i64, u32)> {
    match regex_group(ZORAXY_PATTERN@, line, 1) {
        Some(Some(raw)) => match naive_utc_parse(raw, ZORAXY_FORMAT@) {
            Some(t) => Some(t),
            None => iso_timestamp(line),
        },
        Some(None) => None,
        None => iso_timestamp(line),
    }
}

/// The host named in a log line.
pub open spec fn line_host(line: Seq<char>) -> Option<Seq<char>> {
    match regex_group(HOST_PATTERN@, line, 1) {
        Some(Some(h)) => Some(h),
        Some(None) => match regex_group(HOST_PATTERN@, line, 2) {
            Some(Some(h)) => Some(h),
            _ => None,
        },
        None => None,
    }
}

/// The pair of an optional instant.
pub open spec fn time_pair(t: Option<UtcTime>) -> Option<(i64, u32)> {
    match t {
        Some(x) => Some((x.secs, x.nanos)),
        None => None,
    }
}

/// What one timestamp form gives for a line.
pub enum FormStep {
    /// The form's date: the line's timestamp.
    Found(UtcTime),
    /// The form matched without its date: the line has no timestamp.
    NoTimestamp,
    /// The form did not match, or its date did not parse: the next form is
    /// tried.
    TryNext,
}

/// How a form's reading decides: `None` where its expression did not
/// match, `Some(None)` where it matched without the date group, otherwise
/// the date parsed from the group (`None` where it did not parse).
pub open spec fn step_of(reading: Option<Option<Option<UtcTime>>>) -> FormStep {
    match reading {
        Some(Some(Some(t))) => FormStep::Found(t),
        Some(None) => FormStep::NoTimestamp,
        _ => FormStep::TryNext,
    }
}

/// Decides what one timestamp form gives, from its reading (see `step_of`).
pub fn timestamp_step(reading: Option<Option<Option<UtcTime>>>) -> (r: FormStep)
    ensures
        r == step_of(reading),
{
    match reading {
        Some(Some(Some(t))) => FormStep::Found(t),
        Some(None) => FormStep::NoTimestamp,
        _ => FormStep::TryNext,
    }
}

/// The host of a line from the two groups of the host expression: the
/// `host=` group where it took part in the match, else the `origin:` group.
pub fn host_from_groups(host_group: Option<String>, origin_group: Option<String>) -> (r: Option<String>)
    ensures
        r == (if host_group is Some {
            host_group
        } else {
            origin_group
        }),
{
    match host_group {
        Some(h) => Some(h),
        None => origin_group,
    }
}

fn apache_timestamp_of(p: &LogPatterns, line: &str) -> (r: Option<UtcTime>)
    ensures
        time_pair(r) == apache_timestamp(line@),
        r matches Some(t) ==> utc_exists(t.secs, t.nanos),
{
    proof {
        use_type_invariant(p);
    }
    let reading = match p.apache.capture_group(line, 1) {
        Some(Some(raw)) => Some(Some(parse_with_offset(raw.as_str(), APACHE_FORMAT))),
        Some(None) => Some(None),
        None => None,
    };
    match timestamp_step(reading) {
        FormStep::Found(t) => Some(t),
        _ => None,
    }
}

fn iso_timestamp_of(p: &LogPatterns, line: &str) -> (r: Option<UtcTime>)
    ensures
        time_pair(r) == iso_timestamp(line@),
        r matches Some(t) ==> utc_exists(t.secs, t.nanos),
{
    proof {
        use_type_invariant(p);
        reveal_strlit(" ");
    }
    let reading = match p.iso.capture_group(line, 1) {
        Some(Some(raw)) => {
            let t = replace_str(raw.as_str(), " ", "T");
            Some(Some(parse_rfc3339(t.as_str())))
        },
        Some(None) => Some(None),
        None => None,
    };
    match timestamp_step(reading) {
        FormStep::Found(t) => Some(t),
        FormStep::NoTimestamp => None,
        FormStep::TryNext => apache_timestamp_of(p, line),
    }
}

/// Reads the timestamp of a log line.
pub fn parse_line_timestamp(p: &LogPatterns, line: &str) -> (r: Option<UtcTime>)
    ensures
        time_pair(r) == line_timestamp(line@),
        r matches Some(t) ==> utc_exists(t.secs, t.nanos),
{
    proof {
        use_type_invariant(p);
    }
    let reading = match p.zoraxy.capture_group(line, 1) {
        Some(Some(raw)) => Some(Some(parse_naive_utc(raw.as_str(), ZORAXY_FORMAT))),
        Some(None) => Some(None),
        None => None,
    };
    match timestamp_step(reading) {
        FormStep::Found(t) => Some(t),
        FormStep::NoTimestamp => None,
        FormStep::TryNext => iso_timestamp_of(p, line),
    }
}

/// Reads the host named in a log line.
pub fn parse_host(p: &LogPatterns, line: &str) -> (r: Option<String>)
    ensures
        match r {
            Some(h) => line_host(line@) == Some(h@),
            None => line_host(line@) is None,
        },
{
    proof {
        use_type_invariant(p);
    }
    match p.host.capture_group(line, 1) {
        Some(host_group) => {
            let origin_group = match &host_group {
                Some(_) => None,
                None => match p.host.capture_group(line, 2) {
                    Some(g) => g,
                    None => None,
                },
            };
            host_from_groups(host_group, origin_group)
        },
        None => None,
    }
}

} // verus!
