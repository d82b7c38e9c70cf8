//! Log-level selection for the service's plain logger.

use vstd::prelude::*;
use crate::text::{contains, contains_str, str_eq, str_to_lowercase, unicode_lowercase};

verus! {

/// A log level.
#[derive(Clone, Copy, PartialEq, Eq, Structural)]
pub enum Level {
    Error,
    Warn,
    Info,
    Debug,
}

/// The level that a `LOG_LEVEL` value selects: the lower-cased value is
/// searched for `debug`, then `warn`, then `error`; anything else is `Info`.
pub open spec fn configured_level(configured: Seq<char>) -> Level {
    let l = unicode_lowercase(configured);
    if contains(l, "debug"@) {
        Level::Debug
    } else if contains(l, "warn"@) {
        Level::Warn
    } else if contains(l, "error"@) {
        Level::Error
    } else {
        Level::Info
    }
}

pub fn level_from_config(configured: &str) -> (r: Level)
    ensures
        r == configured_level(configured@),
{
    let l = str_to_lowercase(configured);
    if contains_str(l.as_str(), "debug") {
        Level::Debug
    } else if contains_str(l.as_str(), "warn") {
        Level::Warn
    } else if contains_str(l.as_str(), "error") {
        Level::Error
    } else {
        Level::Info
    }
}

/// Which messages pass at the configured level: everything at `Debug`;
/// errors and information at `Info`; errors, warnings and information at
/// `Warn` and `Error`.
pub open spec fn passes(current: Level, level: Level) -> bool {
    match current {
        Level::Debug => true,
        Level::Info => level == Level::Error || level == Level::Info,
        _ => level == Level::Error || level == Level::Warn || level == Level::Info,
    }
}

/// Whether a message at `level` is written when the configured level is
/// `current`.
pub fn enabled(current: Level, level: Level) -> (r: bool)
    ensures
        r == passes(current, level),
{
    match current {
        Level::Debug => true,
        Level::Info => match level {
            Level::Error | Level::Info => true,
            _ => false,
        },
        _ => match level {
            Level::Error | Level::Warn | Level::Info => true,
            _ => false,
        },
    }
}

/// The level named by a message's tag: `ERROR`, `WARN`, `DEBUG`, and `Info`
/// for anything else.
pub open spec fn tag_level(tag: Seq<char>) -> Level {
    if tag == "ERROR"@ {
        Level::Error
    } else if tag == "WARN"@ {
        Level::Warn
    } else if tag == "DEBUG"@ {
        Level::Debug
    } else {
        Level::Info
    }
}

pub fn write_level(tag: &str) -> (r: Level)
    ensures
        r == tag_level(tag@),
{
    if str_eq(tag, "ERROR") {
        Level::Error
    } else if str_eq(tag, "WARN") {
        Level::Warn
    } else if str_eq(tag, "DEBUG") {
        Level::Debug
    } else {
        Level::Info
    }
}

/// Marks a value as used by a log statement; it has no effect.
pub fn touch<T>(_value: &T) {
}

/// Errors and information are written whatever the configured level.
pub proof fn errors_and_info_always_pass(current: Level)
    ensures
        passes(current, Level::Error),
        passes(current, Level::Info),
{
}

/// Debug messages are written only at the `Debug` level.
pub proof fn debug_only_at_debug(current: Level)
    ensures
        passes(current, Level::Debug) <==> current == Level::Debug,
{
}

/// The severity of a structured log event.
pub enum EventLevel {
    Error,
    Warn,
    Info,
    Debug,
    Trace,
}

/// The name and terminal colour an event is written with: red errors,
/// yellow warnings, green information, cyan debugging, magenta tracing.
pub fn level_style(level: EventLevel) -> (r: (&'static str, &'static str))
    ensures
        (r.0@, r.1@) == match level {
            EventLevel::Error => ("ERROR"@, "\x1b[31m"@),
            EventLevel::Warn => ("WARN"@, "\x1b[33m"@),
            EventLevel::Info => ("INFO"@, "\x1b[32m"@),
            EventLevel::Debug => ("DEBUG"@, "\x1b[36m"@),
            EventLevel::Trace => ("TRACE"@, "\x1b[35m"@),
        },
{
    match level {
        EventLevel::Error => ("ERROR", "\x1b[31m"),
        EventLevel::Warn => ("WARN", "\x1b[33m"),
        EventLevel::Info => ("INFO", "\x1b[32m"),
        EventLevel::Debug => ("DEBUG", "\x1b[36m"),
        EventLevel::Trace => ("TRACE", "\x1b[35m"),
    }
}

} // verus!
