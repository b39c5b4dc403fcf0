use vstd::prelude::*;
use vstd::string::StringExecFns;

use crate::level::Level;
use crate::level::Timestamp;

verus! {

/// The uppercase name of a level as it appears in an emitted line.
pub open spec fn spec_level_name(level: Level) -> Seq<char> {
    match level {
        Level::Error => "ERROR"@,
        Level::Warn => "WARN"@,
        Level::Info => "INFO"@,
        Level::Debug => "DEBUG"@,
        Level::Trace => "TRACE"@,
    }
}

/// Executable form of `spec_level_name`.
pub fn level_name(level: Level) -> (r: &'static str)
    ensures
        r@ == spec_level_name(level),
{
    match level {
        Level::Error => "ERROR",
        Level::Warn => "WARN",
        Level::Info => "INFO",
        Level::Debug => "DEBUG",
        Level::Trace => "TRACE",
    }
}

/// The fixed local-time pattern of each timestamp mode, `None` when
/// timestamping is off. The patterns are fixed so that emitted lines stay
/// machine-readable.
pub open spec fn spec_timestamp_pattern(t: Timestamp) -> Option<Seq<char>> {
    match t {
        Timestamp::Off => None,
        Timestamp::Second => Some("%Y-%m-%dT%H:%M:%S%:z"@),
        Timestamp::Microsecond => Some("%Y-%m-%dT%H:%M:%S%.6f%:z"@),
        Timestamp::Nanosecond => Some("%Y-%m-%dT%H:%M:%S%.9f%:z"@),
    }
}

/// Executable form of `spec_timestamp_pattern`.
pub fn timestamp_pattern(t: Timestamp) -> (r: Option<&'static str>)
    ensures
        r.deep_view() == spec_timestamp_pattern(t),
{
    match t {
        Timestamp::Off => None,
        Timestamp::Second => Some("%Y-%m-%dT%H:%M:%S%:z"),
        Timestamp::Microsecond => Some("%Y-%m-%dT%H:%M:%S%.6f%:z"),
        Timestamp::Nanosecond => Some("%Y-%m-%dT%H:%M:%S%.9f%:z"),
    }
}

/// A whole emitted line: the optional timestamp, then the level name and
/// the message, joined by " - " and ended by a line break.
pub open spec fn spec_line(prefix: Option<Seq<char>>, level: Level, message: Seq<char>) -> Seq<
    char,
> {
    let head = match prefix {
        Some(t) => t + " - "@,
        None => Seq::<char>::empty(),
    };
    head + spec_level_name(level) + " - "@ + message + "\n"@
}

/// Render one record into the line that is written for it.
pub fn render_line(prefix: &Option<String>, level: Level, message: &str) -> (line: String)
    ensures
        line@ == spec_line(prefix.deep_view(), level, message@),
{
    let mut line = String::new();
    match prefix {
        Some(t) => {
            line.append(t.as_str());
            line.append(" - ");
        },
        None => {},
    }
    line.append(level_name(level));
    line.append(" - ");
    line.append(message);
    line.append("\n");
    proof {
        assert(line@ =~= spec_line(prefix.deep_view(), level, message@));
    }
    line
}

} // verus!
