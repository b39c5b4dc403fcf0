use vstd::prelude::*;

verus! {

/// Severity of a single log record, from most severe to most verbose.
#[derive(Clone, Copy, Debug, PartialEq, Eq, Structural)]
pub enum Level {
    Error,
    Warn,
    Info,
    Debug,
    Trace,
}

/// Threshold of the logger: the most verbose level that is still emitted.
/// `Off` silences every record.
#[derive(Clone, Copy, Debug, PartialEq, Eq, Structural)]
pub enum LevelFilter {
    Off,
    Error,
    Warn,
    Info,
    Debug,
    Trace,
}

/// State of the timestamping in the logger.
#[derive(Clone, Copy, Debug, PartialEq, Eq, Structural)]
pub enum Timestamp {
    /// Disable timestamping of log messages
    Off,
    /// Timestamp with second granularity
    Second,
    /// Timestamp with microsecond granularity
    Microsecond,
    /// Timestamp with nanosecond granularity
    Nanosecond,
}

/// Whether ANSI color codes are written around each record.
#[derive(Clone, Copy, Debug, PartialEq, Eq, Structural)]
pub enum ColorMode {
    /// Always color the output
    Always,
    /// Color the output only when the stream is a terminal
    Auto,
    /// Never color the output
    Never,
}

/// Foreground color of a record's line.
#[derive(Clone, Copy, Debug, PartialEq, Eq, Structural)]
pub enum LevelColor {
    Red,
    Magenta,
    Yellow,
    Cyan,
    Blue,
}

/// Rank of a level; a lower rank is more severe.
pub open spec fn level_num(level: Level) -> int {
    match level {
        Level::Error => 1,
        Level::Warn => 2,
        Level::Info => 3,
        Level::Debug => 4,
        Level::Trace => 5,
    }
}

/// Rank of a threshold; a record passes when its level's rank does not
/// exceed this.
pub open spec fn filter_num(filter: LevelFilter) -> int {
    match filter {
        LevelFilter::Off => 0,
        LevelFilter::Error => 1,
        LevelFilter::Warn => 2,
        LevelFilter::Info => 3,
        LevelFilter::Debug => 4,
        LevelFilter::Trace => 5,
    }
}

/// Does a record of severity `level` pass the threshold `filter`?
pub fn level_passes(level: Level, filter: LevelFilter) -> (r: bool)
    ensures
        r == (level_num(level) <= filter_num(filter)),
{
    let ln: u8 = match level {
        Level::Error => 1,
        Level::Warn => 2,
        Level::Info => 3,
        Level::Debug => 4,
        Level::Trace => 5,
    };
    let fv: u8 = match filter {
        LevelFilter::Off => 0,
        LevelFilter::Error => 1,
        LevelFilter::Warn => 2,
        LevelFilter::Info => 3,
        LevelFilter::Debug => 4,
        LevelFilter::Trace => 5,
    };
    ln <= fv
}

/// Threshold for a repeated verbosity-flag count: 0 enables errors only,
/// each further repetition enables one more level, saturating at `Trace`.
pub open spec fn filter_for_verbosity(count: nat) -> LevelFilter {
    if count == 0 {
        LevelFilter::Error
    } else if count == 1 {
        LevelFilter::Warn
    } else if count == 2 {
        LevelFilter::Info
    } else if count == 3 {
        LevelFilter::Debug
    } else {
        LevelFilter::Trace
    }
}

/// Executable form of `filter_for_verbosity`.
pub fn verbosity_filter(count: usize) -> (r: LevelFilter)
    ensures
        r == filter_for_verbosity(count as nat),
{
    match count {
        0 => LevelFilter::Error,
        1 => LevelFilter::Warn,
        2 => LevelFilter::Info,
        3 => LevelFilter::Debug,
        _ => LevelFilter::Trace,
    }
}

/// The color each level is rendered in.
pub open spec fn spec_level_color(level: Level) -> LevelColor {
    match level {
        Level::Error => LevelColor::Red,
        Level::Warn => LevelColor::Magenta,
        Level::Info => LevelColor::Yellow,
        Level::Debug => LevelColor::Cyan,
        Level::Trace => LevelColor::Blue,
    }
}

/// Executable form of `spec_level_color`.
pub fn level_color(level: Level) -> (r: LevelColor)
    ensures
        r == spec_level_color(level),
{
    match level {
        Level::Error => LevelColor::Red,
        Level::Warn => LevelColor::Magenta,
        Level::Info => LevelColor::Yellow,
        Level::Debug => LevelColor::Cyan,
        Level::Trace => LevelColor::Blue,
    }
}

} // verus!
