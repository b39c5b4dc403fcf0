use stderrlog::level_name;
use stderrlog::render_line;
use stderrlog::timestamp_pattern;
use stderrlog::ColorMode;
use stderrlog::Level;
use stderrlog::StdErrLog;
use stderrlog::Timestamp;

#[test]
fn level_names_are_uppercase() {
    assert_eq!(level_name(Level::Error), "ERROR");
    assert_eq!(level_name(Level::Warn), "WARN");
    assert_eq!(level_name(Level::Info), "INFO");
    assert_eq!(level_name(Level::Debug), "DEBUG");
    assert_eq!(level_name(Level::Trace), "TRACE");
}

#[test]
fn timestamp_patterns_are_fixed() {
    assert_eq!(timestamp_pattern(Timestamp::Off), None);
    assert_eq!(timestamp_pattern(Timestamp::Second), Some("%Y-%m-%dT%H:%M:%S%:z"));
    assert_eq!(
        timestamp_pattern(Timestamp::Microsecond),
        Some("%Y-%m-%dT%H:%M:%S%.6f%:z")
    );
    assert_eq!(
        timestamp_pattern(Timestamp::Nanosecond),
        Some("%Y-%m-%dT%H:%M:%S%.9f%:z")
    );
}

#[test]
fn warn_line_with_second_timestamp() {
    let stamp = String::from("2016-02-13T20:04:05+01:00");
    let line = render_line(&Some(stamp), Level::Warn, "disk low");
    assert_eq!(line, "2016-02-13T20:04:05+01:00 - WARN - disk low\n");
}

#[test]
fn line_without_timestamp() {
    let line = render_line(&None, Level::Error, "boom");
    assert_eq!(line, "ERROR - boom\n");
}

#[test]
fn emit_writes_without_failing() {
    let mut logger = StdErrLog::new();
    logger.verbosity(2);
    logger.timestamp(Timestamp::Second);
    logger.color(ColorMode::Never);
    logger.module("emit_test");
    logger.log(Level::Info, "emit_test::child", "an enabled record");
    logger.log(Level::Debug, "emit_test", "a record below the threshold");
    logger.log(Level::Info, "elsewhere", "a record outside the modules");
    logger.timestamp(Timestamp::Nanosecond);
    logger.log(Level::Warn, "emit_test", "a nanosecond-stamped record");
    logger.timestamp(Timestamp::Microsecond);
    logger.log(Level::Error, "emit_test", "a microsecond-stamped record");
}
