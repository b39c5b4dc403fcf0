use stderrlog::Level;
use stderrlog::LevelFilter;
use stderrlog::StdErrLog;

#[test]
fn verbosity_count_maps_to_threshold() {
    let mut logger = StdErrLog::new();
    logger.verbosity(0);
    assert_eq!(logger.log_level_filter(), LevelFilter::Error);
    logger.verbosity(1);
    assert_eq!(logger.log_level_filter(), LevelFilter::Warn);
    logger.verbosity(2);
    assert_eq!(logger.log_level_filter(), LevelFilter::Info);
    logger.verbosity(3);
    assert_eq!(logger.log_level_filter(), LevelFilter::Debug);
    logger.verbosity(4);
    assert_eq!(logger.log_level_filter(), LevelFilter::Trace);
    logger.verbosity(250);
    assert_eq!(logger.log_level_filter(), LevelFilter::Trace);
}

#[test]
fn default_threshold_is_error() {
    let logger = stderrlog::new();
    assert_eq!(logger.log_level_filter(), LevelFilter::Error);
    assert!(logger.enabled(Level::Error, "main"));
    assert!(!logger.enabled(Level::Warn, "main"));
}

#[test]
fn quiet_silences_every_level() {
    let mut logger = StdErrLog::new();
    logger.verbosity(5);
    logger.quiet(true);
    assert_eq!(logger.log_level_filter(), LevelFilter::Off);
    assert!(!logger.enabled(Level::Error, "m"));
    assert!(!logger.enabled(Level::Warn, "m"));
    assert!(!logger.enabled(Level::Info, "m"));
    assert!(!logger.enabled(Level::Debug, "m"));
    assert!(!logger.enabled(Level::Trace, "m"));
    logger.quiet(false);
    assert_eq!(logger.log_level_filter(), LevelFilter::Trace);
    assert!(logger.enabled(Level::Trace, "m"));
}

#[test]
fn enabled_needs_level_and_module() {
    let mut logger = StdErrLog::new();
    logger.module("a::b::c");
    logger.verbosity(2);
    assert!(logger.enabled(Level::Info, "a::b::c::d"));
    assert!(!logger.enabled(Level::Info, "a::bad::c"));
    assert!(!logger.enabled(Level::Debug, "a::b::c"));
    assert!(!logger.enabled(Level::Error, "x::y"));
}

#[test]
fn clone_copies_configuration() {
    let mut logger = StdErrLog::new();
    logger.verbosity(3);
    logger.quiet(false);
    logger.module("a::b");
    let copy = logger.clone();
    assert_eq!(copy.log_level_filter(), LevelFilter::Debug);
    assert_eq!(copy.modules_len(), 1);
    assert!(copy.has_module("a::b"));
    assert!(copy.enabled(Level::Warn, "a::b::c"));
}

#[test]
fn default_matches_new() {
    let logger = StdErrLog::default();
    assert_eq!(logger.log_level_filter(), LevelFilter::Error);
    assert_eq!(logger.modules_len(), 0);
}
