use stderrlog::is_submodule;
use stderrlog::new;
use stderrlog::StdErrLog;

#[test]
fn submodule() {
    assert!(is_submodule("a", "a::b::c::d"));
    assert!(is_submodule("a::b::c", "a::b::c::d"));
    assert!(is_submodule("a::b::c", "a::b::c"));
    assert!(!is_submodule("a::b::c", "a::bad::c"));
    assert!(!is_submodule("a::b::c", "a::b::cab"));
    assert!(!is_submodule("a::b::c", "a::b::cab::d"));
    assert!(!is_submodule("a::b::c", "a::b"));
    assert!(!is_submodule("a::b::c", "a::bad"));
}

#[test]
fn empty_set_includes_everything() {
    let logger = new();
    assert!(logger.includes_module("anything"));
    assert!(logger.includes_module("a::b::c"));
    assert!(logger.includes_module(""));
}

#[test]
fn includes_inserted_and_descendants() {
    let mut logger = StdErrLog::new();
    logger.module("a::b");
    logger.module("x");
    assert!(logger.includes_module("a::b"));
    assert!(logger.includes_module("a::b::c"));
    assert!(logger.includes_module("a::b::c::d"));
    assert!(logger.includes_module("x"));
    assert!(logger.includes_module("x::y"));
    assert!(!logger.includes_module("a"));
    assert!(!logger.includes_module("a::bad"));
    assert!(!logger.includes_module("a::bc"));
    assert!(!logger.includes_module("xx"));
    assert!(!logger.includes_module("zz"));
}

#[test]
fn insert_is_idempotent() {
    let mut logger = StdErrLog::new();
    logger.module("a::b");
    logger.module("a::b");
    assert_eq!(logger.modules_len(), 1);
    assert!(logger.has_module("a::b"));
}

#[test]
fn broader_prefix_absorbs_narrower() {
    let mut logger = StdErrLog::new();
    logger.module("a::b");
    logger.module("a");
    assert_eq!(logger.modules_len(), 1);
    assert!(logger.has_module("a"));
    assert!(!logger.has_module("a::b"));
    assert!(logger.includes_module("a::b"));
}

#[test]
fn narrower_prefix_is_not_added() {
    let mut logger = StdErrLog::new();
    logger.module("a");
    logger.module("a::b");
    assert_eq!(logger.modules_len(), 1);
    assert!(logger.has_module("a"));
    assert!(!logger.has_module("a::b"));
}

#[test]
fn modules_inserts_each() {
    let mut logger = StdErrLog::new();
    let wanted = vec![
        String::from("mod_b::sub"),
        String::from("mod_a"),
        String::from("mod_b"),
    ];
    logger.modules(&wanted);
    assert_eq!(logger.modules_len(), 2);
    assert!(logger.has_module("mod_a"));
    assert!(logger.has_module("mod_b"));
    assert!(!logger.has_module("mod_b::sub"));
    assert!(logger.includes_module("mod_b::sub::deeper"));
    assert!(!logger.includes_module("mod_c"));
}
