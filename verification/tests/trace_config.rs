use agent_manip::trace::{level_name, parse_level, read_log_level, set_log_level, LevelError};

#[test]
fn read_level_from_debug_section() {
    let cfg = "[Agent]\nName=x\n\n[Debug]\nLogLevel2=8\nTraceXML=1\n";
    assert_eq!(read_log_level(cfg), Some(8));
}

#[test]
fn read_level_ignores_other_sections() {
    let cfg = "[Agent]\nLogLevel2=5\n";
    assert_eq!(read_log_level(cfg), None);
}

#[test]
fn read_level_case_insensitive_with_spaces() {
    let cfg = "[debug]\n  loglevel2 = 4\n";
    assert_eq!(read_log_level(cfg), Some(4));
}

#[test]
fn set_level_replaces_existing() {
    let cfg = "[Debug]\nLogLevel2=3\nTraceXML=1\n";
    let out = set_log_level(cfg, 8);
    assert_eq!(read_log_level(&out), Some(8));
    assert!(out.contains("TraceXML=1"), "must preserve other keys");
    assert_eq!(out.matches("LogLevel2").count(), 1);
}

#[test]
fn set_level_inserts_into_existing_section() {
    let cfg = "[Agent]\nName=x\n\n[Debug]\nTraceXML=1\n";
    let out = set_log_level(cfg, 5);
    assert_eq!(read_log_level(&out), Some(5));
    assert!(out.contains("[Agent]\nName=x"));
}

#[test]
fn set_level_appends_section_when_missing() {
    let cfg = "[Agent]\nName=x\n";
    let out = set_log_level(cfg, 8);
    assert_eq!(read_log_level(&out), Some(8));
    assert!(out.contains("[Debug]"));
}

#[test]
fn set_level_on_empty_config() {
    let out = set_log_level("", 8);
    assert_eq!(read_log_level(&out), Some(8));
}

#[test]
fn parse_levels() {
    assert_eq!(parse_level("8").unwrap(), 8);
    assert_eq!(parse_level("trace5").unwrap(), 8);
    assert_eq!(parse_level("INFO").unwrap(), 3);
    assert!(parse_level("9").is_err());
    assert!(parse_level("bogus").is_err());
}

#[test]
fn level_errors_and_names() {
    assert_eq!(parse_level("9"), Err(LevelError::OutOfRange));
    assert_eq!(parse_level("bogus"), Err(LevelError::Unknown("bogus".to_string())));
    assert_eq!(level_name(3), "info");
    assert_eq!(level_name(9), "?");
    assert_eq!(LevelError::OutOfRange.message(), "level must be 0-8");
    assert_eq!(
        LevelError::Unknown("bogus".to_string()).message(),
        "unknown level 'bogus' (use 0-8 or none/error/warning/info/trace1..trace5)"
    );
}

#[test]
fn set_level_exact_layouts() {
    assert_eq!(set_log_level("", 8), "[Debug]\nLogLevel2=8\n");
    assert_eq!(set_log_level("[Agent]\nName=x\n", 2), "[Agent]\nName=x\n\n[Debug]\nLogLevel2=2\n");
    assert_eq!(set_log_level("[Agent]\n\n", 2), "[Agent]\n\n[Debug]\nLogLevel2=2\n");
    assert_eq!(
        set_log_level("[DEBUG]\nA=1\n[Other]\n[debug]\nB=2", 4),
        "[DEBUG]\nA=1\n[Other]\n[debug]\nLogLevel2=4\nB=2\n"
    );
    assert_eq!(set_log_level("[Debug]\r\n loglevel2 = 1\r\nX=1\r\n", -7), "[Debug]\nLogLevel2=-7\nX=1\n");
    assert_eq!(read_log_level(&set_log_level("[x]\nq", i64::MIN)), Some(i64::MIN));
}

#[test]
fn set_level_twice_keeps_last() {
    for cfg in ["", "[Agent]\nName=x\n", "[Debug]\nX=1\n", "[debug]\n LogLevel2 = 4\n[Other]\n"] {
        assert_eq!(set_log_level(&set_log_level(cfg, 2), 7), set_log_level(cfg, 7));
        assert_eq!(set_log_level(&set_log_level(cfg, 5), 5), set_log_level(cfg, 5));
    }
}

#[test]
fn level_names_and_numbers_parse_back() {
    for n in 0..=8i64 {
        assert_eq!(parse_level(level_name(n)), Ok(n));
        assert_eq!(parse_level(&n.to_string()), Ok(n));
    }
    assert_eq!(parse_level("TRACE3"), Ok(6));
}
