use agent_manip::errors::LogManagerError;
use agent_manip::log_pane::{
    console_query, database_path_input, latest_entries, load_failed, merge_entries, new_entries,
    path_loaded, path_rejected, search_entries, table_query, tick_status,
};
use agent_manip::ui::StatusLevel;

fn s(v: &[&str]) -> Vec<String> {
    v.iter().map(|x| x.to_string()).collect()
}

#[test]
fn reader_hands_out_lines_once() {
    let lines = vec![Some("a".to_string()), None, Some("c".to_string())];
    assert_eq!(new_entries(&lines, 0), (s(&["a", "c"]), 3));
    assert_eq!(new_entries(&lines, 2), (s(&["c"]), 3));
    assert_eq!(new_entries(&lines, 3), (Vec::new(), 3));
    let tail_unreadable = vec![Some("a".to_string()), None];
    assert_eq!(new_entries(&tail_unreadable, 0), (s(&["a"]), 1));
    assert_eq!(new_entries(&tail_unreadable, 5), (Vec::new(), 5));
}

#[test]
fn reload_takes_first_or_newest() {
    let lines = s(&["1", "2", "3", "4"]);
    assert_eq!(latest_entries(&lines, 2, true), s(&["1", "2"]));
    assert_eq!(latest_entries(&lines, 2, false), s(&["4", "3"]));
    assert_eq!(latest_entries(&lines, 10, false), s(&["4", "3", "2", "1"]));
}

#[test]
fn new_lines_join_in_display_order() {
    let mut shown = s(&["1", "2"]);
    merge_entries(&mut shown, s(&["3", "4"]), true);
    assert_eq!(shown, s(&["1", "2", "3", "4"]));
    let mut newest_first = s(&["2", "1"]);
    merge_entries(&mut newest_first, s(&["3", "4"]), false);
    assert_eq!(newest_first, s(&["4", "3", "2", "1"]));
}

#[test]
fn two_reads_show_what_one_read_shows() {
    let all: Vec<Option<String>> = ["a", "b", "c"].iter().map(|x| Some(x.to_string())).collect();
    let full: Vec<String> = s(&["a", "b", "c"]);
    let mut shown = latest_entries(&full[..1].to_vec(), 1, false);
    let (fresh, count) = new_entries(&all, 1);
    merge_entries(&mut shown, fresh, false);
    assert_eq!(shown, latest_entries(&full, 3, false));
    assert_eq!(count, 3);
}

#[test]
fn search_keeps_matching_lines() {
    let lines = s(&["ERROR x", "info", "another ERROR"]);
    assert_eq!(search_entries(&lines, "ERROR"), s(&["ERROR x", "another ERROR"]));
    assert_eq!(search_entries(&lines, ""), lines);
    assert!(search_entries(&lines, "zzz").is_empty());
}

#[test]
fn load_status_messages() {
    let st = path_loaded("/tmp/a.log", 7);
    assert_eq!(st.message, "Successfully loaded log file: /tmp/a.log");
    assert_eq!(st.level, StatusLevel::Success);
    assert_eq!(st.timestamp_ms, Some(7));
    let e = LogManagerError::FileNotFound("/x".to_string());
    let st = path_rejected(&e, 1);
    assert_eq!(st.message, format!("Failed to update log file path: {}", e.message()));
    assert_eq!(st.level, StatusLevel::Error);
    let st = load_failed(Some(&LogManagerError::InvalidPath("p".to_string())), "ignored", 2);
    assert_eq!((st.message.as_str(), st.level), ("Invalid file path: p", StatusLevel::Warning));
    let st = load_failed(Some(&LogManagerError::PermissionDenied("p".to_string())), "ignored", 2);
    assert_eq!((st.message.as_str(), st.level), ("Permission denied for file: p", StatusLevel::Error));
    let st = load_failed(None, "No such file", 2);
    assert_eq!((st.message.as_str(), st.level), ("Failed to load log file: No such file", StatusLevel::Error));
}

#[test]
fn status_expires_after_timeout() {
    let mut st = path_loaded("a", 1000);
    assert!(tick_status(&mut st, 5999, 5000));
    assert_eq!(st.timestamp_ms, Some(1000));
    assert!(!tick_status(&mut st, 6000, 5000));
    assert_eq!(st.timestamp_ms, None);
    assert!(st.message.is_empty());
    assert_eq!(st.level, StatusLevel::Unset);
    assert!(!tick_status(&mut st, 7000, 5000));
}

#[test]
fn console_checks_before_running() {
    assert_eq!(database_path_input("  /db.sqlite  "), Ok("/db.sqlite".to_string()));
    assert_eq!(database_path_input("   "), Err("Database path cannot be empty".to_string()));
    assert_eq!(console_query(false, "select 1"), Err("Not connected to a database".to_string()));
    assert_eq!(console_query(true, "  "), Err("SQL query cannot be empty".to_string()));
    assert_eq!(console_query(true, " select 1 "), Ok("select 1".to_string()));
    assert_eq!(table_query(None, true), Err("No table selected".to_string()));
    assert_eq!(table_query(Some("SAAPP"), true), Ok("PRAGMA table_info(SAAPP)".to_string()));
    assert_eq!(table_query(Some("SAAPP"), false), Ok("SELECT * FROM SAAPP LIMIT 100".to_string()));
}
