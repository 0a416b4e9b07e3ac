use agent_manip::daemon::{manager_for, DaemonState, ServiceManager};
use agent_manip::report::{daemon_status_line, uptime_text};
use agent_manip::units::memory_text;
use agent_manip::clock::UtcStamp;
use chrono::NaiveDate;
use agent_manip::resolve::Resolved;
use agent_manip::table_query::{plan_table_query, table_query_result};
use agent_manip::network::Connection;
use agent_manip::report::{trace_level_status, uplink_status};

fn conn(remote: Option<&str>, state: Option<&str>) -> Connection {
    Connection {
        protocol: "TCP".to_string(),
        local: "10.0.0.2:5000".to_string(),
        remote: remote.map(|s| s.to_string()),
        state: state.map(|s| s.to_string()),
    }
}

#[test]
fn trace_level_status_texts() {
    assert_eq!(trace_level_status("[Debug]\nLogLevel2=4\n"), "4 (trace1)");
    assert_eq!(trace_level_status("[Debug]\nLogLevel2=-2\n"), "-2 (?)");
    assert_eq!(trace_level_status("[Agent]\n"), "not set (default 3/info)");
}

#[test]
fn uplink_status_texts() {
    assert_eq!(uplink_status(&Err("lsof missing".to_string()), false), "unavailable (lsof missing)");
    assert_eq!(uplink_status(&Ok(Vec::new()), false), "unavailable (daemon runs as root — use sudo)");
    assert_eq!(uplink_status(&Ok(Vec::new()), true), "no established connections");
    assert_eq!(
        uplink_status(&Ok(vec![conn(None, Some("LISTEN"))]), false),
        "no established connections"
    );
    let cs = vec![
        conn(Some("1.2.3.4:443"), Some("ESTABLISHED")),
        conn(None, Some("ESTABLISHED")),
        conn(Some("9.9.9.9:80"), Some("CLOSE_WAIT")),
        conn(Some("5.6.7.8:443"), Some("ESTABLISHED")),
    ];
    assert_eq!(uplink_status(&Ok(cs), false), "3 established (1.2.3.4:443, 5.6.7.8:443)");
}

#[test]
fn daemon_line_and_uptime() {
    assert_eq!(
        daemon_status_line(DaemonState::Running, Some(4242), "lsiagentd", ServiceManager::Launchctl),
        "Running (pid 4242) via launchctl"
    );
    assert_eq!(
        daemon_status_line(DaemonState::Stopped, None, "lsiagentd", ServiceManager::Direct),
        "Stopped (process 'lsiagentd' not found) via direct"
    );
    assert_eq!(uptime_text(0, 99), "unknown");
    assert_eq!(uptime_text(17, 59), "59s");
    assert_eq!(memory_text(u64::MAX), format!("{} KB", u64::MAX));
    assert_eq!(manager_for(true, false, true, false), ServiceManager::Launchctl);
    assert_eq!(manager_for(true, false, false, true), ServiceManager::Direct);
    assert_eq!(manager_for(false, true, true, true), ServiceManager::Systemctl);
    assert_eq!(manager_for(false, false, true, true), ServiceManager::Direct);
}

#[test]
fn stamp_texts_match_chrono() {
    for (y, mo, d, h, mi, s) in [(2026, 7, 5, 12, 3, 9), (999, 1, 2, 0, 0, 0), (12345, 12, 31, 23, 59, 59), (-44, 3, 15, 6, 7, 8)] {
        let st = UtcStamp::new(y, mo, d, h, mi, s).unwrap();
        let dt = NaiveDate::from_ymd_opt(y, mo, d).unwrap().and_hms_opt(h, mi, s).unwrap();
        assert_eq!(st.report_text(), dt.format("%Y-%m-%d %H:%M:%S UTC").to_string());
        assert_eq!(st.compact_text(), dt.format("%Y%m%d-%H%M%SZ").to_string());
    }
}

#[test]
fn table_page_echoes() {
    let cols = vec!["A".to_string(), "B_ID".to_string()];
    let plan = plan_table_query(&cols, "nope", "ASC", "", &Vec::new());
    let r = table_query_result("T".to_string(), 10, 3, 50, 0, "nope", &plan, Vec::new(), Resolved::new(), Vec::new());
    assert_eq!((r.total_rows, r.filtered_rows, r.sort.as_str(), r.dir.as_str()), (10, 10, "rowid", "asc"));
    let plan = plan_table_query(&cols, "a", "x", "foo", &Vec::new());
    let r = table_query_result("T".to_string(), 10, 3, 50, 0, "a", &plan, Vec::new(), Resolved::new(), Vec::new());
    assert_eq!((r.filtered_rows, r.sort.as_str(), r.dir.as_str()), (3, "a", "desc"));
}
