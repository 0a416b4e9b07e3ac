use agent_manip::service::{MacOSServiceManager, ServiceConfig};
use agent_manip::collect::{
    bundle_name, cap_plan, log_cap, log_entry, manifest_text, net_text, not_captured,
    truncation_banner, CollectOptions,
};
use agent_manip::network::parse_lsof_output;
use agent_manip::ui::{
    get_available_log_files, get_log_file_path, FileLoadStatus, HostOs, LogLevel, StatusLevel,
};

#[test]
fn bundle_texts() {
    let opts = CollectOptions { output_dir: ".".to_string(), max_log_mb: 50, since: None };
    assert_eq!(log_cap(opts.max_log_mb), 50 * 1024 * 1024);
    assert_eq!(log_cap(u64::MAX), u64::MAX);
    assert_eq!(cap_plan(100, 40), (true, 60));
    assert_eq!(cap_plan(40, 40), (false, 0));
    assert_eq!(
        truncation_banner(40, 100),
        "=== lsman collect: file truncated, last 40 of 100 bytes ===\n"
    );
    assert_eq!(bundle_name("box1", "20260705-120000Z"), "lsman-diag-box1-20260705-120000Z");
    assert_eq!(
        log_entry("lsiagent1.log", "main daemon log", true, 50),
        "logs/lsiagent1.log — main daemon log (TRUNCATED to last 50 MB)"
    );
    assert_eq!(log_entry("x.log", "d", false, 50), "logs/x.log — d");
    assert_eq!(not_captured("lsiagent.cfg", "denied"), "lsiagent.cfg — NOT captured: denied");
    assert_eq!(
        manifest_text("0.3.0", "box1", "2026", &vec!["a".to_string(), "b".to_string()]),
        "lsman 0.3.0 diagnostic bundle — box1\ngenerated 2026\nlog timestamps are UTC\n\na\nb\n"
    );
    let conns = parse_lsof_output("H\nd 1 r 3u IPv4 0x1 0t0 UDP *:5353\n");
    assert_eq!(net_text(&conns), "PROTO LOCAL REMOTE STATE\nUDP *:5353 - -\n");
}

#[test]
fn numbered_log_files() {
    assert_eq!(get_log_file_path(HostOs::Linux, 3), "/var/opt/lsiagent/lsiagent3.log");
    assert_eq!(
        get_log_file_path(HostOs::MacOs, 3),
        "/Library/Application Support/Lakeside Software/lsiagent.log"
    );
    assert_eq!(
        get_log_file_path(HostOs::Windows, 0),
        "C:\\Program Files\\Lakeside Software\\LsiAgent0.log"
    );
    assert_eq!(get_log_file_path(HostOs::Other, 9), "/var/log/lsiagent9.log");
    let exists = vec![false, true, true, false, false, false, false, false, false, true];
    assert_eq!(get_available_log_files(&exists), [1, 2, 9]);
}

#[test]
fn log_levels_and_statuses() {
    assert_eq!(LogLevel::from_token("-W"), Some(LogLevel::Warning));
    assert_eq!(LogLevel::from_token("-5"), Some(LogLevel::Five));
    assert_eq!(LogLevel::from_token("-X"), None);
    assert_eq!(LogLevel::from_token("-EE"), None);
    assert_eq!(LogLevel::Three.label(), "-3");
    assert_eq!(LogLevel::Info.label(), "Info");
    let s = FileLoadStatus::default();
    assert!(s.message.is_empty() && s.timestamp_ms.is_none());
    assert_eq!(s.level, StatusLevel::Unset);
}

#[test]
fn plist_for_a_service() {
    let config = ServiceConfig {
        service_name: "agent".to_string(),
        executable_path: "/opt/agent".to_string(),
        args: vec!["-d".to_string(), "-v".to_string()],
        working_directory: None,
        restart_delay_secs: 5,
        max_restarts: 3,
    };
    let m = MacOSServiceManager::new(config, Some("/Users/me"));
    let plist = m.plist_file("/Users/me");
    assert!(plist.starts_with("<?xml version=\"1.0\" encoding=\"UTF-8\"?>\n"));
    assert!(plist.contains("    <string>com.agent</string>\n"));
    assert!(plist.contains("    <array>\n\t\t<string>/opt/agent</string>\n\t\t<string>-d</string>\n\t\t<string>-v</string>\n    </array>\n"));
    assert!(plist.contains("<key>WorkingDirectory</key>\n    <string>.</string>"));
    assert!(plist.contains("<string>/Users/me/Library/Logs/agent.log</string>"));
    assert!(plist.ends_with("<string>/Users/me/Library/Logs/agent.err.log</string>\n</dict>\n</plist>"));
    assert_eq!(
        MacOSServiceManager::config_plist_path("/Users/me", "agent"),
        "/Users/me/Library/LaunchDaemons/com.agent.plist"
    );
}
