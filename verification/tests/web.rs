use agent_manip::network::{parse_lsof_output, Connection, NetworkMonitor, QueryOutcome};
use agent_manip::paths::Platform;
use agent_manip::web::{
    download_target, errors_param, level_param, lines_param, offset_param, percent_decode,
    query_param, since_param, tail_capped_lines, tail_reset, tail_since_lines, tail_window,
};

#[test]
fn parses_established_and_listen_lines() {
    let out = "\
COMMAND     PID USER   FD   TYPE             DEVICE SIZE/OFF NODE NAME
lsiagentd  4242 root   12u  IPv4 0xabc123        0t0  TCP 10.0.0.5:50000->34.1.2.3:443 (ESTABLISHED)
lsiagentd  4242 root   13u  IPv4 0xabc124        0t0  TCP *:9090 (LISTEN)
lsiagentd  4242 root   14u  IPv4 0xabc125        0t0  UDP *:5353
";
    let conns = parse_lsof_output(out);
    assert_eq!(conns.len(), 3);

    assert_eq!(conns[0].protocol, "TCP");
    assert_eq!(conns[0].local, "10.0.0.5:50000");
    assert_eq!(conns[0].remote.as_deref(), Some("34.1.2.3:443"));
    assert!(conns[0].is_established());

    assert_eq!(conns[1].state.as_deref(), Some("LISTEN"));
    assert!(!conns[1].is_established());

    assert_eq!(conns[2].protocol, "UDP");
    assert_eq!(conns[2].remote, None);
}

#[test]
fn monitor_refreshes_at_most_every_five_seconds() {
    let mut m = NetworkMonitor::new();
    assert!(!m.is_connected());
    let conns = parse_lsof_output(
        "H\nd 1 r 3u IPv4 0x1 0t0 TCP 10.0.0.5:50000->34.1.2.3:443 (ESTABLISHED)\n",
    );
    m.update(1_000_000_000, QueryOutcome::Sockets(conns));
    assert!(m.is_connected());
    assert_eq!(m.established().len(), 1);
    // a second result within 5 s is ignored
    m.update(2_000_000_000, QueryOutcome::Failed("lsof failed".to_string()));
    assert!(m.is_connected());
    assert_eq!(m.last_error(), None);
    // after 5 s it is taken
    m.update(6_000_000_000, QueryOutcome::Failed("lsof failed".to_string()));
    assert!(!m.is_connected());
    assert_eq!(m.last_error(), Some("lsof failed"));
    let none: &[Connection] = m.connections();
    assert!(none.is_empty());
}

#[test]
fn download_targets_resolve_known_keys_only() {
    for p in [Platform::Linux, Platform::MacOs] {
        let none: Vec<String> = Vec::new();
        let (path, name) = download_target(p, &none, None, "cfg").unwrap();
        assert!(path.ends_with("lsiagent.cfg"));
        assert_eq!(name, "lsiagent.cfg");

        let (path, name) = download_target(p, &none, None, "db").unwrap();
        assert!(path.ends_with("collect.sqlite3"));
        assert_eq!(name, "collect.sqlite3");

        let (path, name) = download_target(p, &none, None, "profile").unwrap();
        assert!(path.ends_with("profile"));
        assert_eq!(name, "profile");

        // "webcom" is a known log on every platform
        let (path, name) = download_target(p, &none, None, "log:webcom").unwrap();
        assert!(path.ends_with("lsiwebcom.log"));
        assert_eq!(name, "lsiwebcom.log");

        assert!(download_target(p, &none, None, "passwd").is_none());
        assert!(download_target(p, &none, None, "log:../../etc/passwd").is_none());
        assert!(download_target(p, &none, None, "log:").is_none());
    }
}

#[test]
fn database_download_follows_the_override() {
    let none: Vec<String> = Vec::new();
    let (path, name) =
        download_target(Platform::Linux, &none, Some("/tmp/snap.sqlite3"), "db").unwrap();
    assert_eq!(path, "/tmp/snap.sqlite3");
    assert_eq!(name, "collect.sqlite3");
    let (path, _) = download_target(Platform::Linux, &none, Some(""), "db").unwrap();
    assert_eq!(path, "/var/opt/lsiagent/database/collect.sqlite3");
    let users = vec!["SysTrackManagementUser_501.log".to_string()];
    let (path, name) = download_target(Platform::MacOs, &users, None, "log:user-501").unwrap();
    assert_eq!(
        path,
        "/Library/Application Support/Lakeside Software/Users/SysTrackManagementUser_501.log"
    );
    assert_eq!(name, "SysTrackManagementUser_501.log");
}

#[test]
fn incremental_tail_returns_only_complete_new_lines() {
    let first = b"one\ntwo\npart";
    // full tail: partial trailing line is held back, offset stops at \n
    let (windowed, start) = tail_window(first.len() as u64);
    assert!(!windowed);
    assert_eq!(start, 0);
    let (lines, complete) = tail_capped_lines(first, windowed, 100, false);
    assert_eq!(lines, ["one", "two"]);
    assert_eq!(first.len(), 12);
    let next = start + complete as u64;
    assert_eq!(next, 8);

    // nothing new yet: "part" is still unterminated
    assert!(!tail_reset(12, next));
    let (lines, complete) = tail_since_lines(&first[8..], false);
    assert!(lines.is_empty());
    assert_eq!(next + complete as u64, 8);

    // finish the line and append another
    let second = b"one\ntwo\npart done\nthree\n";
    assert!(!tail_reset(second.len() as u64, next));
    let (lines, complete) = tail_since_lines(&second[8..], false);
    assert_eq!(lines, ["part done", "three"]);
    let next3 = next + complete as u64;
    assert_eq!(next3, 24);

    // rotation: file shrank below our offset → reset
    assert!(tail_reset(4, next3));
    // more than 1 MB of growth → reset
    assert!(tail_reset(next3 + 1024 * 1024 + 1, next3));
    assert!(!tail_reset(next3 + 1024 * 1024, next3));
}

#[test]
fn incremental_tail_filters_errors() {
    let buf = b"07-04 12:00:00 a(1) -I fine\n07-04 12:00:01 b(2) -E broken\n";
    let (lines, complete) = tail_since_lines(buf, true);
    assert_eq!(lines.len(), 1);
    assert!(lines[0].contains("-E broken"));
    assert_eq!(complete, buf.len());
}

#[test]
fn windowed_tail_drops_the_partial_first_line_and_keeps_the_last_n() {
    let (windowed, start) = tail_window(3 * 1024 * 1024);
    assert!(windowed);
    assert_eq!(start, 2 * 1024 * 1024);
    let (lines, complete) = tail_capped_lines(b"tial\na\nb\nc\n", true, 2, false);
    assert_eq!(lines, ["b", "c"]);
    assert_eq!(complete, 11);
    // no newline at all: everything counts as read
    let (lines, complete) = tail_capped_lines(b"abc", false, 10, false);
    assert_eq!(lines, ["abc"]);
    assert_eq!(complete, 3);
}

#[test]
fn query_params_are_percent_decoded() {
    assert_eq!(
        query_param("file=log%3Awebcom", "file").as_deref(),
        Some("log:webcom")
    );
    assert_eq!(query_param("since=24h&n=200", "n").as_deref(), Some("200"));
    // malformed escapes pass through untouched
    assert_eq!(percent_decode("a%zz%4"), "a%zz%4");
}

#[test]
fn query_parameter_edge_cases() {
    assert_eq!(query_param("", "n"), None);
    assert_eq!(query_param("n", "n"), None);
    assert_eq!(query_param("a=1&&n=&n=5", "n").as_deref(), Some(""));
    assert_eq!(query_param("x=%E2%9C%93", "x").as_deref(), Some("✓"));
    // an invalid byte becomes the replacement character
    assert_eq!(query_param("x=%FF", "x").as_deref(), Some("\u{FFFD}"));
    assert_eq!(level_param("level=8"), Some(8));
    assert_eq!(level_param("level=9"), None);
    assert_eq!(level_param("level=-1"), None);
    assert_eq!(level_param("lvl=3"), None);
    assert_eq!(lines_param(""), 200);
    assert_eq!(lines_param("n=50"), 50);
    assert_eq!(lines_param("n=99999"), 2000);
    assert_eq!(lines_param("n=abc"), 200);
    assert_eq!(offset_param("offset=8"), Some(8));
    assert_eq!(offset_param("offset=-8"), None);
    assert!(errors_param("errors=1"));
    assert!(!errors_param("errors=true"));
    assert_eq!(since_param("since=all"), None);
    assert_eq!(since_param("since=24h").as_deref(), Some("24h"));
}
