use agent_manip::report::{
    file_line, to_markdown, ConfigInfo, CrashInfo, DaemonInfo, DiagSnapshot, ErrorScan, FileInfo,
    LogInfo, UplinkConn, UplinkInfo,
};
use agent_manip::triage::ErrorGroup;

fn file(path: &str, exists: bool, is_dir: bool, size: u64, age: Option<u64>) -> FileInfo {
    FileInfo {
        path: path.to_string(),
        exists,
        is_dir,
        size_bytes: size,
        modified_secs_ago: age,
    }
}

fn snapshot() -> DiagSnapshot {
    DiagSnapshot {
        generated_utc: "2026-07-05 12:00:00 UTC".to_string(),
        hostname: "box1".to_string(),
        platform: "linux".to_string(),
        lsman_version: "0.3.0".to_string(),
        running_as_root: true,
        daemon: DaemonInfo {
            state: "Running".to_string(),
            pid: Some(4242),
            service_manager: "systemctl".to_string(),
            stats_available: true,
            cpu_percent: "1.5".to_string(),
            memory_kb: 2048,
            uptime_seconds: 3725,
            open_files: 17,
        },
        binary: file("/opt/lsiagent/bin/lsiagentd", true, false, 1536, Some(90)),
        base_dir: file("/var/opt/lsiagent", true, true, 4096, None),
        config: ConfigInfo {
            file: file("/var/opt/lsiagent/lsiagent.cfg", true, false, 100, Some(5)),
            trace_level: Some(8),
            trace_level_name: Some("trace5".to_string()),
            read_error: None,
        },
        database: file("/var/opt/lsiagent/database/collect.sqlite3", false, false, 0, None),
        uplink: UplinkInfo {
            available: true,
            established: vec![UplinkConn {
                local: "10.0.0.5:50000".to_string(),
                remote: "34.1.2.3:443".to_string(),
            }],
            total_sockets: 3,
            error: None,
        },
        logs: vec![
            LogInfo {
                name: "agent1".to_string(),
                description: "main".to_string(),
                file: file("/var/opt/lsiagent/lsiagent1.log", true, false, 2 * 1024 * 1024, Some(3)),
            },
            LogInfo {
                name: "agent2".to_string(),
                description: "main".to_string(),
                file: file("/var/opt/lsiagent/lsiagent2.log", false, false, 0, None),
            },
        ],
        crashes: Vec::new(),
        errors: Some(ErrorScan {
            since: Some("24h".to_string()),
            total_matches: 2,
            groups: vec![ErrorGroup {
                log: "agent1".to_string(),
                site: "a.cpp(1)".to_string(),
                count: 2,
                first_seen: Some("07-04 12:00:00".to_string()),
                last_seen: None,
                last_seen_secs: None,
                sample: "07-04 12:00:00 a.cpp(1) -E x".to_string(),
                buckets: Vec::new(),
            }],
            unreadable_logs: vec!["agent3".to_string(), "agent4".to_string()],
        }),
    }
}

#[test]
fn file_lines_describe_size_and_age() {
    assert_eq!(
        file_line(&file("/a", true, false, 1536, Some(90))),
        "/a (1.5 KB, modified 1m 30s ago)"
    );
    assert_eq!(file_line(&file("/d", true, true, 4096, None)), "/d (dir)");
    assert_eq!(file_line(&file("/m", false, false, 0, None)), "/m (missing)");
}

#[test]
fn markdown_report_renders_every_section() {
    let md = to_markdown(&snapshot());
    let expected = "\
# LSI agent diagnostic report — box1

Generated 2026-07-05 12:00:00 UTC by lsman 0.3.0 on linux

## Daemon

- state: **Running** (pid 4242) via systemctl
- cpu/mem: 1.5% / 2.0 MB | uptime: 1h 2m | open files: 17

## Install

- binary: /opt/lsiagent/bin/lsiagentd (1.5 KB, modified 1m 30s ago)
- base dir: /var/opt/lsiagent (dir)
- config: /var/opt/lsiagent/lsiagent.cfg (100 B, modified 5s ago) — trace level 8 (trace5)
- database: /var/opt/lsiagent/database/collect.sqlite3 (missing)

## Uplink to master

- ESTABLISHED 10.0.0.5:50000 -> 34.1.2.3:443

## Logs (timestamps inside logs are UTC)

| log | size | last written |
|---|---|---|
| agent1 | 2.0 MB | 3s ago |

## Error triage (last 24h)

2 matching lines across 1 sites. `<file>(<line>)` points into the agent source.

| log | site | count | first seen | last seen |
|---|---|---|---|---|
| agent1 | `a.cpp(1)` | 2 | 07-04 12:00:00 | - |

Most recent line per site:

```
07-04 12:00:00 a.cpp(1) -E x
```

Unreadable logs (permissions): agent3, agent4

## Crash reports

None found.
";
    assert_eq!(md, expected);
}

#[test]
fn markdown_report_without_root_or_daemon() {
    let mut snap = snapshot();
    snap.running_as_root = false;
    snap.daemon.pid = None;
    snap.config.trace_level = None;
    snap.config.read_error = Some("permission denied".to_string());
    snap.uplink = UplinkInfo {
        available: false,
        established: Vec::new(),
        total_sockets: 0,
        error: Some("daemon not running".to_string()),
    };
    snap.errors = None;
    snap.crashes = (0..12)
        .map(|i| CrashInfo {
            path: format!("/r/{}", i),
            modified: "2026-07-01 10:00:00".to_string(),
        })
        .collect();
    let md = to_markdown(&snap);
    assert!(md.contains("on linux (NOT run as root — some data unavailable)\n"));
    assert!(md.contains("- state: **Running** (process not found) via systemctl\n\n## Install"));
    assert!(md.contains("— unreadable: permission denied\n"));
    assert!(md.contains("- unavailable (daemon not running)\n"));
    assert!(!md.contains("Error triage"));
    assert!(md.contains("- 2026-07-01 10:00:00 — /r/9\n- … and 2 more\n"));
    assert!(!md.contains("/r/10"));
}
