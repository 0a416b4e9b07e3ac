//! The one-shot diagnostic snapshot of an agent install and its markdown
//! rendering (`lsman report`, the bundle's `report.md`).
//!
//! Gathering the facts is I/O and happens outside the library; this module
//! holds the snapshot's data and renders it.

use vstd::prelude::*;
use crate::num::{decimal, decimal_int, push_decimal, push_decimal_i64};
use crate::text::{joined, join_strings, push_str, views};
use crate::network::{Connection, ConnView, established_spec};
use crate::trace::{lemma_read_log_level_fits, level_name, level_name_spec, read_log_level, read_log_level_spec};
use crate::triage::ErrorGroup;
use crate::daemon::{state_label, DaemonState, ServiceManager};
use crate::units::{
    format_bytes, format_bytes_spec, format_duration, format_duration_spec, format_kb,
};

verus! {

/// What the filesystem said about one path.
#[derive(Debug, Clone)]
pub struct FileInfo {
    pub path: String,
    pub exists: bool,
    pub is_dir: bool,
    pub size_bytes: u64,
    /// Seconds since last modification; None when missing/unreadable.
    pub modified_secs_ago: Option<u64>,
}

/// The daemon process as the sampler saw it.
#[derive(Debug, Clone)]
pub struct DaemonInfo {
    pub state: String,
    pub pid: Option<u32>,
    pub service_manager: String,
    /// False when the kernel refused stats (non-root vs root daemon).
    pub stats_available: bool,
    /// CPU use in percent, already printed with one decimal ("12.5").
    pub cpu_percent: String,
    pub memory_kb: u64,
    pub uptime_seconds: u64,
    pub open_files: usize,
}

#[derive(Debug, Clone)]
pub struct ConfigInfo {
    pub file: FileInfo,
    /// `[Debug] LogLevel2` — None when unset (agent uses master config / info).
    pub trace_level: Option<i64>,
    pub trace_level_name: Option<String>,
    pub read_error: Option<String>,
}

#[derive(Debug, Clone)]
pub struct UplinkConn {
    pub local: String,
    pub remote: String,
}

#[derive(Debug, Clone)]
pub struct UplinkInfo {
    /// False when lsof couldn't see the daemon's sockets (needs sudo).
    pub available: bool,
    pub established: Vec<UplinkConn>,
    pub total_sockets: usize,
    pub error: Option<String>,
}

#[derive(Debug, Clone)]
pub struct LogInfo {
    pub name: String,
    pub description: String,
    pub file: FileInfo,
}

#[derive(Debug, Clone)]
pub struct CrashInfo {
    pub path: String,
    /// Local time, for display.
    pub modified: String,
}

#[derive(Debug)]
pub struct ErrorScan {
    /// The `--since` window used, e.g. "24h"; None = whole logs.
    pub since: Option<String>,
    pub total_matches: usize,
    pub groups: Vec<ErrorGroup>,
    /// Logs that exist but couldn't be read (permissions).
    pub unreadable_logs: Vec<String>,
}

#[derive(Debug)]
pub struct DiagSnapshot {
    pub generated_utc: String,
    pub hostname: String,
    pub platform: String,
    pub lsman_version: String,
    pub running_as_root: bool,
    pub daemon: DaemonInfo,
    pub binary: FileInfo,
    pub base_dir: FileInfo,
    pub config: ConfigInfo,
    pub database: FileInfo,
    pub uplink: UplinkInfo,
    pub logs: Vec<LogInfo>,
    pub crashes: Vec<CrashInfo>,
    /// Present when an error scan was requested.
    pub errors: Option<ErrorScan>,
}

// ---------------------------------------------------------------------------
// the rendering, as text

/// `o.as_deref().unwrap_or(d)`.
pub open spec fn or_text(o: Option<String>, d: Seq<char>) -> Seq<char> {
    match o {
        Some(s) => s@,
        None => d,
    }
}

/// "/path (12.3 MB, modified 5s ago)", "/path (dir)", "/path (missing)".
pub open spec fn file_line_spec(f: FileInfo) -> Seq<char> {
    if !f.exists {
        f.path@ + " (missing)"@
    } else {
        let size = if f.is_dir {
            "dir"@
        } else {
            format_bytes_spec(f.size_bytes as nat)
        };
        let age = match f.modified_secs_ago {
            Some(s) => ", modified "@ + format_duration_spec(s as nat) + " ago"@,
            None => Seq::<char>::empty(),
        };
        f.path@ + " ("@ + size + age + ")"@
    }
}

/// The title and generation line.
pub open spec fn header_md(s: DiagSnapshot) -> Seq<char> {
    "# LSI agent diagnostic report — "@ + s.hostname@ + "\n"@ + "\nGenerated "@ + s.generated_utc@
        + " by lsman "@ + s.lsman_version@ + " on "@ + s.platform@ + (if s.running_as_root {
        Seq::<char>::empty()
    } else {
        " (NOT run as root — some data unavailable)"@
    }) + "\n"@
}

/// The daemon section.
pub open spec fn daemon_md(d: DaemonInfo) -> Seq<char> {
    let state = match d.pid {
        Some(pid) => "- state: **"@ + d.state@ + "** (pid "@ + decimal(pid as nat) + ") via "@
            + d.service_manager@ + "\n"@,
        None => "- state: **"@ + d.state@ + "** (process not found) via "@ + d.service_manager@
            + "\n"@,
    };
    let stats = if d.stats_available && d.pid is Some {
        "- cpu/mem: "@ + d.cpu_percent@ + "% / "@ + format_bytes_spec((d.memory_kb * 1024) as nat)
            + " | uptime: "@ + format_duration_spec(d.uptime_seconds as nat) + " | open files: "@
            + decimal(d.open_files as nat) + "\n"@
    } else if d.pid is Some {
        "- cpu/mem: unavailable (daemon runs as root — rerun with sudo)\n"@
    } else {
        Seq::<char>::empty()
    };
    "\n## Daemon\n\n"@ + state + stats
}

/// What the config line says about the trace level.
pub open spec fn trace_md(c: ConfigInfo) -> Seq<char> {
    match c.trace_level {
        Some(l) => "trace level "@ + decimal_int(l as int) + " ("@ + or_text(
            c.trace_level_name,
            "?"@,
        ) + ")"@,
        None => match c.read_error {
            Some(e) => "unreadable: "@ + e@,
            None => "trace level not set locally (master config / default 3=info)"@,
        },
    }
}

/// The install section.
pub open spec fn install_md(s: DiagSnapshot) -> Seq<char> {
    "\n## Install\n\n"@ + "- binary: "@ + file_line_spec(s.binary) + "\n"@ + "- base dir: "@
        + file_line_spec(s.base_dir) + "\n"@ + "- config: "@ + file_line_spec(s.config.file)
        + " — "@ + trace_md(s.config) + "\n"@ + "- database: "@ + file_line_spec(s.database)
        + "\n"@
}

/// One established connection.
pub open spec fn conn_md(c: UplinkConn) -> Seq<char> {
    "- ESTABLISHED "@ + c.local@ + " -> "@ + c.remote@ + "\n"@
}

/// The established connections, one line each.
pub open spec fn conns_md(cs: Seq<UplinkConn>) -> Seq<char>
    decreases cs.len(),
{
    if cs.len() == 0 {
        Seq::<char>::empty()
    } else {
        conns_md(cs.drop_last()) + conn_md(cs.last())
    }
}

/// The uplink section.
pub open spec fn uplink_md(u: UplinkInfo) -> Seq<char> {
    "\n## Uplink to master\n\n"@ + if !u.available {
        "- unavailable ("@ + or_text(u.error, "daemon sockets not visible — rerun with sudo"@)
            + ")\n"@
    } else if u.established@.len() == 0 {
        "- **no established connections** ("@ + decimal(u.total_sockets as nat)
            + " open sockets)\n"@
    } else {
        conns_md(u.established@)
    }
}

/// One row of the log table; missing logs have none.
pub open spec fn log_row_md(l: LogInfo) -> Seq<char> {
    if !l.file.exists {
        Seq::<char>::empty()
    } else {
        "| "@ + l.name@ + " | "@ + format_bytes_spec(l.file.size_bytes as nat) + " | "@
            + match l.file.modified_secs_ago {
            Some(s) => format_duration_spec(s as nat) + " ago"@,
            None => "?"@,
        } + " |\n"@
    }
}

/// The rows of the log table.
pub open spec fn log_rows_md(ls: Seq<LogInfo>) -> Seq<char>
    decreases ls.len(),
{
    if ls.len() == 0 {
        Seq::<char>::empty()
    } else {
        log_rows_md(ls.drop_last()) + log_row_md(ls.last())
    }
}

/// The log section.
pub open spec fn logs_md(ls: Seq<LogInfo>) -> Seq<char> {
    "\n## Logs (timestamps inside logs are UTC)\n\n"@ + "| log | size | last written |\n"@
        + "|---|---|---|\n"@ + log_rows_md(ls)
}

/// One row of the site table.
pub open spec fn group_row_md(g: ErrorGroup) -> Seq<char> {
    "| "@ + g.log@ + " | `"@ + g.site@ + "` | "@ + decimal(g.count as nat) + " | "@ + or_text(
        g.first_seen,
        "-"@,
    ) + " | "@ + or_text(g.last_seen, "-"@) + " |\n"@
}

/// The rows of the site table.
pub open spec fn group_rows_md(gs: Seq<ErrorGroup>) -> Seq<char>
    decreases gs.len(),
{
    if gs.len() == 0 {
        Seq::<char>::empty()
    } else {
        group_rows_md(gs.drop_last()) + group_row_md(gs.last())
    }
}

/// The most recent line of each site, fenced.
pub open spec fn samples_md(gs: Seq<ErrorGroup>) -> Seq<char>
    decreases gs.len(),
{
    if gs.len() == 0 {
        Seq::<char>::empty()
    } else {
        samples_md(gs.drop_last()) + "```\n"@ + gs.last().sample@ + "\n```\n"@
    }
}

/// " (last 24h)" for a windowed scan.
pub open spec fn window_md(since: Option<String>) -> Seq<char> {
    match since {
        Some(s) => " (last "@ + s@ + ")"@,
        None => Seq::<char>::empty(),
    }
}

/// The site table and samples, or that nothing matched.
pub open spec fn scan_body_md(total: usize, gs: Seq<ErrorGroup>) -> Seq<char> {
    if gs.len() == 0 {
        "No error/crash lines found.\n"@
    } else {
        decimal(total as nat) + " matching lines across "@ + decimal(gs.len())
            + " sites. `<file>(<line>)` points into the agent source.\n\n"@
            + "| log | site | count | first seen | last seen |\n"@ + "|---|---|---|---|---|\n"@
            + group_rows_md(gs) + "\nMost recent line per site:\n\n"@ + samples_md(gs)
    }
}

/// The logs that could not be read, if any.
pub open spec fn unreadable_md(ls: Seq<String>) -> Seq<char> {
    if ls.len() == 0 {
        Seq::<char>::empty()
    } else {
        "\nUnreadable logs (permissions): "@ + joined(views(ls), ", "@) + "\n"@
    }
}

/// The error-triage section of a scan.
pub open spec fn scan_md(e: ErrorScan) -> Seq<char> {
    "\n## Error triage"@ + window_md(e.since) + "\n\n"@ + scan_body_md(e.total_matches, e.groups@)
        + unreadable_md(e.unreadable_logs@)
}

/// One crash report line.
pub open spec fn crash_md(c: CrashInfo) -> Seq<char> {
    "- "@ + c.modified@ + " — "@ + c.path@ + "\n"@
}

/// Crash report lines.
pub open spec fn crash_lines_md(cs: Seq<CrashInfo>) -> Seq<char>
    decreases cs.len(),
{
    if cs.len() == 0 {
        Seq::<char>::empty()
    } else {
        crash_lines_md(cs.drop_last()) + crash_md(cs.last())
    }
}

/// The crash section: the ten newest reports, then how many more.
pub open spec fn crashes_md(cs: Seq<CrashInfo>, root: bool) -> Seq<char> {
    "\n## Crash reports\n\n"@ + if cs.len() == 0 {
        "None found"@ + (if root {
            Seq::<char>::empty()
        } else {
            " (daemon reports may need sudo)"@
        }) + ".\n"@
    } else {
        crash_lines_md(if cs.len() > 10 {
            cs.take(10)
        } else {
            cs
        }) + if cs.len() > 10 {
            "- … and "@ + decimal((cs.len() - 10) as nat) + " more\n"@
        } else {
            Seq::<char>::empty()
        }
    }
}

/// The whole report.
pub open spec fn markdown(s: DiagSnapshot) -> Seq<char> {
    header_md(s) + daemon_md(s.daemon) + install_md(s) + uplink_md(s.uplink) + logs_md(s.logs@)
        + match s.errors {
        Some(e) => scan_md(e),
        None => Seq::<char>::empty(),
    } + crashes_md(s.crashes@, s.running_as_root)
}

/// The inputs `markdown` can render: the daemon's memory in bytes must fit
/// a `u64` where it is shown.
pub open spec fn renderable(s: DiagSnapshot) -> bool {
    s.daemon.stats_available && s.daemon.pid is Some ==> s.daemon.memory_kb * 1024 <= u64::MAX
}

// ---------------------------------------------------------------------------
// rendering

/// Appends `o.as_deref().unwrap_or(d)`.
fn push_or(md: &mut String, o: &Option<String>, d: &str)
    ensures
        final(md)@ == old(md)@ + or_text(*o, d@),
{
    match o {
        Some(t) => push_str(md, t.as_str()),
        None => push_str(md, d),
    }
}

/// "/path (12.3 MB, modified 5s ago)" for a file, "(dir)" for a directory,
/// "(missing)" when absent.
pub fn file_line(f: &FileInfo) -> (r: String)
    ensures
        r@ == file_line_spec(*f),
{
    let mut s = String::new();
    push_str(&mut s, f.path.as_str());
    if !f.exists {
        push_str(&mut s, " (missing)");
        assert(s@ =~= file_line_spec(*f));
        return s;
    }
    push_str(&mut s, " (");
    if f.is_dir {
        push_str(&mut s, "dir");
    } else {
        let b = format_bytes(f.size_bytes);
        push_str(&mut s, b.as_str());
    }
    match f.modified_secs_ago {
        Some(secs) => {
            push_str(&mut s, ", modified ");
            let d = format_duration(secs);
            push_str(&mut s, d.as_str());
            push_str(&mut s, " ago");
        },
        None => {},
    }
    push_str(&mut s, ")");
    assert(s@ =~= file_line_spec(*f));
    s
}

fn push_header(md: &mut String, snap: &DiagSnapshot)
    ensures
        final(md)@ == old(md)@ + header_md(*snap),
{
    push_str(md, "# LSI agent diagnostic report — ");
    push_str(md, snap.hostname.as_str());
    push_str(md, "\n");
    push_str(md, "\nGenerated ");
    push_str(md, snap.generated_utc.as_str());
    push_str(md, " by lsman ");
    push_str(md, snap.lsman_version.as_str());
    push_str(md, " on ");
    push_str(md, snap.platform.as_str());
    if !snap.running_as_root {
        push_str(md, " (NOT run as root — some data unavailable)");
    }
    push_str(md, "\n");
    assert(md@ =~= old(md)@ + header_md(*snap));
}

fn push_daemon(md: &mut String, d: &DaemonInfo)
    requires
        d.stats_available && d.pid is Some ==> d.memory_kb * 1024 <= u64::MAX,
    ensures
        final(md)@ == old(md)@ + daemon_md(*d),
{
    push_str(md, "\n## Daemon\n\n");
    let ghost after_title = md@;
    match d.pid {
        Some(pid) => {
            push_str(md, "- state: **");
            push_str(md, d.state.as_str());
            push_str(md, "** (pid ");
            push_decimal(md, pid as u64);
            push_str(md, ") via ");
            push_str(md, d.service_manager.as_str());
            push_str(md, "\n");
        },
        None => {
            push_str(md, "- state: **");
            push_str(md, d.state.as_str());
            push_str(md, "** (process not found) via ");
            push_str(md, d.service_manager.as_str());
            push_str(md, "\n");
        },
    }
    let ghost after_state = md@;
    if d.stats_available && d.pid.is_some() {
        push_str(md, "- cpu/mem: ");
        push_str(md, d.cpu_percent.as_str());
        push_str(md, "% / ");
        let m = format_kb(d.memory_kb);
        push_str(md, m.as_str());
        push_str(md, " | uptime: ");
        let u = format_duration(d.uptime_seconds);
        push_str(md, u.as_str());
        push_str(md, " | open files: ");
        push_decimal(md, d.open_files as u64);
        push_str(md, "\n");
    } else if d.pid.is_some() {
        push_str(md, "- cpu/mem: unavailable (daemon runs as root — rerun with sudo)\n");
    }
    assert(md@ =~= old(md)@ + daemon_md(*d));
}

fn push_trace(md: &mut String, c: &ConfigInfo)
    ensures
        final(md)@ == old(md)@ + trace_md(*c),
{
    match c.trace_level {
        Some(l) => {
            push_str(md, "trace level ");
            push_decimal_i64(md, l);
            push_str(md, " (");
            push_or(md, &c.trace_level_name, "?");
            push_str(md, ")");
        },
        None => match &c.read_error {
            Some(e) => {
                push_str(md, "unreadable: ");
                push_str(md, e.as_str());
            },
            None => {
                push_str(md, "trace level not set locally (master config / default 3=info)");
            },
        },
    }
    assert(md@ =~= old(md)@ + trace_md(*c));
}

fn push_install(md: &mut String, snap: &DiagSnapshot)
    ensures
        final(md)@ == old(md)@ + install_md(*snap),
{
    push_str(md, "\n## Install\n\n");
    push_str(md, "- binary: ");
    let b = file_line(&snap.binary);
    push_str(md, b.as_str());
    push_str(md, "\n");
    push_str(md, "- base dir: ");
    let bd = file_line(&snap.base_dir);
    push_str(md, bd.as_str());
    push_str(md, "\n");
    push_str(md, "- config: ");
    let c = file_line(&snap.config.file);
    push_str(md, c.as_str());
    push_str(md, " — ");
    push_trace(md, &snap.config);
    push_str(md, "\n");
    push_str(md, "- database: ");
    let db = file_line(&snap.database);
    push_str(md, db.as_str());
    push_str(md, "\n");
    assert(md@ =~= old(md)@ + install_md(*snap));
}

fn push_uplink(md: &mut String, u: &UplinkInfo)
    ensures
        final(md)@ == old(md)@ + uplink_md(*u),
{
    push_str(md, "\n## Uplink to master\n\n");
    let ghost start = md@;
    if !u.available {
        push_str(md, "- unavailable (");
        push_or(md, &u.error, "daemon sockets not visible — rerun with sudo");
        push_str(md, ")\n");
    } else if u.established.len() == 0 {
        push_str(md, "- **no established connections** (");
        push_decimal(md, u.total_sockets as u64);
        push_str(md, " open sockets)\n");
    } else {
        let mut i: usize = 0;
        while i < u.established.len()
            invariant
                i <= u.established@.len(),
                md@ == start + conns_md(u.established@.take(i as int)),
            decreases u.established.len() - i,
        {
            let c = &u.established[i];
            push_str(md, "- ESTABLISHED ");
            push_str(md, c.local.as_str());
            push_str(md, " -> ");
            push_str(md, c.remote.as_str());
            push_str(md, "\n");
            i += 1;
            assert(u.established@.take(i as int).drop_last() =~= u.established@.take(i - 1));
            assert(md@ =~= start + conns_md(u.established@.take(i as int)));
        }
        assert(u.established@.take(i as int) =~= u.established@);
    }
    assert(md@ =~= old(md)@ + uplink_md(*u));
}

fn push_logs(md: &mut String, logs: &Vec<LogInfo>)
    ensures
        final(md)@ == old(md)@ + logs_md(logs@),
{
    push_str(md, "\n## Logs (timestamps inside logs are UTC)\n\n");
    push_str(md, "| log | size | last written |\n");
    push_str(md, "|---|---|---|\n");
    let ghost start = md@;
    let mut i: usize = 0;
    while i < logs.len()
        invariant
            i <= logs@.len(),
            md@ == start + log_rows_md(logs@.take(i as int)),
        decreases logs.len() - i,
    {
        let l = &logs[i];
        let ghost before = md@;
        if l.file.exists {
            push_str(md, "| ");
            push_str(md, l.name.as_str());
            push_str(md, " | ");
            let b = format_bytes(l.file.size_bytes);
            push_str(md, b.as_str());
            push_str(md, " | ");
            match l.file.modified_secs_ago {
                Some(secs) => {
                    let d = format_duration(secs);
                    push_str(md, d.as_str());
                    push_str(md, " ago");
                },
                None => push_str(md, "?"),
            }
            push_str(md, " |\n");
        }
        assert(md@ =~= before + log_row_md(*l));
        i += 1;
        assert(logs@.take(i as int).drop_last() =~= logs@.take(i - 1));
    }
    assert(logs@.take(i as int) =~= logs@);
    assert(md@ =~= old(md)@ + logs_md(logs@));
}

fn push_group_rows(md: &mut String, gs: &Vec<ErrorGroup>)
    ensures
        final(md)@ == old(md)@ + group_rows_md(gs@),
{
    let ghost start = md@;
    let mut i: usize = 0;
    while i < gs.len()
        invariant
            i <= gs@.len(),
            md@ == start + group_rows_md(gs@.take(i as int)),
        decreases gs.len() - i,
    {
        let g = &gs[i];
        let ghost before = md@;
        push_str(md, "| ");
        push_str(md, g.log.as_str());
        push_str(md, " | `");
        push_str(md, g.site.as_str());
        push_str(md, "` | ");
        push_decimal(md, g.count as u64);
        push_str(md, " | ");
        push_or(md, &g.first_seen, "-");
        push_str(md, " | ");
        push_or(md, &g.last_seen, "-");
        push_str(md, " |\n");
        assert(md@ =~= before + group_row_md(*g));
        i += 1;
        assert(gs@.take(i as int).drop_last() =~= gs@.take(i - 1));
    }
    assert(gs@.take(i as int) =~= gs@);
}

fn push_samples(md: &mut String, gs: &Vec<ErrorGroup>)
    ensures
        final(md)@ == old(md)@ + samples_md(gs@),
{
    let ghost start = md@;
    let mut j: usize = 0;
    while j < gs.len()
        invariant
            j <= gs@.len(),
            md@ == start + samples_md(gs@.take(j as int)),
        decreases gs.len() - j,
    {
        let ghost before = md@;
        push_str(md, "```\n");
        push_str(md, gs[j].sample.as_str());
        push_str(md, "\n```\n");
        assert(md@ =~= before + "```\n"@ + gs@[j as int].sample@ + "\n```\n"@);
        j += 1;
        assert(gs@.take(j as int).drop_last() =~= gs@.take(j - 1));
    }
    assert(gs@.take(j as int) =~= gs@);
}

fn push_scan_body(md: &mut String, total: usize, gs: &Vec<ErrorGroup>)
    ensures
        final(md)@ == old(md)@ + scan_body_md(total, gs@),
{
    if gs.len() == 0 {
        push_str(md, "No error/crash lines found.\n");
    } else {
        push_decimal(md, total as u64);
        push_str(md, " matching lines across ");
        push_decimal(md, gs.len() as u64);
        push_str(md, " sites. `<file>(<line>)` points into the agent source.\n\n");
        push_str(md, "| log | site | count | first seen | last seen |\n");
        push_str(md, "|---|---|---|---|---|\n");
        push_group_rows(md, gs);
        push_str(md, "\nMost recent line per site:\n\n");
        push_samples(md, gs);
    }
    assert(md@ =~= old(md)@ + scan_body_md(total, gs@));
}

fn push_scan(md: &mut String, e: &ErrorScan)
    ensures
        final(md)@ == old(md)@ + scan_md(*e),
{
    push_str(md, "\n## Error triage");
    match &e.since {
        Some(s) => {
            push_str(md, " (last ");
            push_str(md, s.as_str());
            push_str(md, ")");
        },
        None => {},
    }
    push_str(md, "\n\n");
    let ghost head = md@;
    assert(head =~= old(md)@ + "\n## Error triage"@ + window_md(e.since) + "\n\n"@);
    push_scan_body(md, e.total_matches, &e.groups);
    let ghost body = md@;
    if e.unreadable_logs.len() > 0 {
        push_str(md, "\nUnreadable logs (permissions): ");
        let all = join_strings(&e.unreadable_logs, ", ");
        push_str(md, all.as_str());
        push_str(md, "\n");
    }
    assert(md@ =~= body + unreadable_md(e.unreadable_logs@));
    assert(md@ =~= old(md)@ + scan_md(*e));
}

fn push_crashes(md: &mut String, cs: &Vec<CrashInfo>, root: bool)
    ensures
        final(md)@ == old(md)@ + crashes_md(cs@, root),
{
    push_str(md, "\n## Crash reports\n\n");
    let ghost start = md@;
    if cs.len() == 0 {
        push_str(md, "None found");
        if !root {
            push_str(md, " (daemon reports may need sudo)");
        }
        push_str(md, ".\n");
    } else {
        let n = if cs.len() > 10 {
            10
        } else {
            cs.len()
        };
        let ghost shown = if cs@.len() > 10 {
            cs@.take(10)
        } else {
            cs@
        };
        assert(shown =~= cs@.take(n as int));
        let mut i: usize = 0;
        while i < n
            invariant
                n <= cs@.len(),
                i <= n,
                md@ == start + crash_lines_md(cs@.take(i as int)),
            decreases n - i,
        {
            push_str(md, "- ");
            push_str(md, cs[i].modified.as_str());
            push_str(md, " — ");
            push_str(md, cs[i].path.as_str());
            push_str(md, "\n");
            i += 1;
            assert(cs@.take(i as int).drop_last() =~= cs@.take(i - 1));
            assert(md@ =~= start + crash_lines_md(cs@.take(i as int)));
        }
        if cs.len() > 10 {
            push_str(md, "- … and ");
            push_decimal(md, (cs.len() - 10) as u64);
            push_str(md, " more\n");
        }
    }
    assert(md@ =~= old(md)@ + crashes_md(cs@, root));
}

/// Render the snapshot as ticket-pasteable markdown.
pub fn to_markdown(snap: &DiagSnapshot) -> (r: String)
    requires
        renderable(*snap),
    ensures
        r@ == markdown(*snap),
{
    let mut md = String::new();
    push_header(&mut md, snap);
    push_daemon(&mut md, &snap.daemon);
    push_install(&mut md, snap);
    push_uplink(&mut md, &snap.uplink);
    push_logs(&mut md, &snap.logs);
    let ghost before_errors = md@;
    match &snap.errors {
        Some(e) => push_scan(&mut md, e),
        None => {},
    }
    assert(md@ =~= before_errors + match snap.errors {
        Some(e) => scan_md(e),
        None => Seq::<char>::empty(),
    });
    push_crashes(&mut md, &snap.crashes, snap.running_as_root);
    assert(md@ =~= markdown(*snap));
    md
}

// ---------------------------------------------------------------------------
// gathering: the decisions between the probes

/// Whether the daemon's stats can be trusted: a running daemon showing no
/// memory to a non-root user means the kernel refused them.
pub fn stats_available(running: bool, memory_kb: u64, as_root: bool) -> (r: bool)
    ensures
        r == !(running && memory_kb == 0 && !as_root),
{
    !(running && memory_kb == 0 && !as_root)
}

/// The established connections of a socket list, as (local, remote).
pub open spec fn uplink_conns(cs: Seq<ConnView>) -> Seq<(Seq<char>, Seq<char>)>
    decreases cs.len(),
{
    if cs.len() == 0 {
        Seq::empty()
    } else {
        let rest = uplink_conns(cs.drop_last());
        if established_spec(cs.last()) {
            rest.push(
                (
                    cs.last().local,
                    match cs.last().remote {
                        Some(r) => r,
                        None => Seq::empty(),
                    },
                ),
            )
        } else {
            rest
        }
    }
}

/// The uplink part of the report from the daemon's sockets: `None` when no
/// daemon runs, else what the socket query returned. Sockets of another
/// user's process are invisible unless running as root.
pub fn uplink_info(sockets: Option<Result<Vec<Connection>, String>>, as_root: bool) -> (r: UplinkInfo)
    ensures
        match sockets {
            None => !r.available && r.established@.len() == 0 && r.total_sockets == 0
                && (r.error matches Some(e) && e@ == "daemon not running"@),
            Some(Err(m)) => !r.available && r.established@.len() == 0 && r.total_sockets == 0
                && (r.error matches Some(e) && e@ == m@),
            Some(Ok(cs)) => r.available == (cs@.len() > 0 || as_root) && r.established@.map_values(
                |u: UplinkConn| (u.local@, u.remote@),
            ) == uplink_conns(cs@.map_values(|c: Connection| c@)) && r.total_sockets == cs@.len()
                && r.error is None,
        },
{
    match sockets {
        None => UplinkInfo {
            available: false,
            established: Vec::new(),
            total_sockets: 0,
            error: Some(String::from_str("daemon not running")),
        },
        Some(Err(e)) => UplinkInfo {
            available: false,
            established: Vec::new(),
            total_sockets: 0,
            error: Some(e),
        },
        Some(Ok(cs)) => {
            let ghost cv = cs@.map_values(|c: Connection| c@);
            let mut est: Vec<UplinkConn> = Vec::new();
            let mut i: usize = 0;
            while i < cs.len()
                invariant
                    i <= cs@.len(),
                    cv == cs@.map_values(|c: Connection| c@),
                    est@.map_values(|u: UplinkConn| (u.local@, u.remote@)) == uplink_conns(
                        cv.take(i as int),
                    ),
                decreases cs.len() - i,
            {
                let c = &cs[i];
                assert(cv.take(i + 1).drop_last() =~= cv.take(i as int));
                assert(cv.take(i + 1).last() == c@);
                if c.is_established() {
                    let remote = match &c.remote {
                        Some(r) => r.clone(),
                        None => String::new(),
                    };
                    est.push(UplinkConn { local: c.local.clone(), remote });
                }
                i += 1;
                assert(est@.map_values(|u: UplinkConn| (u.local@, u.remote@)) =~= uplink_conns(
                    cv.take(i as int),
                ));
            }
            assert(cv.take(i as int) =~= cv);
            let total = cs.len();
            UplinkInfo { available: total > 0 || as_root, established: est, total_sockets: total, error: None }
        },
    }
}

/// The config part of the report: the trace level read from the config's
/// content, or why it could not be read.
pub fn config_info(file: FileInfo, content: Result<&str, String>) -> (r: ConfigInfo)
    ensures
        r.file == file,
        match content {
            Ok(c) => {
                &&& r.read_error is None
                &&& match read_log_level_spec(c@) {
                    Some(l) => r.trace_level == Some(l as i64) && (r.trace_level_name matches Some(
                        n,
                    ) && n@ == level_name_spec((l as i64) as int)),
                    None => r.trace_level is None && r.trace_level_name is None,
                }
            },
            Err(e) => r.trace_level is None && r.trace_level_name is None && (r.read_error matches Some(
                m,
            ) && m@ == e@),
        },
{
    match content {
        Ok(c) => {
            let level = read_log_level(c);
            let name = match level {
                Some(l) => Some(String::from_str(level_name(l))),
                None => None,
            };
            ConfigInfo { file, trace_level: level, trace_level_name: name, read_error: None }
        },
        Err(e) => ConfigInfo { file, trace_level: None, trace_level_name: None, read_error: Some(e) },
    }
}

/// The trace level as `lsman status` shows it: `<level> (<name>)`, or that
/// the config sets none.
pub open spec fn trace_level_text(cfg: Seq<char>) -> Seq<char> {
    match read_log_level_spec(cfg) {
        Some(l) => decimal_int(l) + " ("@ + level_name_spec(l) + ")"@,
        None => "not set (default 3/info)"@,
    }
}

/// The trace level part of the `lsman status` config line.
pub fn trace_level_status(cfg: &str) -> (r: String)
    ensures
        r@ == trace_level_text(cfg@),
{
    proof {
        lemma_read_log_level_fits(cfg@);
    }
    match read_log_level(cfg) {
        Some(l) => {
            let mut s = String::new();
            push_decimal_i64(&mut s, l);
            push_str(&mut s, " (");
            push_str(&mut s, level_name(l));
            push_str(&mut s, ")");
            s
        },
        None => String::from_str("not set (default 3/info)"),
    }
}

/// The number of established sockets.
pub open spec fn established_count(cs: Seq<ConnView>) -> nat
    decreases cs.len(),
{
    if cs.len() == 0 {
        0
    } else {
        established_count(cs.drop_last()) + if established_spec(cs.last()) {
            1nat
        } else {
            0nat
        }
    }
}

/// The remote ends of the established sockets that have one, in order.
pub open spec fn established_remotes(cs: Seq<ConnView>) -> Seq<Seq<char>>
    decreases cs.len(),
{
    if cs.len() == 0 {
        Seq::empty()
    } else {
        let rest = established_remotes(cs.drop_last());
        if established_spec(cs.last()) && cs.last().remote is Some {
            rest.push(cs.last().remote->0)
        } else {
            rest
        }
    }
}

/// The uplink line of `lsman status` for the daemon's sockets: another
/// user's process shows none unless running as root.
pub open spec fn uplink_status_text(cs: Seq<ConnView>, as_root: bool) -> Seq<char> {
    if cs.len() == 0 && !as_root {
        "unavailable (daemon runs as root — use sudo)"@
    } else if established_count(cs) == 0 {
        "no established connections"@
    } else {
        decimal(established_count(cs)) + " established ("@ + joined(established_remotes(cs), ", "@)
            + ")"@
    }
}

/// The uplink part of `lsman status`, from what the socket query returned.
pub fn uplink_status(sockets: &Result<Vec<Connection>, String>, as_root: bool) -> (r: String)
    ensures
        match sockets {
            Ok(cs) => r@ == uplink_status_text(cs@.map_values(|c: Connection| c@), as_root),
            Err(e) => r@ == "unavailable ("@ + e@ + ")"@,
        },
{
    match sockets {
        Err(e) => {
            let mut s = String::from_str("unavailable (");
            push_str(&mut s, e.as_str());
            push_str(&mut s, ")");
            s
        },
        Ok(cs) => {
            let ghost cv = cs@.map_values(|c: Connection| c@);
            let mut count: usize = 0;
            let mut remotes: Vec<String> = Vec::new();
            let mut i: usize = 0;
            while i < cs.len()
                invariant
                    i <= cs@.len(),
                    cv == cs@.map_values(|c: Connection| c@),
                    count == established_count(cv.take(i as int)),
                    count <= i,
                    views(remotes@) == established_remotes(cv.take(i as int)),
                decreases cs.len() - i,
            {
                let c = &cs[i];
                assert(cv.take(i + 1).drop_last() =~= cv.take(i as int));
                assert(cv.take(i + 1).last() == c@);
                if c.is_established() {
                    count = count + 1;
                    if let Some(r) = &c.remote {
                        remotes.push(r.clone());
                    }
                }
                i += 1;
                assert(views(remotes@) =~= established_remotes(cv.take(i as int)));
            }
            assert(cv.take(i as int) =~= cv);
            if cs.len() == 0 && !as_root {
                String::from_str("unavailable (daemon runs as root — use sudo)")
            } else if count == 0 {
                String::from_str("no established connections")
            } else {
                let mut s = String::new();
                push_decimal(&mut s, count as u64);
                push_str(&mut s, " established (");
                let j = join_strings(&remotes, ", ");
                push_str(&mut s, j.as_str());
                push_str(&mut s, ")");
                s
            }
        },
    }
}

/// A service manager's name in lowercase, as `lsman status` shows it.
pub open spec fn manager_word(m: ServiceManager) -> Seq<char> {
    match m {
        ServiceManager::Systemctl => "systemctl"@,
        ServiceManager::Launchctl => "launchctl"@,
        ServiceManager::Direct => "direct"@,
    }
}

/// The daemon line of `lsman status`: its state, its pid or the process
/// name that was not found, and the service manager.
pub open spec fn daemon_line_text(state: DaemonState, pid: Option<u32>, process_name: Seq<char>, m: ServiceManager) -> Seq<char> {
    state_label(state) + match pid {
        Some(p) => " (pid "@ + decimal(p as nat) + ")"@,
        None => " (process '"@ + process_name + "' not found)"@,
    } + " via "@ + manager_word(m)
}

/// Executable `daemon_line_text`.
pub fn daemon_status_line(state: DaemonState, pid: Option<u32>, process_name: &str, m: ServiceManager) -> (r: String)
    ensures
        r@ == daemon_line_text(state, pid, process_name@, m),
{
    let mut s = String::new();
    push_str(&mut s, state.label());
    match pid {
        Some(p) => {
            push_str(&mut s, " (pid ");
            push_decimal(&mut s, p as u64);
            push_str(&mut s, ")");
        },
        None => {
            push_str(&mut s, " (process '");
            push_str(&mut s, process_name);
            push_str(&mut s, "' not found)");
        },
    }
    push_str(&mut s, " via ");
    push_str(
        &mut s,
        match m {
            ServiceManager::Systemctl => "systemctl",
            ServiceManager::Launchctl => "launchctl",
            ServiceManager::Direct => "direct",
        },
    );
    s
}

/// The uptime of `lsman status`: unknown when the start time is.
pub fn uptime_text(start_time: u64, uptime_seconds: u64) -> (r: String)
    ensures
        r@ == (if start_time > 0 {
            format_duration_spec(uptime_seconds as nat)
        } else {
            "unknown"@
        }),
{
    if start_time > 0 {
        format_duration(uptime_seconds)
    } else {
        String::from_str("unknown")
    }
}

/// The report has an error-triage section exactly when the snapshot holds
/// a scan (what the section says is `scan_md`), and it ends with the crash
/// section (`crashes_md`): the ten newest reports, how many more there are,
/// or that none was found.
pub proof fn lemma_report_sections(s: DiagSnapshot)
    ensures
        s.errors is Some ==> crate::text::contains(markdown(s), "## Error triage"@),
        s.errors is None ==> markdown(s) == header_md(s) + daemon_md(s.daemon) + install_md(s)
            + uplink_md(s.uplink) + logs_md(s.logs@) + crashes_md(s.crashes@, s.running_as_root),
        markdown(s).len() >= crashes_md(s.crashes@, s.running_as_root).len(),
        markdown(s).skip(
            markdown(s).len() - crashes_md(s.crashes@, s.running_as_root).len(),
        ) == crashes_md(s.crashes@, s.running_as_root),
{
    reveal_strlit("\n## Error triage");
    reveal_strlit("## Error triage");
    let pre = header_md(s) + daemon_md(s.daemon) + install_md(s) + uplink_md(s.uplink) + logs_md(
        s.logs@,
    );
    let mid = match s.errors {
        Some(e) => scan_md(e),
        None => Seq::<char>::empty(),
    };
    let cr = crashes_md(s.crashes@, s.running_as_root);
    let m = markdown(s);
    assert(m == pre + mid + cr);
    assert(m.skip(m.len() - cr.len()) =~= cr);
    if let Some(e) = s.errors {
        let h: Seq<char> = "## Error triage"@;
        let i: int = pre.len() as int + 1;
        assert(mid[0] == '\n');
        assert forall|j: int| 0 <= j < h.len() implies m[i + j] == h[j] by {
            assert(m[i + j] == mid[1 + j]);
            assert(mid[1 + j] == ("\n## Error triage"@)[1 + j]);
        }
        assert(m.subrange(i, i + h.len() as int) =~= h);
        assert(crate::text::matches_at(m, i, h));
    } else {
        assert(mid =~= Seq::<char>::empty());
        assert(pre + mid =~= pre);
    }
}

/// The site table has exactly one row per group, in the groups' order: it
/// is empty for no groups, and for every group `k` it is the rows of the
/// groups before it, then `k`'s own row, then the rows of those after it.
pub proof fn lemma_group_rows(gs: Seq<ErrorGroup>, k: int)
    requires
        0 <= k < gs.len(),
    ensures
        group_rows_md(Seq::<ErrorGroup>::empty()) == Seq::<char>::empty(),
        group_rows_md(gs) == group_rows_md(gs.take(k)) + group_row_md(gs[k]) + group_rows_md(
            gs.skip(k + 1),
        ),
    decreases gs.len(),
{
    let n = gs.len() as int;
    if k == n - 1 {
        assert(gs.take(k) =~= gs.drop_last());
        assert(gs.skip(k + 1) =~= Seq::<ErrorGroup>::empty());
        assert(group_rows_md(gs.skip(k + 1)) == Seq::<char>::empty());
        assert(group_rows_md(gs) =~= group_rows_md(gs.take(k)) + group_row_md(gs[k])
            + Seq::<char>::empty());
    } else {
        let d = gs.drop_last();
        lemma_group_rows(d, k);
        assert(d.take(k) =~= gs.take(k));
        assert(d[k] == gs[k]);
        let tail = gs.skip(k + 1);
        assert(tail.len() > 0);
        assert(tail.drop_last() =~= d.skip(k + 1));
        assert(tail.last() == gs.last());
        assert(group_rows_md(tail) == group_rows_md(tail.drop_last()) + group_row_md(tail.last()));
        assert(group_rows_md(gs) =~= group_rows_md(gs.take(k)) + group_row_md(gs[k])
            + group_rows_md(tail));
    }
}

/// A text split around `x` contains `x`.
proof fn lemma_contains_middle(a: Seq<char>, x: Seq<char>, b: Seq<char>)
    ensures
        crate::text::contains(a + x + b, x),
{
    let m = a + x + b;
    let i = a.len() as int;
    assert(m.subrange(i, i + x.len() as int) =~= x);
    assert(crate::text::matches_at(m, i, x));
}

proof fn lemma_body_row(total: usize, gs: Seq<ErrorGroup>, k: int) -> (r: (Seq<char>, Seq<char>))
    requires
        0 <= k < gs.len(),
    ensures
        scan_body_md(total, gs) == r.0 + group_row_md(gs[k]) + r.1,
{
    lemma_group_rows(gs, k);
    let top = decimal(total as nat) + " matching lines across "@ + decimal(gs.len())
        + " sites. `<file>(<line>)` points into the agent source.\n\n"@
        + "| log | site | count | first seen | last seen |\n"@ + "|---|---|---|---|---|\n"@;
    let rest = "\nMost recent line per site:\n\n"@ + samples_md(gs);
    let r1 = group_rows_md(gs.take(k));
    let r2 = group_rows_md(gs.skip(k + 1));
    let row = group_row_md(gs[k]);
    assert(scan_body_md(total, gs) == top + group_rows_md(gs) + rest);
    assert(scan_body_md(total, gs) =~= (top + r1) + row + (r2 + rest));
    (top + r1, r2 + rest)
}

proof fn lemma_scan_row(e: ErrorScan, k: int) -> (r: (Seq<char>, Seq<char>))
    requires
        0 <= k < e.groups@.len(),
    ensures
        scan_md(e) == r.0 + group_row_md(e.groups@[k]) + r.1,
{
    let (x, y) = lemma_body_row(e.total_matches, e.groups@, k);
    let head = "\n## Error triage"@ + window_md(e.since) + "\n\n"@;
    let u = unreadable_md(e.unreadable_logs@);
    let row = group_row_md(e.groups@[k]);
    assert(scan_md(e) == head + scan_body_md(e.total_matches, e.groups@) + u);
    assert(scan_md(e) =~= (head + x) + row + (y + u));
    (head + x, y + u)
}

/// Every error group's row appears in the report.
pub proof fn lemma_report_group_rows(s: DiagSnapshot, k: int)
    requires
        s.errors is Some,
        0 <= k < s.errors->0.groups@.len(),
    ensures
        crate::text::contains(markdown(s), group_row_md(s.errors->0.groups@[k])),
{
    let e = s.errors->0;
    let (x, y) = lemma_scan_row(e, k);
    let pre = header_md(s) + daemon_md(s.daemon) + install_md(s) + uplink_md(s.uplink) + logs_md(
        s.logs@,
    );
    let cr = crashes_md(s.crashes@, s.running_as_root);
    let row = group_row_md(e.groups@[k]);
    assert(markdown(s) == pre + scan_md(e) + cr);
    assert(markdown(s) =~= (pre + x) + row + (y + cr));
    lemma_contains_middle(pre + x, row, y + cr);
}

} // verus!
