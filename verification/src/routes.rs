//! Which handler of the web dashboard a request reaches. Mutating
//! endpoints (config writes, trace changes, daemon control) are only
//! reached by a POST that carries the `X-Lsman-Control` header: a
//! cross-origin page cannot add it without a CORS preflight.

use vstd::prelude::*;
use crate::text::{chars_of, find_char, index_of, seq_eq, string_of, string_of_range, trim,
    trim_chars};
use crate::web::{query_param, query_param_spec};

verus! {

/// The request methods the dashboard tells apart.
#[derive(Debug, Clone, Copy, PartialEq, Eq, Structural)]
pub enum HttpMethod {
    Get,
    Post,
    Other,
}

/// A daemon control request.
#[derive(Debug, Clone, Copy, PartialEq, Eq, Structural)]
pub enum DaemonRequest {
    Start,
    Stop,
    Restart,
}

/// Where a request goes.
#[derive(Debug, Clone, Copy, PartialEq, Eq, Structural)]
pub enum Route {
    Dashboard,
    Snapshot,
    Errors,
    Log,
    Download,
    Crash,
    Collect,
    ConfigGet,
    ConfigPost,
    TracePost,
    DbTables,
    DbTable,
    DbStrings,
    Daemon(DaemonRequest),
    /// Refused: 403 without the control header, 405 for a wrong method,
    /// 404 for an unknown path.
    Refused(u16),
}

/// The path of a URL: everything before the first `?`.
pub open spec fn url_path(url: Seq<char>) -> Seq<char> {
    let i = index_of(url, '?');
    if i >= 0 {
        url.take(i)
    } else {
        url
    }
}

/// The query of a URL: everything after the first `?`, or nothing.
pub open spec fn url_query(url: Seq<char>) -> Seq<char> {
    let i = index_of(url, '?');
    if i >= 0 {
        url.skip(i + 1)
    } else {
        Seq::empty()
    }
}

/// A mutating endpoint: POST with the control header, else refused.
pub open spec fn guarded(method: HttpMethod, control: bool, ok: Route) -> Route {
    if method != HttpMethod::Post {
        Route::Refused(405)
    } else if !control {
        Route::Refused(403)
    } else {
        ok
    }
}

/// The route of a path.
pub open spec fn route_spec(path: Seq<char>, method: HttpMethod, control: bool) -> Route {
    if path == "/"@ || path == "/index.html"@ {
        Route::Dashboard
    } else if path == "/api/snapshot"@ {
        Route::Snapshot
    } else if path == "/api/errors"@ {
        Route::Errors
    } else if path == "/api/log"@ {
        Route::Log
    } else if path == "/api/download"@ {
        Route::Download
    } else if path == "/api/crash"@ {
        Route::Crash
    } else if path == "/api/collect"@ {
        Route::Collect
    } else if path == "/api/config"@ {
        match method {
            HttpMethod::Get => Route::ConfigGet,
            HttpMethod::Post => if control {
                Route::ConfigPost
            } else {
                Route::Refused(403)
            },
            HttpMethod::Other => Route::Refused(405),
        }
    } else if path == "/api/config/trace"@ {
        guarded(method, control, Route::TracePost)
    } else if path == "/api/db/tables"@ {
        Route::DbTables
    } else if path == "/api/db/table"@ {
        Route::DbTable
    } else if path == "/api/db/strings"@ {
        Route::DbStrings
    } else if path == "/api/daemon/start"@ {
        guarded(method, control, Route::Daemon(DaemonRequest::Start))
    } else if path == "/api/daemon/stop"@ {
        guarded(method, control, Route::Daemon(DaemonRequest::Stop))
    } else if path == "/api/daemon/restart"@ {
        guarded(method, control, Route::Daemon(DaemonRequest::Restart))
    } else {
        Route::Refused(404)
    }
}

/// Whether a route changes the agent's config or the daemon.
pub open spec fn is_mutating(r: Route) -> bool {
    r == Route::ConfigPost || r == Route::TracePost || r is Daemon
}

/// Split a request URL into path and query at the first `?`.
pub fn split_url(url: &str) -> (r: (String, String))
    ensures
        r.0@ == url_path(url@),
        r.1@ == url_query(url@),
{
    let v = chars_of(url);
    let n = v.len();
    assert(v@.subrange(0, n as int) =~= v@);
    match find_char(&v, 0, n, '?') {
        Some(i) => {
            let p = string_of_range(&v, 0, i);
            let q = string_of_range(&v, i + 1, n);
            assert(p@ =~= url@.take(i as int));
            assert(q@ =~= url@.skip(i + 1));
            (p, q)
        },
        None => (string_of(&v), String::new()),
    }
}

fn is_path(p: &Vec<char>, lit: &str) -> (r: bool)
    ensures
        r == (p@ == lit@),
{
    seq_eq(p, &chars_of(lit))
}

/// Route a request by its path, method, and whether it carries the
/// control header.
pub fn route(path: &str, method: HttpMethod, control: bool) -> (r: Route)
    ensures
        r == route_spec(path@, method, control),
        is_mutating(r) ==> method == HttpMethod::Post && control,
{
    let p = chars_of(path);
    let guard = |ok: Route| -> (g: Route)
        ensures
            g == guarded(method, control, ok),
        {
            if method != HttpMethod::Post {
                Route::Refused(405)
            } else if !control {
                Route::Refused(403)
            } else {
                ok
            }
        };
    if is_path(&p, "/") || is_path(&p, "/index.html") {
        Route::Dashboard
    } else if is_path(&p, "/api/snapshot") {
        Route::Snapshot
    } else if is_path(&p, "/api/errors") {
        Route::Errors
    } else if is_path(&p, "/api/log") {
        Route::Log
    } else if is_path(&p, "/api/download") {
        Route::Download
    } else if is_path(&p, "/api/crash") {
        Route::Crash
    } else if is_path(&p, "/api/collect") {
        Route::Collect
    } else if is_path(&p, "/api/config") {
        match method {
            HttpMethod::Get => Route::ConfigGet,
            HttpMethod::Post => if control {
                Route::ConfigPost
            } else {
                Route::Refused(403)
            },
            HttpMethod::Other => Route::Refused(405),
        }
    } else if is_path(&p, "/api/config/trace") {
        guard(Route::TracePost)
    } else if is_path(&p, "/api/db/tables") {
        Route::DbTables
    } else if is_path(&p, "/api/db/table") {
        Route::DbTable
    } else if is_path(&p, "/api/db/strings") {
        Route::DbStrings
    } else if is_path(&p, "/api/daemon/start") {
        guard(Route::Daemon(DaemonRequest::Start))
    } else if is_path(&p, "/api/daemon/stop") {
        guard(Route::Daemon(DaemonRequest::Stop))
    } else if is_path(&p, "/api/daemon/restart") {
        guard(Route::Daemon(DaemonRequest::Restart))
    } else {
        Route::Refused(404)
    }
}

/// The message a refused route is answered with.
pub open spec fn refusal_message(path: Seq<char>, code: u16) -> Seq<char> {
    if code == 403 {
        "missing X-Lsman-Control header"@
    } else if code == 405 {
        if path == "/api/config"@ {
            "GET or POST required"@
        } else {
            "POST required"@
        }
    } else {
        "not found"@
    }
}

/// Executable `refusal_message`.
pub fn refusal(path: &str, code: u16) -> (r: &'static str)
    ensures
        r@ == refusal_message(path@, code),
{
    if code == 403 {
        "missing X-Lsman-Control header"
    } else if code == 405 {
        if is_path(&chars_of(path), "/api/config") {
            "GET or POST required"
        } else {
            "POST required"
        }
    } else {
        "not found"
    }
}

/// `?q=` of a string search, trimmed; refused when shorter than two bytes.
pub open spec fn strings_query_spec(query: Seq<char>) -> Result<Seq<char>, ()> {
    let q = match query_param_spec(query, "q"@) {
        Some(v) => v,
        None => Seq::empty(),
    };
    if vstd::utf8::encode_utf8(trim(q)).len() < 2 {
        Err(())
    } else {
        Ok(trim(q))
    }
}

/// A text encodes to fewer than two UTF-8 bytes exactly when it is empty
/// or one ASCII character.
proof fn lemma_short_utf8(t: Seq<char>)
    ensures
        (vstd::utf8::encode_utf8(t).len() < 2) == (t.len() == 0 || (t.len() == 1 && (t[0] as u32)
            < 0x80)),
{
    reveal_with_fuel(vstd::utf8::encode_utf8, 3);
    if t.len() >= 2 {
        assert(t.drop_first().len() >= 1);
    }
}

/// The substring a string search asks for.
pub fn strings_query(query: &str) -> (r: Result<String, String>)
    ensures
        match strings_query_spec(query@) {
            Ok(q) => r matches Ok(s) && s@ == q,
            Err(_) => r matches Err(m) && m@ == "need ?q= of at least 2 characters"@,
        },
{
    let q = match query_param(query, "q") {
        Some(v) => v,
        None => String::new(),
    };
    let tc = trim_chars(&chars_of(q.as_str()));
    proof {
        lemma_short_utf8(tc@);
    }
    let short = tc.len() == 0 || (tc.len() == 1 && (tc[0] as u32) < 0x80);
    let t = string_of(&tc);
    if short {
        Err(String::from_str("need ?q= of at least 2 characters"))
    } else {
        Ok(t)
    }
}


/// The largest config body a save accepts, in bytes.
pub const CONFIG_WRITE_CAP: usize = 1048576;

/// The message a config edit under a running agent is refused with.
pub open spec fn running_refusal() -> Seq<char> {
    "agent is running — stop it before editing the config (it only reads lsiagent.cfg at startup)"@
}

/// Why a config save is refused, checked in this order: a body over
/// `CONFIG_WRITE_CAP` (413), a body that is not UTF-8 text (400), a running
/// agent (409); `None` when the save may go ahead.
pub open spec fn config_refusal_spec(len: nat, utf8: bool, running: bool) -> Option<(u16, Seq<char>)> {
    if len > CONFIG_WRITE_CAP {
        Some((413, "config body too large"@))
    } else if !utf8 {
        Some((400, "config must be valid UTF-8 text"@))
    } else if running {
        Some((409, running_refusal()))
    } else {
        None
    }
}

/// Executable `config_refusal_spec`.
pub fn config_refusal(len: usize, utf8: bool, running: bool) -> (r: Option<(u16, &'static str)>)
    ensures
        match config_refusal_spec(len as nat, utf8, running) {
            Some((code, msg)) => r matches Some((c, m)) && c == code && m@ == msg,
            None => r is None,
        },
{
    if len > CONFIG_WRITE_CAP {
        Some((413, "config body too large"))
    } else if !utf8 {
        Some((400, "config must be valid UTF-8 text"))
    } else if running {
        Some((409, "agent is running — stop it before editing the config (it only reads lsiagent.cfg at startup)"))
    } else {
        None
    }
}

/// The level a trace-level save writes, or why it is refused: a missing or
/// out-of-range level (400), then a running agent (409).
pub fn trace_refusal(level: Option<i64>, running: bool) -> (r: Result<i64, (u16, &'static str)>)
    ensures
        match level {
            None => r matches Err((c, m)) && c == 400 && m@ == "need ?level=0..8"@,
            Some(l) => if running {
                r matches Err((c, m)) && c == 409 && m@ == running_refusal()
            } else {
                r == Ok::<i64, (u16, &'static str)>(l)
            },
        },
{
    match level {
        None => Err((400, "need ?level=0..8")),
        Some(l) => if running {
            Err((409, "agent is running — stop it before editing the config (it only reads lsiagent.cfg at startup)"))
        } else {
            Ok(l)
        },
    }
}

} // verus!
