//! The support bundle of `lsman collect`: its name, how logs are capped,
//! and the text files it holds besides the copies (manifest, sockets).

use vstd::prelude::*;
use crate::network::Connection;
use crate::num::{decimal, push_decimal};
use crate::report::or_text;
use crate::text::{push_str, views};

verus! {

/// What `lsman collect` writes, and where.
#[derive(Debug)]
pub struct CollectOptions {
    /// Directory the bundle is written into.
    pub output_dir: String,
    /// Cap per copied log file, in MB (the tail is kept).
    pub max_log_mb: u64,
    /// Error-triage window for the report, e.g. "24h"; None = whole logs.
    pub since: Option<String>,
}

/// The per-log cap in bytes: `max_log_mb` MiB, saturating at `u64::MAX`.
pub open spec fn log_cap_spec(max_log_mb: nat) -> nat {
    if max_log_mb * 1048576 > u64::MAX {
        u64::MAX as nat
    } else {
        max_log_mb * 1048576
    }
}

/// Executable `log_cap_spec`.
pub fn log_cap(max_log_mb: u64) -> (r: u64)
    ensures
        r == log_cap_spec(max_log_mb as nat),
{
    if max_log_mb > u64::MAX / 1048576 {
        u64::MAX
    } else {
        max_log_mb * 1048576
    }
}

/// How to copy a file of `len` bytes under `cap`: whether it is cut, and
/// the offset the copy starts at (only the last `cap` bytes are kept).
pub open spec fn cap_plan_spec(len: nat, cap: nat) -> (bool, nat) {
    if len > cap {
        (true, (len - cap) as nat)
    } else {
        (false, 0)
    }
}

/// Executable `cap_plan_spec`.
pub fn cap_plan(len: u64, cap: u64) -> (r: (bool, u64))
    ensures
        (r.0, r.1 as nat) == cap_plan_spec(len as nat, cap as nat),
{
    if len > cap {
        (true, len - cap)
    } else {
        (false, 0)
    }
}

/// The first line of a cut copy.
pub open spec fn truncation_banner_spec(cap: nat, len: nat) -> Seq<char> {
    "=== lsman collect: file truncated, last "@ + decimal(cap) + " of "@ + decimal(len)
        + " bytes ===\n"@
}

/// Executable `truncation_banner_spec`.
pub fn truncation_banner(cap: u64, len: u64) -> (r: String)
    ensures
        r@ == truncation_banner_spec(cap as nat, len as nat),
{
    let mut s = String::from_str("=== lsman collect: file truncated, last ");
    push_decimal(&mut s, cap);
    push_str(&mut s, " of ");
    push_decimal(&mut s, len);
    push_str(&mut s, " bytes ===\n");
    assert(s@ =~= truncation_banner_spec(cap as nat, len as nat));
    s
}

/// `lsman-diag-<host>-<stamp>`: the bundle's directory and archive name.
pub fn bundle_name(hostname: &str, stamp: &str) -> (r: String)
    ensures
        r@ == "lsman-diag-"@ + hostname@ + "-"@ + stamp@,
{
    let mut s = String::from_str("lsman-diag-");
    push_str(&mut s, hostname);
    push_str(&mut s, "-");
    push_str(&mut s, stamp);
    s
}

/// The manifest line of a copied log.
pub open spec fn log_entry_spec(
    fname: Seq<char>,
    description: Seq<char>,
    truncated: bool,
    max_log_mb: nat,
) -> Seq<char> {
    "logs/"@ + fname + " — "@ + description + if truncated {
        " (TRUNCATED to last "@ + decimal(max_log_mb) + " MB)"@
    } else {
        Seq::<char>::empty()
    }
}

/// Executable `log_entry_spec`.
pub fn log_entry(fname: &str, description: &str, truncated: bool, max_log_mb: u64) -> (r: String)
    ensures
        r@ == log_entry_spec(fname@, description@, truncated, max_log_mb as nat),
{
    let mut s = String::from_str("logs/");
    push_str(&mut s, fname);
    push_str(&mut s, " — ");
    push_str(&mut s, description);
    if truncated {
        push_str(&mut s, " (TRUNCATED to last ");
        push_decimal(&mut s, max_log_mb);
        push_str(&mut s, " MB)");
    }
    assert(s@ =~= log_entry_spec(fname@, description@, truncated, max_log_mb as nat));
    s
}

/// The manifest line of something that could not be captured.
pub fn not_captured(what: &str, error: &str) -> (r: String)
    ensures
        r@ == what@ + " — NOT captured: "@ + error@,
{
    let mut s = String::from_str(what);
    push_str(&mut s, " — NOT captured: ");
    push_str(&mut s, error);
    s
}

/// Lines, each followed by a newline.
pub open spec fn lines_text(ls: Seq<Seq<char>>) -> Seq<char>
    decreases ls.len(),
{
    if ls.len() == 0 {
        Seq::empty()
    } else {
        lines_text(ls.drop_last()) + ls.last() + "\n"@
    }
}

/// The bundle's `MANIFEST.txt`.
pub open spec fn manifest_spec(
    version: Seq<char>,
    hostname: Seq<char>,
    generated: Seq<char>,
    entries: Seq<Seq<char>>,
) -> Seq<char> {
    "lsman "@ + version + " diagnostic bundle — "@ + hostname + "\ngenerated "@ + generated
        + "\nlog timestamps are UTC\n\n"@ + lines_text(entries)
}

/// Executable `manifest_spec`.
pub fn manifest_text(version: &str, hostname: &str, generated: &str, entries: &Vec<String>) -> (r:
    String)
    ensures
        r@ == manifest_spec(version@, hostname@, generated@, views(entries@)),
{
    let mut s = String::from_str("lsman ");
    push_str(&mut s, version);
    push_str(&mut s, " diagnostic bundle — ");
    push_str(&mut s, hostname);
    push_str(&mut s, "\ngenerated ");
    push_str(&mut s, generated);
    push_str(&mut s, "\nlog timestamps are UTC\n\n");
    let ghost head = s@;
    let mut i: usize = 0;
    while i < entries.len()
        invariant
            i <= entries@.len(),
            s@ == head + lines_text(views(entries@).take(i as int)),
        decreases entries.len() - i,
    {
        push_str(&mut s, entries[i].as_str());
        push_str(&mut s, "\n");
        i += 1;
        assert(views(entries@).take(i as int).drop_last() =~= views(entries@).take(i - 1));
        assert(s@ =~= head + lines_text(views(entries@).take(i as int)));
    }
    assert(views(entries@).take(i as int) =~= views(entries@));
    s
}

/// One socket line of `net.txt`.
pub open spec fn socket_line(c: Connection) -> Seq<char> {
    c.protocol@ + " "@ + c.local@ + " "@ + or_text(c.remote, "-"@) + " "@ + or_text(c.state, "-"@)
        + "\n"@
}

/// Socket lines.
pub open spec fn socket_lines(cs: Seq<Connection>) -> Seq<char>
    decreases cs.len(),
{
    if cs.len() == 0 {
        Seq::empty()
    } else {
        socket_lines(cs.drop_last()) + socket_line(cs.last())
    }
}

fn push_socket_line(s: &mut String, c: &Connection)
    ensures
        final(s)@ == old(s)@ + socket_line(*c),
{
    push_str(s, c.protocol.as_str());
    push_str(s, " ");
    push_str(s, c.local.as_str());
    push_str(s, " ");
    match &c.remote {
        Some(r) => push_str(s, r.as_str()),
        None => push_str(s, "-"),
    }
    push_str(s, " ");
    match &c.state {
        Some(st) => push_str(s, st.as_str()),
        None => push_str(s, "-"),
    }
    push_str(s, "\n");
    assert(s@ =~= old(s)@ + socket_line(*c));
}

/// The bundle's `net.txt`: the daemon's sockets, one per line.
pub fn net_text(conns: &Vec<Connection>) -> (r: String)
    ensures
        r@ == "PROTO LOCAL REMOTE STATE\n"@ + socket_lines(conns@),
{
    let mut s = String::from_str("PROTO LOCAL REMOTE STATE\n");
    let ghost head = s@;
    let mut i: usize = 0;
    while i < conns.len()
        invariant
            i <= conns@.len(),
            s@ == head + socket_lines(conns@.take(i as int)),
        decreases conns.len() - i,
    {
        push_socket_line(&mut s, &conns[i]);
        i += 1;
        assert(conns@.take(i as int).drop_last() =~= conns@.take(i - 1));
        assert(s@ =~= head + socket_lines(conns@.take(i as int)));
    }
    assert(conns@.take(i as int) =~= conns@);
    s
}

} // verus!
